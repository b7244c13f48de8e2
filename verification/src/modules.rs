//! Type inference for a whole module: its data definitions, classes,
//! instances and type declarations, and then all its bindings as one group.
use crate::environment::{
    EnvironmentModel, ImportedInstance, TypeEnvironment, TypeError, TypeErrorModel, DEPTH_LIMIT,
};
use crate::inference::{
    bindings_done, check_bindings, checked_bindings, infer_bindings, Inference, InferenceModel,
};
use crate::module::{
    clone_constraints, clone_declarations, equivalent, types_equivalent, lemma_type_view, seq_view, Binding, BindingModel, Class, ClassModel,
    Constraint, ConstraintModel, Constructor, ConstructorModel, DataDefinition, DataModel,
    DeclarationModel, Instance, InstanceModel, Module, ModuleModel, Ty, Type, TypeDeclaration,
    TypeVariable,
};
use crate::scope::{freshen_in, freshen_spec, TypeScope, TypeScopeModel};
use crate::substitution::{
    carries, replace_in, replace_spec, Classes, Substitution, SubstitutionModel,
};
use crate::tables::{
    classes_model, insert, insert_classes, insert_name, insert_type, lemma_lookup_insert, lookup,
    lookup_classes, lookup_name, lookup_type, names_model, types_model,
};
use crate::typecheck::{replace_var, replace_var_spec};
use vstd::prelude::*;

verus! {

/// What a step of module checking gives: the environment after it and its result.
pub type Step<T> = Result<(EnvironmentModel, T), TypeErrorModel>;

impl EnvironmentModel {
    pub open spec fn with_name(self, name: Seq<char>, t: Ty) -> EnvironmentModel {
        EnvironmentModel { named: insert(self.named, name, t), ..self }
    }
}

/// The constructors from the index `j` on: the substitution is applied to
/// the type of each, under which its name is then known.
pub open spec fn constructors_spec(
    env: EnvironmentModel,
    subs: SubstitutionModel,
    constructors: Seq<ConstructorModel>,
    j: nat,
) -> Step<Seq<ConstructorModel>>
    decreases constructors.len() - j,
{
    if j >= constructors.len() {
        Ok((env, constructors))
    } else {
        let c = constructors[j as int];
        match replace_spec(env.constraints, c.typ, subs, DEPTH_LIMIT as nat) {
            None => Err(TypeErrorModel::TooDeep),
            Some((classes, t)) => constructors_spec(
                env.with_constraints(classes).with_name(c.name, t),
                subs,
                constructors.update(j as int, ConstructorModel { typ: t, ..c }),
                j + 1,
            ),
        }
    }
}

/// The data definitions from the index `i` on: the type variables of each
/// are replaced by fresh ones in the types of its constructors.
pub open spec fn data_spec(env: EnvironmentModel, data: Seq<DataModel>, i: nat) -> Step<
    Seq<DataModel>,
>
    decreases data.len() - i,
{
    if i >= data.len() {
        Ok((env, data))
    } else {
        let d = data[i as int];
        match freshen_spec(env, TypeScopeModel::empty(), Seq::empty(), d.typ) {
            None => Err(TypeErrorModel::TooManyVariables),
            Some((env1, mapping, _)) => match constructors_spec(
                env1,
                SubstitutionModel { subs: mapping, constraints: Seq::empty() },
                d.constructors,
                0,
            ) {
                Err(e) => Err(e),
                Ok((env2, constructors)) => data_spec(
                    env2,
                    data.update(i as int, DataModel { constructors, ..d }),
                    i + 1,
                ),
            },
        }
    }
}

/// The constraints of a context from the index `k` on, each on the fresh
/// variable that `mapping` holds for its variable; a variable that `mapping`
/// does not hold yet gets a fresh one.
pub open spec fn freshen_context(
    env: EnvironmentModel,
    context: Seq<ConstraintModel>,
    mapping: Seq<(int, Ty)>,
    k: nat,
) -> Step<(Seq<(int, Ty)>, Seq<ConstraintModel>)>
    decreases context.len() - k,
{
    if k >= context.len() {
        Ok((env, (mapping, context)))
    } else if context[k as int].variables.len() == 0 {
        freshen_context(env, context, mapping, k + 1)
    } else {
        let c = context[k as int];
        let old = c.variables[0];
        match env.fresh() {
            None => Err(TypeErrorModel::TooManyVariables),
            Some((env1, new)) => {
                let chosen = match lookup(mapping, old) {
                    Some(t) => t,
                    None => new,
                };
                let mapping1 = match lookup(mapping, old) {
                    Some(_) => mapping,
                    None => insert(mapping, old, new),
                };
                freshen_context(
                    env1,
                    context.update(
                        k as int,
                        ConstraintModel { variables: c.variables.update(0, chosen.var_id()), ..c },
                    ),
                    mapping1,
                    k + 1,
                )
            },
        }
    }
}

/// The declaration with fresh variables for the variables of its context
/// and for the generic variables of its type.
pub open spec fn freshen_declaration_spec(
    env: EnvironmentModel,
    decl: DeclarationModel,
    mapping: Seq<(int, Ty)>,
) -> Step<DeclarationModel> {
    match freshen_context(env, decl.context, mapping, 0) {
        Err(e) => Err(e),
        Ok((env1, (mapping1, context))) => match freshen_spec(
            env1,
            TypeScopeModel::empty(),
            mapping1,
            decl.typ,
        ) {
            None => Err(TypeErrorModel::TooManyVariables),
            Some((env2, _, t)) => Ok((env2, DeclarationModel { context, typ: t, ..decl })),
        },
    }
}

/// The declarations of a class from the index `j` on: the variable of the
/// class is replaced by `new`, the constraint of the class itself is added
/// to the context, and the name is known under the type that results.
pub open spec fn class_declarations_spec(
    env: EnvironmentModel,
    class: Seq<char>,
    replaced: int,
    new: Ty,
    declarations: Seq<DeclarationModel>,
    j: nat,
) -> Step<Seq<DeclarationModel>>
    decreases declarations.len() - j,
{
    if j >= declarations.len() {
        Ok((env, declarations))
    } else {
        match freshen_declaration_spec(env, declarations[j as int], seq![(replaced, new)]) {
            Err(e) => Err(e),
            Ok((env1, d1)) => {
                let d2 = DeclarationModel {
                    context: d1.context.push(
                        ConstraintModel { class, variables: seq![new.var_id()] },
                    ),
                    ..d1
                };
                class_declarations_spec(
                    env1.with_name(d2.name, d2.typ),
                    class,
                    replaced,
                    new,
                    declarations.update(j as int, d2),
                    j + 1,
                )
            },
        }
    }
}

/// The classes from the index `i` on: each gets a fresh variable, which
/// must belong to the class.
pub open spec fn classes_spec(env: EnvironmentModel, classes: Seq<ClassModel>, i: nat) -> Step<
    Seq<ClassModel>,
>
    decreases classes.len() - i,
{
    if i >= classes.len() {
        Ok((env, classes))
    } else {
        let cl = classes[i as int];
        match env.fresh() {
            None => Err(TypeErrorModel::TooManyVariables),
            Some((env1, new)) => match class_declarations_spec(
                env1.with_constraints(insert(env1.constraints, new.var_id(), seq![cl.name])),
                cl.name,
                cl.variable,
                new,
                cl.declarations,
                0,
            ) {
                Err(e) => Err(e),
                Ok((env2, declarations)) => classes_spec(
                    env2,
                    classes.update(
                        i as int,
                        ClassModel { variable: new.var_id(), declarations, ..cl },
                    ),
                    i + 1,
                ),
            },
        }
    }
}

/// `suffix` stands at the end of `s`.
pub open spec fn is_suffix(suffix: Seq<char>, s: Seq<char>) -> bool {
    suffix.len() <= s.len() && s.subrange(s.len() - suffix.len(), s.len() as int) == suffix
}

/// The first class from the index `i` on with the name `name`.
pub open spec fn find_class_spec(classes: Seq<ClassModel>, name: Seq<char>, i: int) -> Option<int>
    decreases classes.len() - i,
{
    if i < 0 || i >= classes.len() {
        None
    } else if classes[i].name == name {
        Some(i)
    } else {
        find_class_spec(classes, name, i + 1)
    }
}

/// The first declaration from the index `i` on whose name the name `name` ends with.
pub open spec fn find_method(declarations: Seq<DeclarationModel>, name: Seq<char>, i: int) -> Option<
    int,
>
    decreases declarations.len() - i,
{
    if i < 0 || i >= declarations.len() {
        None
    } else if is_suffix(declarations[i].name, name) {
        Some(i)
    } else {
        find_method(declarations, name, i + 1)
    }
}

/// The first binding from the index `i` on with the name `name`.
pub open spec fn find_binding(bindings: Seq<BindingModel>, name: Seq<char>, i: int) -> Option<int>
    decreases bindings.len() - i,
{
    if i < 0 || i >= bindings.len() {
        None
    } else if bindings[i].name == name {
        Some(i)
    } else {
        find_binding(bindings, name, i + 1)
    }
}

/// The classes that the variables must belong to, after each constraint of
/// the context from the index `k` on has been recorded behind what its
/// variable had already.
pub open spec fn record_context(constraints: Classes, context: Seq<ConstraintModel>, k: nat) -> Classes
    decreases context.len() - k,
{
    if k >= context.len() {
        constraints
    } else if context[k as int].variables.len() == 0 {
        record_context(constraints, context, k + 1)
    } else {
        let var = context[k as int].variables[0];
        record_context(
            insert(
                constraints,
                var,
                match lookup(constraints, var) {
                    Some(had) => had,
                    None => Seq::empty(),
                }.push(context[k as int].class),
            ),
            context,
            k + 1,
        )
    }
}

/// The bindings of an instance from the index `j` on: each gets the
/// declaration of its method with the variable of the class replaced by
/// the type of the instance, and the context of the instance added.
pub open spec fn instance_bindings_spec(
    env: EnvironmentModel,
    class: ClassModel,
    constraints: Seq<ConstraintModel>,
    typ: Ty,
    bindings: Seq<BindingModel>,
    j: nat,
) -> Step<Seq<BindingModel>>
    decreases bindings.len() - j,
{
    if j >= bindings.len() {
        Ok((env, bindings))
    } else {
        let b = bindings[j as int];
        match find_method(class.declarations, b.name, 0) {
            None => Err(TypeErrorModel::UndefinedMethod(b.name, class.name)),
            Some(di) => {
                let decl = class.declarations[di];
                match replace_var_spec(decl.typ, class.variable, typ, DEPTH_LIMIT as nat) {
                    None => Err(TypeErrorModel::TooDeep),
                    Some(t1) => match freshen_declaration_spec(
                        env,
                        DeclarationModel { typ: t1, context: decl.context + constraints, ..decl },
                        Seq::empty(),
                    ) {
                        Err(e) => Err(e),
                        Ok((env1, decl2)) => instance_bindings_spec(
                            env1.with_constraints(
                                record_context(env1.constraints, decl2.context, 0),
                            ),
                            class,
                            constraints,
                            typ,
                            bindings.update(j as int, BindingModel { decl: decl2, ..b }),
                            j + 1,
                        ),
                    },
                }
            },
        }
    }
}

/// The instances from the index `i` on: each gets fresh variables, its
/// bindings get the declared types of their methods, and it is registered.
pub open spec fn instances_spec(
    env: EnvironmentModel,
    classes: Seq<ClassModel>,
    instances: Seq<InstanceModel>,
    i: nat,
) -> Step<Seq<InstanceModel>>
    decreases instances.len() - i,
{
    if i >= instances.len() {
        Ok((env, instances))
    } else {
        let inst = instances[i as int];
        match find_class_spec(classes, inst.classname, 0) {
            None => Err(TypeErrorModel::UndefinedClass(inst.classname)),
            Some(ci) => match freshen_context(env, inst.constraints, Seq::empty(), 0) {
                Err(e) => Err(e),
                Ok((env1, (mapping, constraints))) => match freshen_spec(
                    env1,
                    TypeScopeModel::empty(),
                    mapping,
                    inst.typ,
                ) {
                    None => Err(TypeErrorModel::TooManyVariables),
                    Some((env2, _, typ)) => match instance_bindings_spec(
                        env2,
                        classes[ci],
                        constraints,
                        typ,
                        inst.bindings,
                        0,
                    ) {
                        Err(e) => Err(e),
                        Ok((env3, bindings)) => instances_spec(
                            EnvironmentModel {
                                instances: env3.instances.push((inst.classname, typ)),
                                ..env3
                            },
                            classes,
                            instances.update(
                                i as int,
                                InstanceModel { bindings, constraints, typ, ..inst },
                            ),
                            i + 1,
                        ),
                    },
                },
            },
        }
    }
}

/// The type declarations from the index `i` on: each gets fresh variables
/// and is attached to the first binding of its name; a declaration without
/// a binding is an error.
pub open spec fn declarations_spec(
    env: EnvironmentModel,
    declarations: Seq<DeclarationModel>,
    bindings: Seq<BindingModel>,
    i: nat,
) -> Step<(Seq<DeclarationModel>, Seq<BindingModel>)>
    decreases declarations.len() - i,
{
    if i >= declarations.len() {
        Ok((env, (declarations, bindings)))
    } else {
        match freshen_declaration_spec(env, declarations[i as int], Seq::empty()) {
            Err(e) => Err(e),
            Ok((env1, d1)) => match find_binding(bindings, d1.name, 0) {
                None => Err(TypeErrorModel::OrphanDeclaration(d1.name)),
                Some(bi) => declarations_spec(
                    env1,
                    declarations.update(i as int, d1),
                    bindings.update(bi, BindingModel { decl: d1, ..bindings[bi] }),
                    i + 1,
                ),
            },
        }
    }
}

/// The bindings of the instances from the index `i` on, one after the other.
pub open spec fn instance_bindings(instances: Seq<InstanceModel>, i: nat) -> Seq<BindingModel>
    decreases instances.len() - i,
{
    if i >= instances.len() {
        Seq::empty()
    } else {
        instances[i as int].bindings + instance_bindings(instances, i + 1)
    }
}

/// The first `n` of `s`; all of it where it has fewer.
pub open spec fn front<T>(s: Seq<T>, n: nat) -> Seq<T> {
    if n <= s.len() {
        s.take(n as int)
    } else {
        s
    }
}

/// What follows the first `n` of `s`.
pub open spec fn back<T>(s: Seq<T>, n: nat) -> Seq<T> {
    if n <= s.len() {
        s.skip(n as int)
    } else {
        Seq::empty()
    }
}

/// The instances from the index `i` on with their bindings taken, in order,
/// from `typed`.
pub open spec fn with_bindings(
    instances: Seq<InstanceModel>,
    typed: Seq<BindingModel>,
    i: nat,
) -> Seq<InstanceModel>
    decreases instances.len() - i,
{
    if i >= instances.len() {
        instances
    } else {
        let n = instances[i as int].bindings.len();
        with_bindings(
            instances.update(
                i as int,
                InstanceModel { bindings: front(typed, n), ..instances[i as int] },
            ),
            back(typed, n),
            i + 1,
        )
    }
}

/// The names of the bindings from the index `i` on, known under their types.
pub open spec fn export_spec(env: EnvironmentModel, bindings: Seq<BindingModel>, i: nat) -> EnvironmentModel
    decreases bindings.len() - i,
{
    if i >= bindings.len() {
        env
    } else {
        export_spec(
            env.with_name(bindings[i as int].name, bindings[i as int].expression.typ),
            bindings,
            i + 1,
        )
    }
}

/// The module with all its types inferred, and the environment after that:
/// first the data definitions, then the classes, the instances and the type
/// declarations, then all bindings, those of the instances behind those of
/// the module, as one group of mutually recursive bindings.
pub open spec fn typecheck_module_spec(env: EnvironmentModel, m: ModuleModel) -> Step<ModuleModel> {
    match data_spec(env, m.data, 0) {
        Err(e) => Err(e),
        Ok((env1, data)) => match classes_spec(env1, m.classes, 0) {
            Err(e) => Err(e),
            Ok((env2, classes)) => match instances_spec(env2, classes, m.instances, 0) {
                Err(e) => Err(e),
                Ok((env3, instances)) => match declarations_spec(
                    env3,
                    m.declarations,
                    m.bindings,
                    0,
                ) {
                    Err(e) => Err(e),
                    Ok((env4, (declarations, bindings))) => match infer_bindings(
                        InferenceModel::start_with(env4),
                        bindings + instance_bindings(instances, 0),
                        DEPTH_LIMIT as nat,
                    ) {
                        Err(e) => Err(e),
                        Ok((st, typed)) => {
                            let own = front(typed, bindings.len());
                            Ok(
                                (
                                    export_spec(st.leave().env, own, 0),
                                    ModuleModel {
                                        bindings: own,
                                        declarations,
                                        classes,
                                        instances: with_bindings(
                                            instances,
                                            back(typed, bindings.len()),
                                            0,
                                        ),
                                        data,
                                        ..m
                                    },
                                ),
                            )
                        },
                    },
                },
            },
        },
    }
}

/// `res`, with the environment and the value after the step, is what the
/// model `spec` of the step says.
pub open spec fn stepped<V>(
    spec: Step<V>,
    env: EnvironmentModel,
    value: V,
    res: Result<(), TypeError>,
) -> bool {
    match spec {
        Ok((e, v)) => res is Ok && env == e && value == v,
        Err(err) => res is Err && res->Err_0@ == err,
    }
}

fn check_constructors(
    env: &mut TypeEnvironment,
    subs: &Substitution,
    constructors: &mut Vec<Constructor>,
    j: usize,
) -> (res: Result<(), TypeError>)
    ensures
        stepped(
            constructors_spec(old(env)@, subs@, seq_view(old(constructors)@), j as nat),
            final(env)@,
            seq_view(final(constructors)@),
            res,
        ),
    decreases old(constructors)@.len() - j,
{
    if j >= constructors.len() {
        return Ok(());
    }
    proof {
        assert(seq_view(constructors@)[j as int] == constructors@[j as int]@);
    }
    let t = match replace_in(&mut env.constraints, &constructors[j].typ, subs, DEPTH_LIMIT) {
        Some(t) => t,
        None => {
            return Err(TypeError::TooDeep);
        },
    };
    insert_name(&mut env.namedTypes, constructors[j].name.clone(), t.clone());
    let ghost before = seq_view(constructors@);
    constructors[j].typ = t;
    proof {
        assert(seq_view(constructors@) =~= before.update(
            j as int,
            ConstructorModel { typ: t@, ..before[j as int] },
        ));
    }
    check_constructors(env, subs, constructors, j + 1)
}

fn check_data(env: &mut TypeEnvironment, data: &mut Vec<DataDefinition>, i: usize) -> (res: Result<
    (),
    TypeError,
>)
    ensures
        stepped(
            data_spec(old(env)@, seq_view(old(data)@), i as nat),
            final(env)@,
            seq_view(final(data)@),
            res,
        ),
    decreases old(data)@.len() - i,
{
    if i >= data.len() {
        return Ok(());
    }
    proof {
        assert(seq_view(data@)[i as int] == data@[i as int]@);
    }
    let mut mapping: Vec<(i64, Type)> = Vec::new();
    let scope = TypeScope::new();
    proof {
        assert(types_model(mapping@) =~= Seq::empty());
    }
    match freshen_in(env, &scope, &mut mapping, &data[i].typ) {
        Ok(_) => {},
        Err(e) => {
            return Err(e);
        },
    }
    let subs = Substitution { subs: mapping, constraints: Vec::new() };
    proof {
        assert(subs@.constraints =~= Seq::empty());
    }
    let ghost before = seq_view(data@);
    match check_constructors(env, &subs, &mut data[i].constructors, 0) {
        Ok(()) => {},
        Err(e) => {
            return Err(e);
        },
    }
    proof {
        assert(seq_view(data@) =~= before.update(
            i as int,
            DataModel { constructors: seq_view(data@[i as int].constructors@), ..before[i as int] },
        ));
    }
    check_data(env, data, i + 1)
}

fn set_variable(context: &mut Vec<Constraint>, k: usize, id: i64)
    requires
        k < old(context)@.len(),
        old(context)@[k as int].variables@.len() > 0,
    ensures
        final(context)@.len() == old(context)@.len(),
        seq_view(final(context)@) == seq_view(old(context)@).update(
            k as int,
            ConstraintModel {
                variables: seq_view(old(context)@)[k as int].variables.update(0, id as int),
                ..seq_view(old(context)@)[k as int]
            },
        ),
{
    context[k].variables[0] = TypeVariable { id };
    proof {
        assert(context@[k as int]@.variables =~= seq_view(old(context)@)[k as int].variables.update(
            0,
            id as int,
        ));
        assert(seq_view(context@) =~= seq_view(old(context)@).update(
            k as int,
            ConstraintModel {
                variables: seq_view(old(context)@)[k as int].variables.update(0, id as int),
                ..seq_view(old(context)@)[k as int]
            },
        ));
    }
}

fn variable_of(t: &Type) -> (res: i64)
    ensures
        res as int == t@.var_id(),
{
    proof {
        lemma_type_view(*t);
    }
    match &t.typ {
        crate::module::TypeHead::TypeVariable(v) => v.id,
        crate::module::TypeHead::TypeOperator(_) => 0,
    }
}

fn fresh_context(
    env: &mut TypeEnvironment,
    context: &mut Vec<Constraint>,
    mapping: &mut Vec<(i64, Type)>,
    k: usize,
) -> (res: Result<(), TypeError>)
    ensures
        stepped(
            freshen_context(
                old(env)@,
                seq_view(old(context)@),
                types_model(old(mapping)@),
                k as nat,
            ),
            final(env)@,
            (types_model(final(mapping)@), seq_view(final(context)@)),
            res,
        ),
    decreases old(context)@.len() - k,
{
    if k >= context.len() {
        return Ok(());
    }
    proof {
        assert(seq_view(context@)[k as int] == context@[k as int]@);
    }
    if context[k].variables.len() == 0 {
        return fresh_context(env, context, mapping, k + 1);
    }
    let old_id = context[k].variables[0].id;
    let new = match env.new_var() {
        Ok(t) => t,
        Err(e) => {
            return Err(e);
        },
    };
    let chosen = match lookup_type(mapping, old_id) {
        Some(t) => t,
        None => {
            insert_type(mapping, old_id, new.clone());
            new
        },
    };
    set_variable(context, k, variable_of(&chosen));
    fresh_context(env, context, mapping, k + 1)
}

fn freshen_declaration2(
    env: &mut TypeEnvironment,
    decl: &mut TypeDeclaration,
    mapping: Vec<(i64, Type)>,
) -> (res: Result<(), TypeError>)
    ensures
        stepped(
            freshen_declaration_spec(old(env)@, old(decl)@, types_model(mapping@)),
            final(env)@,
            final(decl)@,
            res,
        ),
{
    let mut mapping = mapping;
    match fresh_context(env, &mut decl.context, &mut mapping, 0) {
        Ok(()) => {},
        Err(e) => {
            return Err(e);
        },
    }
    let scope = TypeScope::new();
    match freshen_in(env, &scope, &mut mapping, &decl.typ) {
        Ok(t) => {
            decl.typ = t;
            Ok(())
        },
        Err(e) => Err(e),
    }
}

fn freshen_declaration(env: &mut TypeEnvironment, decl: &mut TypeDeclaration) -> (res: Result<
    (),
    TypeError,
>)
    ensures
        stepped(
            freshen_declaration_spec(old(env)@, old(decl)@, Seq::empty()),
            final(env)@,
            final(decl)@,
            res,
        ),
{
    let mapping: Vec<(i64, Type)> = Vec::new();
    proof {
        assert(types_model(mapping@) =~= Seq::empty());
    }
    freshen_declaration2(env, decl, mapping)
}

fn check_class_declarations(
    env: &mut TypeEnvironment,
    class: &String,
    replaced: i64,
    new: &Type,
    declarations: &mut Vec<TypeDeclaration>,
    j: usize,
) -> (res: Result<(), TypeError>)
    ensures
        stepped(
            class_declarations_spec(
                old(env)@,
                class@,
                replaced as int,
                new@,
                seq_view(old(declarations)@),
                j as nat,
            ),
            final(env)@,
            seq_view(final(declarations)@),
            res,
        ),
    decreases old(declarations)@.len() - j,
{
    if j >= declarations.len() {
        return Ok(());
    }
    proof {
        assert(seq_view(declarations@)[j as int] == declarations@[j as int]@);
    }
    let mut mapping: Vec<(i64, Type)> = Vec::new();
    mapping.push((replaced, new.clone()));
    proof {
        assert(types_model(mapping@) =~= seq![(replaced as int, new@)]);
    }
    let ghost before = seq_view(declarations@);
    match freshen_declaration2(env, &mut declarations[j], mapping) {
        Ok(()) => {},
        Err(e) => {
            return Err(e);
        },
    }
    let ghost d1 = declarations@[j as int]@;
    let mut variables: Vec<TypeVariable> = Vec::new();
    variables.push(TypeVariable { id: variable_of(new) });
    let c = Constraint { class: class.clone(), variables };
    proof {
        assert(c@.variables =~= seq![new@.var_id()]);
    }
    declarations[j].context.push(c);
    proof {
        assert(declarations@[j as int]@.context =~= d1.context.push(c@));
        assert(seq_view(declarations@) =~= before.update(
            j as int,
            DeclarationModel { context: d1.context.push(c@), ..d1 },
        ));
    }
    insert_name(
        &mut env.namedTypes,
        declarations[j].name.clone(),
        declarations[j].typ.clone(),
    );
    check_class_declarations(env, class, replaced, new, declarations, j + 1)
}

fn check_classes(env: &mut TypeEnvironment, classes: &mut Vec<Class>, i: usize) -> (res: Result<
    (),
    TypeError,
>)
    ensures
        stepped(
            classes_spec(old(env)@, seq_view(old(classes)@), i as nat),
            final(env)@,
            seq_view(final(classes)@),
            res,
        ),
    decreases old(classes)@.len() - i,
{
    if i >= classes.len() {
        return Ok(());
    }
    proof {
        assert(seq_view(classes@)[i as int] == classes@[i as int]@);
    }
    let replaced = classes[i].variable.id;
    let new = match env.new_var() {
        Ok(t) => t,
        Err(e) => {
            return Err(e);
        },
    };
    let id = variable_of(&new);
    let mut names: Vec<String> = Vec::new();
    names.push(classes[i].name.clone());
    proof {
        assert(seq_view(names@) =~= seq![classes@[i as int].name@]);
    }
    insert_classes(&mut env.constraints, id, names);
    let ghost before = seq_view(classes@);
    let name = classes[i].name.clone();
    match check_class_declarations(env, &name, replaced, &new, &mut classes[i].declarations, 0) {
        Ok(()) => {},
        Err(e) => {
            return Err(e);
        },
    }
    classes[i].variable = TypeVariable { id };
    proof {
        assert(seq_view(classes@) =~= before.update(
            i as int,
            ClassModel {
                variable: id as int,
                declarations: seq_view(classes@[i as int].declarations@),
                ..before[i as int]
            },
        ));
    }
    check_classes(env, classes, i + 1)
}

/// Whether the name `s` ends with the name `suffix`.
pub fn ends_with(s: &String, suffix: &String) -> (res: bool)
    ensures
        res == is_suffix(suffix@, s@),
{
    let n = s.as_str().unicode_len();
    let m = suffix.as_str().unicode_len();
    if m > n {
        return false;
    }
    let mut k: usize = 0;
    while k < m
        invariant
            k <= m <= n,
            n == s@.len(),
            m == suffix@.len(),
            forall|x: int| 0 <= x < k ==> s@[n - m + x] == suffix@[x],
        decreases m - k,
    {
        if s.as_str().get_char(n - m + k) != suffix.as_str().get_char(k) {
            proof {
                assert(s@.subrange(n - m, n as int)[k as int] == s@[n - m + k]);
            }
            return false;
        }
        k += 1;
    }
    proof {
        assert(s@.subrange(n - m, n as int) =~= suffix@);
    }
    true
}

fn class_index(classes: &Vec<Class>, name: &String) -> (res: Option<usize>)
    ensures
        match res {
            Some(r) => find_class_spec(seq_view(classes@), name@, 0) == Some(r as int) && r < classes@.len(),
            None => find_class_spec(seq_view(classes@), name@, 0) is None,
        },
{
    let mut i: usize = 0;
    while i < classes.len()
        invariant
            i <= classes.len(),
            find_class_spec(seq_view(classes@), name@, 0) == find_class_spec(
                seq_view(classes@),
                name@,
                i as int,
            ),
        decreases classes.len() - i,
    {
        proof {
            assert(seq_view(classes@)[i as int] == classes@[i as int]@);
        }
        if classes[i].name == *name {
            return Some(i);
        }
        i += 1;
    }
    None
}

fn method_index(declarations: &Vec<TypeDeclaration>, name: &String) -> (res: Option<usize>)
    ensures
        match res {
            Some(r) => find_method(seq_view(declarations@), name@, 0) == Some(r as int) && r < declarations@.len(),
            None => find_method(seq_view(declarations@), name@, 0) is None,
        },
{
    let mut i: usize = 0;
    while i < declarations.len()
        invariant
            i <= declarations.len(),
            find_method(seq_view(declarations@), name@, 0) == find_method(
                seq_view(declarations@),
                name@,
                i as int,
            ),
        decreases declarations.len() - i,
    {
        proof {
            assert(seq_view(declarations@)[i as int] == declarations@[i as int]@);
        }
        if ends_with(name, &declarations[i].name) {
            return Some(i);
        }
        i += 1;
    }
    None
}

fn binding_index(bindings: &Vec<Binding>, name: &String) -> (res: Option<usize>)
    ensures
        match res {
            Some(r) => find_binding(seq_view(bindings@), name@, 0) == Some(r as int) && r < bindings@.len(),
            None => find_binding(seq_view(bindings@), name@, 0) is None,
        },
{
    let mut i: usize = 0;
    while i < bindings.len()
        invariant
            i <= bindings.len(),
            find_binding(seq_view(bindings@), name@, 0) == find_binding(
                seq_view(bindings@),
                name@,
                i as int,
            ),
        decreases bindings.len() - i,
    {
        proof {
            assert(seq_view(bindings@)[i as int] == bindings@[i as int]@);
        }
        if bindings[i].name == *name {
            return Some(i);
        }
        i += 1;
    }
    None
}

fn record(constraints: &mut Vec<(i64, Vec<String>)>, context: &Vec<Constraint>, k: usize)
    ensures
        classes_model(final(constraints)@) == record_context(
            classes_model(old(constraints)@),
            seq_view(context@),
            k as nat,
        ),
    decreases context@.len() - k,
{
    if k >= context.len() {
        return ;
    }
    proof {
        assert(seq_view(context@)[k as int] == context@[k as int]@);
    }
    if context[k].variables.len() == 0 {
        record(constraints, context, k + 1);
        return ;
    }
    let var = context[k].variables[0].id;
    let mut classes = match lookup_classes(constraints, var) {
        Some(had) => had,
        None => {
            let empty: Vec<String> = Vec::new();
            proof {
                assert(seq_view(empty@) =~= Seq::<Seq<char>>::empty());
            }
            empty
        },
    };
    let ghost had = seq_view(classes@);
    classes.push(context[k].class.clone());
    proof {
        assert(seq_view(classes@) =~= had.push(context@[k as int].class@));
    }
    insert_classes(constraints, var, classes);
    record(constraints, context, k + 1);
}

fn append_constraints(to: &mut Vec<Constraint>, from: &Vec<Constraint>)
    ensures
        seq_view(final(to)@) == seq_view(old(to)@) + seq_view(from@),
{
    let mut i: usize = 0;
    proof {
        assert(seq_view(to@) + seq_view(from@).take(0) =~= seq_view(to@));
    }
    while i < from.len()
        invariant
            i <= from.len(),
            seq_view(to@) == seq_view(old(to)@) + seq_view(from@).take(i as int),
        decreases from.len() - i,
    {
        let c = from[i].clone();
        let ghost before = seq_view(to@);
        to.push(c);
        proof {
            assert(seq_view(to@) =~= before.push(c@));
            assert(seq_view(old(to)@) + seq_view(from@).take(i + 1) =~= before.push(c@));
        }
        i += 1;
    }
    proof {
        assert(seq_view(from@).take(from@.len() as int) =~= seq_view(from@));
    }
}

fn check_instance_bindings(
    env: &mut TypeEnvironment,
    class: &Class,
    constraints: &Vec<Constraint>,
    typ: &Type,
    bindings: &mut Vec<Binding>,
    j: usize,
) -> (res: Result<(), TypeError>)
    ensures
        stepped(
            instance_bindings_spec(
                old(env)@,
                class@,
                seq_view(constraints@),
                typ@,
                seq_view(old(bindings)@),
                j as nat,
            ),
            final(env)@,
            seq_view(final(bindings)@),
            res,
        ),
    decreases old(bindings)@.len() - j,
{
    if j >= bindings.len() {
        return Ok(());
    }
    proof {
        assert(seq_view(bindings@)[j as int] == bindings@[j as int]@);
    }
    let di = match method_index(&class.declarations, &bindings[j].name) {
        Some(di) => di,
        None => {
            return Err(TypeError::UndefinedMethod(bindings[j].name.clone(), class.name.clone()));
        },
    };
    proof {
        assert(seq_view(class.declarations@)[di as int] == class.declarations@[di as int]@);
    }
    let declared = &class.declarations[di];
    let t1 = match replace_var(&declared.typ, &class.variable, typ, DEPTH_LIMIT) {
        Some(t) => t,
        None => {
            return Err(TypeError::TooDeep);
        },
    };
    let mut context = clone_constraints(&declared.context);
    append_constraints(&mut context, constraints);
    let mut decl = TypeDeclaration { context, typ: t1, name: declared.name.clone() };
    match freshen_declaration(env, &mut decl) {
        Ok(()) => {},
        Err(e) => {
            return Err(e);
        },
    }
    record(&mut env.constraints, &decl.context, 0);
    let ghost before = seq_view(bindings@);
    bindings[j].typeDecl = decl;
    proof {
        assert(seq_view(bindings@) =~= before.update(
            j as int,
            BindingModel { decl: decl@, ..before[j as int] },
        ));
    }
    check_instance_bindings(env, class, constraints, typ, bindings, j + 1)
}

fn check_instances(
    env: &mut TypeEnvironment,
    classes: &Vec<Class>,
    instances: &mut Vec<Instance>,
    i: usize,
) -> (res: Result<(), TypeError>)
    ensures
        stepped(
            instances_spec(
                old(env)@,
                seq_view(classes@),
                seq_view(old(instances)@),
                i as nat,
            ),
            final(env)@,
            seq_view(final(instances)@),
            res,
        ),
    decreases old(instances)@.len() - i,
{
    if i >= instances.len() {
        return Ok(());
    }
    proof {
        assert(seq_view(instances@)[i as int] == instances@[i as int]@);
    }
    let ci = match class_index(classes, &instances[i].classname) {
        Some(ci) => ci,
        None => {
            return Err(TypeError::UndefinedClass(instances[i].classname.clone()));
        },
    };
    proof {
        assert(seq_view(classes@)[ci as int] == classes@[ci as int]@);
    }
    let ghost before = seq_view(instances@);
    let mut mapping: Vec<(i64, Type)> = Vec::new();
    proof {
        assert(types_model(mapping@) =~= Seq::empty());
    }
    match fresh_context(env, &mut instances[i].constraints, &mut mapping, 0) {
        Ok(()) => {},
        Err(e) => {
            return Err(e);
        },
    }
    let scope = TypeScope::new();
    let typ = match freshen_in(env, &scope, &mut mapping, &instances[i].typ) {
        Ok(t) => t,
        Err(e) => {
            return Err(e);
        },
    };
    let constraints = clone_constraints(&instances[i].constraints);
    match check_instance_bindings(
        env,
        &classes[ci],
        &constraints,
        &typ,
        &mut instances[i].bindings,
        0,
    ) {
        Ok(()) => {},
        Err(e) => {
            return Err(e);
        },
    }
    let ghost instances0 = env@.instances;
    env.instances.push((instances[i].classname.clone(), typ.clone()));
    proof {
        assert(env@.instances =~= instances0.push((before[i as int].classname, typ@)));
    }
    instances[i].typ = typ;
    proof {
        assert(seq_view(instances@) =~= before.update(
            i as int,
            InstanceModel {
                bindings: seq_view(instances@[i as int].bindings@),
                constraints: seq_view(constraints@),
                typ: typ@,
                ..before[i as int]
            },
        ));
    }
    check_instances(env, classes, instances, i + 1)
}

fn check_declarations(
    env: &mut TypeEnvironment,
    declarations: &mut Vec<TypeDeclaration>,
    bindings: &mut Vec<Binding>,
    i: usize,
) -> (res: Result<(), TypeError>)
    ensures
        stepped(
            declarations_spec(
                old(env)@,
                seq_view(old(declarations)@),
                seq_view(old(bindings)@),
                i as nat,
            ),
            final(env)@,
            (seq_view(final(declarations)@), seq_view(final(bindings)@)),
            res,
        ),
    decreases old(declarations)@.len() - i,
{
    if i >= declarations.len() {
        return Ok(());
    }
    proof {
        assert(seq_view(declarations@)[i as int] == declarations@[i as int]@);
    }
    let ghost before = seq_view(declarations@);
    match freshen_declaration(env, &mut declarations[i]) {
        Ok(()) => {},
        Err(e) => {
            return Err(e);
        },
    }
    proof {
        assert(seq_view(declarations@) =~= before.update(i as int, declarations@[i as int]@));
    }
    let bi = match binding_index(bindings, &declarations[i].name) {
        Some(bi) => bi,
        None => {
            return Err(TypeError::OrphanDeclaration(declarations[i].name.clone()));
        },
    };
    let ghost bs = seq_view(bindings@);
    proof {
        assert(bs[bi as int] == bindings@[bi as int]@);
    }
    bindings[bi].typeDecl = declarations[i].clone();
    proof {
        assert(seq_view(bindings@) =~= bs.update(
            bi as int,
            BindingModel { decl: declarations@[i as int]@, ..bs[bi as int] },
        ));
    }
    check_declarations(env, declarations, bindings, i + 1)
}

fn export(env: &mut TypeEnvironment, bindings: &Vec<Binding>, i: usize)
    ensures
        final(env)@ == export_spec(old(env)@, seq_view(bindings@), i as nat),
    decreases bindings@.len() - i,
{
    if i >= bindings.len() {
        return ;
    }
    proof {
        assert(seq_view(bindings@)[i as int] == bindings@[i as int]@);
    }
    insert_name(&mut env.namedTypes, bindings[i].name.clone(), bindings[i].expression.typ.clone());
    export(env, bindings, i + 1);
}

/// Copies the bindings of the instances from the index `i` on behind `all`.
fn gather(instances: &Vec<Instance>, all: &mut Vec<Binding>, i: usize)
    ensures
        seq_view(final(all)@) == seq_view(old(all)@) + instance_bindings(
            seq_view(instances@),
            i as nat,
        ),
    decreases instances@.len() - i,
{
    if i >= instances.len() {
        proof {
            assert(seq_view(all@) + Seq::<BindingModel>::empty() =~= seq_view(all@));
        }
        return ;
    }
    proof {
        assert(seq_view(instances@)[i as int] == instances@[i as int]@);
    }
    let ghost before = seq_view(all@);
    let mut copy = crate::module::clone_bindings(&instances[i].bindings);
    let ghost moved = seq_view(copy@);
    all.append(&mut copy);
    proof {
        assert(seq_view(all@) =~= before + moved);
    }
    gather(instances, all, i + 1);
    proof {
        assert(seq_view(all@) =~= seq_view(old(all)@) + instance_bindings(
            seq_view(instances@),
            i as nat,
        ));
    }
}

/// Splits `typed` behind its first `n` bindings.
fn split(typed: Vec<Binding>, n: usize) -> (res: (Vec<Binding>, Vec<Binding>))
    ensures
        seq_view(res.0@) == front(seq_view(typed@), n as nat),
        seq_view(res.1@) == back(seq_view(typed@), n as nat),
{
    let mut first = typed;
    if n <= first.len() {
        let rest = first.split_off(n);
        proof {
            assert(seq_view(first@) =~= seq_view(typed@).take(n as int));
            assert(seq_view(rest@) =~= seq_view(typed@).skip(n as int));
        }
        (first, rest)
    } else {
        let rest: Vec<Binding> = Vec::new();
        proof {
            assert(seq_view(rest@) =~= Seq::<BindingModel>::empty());
        }
        (first, rest)
    }
}

/// Gives the instances from the index `i` on their bindings back, typed.
fn distribute(instances: &mut Vec<Instance>, typed: Vec<Binding>, i: usize)
    ensures
        seq_view(final(instances)@) == with_bindings(
            seq_view(old(instances)@),
            seq_view(typed@),
            i as nat,
        ),
    decreases old(instances)@.len() - i,
{
    if i >= instances.len() {
        return ;
    }
    proof {
        assert(seq_view(instances@)[i as int] == instances@[i as int]@);
    }
    let n = instances[i].bindings.len();
    let (first, rest) = split(typed, n);
    let ghost before = seq_view(instances@);
    instances[i].bindings = first;
    proof {
        assert(seq_view(instances@) =~= before.update(
            i as int,
            InstanceModel { bindings: seq_view(first@), ..before[i as int] },
        ));
    }
    distribute(instances, rest, i + 1);
}

/// Typechecks a module by updating all the types in place; after a failure
/// the environment and the module are left as they were when it was found.
fn check_module(env: &mut TypeEnvironment, module: &mut Module) -> (res: Result<(), TypeError>)
    ensures
        stepped(typecheck_module_spec(old(env)@, old(module)@), final(env)@, final(module)@, res),
{
    match check_data(env, &mut module.dataDefinitions, 0) {
        Ok(()) => {},
        Err(e) => {
            return Err(e);
        },
    }
    match check_classes(env, &mut module.classes, 0) {
        Ok(()) => {},
        Err(e) => {
            return Err(e);
        },
    }
    match check_instances(env, &module.classes, &mut module.instances, 0) {
        Ok(()) => {},
        Err(e) => {
            return Err(e);
        },
    }
    match check_declarations(env, &mut module.typeDeclarations, &mut module.bindings, 0) {
        Ok(()) => {},
        Err(e) => {
            return Err(e);
        },
    }
    let n = module.bindings.len();
    let mut all = crate::module::clone_bindings(&module.bindings);
    gather(&module.instances, &mut all, 0);
    let mut ck = Inference::start_with(env.clone());
    let typed = match check_bindings(&mut ck, &all, DEPTH_LIMIT) {
        Ok(typed) => typed,
        Err(e) => {
            return Err(e);
        },
    };
    ck.leave();
    *env = ck.env;
    let (own, rest) = split(typed, n);
    module.bindings = own;
    distribute(&mut module.instances, rest, 0);
    export(env, &module.bindings, 0);
    Ok(())
}

impl TypeEnvironment {
    /// Typechecks a module by updating all the types in place. Where the
    /// module is rejected, the environment and the module stay as they were.
    pub fn typecheck_module(&mut self, module: &mut Module) -> (res: Result<(), TypeError>)
        ensures
            stepped(
                typecheck_module_spec(old(self)@, old(module)@),
                final(self)@,
                final(module)@,
                res,
            ),
            res is Err ==> final(self)@ == old(self)@ && final(module)@ == old(module)@,
    {
        let mut env = self.clone();
        let mut work = module.clone();
        match check_module(&mut env, &mut work) {
            Ok(()) => {
                *self = env;
                *module = work;
                Ok(())
            },
            Err(e) => Err(e),
        }
    }
}

/// The names of the bindings from the index `i` on with their types.
pub open spec fn binding_types(bindings: Seq<BindingModel>, i: nat) -> Seq<(Seq<char>, Ty)>
    decreases bindings.len() - i,
{
    if i >= bindings.len() {
        Seq::empty()
    } else {
        seq![(bindings[i as int].name, bindings[i as int].expression.typ)] + binding_types(
            bindings,
            i + 1,
        )
    }
}

/// The declarations of the bindings from the index `i` on.
pub open spec fn binding_declarations(bindings: Seq<BindingModel>, i: nat) -> Seq<DeclarationModel>
    decreases bindings.len() - i,
{
    if i >= bindings.len() {
        Seq::empty()
    } else {
        seq![bindings[i as int].decl] + binding_declarations(bindings, i + 1)
    }
}

/// The declarations of the classes from the index `i` on.
pub open spec fn class_declarations(classes: Seq<ClassModel>, i: nat) -> Seq<DeclarationModel>
    decreases classes.len() - i,
{
    if i >= classes.len() {
        Seq::empty()
    } else {
        classes[i as int].declarations + class_declarations(classes, i + 1)
    }
}

/// The names of the declarations with their types.
pub open spec fn declared_types(declarations: Seq<DeclarationModel>) -> Seq<(Seq<char>, Ty)> {
    Seq::new(declarations.len(), |i: int| (declarations[i].name, declarations[i].typ))
}

/// The names of the constructors of the data definitions from the index `i` on with their types.
pub open spec fn constructor_types(data: Seq<DataModel>, i: nat) -> Seq<(Seq<char>, Ty)>
    decreases data.len() - i,
{
    if i >= data.len() {
        Seq::empty()
    } else {
        Seq::new(
            data[i as int].constructors.len(),
            |j: int| (data[i as int].constructors[j].name, data[i as int].constructors[j].typ),
        ) + constructor_types(data, i + 1)
    }
}

/// The first instance from the index `i` on of the class `class` at a type equivalent to `t`.
pub open spec fn find_instance_spec(
    instances: Seq<InstanceModel>,
    class: Seq<char>,
    t: Ty,
    i: int,
) -> Option<int>
    decreases instances.len() - i,
{
    if i < 0 || i >= instances.len() {
        None
    } else if instances[i].classname == class && equivalent(instances[i].typ, t) {
        Some(i)
    } else {
        find_instance_spec(instances, class, t, i + 1)
    }
}

impl ModuleModel {
    /// The names that the module defines, with their types: its bindings,
    /// then the methods of its classes, then its constructors.
    pub open spec fn exported_types(self) -> Seq<(Seq<char>, Ty)> {
        binding_types(self.bindings, 0) + declared_types(class_declarations(self.classes, 0))
            + constructor_types(self.data, 0)
    }

    /// The type declarations of the module: those of its bindings, then
    /// those of its classes.
    pub open spec fn type_declarations(self) -> Seq<DeclarationModel> {
        binding_declarations(self.bindings, 0) + class_declarations(self.classes, 0)
    }
}

/// Trait which can be implemented by types where types can be looked up by name.
pub trait Types {
    /// What the implementor defines.
    spec fn module(&self) -> ModuleModel;

    /// The type of the first definition of `name`.
    fn find_type(&self, name: &String) -> (res: Option<Type>)
        ensures
            match lookup(self.module().exported_types(), name@) {
                Some(t) => res is Some && res->Some_0@ == t,
                None => res is None,
            },
    ;

    /// The first class with the name `name`.
    fn find_class(&self, name: &String) -> (res: Option<&Class>)
        ensures
            match find_class_spec(self.module().classes, name@, 0) {
                Some(i) => res is Some && res->Some_0@ == self.module().classes[i],
                None => res is None,
            },
    ;

    /// The context and the type of the first instance of `classname` at a
    /// type equivalent to `typ`.
    fn find_instance(&self, classname: &String, typ: &Type) -> (res: Option<
        (Vec<Constraint>, Type),
    >)
        ensures
            match find_instance_spec(self.module().instances, classname@, typ@, 0) {
                Some(i) => res is Some && seq_view(res->Some_0.0@) == self.module().instances[i].constraints
                    && res->Some_0.1@ == self.module().instances[i].typ,
                None => res is None,
            },
    ;

    /// Whether there is an instance of `classname` at a type equivalent to `typ`.
    fn has_instance(&self, classname: &String, typ: &Type) -> (res: bool)
        ensures
            res == find_instance_spec(self.module().instances, classname@, typ@, 0) is Some,
    ;

    /// The type declarations, in order.
    fn each_typedeclaration(&self) -> (res: Vec<TypeDeclaration>)
        ensures
            seq_view(res@) == self.module().type_declarations(),
    ;
}

impl Module {
    /// The names that the module defines, with their types.
    pub fn exported_types(&self) -> (res: Vec<(String, Type)>)
        ensures
            names_model(res@) == self@.exported_types(),
    {
        let mut out: Vec<(String, Type)> = Vec::new();
        proof {
            assert(names_model(out@) =~= Seq::empty());
        }
        export_bindings(&self.bindings, 0, &mut out);
        let declarations = all_class_declarations(&self.classes);
        let mut j: usize = 0;
        let ghost first = names_model(out@);
        proof {
            assert(first + declared_types(seq_view(declarations@)).take(0) =~= first);
        }
        while j < declarations.len()
            invariant
                j <= declarations.len(),
                names_model(out@) == first + declared_types(seq_view(declarations@)).take(j as int),
            decreases declarations.len() - j,
        {
            let ghost before = names_model(out@);
            out.push((declarations[j].name.clone(), declarations[j].typ.clone()));
            proof {
                assert(names_model(out@) =~= before.push(
                    (declarations@[j as int].name@, declarations@[j as int].typ@),
                ));
                assert(first + declared_types(seq_view(declarations@)).take(j + 1)
                    =~= names_model(out@));
            }
            j += 1;
        }
        proof {
            assert(declared_types(seq_view(declarations@)).take(declarations@.len() as int)
                =~= declared_types(seq_view(declarations@)));
        }
        export_constructors(&self.dataDefinitions, 0, &mut out);
        out
    }
}

fn export_bindings(bindings: &Vec<Binding>, i: usize, out: &mut Vec<(String, Type)>)
    ensures
        names_model(final(out)@) == names_model(old(out)@) + binding_types(
            seq_view(bindings@),
            i as nat,
        ),
    decreases bindings@.len() - i,
{
    if i >= bindings.len() {
        proof {
            assert(names_model(out@) + Seq::<(Seq<char>, Ty)>::empty() =~= names_model(out@));
        }
        return ;
    }
    proof {
        assert(seq_view(bindings@)[i as int] == bindings@[i as int]@);
    }
    let ghost before = names_model(out@);
    out.push((bindings[i].name.clone(), bindings[i].expression.typ.clone()));
    proof {
        assert(names_model(out@) =~= before + seq![
            (bindings@[i as int]@.name, bindings@[i as int]@.expression.typ),
        ]);
    }
    export_bindings(bindings, i + 1, out);
    proof {
        assert(names_model(out@) =~= before + binding_types(seq_view(bindings@), i as nat));
    }
}

fn export_constructors(data: &Vec<DataDefinition>, i: usize, out: &mut Vec<(String, Type)>)
    ensures
        names_model(final(out)@) == names_model(old(out)@) + constructor_types(
            seq_view(data@),
            i as nat,
        ),
    decreases data@.len() - i,
{
    if i >= data.len() {
        proof {
            assert(names_model(out@) + Seq::<(Seq<char>, Ty)>::empty() =~= names_model(out@));
        }
        return ;
    }
    proof {
        assert(seq_view(data@)[i as int] == data@[i as int]@);
    }
    let ghost before = names_model(out@);
    let constructors = &data[i].constructors;
    let ghost own = Seq::new(
        seq_view(constructors@).len(),
        |j: int| (seq_view(constructors@)[j].name, seq_view(constructors@)[j].typ),
    );
    let mut j: usize = 0;
    proof {
        assert(before + own.take(0) =~= before);
    }
    while j < constructors.len()
        invariant
            j <= constructors.len(),
            own.len() == constructors@.len(),
            forall|k: int|
                0 <= k < own.len() ==> own[k] == (
                    (#[trigger] constructors@[k]).name@,
                    constructors@[k].typ@,
                ),
            names_model(out@) == before + own.take(j as int),
        decreases constructors.len() - j,
    {
        let ghost current = names_model(out@);
        out.push((constructors[j].name.clone(), constructors[j].typ.clone()));
        proof {
            assert(names_model(out@) =~= current.push(own[j as int]));
            assert(before + own.take(j + 1) =~= names_model(out@));
        }
        j += 1;
    }
    proof {
        assert(own.take(own.len() as int) =~= own);
    }
    export_constructors(data, i + 1, out);
    proof {
        assert(names_model(out@) =~= before + constructor_types(seq_view(data@), i as nat));
    }
}

fn gather_class_declarations(classes: &Vec<Class>, i: usize, out: &mut Vec<TypeDeclaration>)
    ensures
        seq_view(final(out)@) == seq_view(old(out)@) + class_declarations(
            seq_view(classes@),
            i as nat,
        ),
    decreases classes@.len() - i,
{
    if i >= classes.len() {
        proof {
            assert(seq_view(out@) + Seq::<DeclarationModel>::empty() =~= seq_view(out@));
        }
        return ;
    }
    proof {
        assert(seq_view(classes@)[i as int] == classes@[i as int]@);
    }
    let ghost before = seq_view(out@);
    let mut copy = clone_declarations(&classes[i].declarations);
    let ghost own = seq_view(copy@);
    out.append(&mut copy);
    proof {
        assert(seq_view(out@) =~= before + own);
    }
    gather_class_declarations(classes, i + 1, out);
    proof {
        assert(seq_view(out@) =~= before + class_declarations(seq_view(classes@), i as nat));
    }
}

fn all_class_declarations(classes: &Vec<Class>) -> (res: Vec<TypeDeclaration>)
    ensures
        seq_view(res@) == class_declarations(seq_view(classes@), 0),
{
    let mut out: Vec<TypeDeclaration> = Vec::new();
    proof {
        assert(seq_view(out@) =~= Seq::<DeclarationModel>::empty());
    }
    gather_class_declarations(classes, 0, &mut out);
    proof {
        assert(Seq::<DeclarationModel>::empty() + class_declarations(seq_view(classes@), 0)
            =~= class_declarations(seq_view(classes@), 0));
    }
    out
}

fn gather_binding_declarations(bindings: &Vec<Binding>, i: usize, out: &mut Vec<TypeDeclaration>)
    ensures
        seq_view(final(out)@) == seq_view(old(out)@) + binding_declarations(
            seq_view(bindings@),
            i as nat,
        ),
    decreases bindings@.len() - i,
{
    if i >= bindings.len() {
        proof {
            assert(seq_view(out@) + Seq::<DeclarationModel>::empty() =~= seq_view(out@));
        }
        return ;
    }
    proof {
        assert(seq_view(bindings@)[i as int] == bindings@[i as int]@);
    }
    let ghost before = seq_view(out@);
    let d = bindings[i].typeDecl.clone();
    out.push(d);
    proof {
        assert(seq_view(out@) =~= before + seq![d@]);
    }
    gather_binding_declarations(bindings, i + 1, out);
    proof {
        assert(seq_view(out@) =~= before + binding_declarations(seq_view(bindings@), i as nat));
    }
}

fn instance_index(instances: &Vec<Instance>, classname: &String, typ: &Type) -> (res: Option<usize>)
    ensures
        match res {
            Some(r) => find_instance_spec(seq_view(instances@), classname@, typ@, 0) == Some(
                r as int,
            ) && r < instances@.len(),
            None => find_instance_spec(seq_view(instances@), classname@, typ@, 0) is None,
        },
{
    let mut i: usize = 0;
    while i < instances.len()
        invariant
            i <= instances.len(),
            find_instance_spec(seq_view(instances@), classname@, typ@, 0) == find_instance_spec(
                seq_view(instances@),
                classname@,
                typ@,
                i as int,
            ),
        decreases instances.len() - i,
    {
        proof {
            assert(seq_view(instances@)[i as int] == instances@[i as int]@);
        }
        if instances[i].classname == *classname && types_equivalent(&instances[i].typ, typ) {
            return Some(i);
        }
        i += 1;
    }
    None
}

impl Types for Module {
    open spec fn module(&self) -> ModuleModel {
        self@
    }

    fn find_type(&self, name: &String) -> (res: Option<Type>) {
        let table = self.exported_types();
        lookup_name(&table, name)
    }

    fn find_class(&self, name: &String) -> (res: Option<&Class>) {
        match class_index(&self.classes, name) {
            Some(i) => {
                proof {
                    assert(seq_view(self.classes@)[i as int] == self.classes@[i as int]@);
                }
                Some(&self.classes[i])
            },
            None => None,
        }
    }

    fn find_instance(&self, classname: &String, typ: &Type) -> (res: Option<
        (Vec<Constraint>, Type),
    >) {
        match instance_index(&self.instances, classname, typ) {
            Some(i) => {
                proof {
                    assert(seq_view(self.instances@)[i as int] == self.instances@[i as int]@);
                }
                Some((clone_constraints(&self.instances[i].constraints), self.instances[i].typ.clone()))
            },
            None => None,
        }
    }

    fn has_instance(&self, classname: &String, typ: &Type) -> (res: bool) {
        instance_index(&self.instances, classname, typ).is_some()
    }

    fn each_typedeclaration(&self) -> (res: Vec<TypeDeclaration>) {
        let mut out: Vec<TypeDeclaration> = Vec::new();
        proof {
            assert(seq_view(out@) =~= Seq::<DeclarationModel>::empty());
        }
        gather_binding_declarations(&self.bindings, 0, &mut out);
        gather_class_declarations(&self.classes, 0, &mut out);
        proof {
            assert(Seq::<DeclarationModel>::empty() + binding_declarations(
                seq_view(self.bindings@),
                0,
            ) =~= binding_declarations(seq_view(self.bindings@), 0));
        }
        out
    }
}

/// The largest id of a variable in the contexts of the declarations from
/// the index `i` on, or `max` where that is larger.
pub open spec fn max_variable(declarations: Seq<DeclarationModel>, i: nat, k: nat, max: int) -> int
    decreases declarations.len() - i, if i < declarations.len() {
        declarations[i as int].context.len() - k
    } else {
        0
    },
{
    if i >= declarations.len() {
        max
    } else if k >= declarations[i as int].context.len() {
        max_variable(declarations, i + 1, 0, max)
    } else if declarations[i as int].context[k as int].variables.len() == 0 {
        max_variable(declarations, i, k + 1, max)
    } else {
        let id = declarations[i as int].context[k as int].variables[0];
        max_variable(
            declarations,
            i,
            k + 1,
            if id > max {
                id
            } else {
                max
            },
        )
    }
}

/// The classes that the variables must belong to, after the contexts of
/// the declarations from the index `i` on have been recorded.
pub open spec fn record_declarations(
    constraints: Classes,
    declarations: Seq<DeclarationModel>,
    i: nat,
) -> Classes
    decreases declarations.len() - i,
{
    if i >= declarations.len() {
        constraints
    } else {
        record_declarations(
            record_context(constraints, declarations[i as int].context, 0),
            declarations,
            i + 1,
        )
    }
}

/// The instances as the environment holds those of an imported module.
pub open spec fn imported_instances(instances: Seq<InstanceModel>) -> Seq<
    crate::environment::ImportedInstanceModel,
> {
    Seq::new(
        instances.len(),
        |i: int|
            crate::environment::ImportedInstanceModel {
                classname: instances[i].classname,
                constraints: instances[i].constraints,
                typ: instances[i].typ,
            },
    )
}

/// The environment after the module `m` has been imported: what the module
/// defines can be found behind what was imported before, the contexts of its
/// declarations are recorded, and the ids of fresh variables go on from the
/// largest id in those contexts, or from where they stood if that is larger.
pub open spec fn add_types_spec(env: EnvironmentModel, m: ModuleModel) -> EnvironmentModel {
    EnvironmentModel {
        imported: env.imported + m.exported_types(),
        imported_instances: env.imported_instances + imported_instances(m.instances),
        constraints: record_declarations(env.constraints, m.type_declarations(), 0),
        next: max_variable(m.type_declarations(), 0, 0, env.next),
        ..env
    }
}

fn largest_variable(declarations: &Vec<TypeDeclaration>, least: i64) -> (res: i64)
    ensures
        res as int == max_variable(seq_view(declarations@), 0, 0, least as int),
{
    let mut max: i64 = least;
    let mut i: usize = 0;
    while i < declarations.len()
        invariant
            i <= declarations.len(),
            max_variable(seq_view(declarations@), 0, 0, least as int) == max_variable(
                seq_view(declarations@),
                i as nat,
                0,
                max as int,
            ),
        decreases declarations.len() - i,
    {
        let context = &declarations[i].context;
        proof {
            assert(seq_view(declarations@)[i as int] == declarations@[i as int]@);
        }
        let mut k: usize = 0;
        while k < context.len()
            invariant
                k <= context.len(),
                i < declarations.len(),
                seq_view(declarations@)[i as int].context == seq_view(context@),
                max_variable(seq_view(declarations@), 0, 0, least as int) == max_variable(
                    seq_view(declarations@),
                    i as nat,
                    k as nat,
                    max as int,
                ),
            decreases context.len() - k,
        {
            proof {
                assert(seq_view(context@)[k as int] == context@[k as int]@);
            }
            if context[k].variables.len() > 0 {
                let id = context[k].variables[0].id;
                if id > max {
                    max = id;
                }
            }
            k += 1;
        }
        i += 1;
    }
    max
}

impl TypeEnvironment {
    /// Imports what the module `types` defines.
    pub fn add_types(&mut self, types: &Module)
        ensures
            final(self)@ == add_types_spec(old(self)@, types@),
    {
        let declarations = types.each_typedeclaration();
        let mut i: usize = 0;
        while i < declarations.len()
            invariant
                i <= declarations.len(),
                self@ == (EnvironmentModel { constraints: self@.constraints, ..old(self)@ }),
                record_declarations(old(self)@.constraints, seq_view(declarations@), 0)
                    == record_declarations(self@.constraints, seq_view(declarations@), i as nat),
            decreases declarations.len() - i,
        {
            proof {
                assert(seq_view(declarations@)[i as int] == declarations@[i as int]@);
            }
            record(&mut self.constraints, &declarations[i].context, 0);
            i += 1;
        }
        self.variableIndex.id = largest_variable(&declarations, self.variableIndex.id);
        let mut exported = types.exported_types();
        let ghost imported = self@.imported;
        let ghost added = names_model(exported@);
        self.imported.append(&mut exported);
        proof {
            assert(self@.imported =~= imported + added);
        }
        let mut j: usize = 0;
        let ghost had = self@.imported_instances;
        proof {
            assert(had + imported_instances(seq_view(types.instances@)).take(0) =~= had);
        }
        while j < types.instances.len()
            invariant
                j <= types.instances.len(),
                self@ == (EnvironmentModel {
                    imported_instances: self@.imported_instances,
                    imported: imported + added,
                    constraints: record_declarations(
                        old(self)@.constraints,
                        seq_view(declarations@),
                        0,
                    ),
                    next: max_variable(seq_view(declarations@), 0, 0, old(self)@.next),
                    ..old(self)@
                }),
                self@.imported_instances == had + imported_instances(
                    seq_view(types.instances@),
                ).take(j as int),
            decreases types.instances.len() - j,
        {
            let instance = &types.instances[j];
            let copy = ImportedInstance {
                classname: instance.classname.clone(),
                constraints: clone_constraints(&instance.constraints),
                typ: instance.typ.clone(),
            };
            let ghost before = self@.imported_instances;
            self.imported_instances.push(copy);
            proof {
                assert(seq_view(types.instances@)[j as int] == instance@);
                assert(self@.imported_instances =~= before.push(copy@));
                assert(had + imported_instances(seq_view(types.instances@)).take(j + 1)
                    =~= before.push(copy@));
            }
            j += 1;
        }
        proof {
            assert(imported_instances(seq_view(types.instances@)).take(
                types.instances@.len() as int,
            ) =~= imported_instances(seq_view(types.instances@)));
        }
    }
}

impl TypeScope {
    /// Types the bindings as one group of mutually recursive bindings, in
    /// this scope, and updates their types in place. Where the bindings are
    /// rejected, the environment, the scope, the substitution and the
    /// bindings stay as they were.
    pub fn typecheck_mutually_recursive_bindings(
        &mut self,
        env: &mut TypeEnvironment,
        subs: &mut Substitution,
        bindings: &mut Vec<Binding>,
    ) -> (res: Result<(), TypeError>)
        ensures
            bindings_done(
                infer_bindings(
                    InferenceModel { env: old(env)@, scope: old(self)@, subs: old(subs)@ },
                    seq_view(old(bindings)@),
                    DEPTH_LIMIT as nat,
                ),
                InferenceModel { env: final(env)@, scope: final(self)@, subs: final(subs)@ },
                seq_view(final(bindings)@),
                res,
            ),
            res is Err ==> final(env)@ == old(env)@ && final(self)@ == old(self)@ && final(subs)@
                == old(subs)@ && seq_view(final(bindings)@) == seq_view(old(bindings)@),
    {
        let mut ck = Inference { env: env.clone(), scope: self.clone(), subs: subs.clone() };
        let typed = match check_bindings(&mut ck, bindings, DEPTH_LIMIT) {
            Ok(typed) => typed,
            Err(e) => {
                return Err(e);
            },
        };
        *bindings = typed;
        *env = ck.env;
        *self = ck.scope;
        *subs = ck.subs;
        Ok(())
    }
}

/// The largest variable of the contexts is at least `max`, and at least
/// each variable of a constraint in them.
pub proof fn lemma_max_variable(
    declarations: Seq<DeclarationModel>,
    i: nat,
    k: nat,
    max: int,
    d: int,
    c: int,
)
    ensures
        max_variable(declarations, i, k, max) >= max,
        (i < d < declarations.len() || (i == d && d < declarations.len() && k <= c)) && 0 <= c
            < declarations[d].context.len() && declarations[d].context[c].variables.len() > 0
            ==> max_variable(declarations, i, k, max) >= declarations[d].context[c].variables[0],
    decreases declarations.len() - i, if i < declarations.len() {
        declarations[i as int].context.len() - k
    } else {
        0
    },
{
    if i < declarations.len() {
        if k >= declarations[i as int].context.len() {
            lemma_max_variable(declarations, i + 1, 0, max, d, c);
        } else if declarations[i as int].context[k as int].variables.len() == 0 {
            lemma_max_variable(declarations, i, k + 1, max, d, c);
        } else {
            let id = declarations[i as int].context[k as int].variables[0];
            lemma_max_variable(
                declarations,
                i,
                k + 1,
                if id > max {
                    id
                } else {
                    max
                },
                d,
                c,
            );
        }
    }
}

/// Importing a module never sets the counter of fresh variables back: after
/// it the counter is at least what it was, and at least every variable of
/// the contexts of the module's declarations.
pub proof fn lemma_import_keeps_variables_fresh(env: EnvironmentModel, m: ModuleModel, d: int, c: int)
    ensures
        add_types_spec(env, m).next >= env.next,
        0 <= d < m.type_declarations().len() && 0 <= c < m.type_declarations()[d].context.len()
            && m.type_declarations()[d].context[c].variables.len() > 0 ==> add_types_spec(
            env,
            m,
        ).next >= m.type_declarations()[d].context[c].variables[0],
{
    lemma_max_variable(m.type_declarations(), 0, 0, env.next, d, c);
}

/// Recording a context removes no class from any variable, and each
/// constraint of the context from the index `k` on is recorded for its variable.
pub proof fn lemma_record_context(
    constraints: Classes,
    context: Seq<ConstraintModel>,
    k: nat,
    c: int,
    var: int,
    class: Seq<char>,
)
    ensures
        carries(constraints, var, class) ==> carries(
            record_context(constraints, context, k),
            var,
            class,
        ),
        k <= c < context.len() && context[c].variables.len() > 0 ==> carries(
            record_context(constraints, context, k),
            context[c].variables[0],
            context[c].class,
        ),
    decreases context.len() - k,
{
    if k < context.len() {
        if context[k as int].variables.len() == 0 {
            lemma_record_context(constraints, context, k + 1, c, var, class);
        } else {
            let v = context[k as int].variables[0];
            let had = match lookup(constraints, v) {
                Some(had) => had,
                None => Seq::empty(),
            };
            let list = had.push(context[k as int].class);
            let next = insert(constraints, v, list);
            lemma_lookup_insert(constraints, v, list, var);
            lemma_lookup_insert(constraints, v, list, v);
            assert(list[had.len() as int] == context[k as int].class);
            if carries(constraints, var, class) && var == v {
                let q = choose|q: int| 0 <= q < had.len() && had[q] == class;
                assert(list[q] == class);
            }
            lemma_record_context(next, context, k + 1, c, var, class);
            if c == k {
                lemma_record_context(
                    next,
                    context,
                    k + 1,
                    c,
                    context[c].variables[0],
                    context[c].class,
                );
            }
        }
    }
}

proof fn lemma_record_declarations(
    constraints: Classes,
    declarations: Seq<DeclarationModel>,
    i: nat,
    d: int,
    c: int,
    var: int,
    class: Seq<char>,
)
    ensures
        carries(constraints, var, class) ==> carries(
            record_declarations(constraints, declarations, i),
            var,
            class,
        ),
        i <= d < declarations.len() && 0 <= c < declarations[d].context.len()
            && declarations[d].context[c].variables.len() > 0 ==> carries(
            record_declarations(constraints, declarations, i),
            declarations[d].context[c].variables[0],
            declarations[d].context[c].class,
        ),
    decreases declarations.len() - i,
{
    if i < declarations.len() {
        let context = declarations[i as int].context;
        let next = record_context(constraints, context, 0);
        lemma_record_context(constraints, context, 0, c, var, class);
        lemma_record_declarations(next, declarations, i + 1, d, c, var, class);
        if d == i && 0 <= c < context.len() && context[c].variables.len() > 0 {
            lemma_record_declarations(
                next,
                declarations,
                i + 1,
                d,
                c,
                context[c].variables[0],
                context[c].class,
            );
        }
    }
}

/// Importing a module removes no class from any variable, and records each
/// constraint of the contexts of the module's declarations for its variable.
/// The names that the environment itself has defined stay as they are.
pub proof fn lemma_import_records_contexts(
    env: EnvironmentModel,
    m: ModuleModel,
    d: int,
    c: int,
    var: int,
    class: Seq<char>,
)
    ensures
        carries(env.constraints, var, class) ==> carries(
            add_types_spec(env, m).constraints,
            var,
            class,
        ),
        0 <= d < m.type_declarations().len() && 0 <= c < m.type_declarations()[d].context.len()
            && m.type_declarations()[d].context[c].variables.len() > 0 ==> carries(
            add_types_spec(env, m).constraints,
            m.type_declarations()[d].context[c].variables[0],
            m.type_declarations()[d].context[c].class,
        ),
        add_types_spec(env, m).named == env.named,
{
    lemma_record_declarations(env.constraints, m.type_declarations(), 0, d, c, var, class);
}

} // verus!
