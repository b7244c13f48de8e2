//! The type environment: the types of the names in scope, the classes that
//! type variables must belong to, the instances that are known, and the
//! counter that fresh type variables come from.
use crate::module::{
    clone_constraints, lemma_type_view, seq_view, Constraint, ConstraintModel, Head, Location,
    Ty, Type, TypeHead, TypeVariable,
};
use crate::substitution::{function_type, is_name, Classes};
use crate::tables::{
    classes_model, clone_class_table, clone_name_table, find_name, insert, insert_name,
    lemma_position_absent, lemma_position_found, lookup, lookup_name, names_model, position,
};
use vstd::prelude::*;

verus! {

/// How deep types, expressions and the rules of the parser may be nested:
/// as deep as the machine can count. Replacing and unifying follow a
/// substitution, which may lead in a circle; they give up at this depth.
pub const DEPTH_LIMIT: usize = usize::MAX;

/// Why two types could not be made the same.
#[derive(Debug)]
pub enum UnifyError {
    /// Two type operators differ in name or in their number of arguments.
    Operators,
    /// A type variable with arguments met an operator with another number of arguments.
    Arity,
    /// A type variable met a type in which it occurs.
    Recursive,
    /// The type has no instance of the class that the variable must belong to.
    NoInstance(String),
    /// A type is nested deeper than `DEPTH_LIMIT`.
    TooDeep,
}

pub enum UnifyErrorModel {
    Operators,
    Arity,
    Recursive,
    NoInstance(Seq<char>),
    TooDeep,
}

impl View for UnifyError {
    type V = UnifyErrorModel;

    open spec fn view(&self) -> UnifyErrorModel {
        match self {
            UnifyError::Operators => UnifyErrorModel::Operators,
            UnifyError::Arity => UnifyErrorModel::Arity,
            UnifyError::Recursive => UnifyErrorModel::Recursive,
            UnifyError::NoInstance(class) => UnifyErrorModel::NoInstance(class@),
            UnifyError::TooDeep => UnifyErrorModel::TooDeep,
        }
    }
}

/// Why a program was rejected.
#[derive(Debug)]
pub enum TypeError {
    /// An identifier that nothing defines, and where it is used.
    UndefinedIdentifier(String, Location),
    /// A constructor in a pattern that nothing defines, and where it is used.
    UndefinedConstructor(String, Location),
    /// Two types that could not be unified: why, where, and the two types.
    Unification(UnifyError, Location, Type, Type),
    /// An instance of a class that the module does not define.
    UndefinedClass(String),
    /// A binding of an instance that is no method of its class: the binding, the class.
    UndefinedMethod(String, String),
    /// A type declaration without a binding.
    OrphanDeclaration(String),
    /// A `case` without alternatives.
    EmptyCase(Location),
    /// A constructor pattern with more patterns than the constructor has fields.
    PatternArity(Location),
    /// A type is nested deeper than `DEPTH_LIMIT`.
    TooDeep,
    /// The ids of type variables are used up.
    TooManyVariables,
}

pub enum TypeErrorModel {
    UndefinedIdentifier(Seq<char>, Location),
    UndefinedConstructor(Seq<char>, Location),
    Unification(UnifyErrorModel, Location, Ty, Ty),
    UndefinedClass(Seq<char>),
    UndefinedMethod(Seq<char>, Seq<char>),
    OrphanDeclaration(Seq<char>),
    EmptyCase(Location),
    PatternArity(Location),
    TooDeep,
    TooManyVariables,
}

impl View for TypeError {
    type V = TypeErrorModel;

    open spec fn view(&self) -> TypeErrorModel {
        match self {
            TypeError::UndefinedIdentifier(name, l) => TypeErrorModel::UndefinedIdentifier(
                name@,
                *l,
            ),
            TypeError::UndefinedConstructor(name, l) => TypeErrorModel::UndefinedConstructor(
                name@,
                *l,
            ),
            TypeError::Unification(e, l, lhs, rhs) => TypeErrorModel::Unification(
                e@,
                *l,
                lhs@,
                rhs@,
            ),
            TypeError::UndefinedClass(name) => TypeErrorModel::UndefinedClass(name@),
            TypeError::UndefinedMethod(name, class) => TypeErrorModel::UndefinedMethod(
                name@,
                class@,
            ),
            TypeError::OrphanDeclaration(name) => TypeErrorModel::OrphanDeclaration(name@),
            TypeError::EmptyCase(l) => TypeErrorModel::EmptyCase(*l),
            TypeError::PatternArity(l) => TypeErrorModel::PatternArity(*l),
            TypeError::TooDeep => TypeErrorModel::TooDeep,
            TypeError::TooManyVariables => TypeErrorModel::TooManyVariables,
        }
    }
}

/// An instance of an imported module: the class, the context, and the type.
#[derive(Debug)]
pub struct ImportedInstance {
    pub classname: String,
    pub constraints: Vec<Constraint>,
    pub typ: Type,
}

pub struct ImportedInstanceModel {
    pub classname: Seq<char>,
    pub constraints: Seq<ConstraintModel>,
    pub typ: Ty,
}

impl View for ImportedInstance {
    type V = ImportedInstanceModel;

    open spec fn view(&self) -> ImportedInstanceModel {
        ImportedInstanceModel {
            classname: self.classname@,
            constraints: seq_view(self.constraints@),
            typ: self.typ@,
        }
    }
}

/// The state of type inference. What the imported modules define is held as
/// two lists, the earlier module first: the types of their names, and their instances.
#[derive(Debug)]
pub struct TypeEnvironment {
    pub imported: Vec<(String, Type)>,
    pub imported_instances: Vec<ImportedInstance>,
    pub namedTypes: Vec<(String, Type)>,
    pub constraints: Vec<(i64, Vec<String>)>,
    pub instances: Vec<(String, Type)>,
    pub variableIndex: TypeVariable,
}

pub struct EnvironmentModel {
    pub imported: Seq<(Seq<char>, Ty)>,
    pub imported_instances: Seq<ImportedInstanceModel>,
    pub named: Seq<(Seq<char>, Ty)>,
    pub constraints: Classes,
    pub instances: Seq<(Seq<char>, Ty)>,
    pub next: int,
}

impl View for TypeEnvironment {
    type V = EnvironmentModel;

    open spec fn view(&self) -> EnvironmentModel {
        EnvironmentModel {
            imported: names_model(self.imported@),
            imported_instances: seq_view(self.imported_instances@),
            named: names_model(self.namedTypes@),
            constraints: classes_model(self.constraints@),
            instances: names_model(self.instances@),
            next: self.variableIndex.id as int,
        }
    }
}

impl EnvironmentModel {
    /// The type of `name`: that of the environment itself, else that of the
    /// first imported module that defines it.
    pub open spec fn find(self, name: Seq<char>) -> Option<Ty> {
        match lookup(self.named, name) {
            Some(t) => Some(t),
            None => lookup(self.imported, name),
        }
    }

    /// A fresh type variable, whose id is larger than every id given out
    /// before; none where the ids are used up.
    pub open spec fn fresh(self) -> Option<(EnvironmentModel, Ty)> {
        if self.next >= i64::MAX {
            None
        } else {
            Some((EnvironmentModel { next: self.next + 1, ..self }, Ty::var(self.next + 1)))
        }
    }

    /// Whether an instance of the environment itself is one of `class` at a
    /// type with the head of `t`.
    pub open spec fn has_local_instance(self, class: Seq<char>, t: Ty) -> bool {
        exists|i: int|
            0 <= i < self.instances.len() && (#[trigger] self.instances[i]).0 == class
                && self.instances[i].1.head == t.head
    }

    /// The imported instance `i` is one of `class` at a type with the head and
    /// the number of arguments of `t`.
    pub open spec fn matches_imported(self, i: int, class: Seq<char>, t: Ty) -> bool {
        self.imported_instances[i].classname == class && self.imported_instances[i].typ.head
            == t.head && self.imported_instances[i].typ.args.len() == t.args.len()
    }

    /// The first imported instance from `from` on that matches.
    pub open spec fn find_imported(self, class: Seq<char>, t: Ty, from: int) -> Option<int>
        decreases self.imported_instances.len() - from,
    {
        if from < 0 || from >= self.imported_instances.len() {
            None
        } else if self.matches_imported(from, class, t) {
            Some(from)
        } else {
            self.find_imported(class, t, from + 1)
        }
    }

    /// Whether the type `t` has an instance of `class`: an instance of the
    /// environment at a type with the same head, or else the first matching
    /// imported instance, provided its context holds of the arguments of `t`.
    pub open spec fn has_instance(self, class: Seq<char>, t: Ty) -> bool
        decreases t, 1nat, 0nat,
    {
        if self.has_local_instance(class, t) {
            true
        } else {
            match self.find_imported(class, t, 0) {
                Some(i) => self.context_holds(
                    self.imported_instances[i].constraints,
                    self.imported_instances[i].typ.args,
                    t,
                    0,
                ),
                None => false,
            }
        }
    }

    /// Whether each constraint from `i` on holds of the argument of `t` that
    /// stands where the constraint's variable stands in `vars`.
    pub open spec fn context_holds(
        self,
        constraints: Seq<ConstraintModel>,
        vars: Seq<Ty>,
        t: Ty,
        i: nat,
    ) -> bool
        decreases t, 0nat, constraints.len() - i,
    {
        if i >= constraints.len() {
            true
        } else {
            let holds = if constraints[i as int].variables.len() == 0 {
                true
            } else {
                match variable_position(vars, constraints[i as int].variables[0], 0) {
                    Some(p) => if 0 <= p < t.args.len() {
                        self.has_instance(constraints[i as int].class, t.args[p])
                    } else {
                        true
                    },
                    None => true,
                }
            };
            holds && self.context_holds(constraints, vars, t, i + 1)
        }
    }
}

/// The first index from `from` on at which `vars` holds the variable `v`.
pub open spec fn variable_position(vars: Seq<Ty>, v: int, from: int) -> Option<int>
    decreases vars.len() - from,
{
    if from < 0 || from >= vars.len() {
        None
    } else if vars[from].head == Head::Var(v) {
        Some(from)
    } else {
        variable_position(vars, v, from + 1)
    }
}

fn find_variable(vars: &Vec<Type>, v: i64) -> (res: Option<usize>)
    ensures
        res is Some == variable_position(seq_view(vars@), v as int, 0) is Some,
        res is Some ==> res.unwrap() as int == variable_position(
            seq_view(vars@),
            v as int,
            0,
        ).unwrap(),
        res is Some ==> res.unwrap() < vars@.len(),
{
    let mut i: usize = 0;
    while i < vars.len()
        invariant
            i <= vars.len(),
            variable_position(seq_view(vars@), v as int, 0) == variable_position(
                seq_view(vars@),
                v as int,
                i as int,
            ),
        decreases vars.len() - i,
    {
        let found = match &vars[i].typ {
            TypeHead::TypeVariable(var) => var.id == v,
            TypeHead::TypeOperator(_) => false,
        };
        proof {
            lemma_type_view(vars@[i as int]);
        }
        if found {
            return Some(i);
        }
        i += 1;
    }
    None
}

/// Whether two types have the same head.
pub fn same_head(a: &Type, b: &Type) -> (res: bool)
    ensures
        res == (a@.head == b@.head),
{
    proof {
        lemma_type_view(*a);
        lemma_type_view(*b);
    }
    match (&a.typ, &b.typ) {
        (TypeHead::TypeVariable(l), TypeHead::TypeVariable(r)) => l.id == r.id,
        (TypeHead::TypeOperator(l), TypeHead::TypeOperator(r)) => l.name == r.name,
        _ => false,
    }
}

impl TypeEnvironment {
    /// The type of `ident`, copied.
    pub fn find(&self, ident: &String) -> (res: Option<Type>)
        ensures
            match self@.find(ident@) {
                Some(t) => res is Some && res.unwrap()@ == t,
                None => res is None,
            },
    {
        match lookup_name(&self.namedTypes, ident) {
            Some(t) => Some(t),
            None => lookup_name(&self.imported, ident),
        }
    }

    /// A fresh type variable.
    pub fn new_var(&mut self) -> (res: Result<Type, TypeError>)
        ensures
            match old(self)@.fresh() {
                Some((env, t)) => res is Ok && res.unwrap()@ == t && final(self)@ == env,
                None => res is Err && res.unwrap_err()@ == TypeErrorModel::TooManyVariables
                    && final(self)@ == old(self)@,
            },
    {
        if self.variableIndex.id >= i64::MAX {
            return Err(TypeError::TooManyVariables);
        }
        self.variableIndex.id = self.variableIndex.id + 1;
        Ok(Type::new_var(self.variableIndex.id))
    }

    fn local_instance(&self, class: &String, searched_type: &Type) -> (res: bool)
        ensures
            res == self@.has_local_instance(class@, searched_type@),
    {
        let mut i: usize = 0;
        while i < self.instances.len()
            invariant
                i <= self.instances.len(),
                forall|j: int|
                    0 <= j < i ==> !((#[trigger] self@.instances[j]).0 == class@
                        && self@.instances[j].1.head == searched_type@.head),
            decreases self.instances.len() - i,
        {
            if self.instances[i].0 == *class && same_head(&self.instances[i].1, searched_type) {
                proof {
                    assert(self@.instances[i as int].0 == class@);
                }
                return true;
            }
            proof {
                assert(self@.instances[i as int].0 == self.instances@[i as int].0@);
            }
            i += 1;
        }
        false
    }

    fn imported_instance(&self, class: &String, searched_type: &Type) -> (res: Option<usize>)
        ensures
            res is Some == self@.find_imported(class@, searched_type@, 0) is Some,
            res is Some ==> res.unwrap() as int == self@.find_imported(
                class@,
                searched_type@,
                0,
            ).unwrap(),
            res is Some ==> res.unwrap() < self.imported_instances@.len(),
    {
        let mut i: usize = 0;
        while i < self.imported_instances.len()
            invariant
                i <= self.imported_instances.len(),
                self@.find_imported(class@, searched_type@, 0) == self@.find_imported(
                    class@,
                    searched_type@,
                    i as int,
                ),
            decreases self.imported_instances.len() - i,
        {
            let instance = &self.imported_instances[i];
            proof {
                lemma_type_view(instance.typ);
                lemma_type_view(*searched_type);
                assert(self@.imported_instances[i as int] == instance@);
            }
            if instance.classname == *class && same_head(&instance.typ, searched_type)
                && instance.typ.types.len() == searched_type.types.len() {
                return Some(i);
            }
            i += 1;
        }
        None
    }

    /// Returns whether the type `searched_type` has an instance for `class`.
    pub fn has_instance(&self, class: &String, searched_type: &Type) -> (res: bool)
        ensures
            res == self@.has_instance(class@, searched_type@),
        decreases searched_type, 1nat, 0nat,
    {
        if self.local_instance(class, searched_type) {
            return true;
        }
        match self.imported_instance(class, searched_type) {
            Some(i) => {
                proof {
                    lemma_type_view(self.imported_instances@[i as int].typ);
                    assert(self@.imported_instances[i as int] == self.imported_instances@[i as int]@);
                }
                self.check_instance_constraints(
                    &self.imported_instances[i].constraints,
                    &self.imported_instances[i].typ.types,
                    searched_type,
                )
            },
            None => false,
        }
    }

    fn check_instance_constraints(
        &self,
        constraints: &Vec<Constraint>,
        vars: &Vec<Type>,
        searched_type: &Type,
    ) -> (res: bool)
        ensures
            res == self@.context_holds(
                seq_view(constraints@),
                seq_view(vars@),
                searched_type@,
                0,
            ),
        decreases searched_type, 0nat, constraints@.len(),
    {
        let mut i: usize = 0;
        while i < constraints.len()
            invariant
                i <= constraints.len(),
                self@.context_holds(seq_view(constraints@), seq_view(vars@), searched_type@, 0)
                    == self@.context_holds(
                    seq_view(constraints@),
                    seq_view(vars@),
                    searched_type@,
                    i as nat,
                ),
            decreases constraints.len() - i,
        {
            let constraint = &constraints[i];
            proof {
                lemma_type_view(*searched_type);
                assert(seq_view(constraints@)[i as int] == constraint@);
            }
            if constraint.variables.len() > 0 {
                match find_variable(vars, constraint.variables[0].id) {
                    Some(pos) => {
                        if pos < searched_type.types.len() {
                            if !self.has_instance(&constraint.class, &searched_type.types[pos]) {
                                return false;
                            }
                        }
                    },
                    None => {},
                }
            }
            i += 1;
        }
        true
    }
}

/// The name of the primitive `op` on the type `typename`: `prim`, the type, the operation.
pub open spec fn primitive_name(typename: Seq<char>, op: Seq<char>) -> Seq<char> {
    "prim"@ + typename + op
}

/// The names with the five arithmetic and the five comparing primitives of
/// the type `typename`.
pub open spec fn with_primitives(named: Seq<(Seq<char>, Ty)>, typename: Seq<char>) -> Seq<
    (Seq<char>, Ty),
> {
    let t = Ty::op(typename, Seq::empty());
    let binop = Ty::function(t, Ty::function(t, t));
    let compare = Ty::function(t, Ty::function(t, Ty::op("Bool"@, Seq::empty())));
    let n1 = insert(named, primitive_name(typename, "Add"@), binop);
    let n2 = insert(n1, primitive_name(typename, "Subtract"@), binop);
    let n3 = insert(n2, primitive_name(typename, "Multiply"@), binop);
    let n4 = insert(n3, primitive_name(typename, "Divide"@), binop);
    let n5 = insert(n4, primitive_name(typename, "Remainder"@), binop);
    let n6 = insert(n5, primitive_name(typename, "EQ"@), compare);
    let n7 = insert(n6, primitive_name(typename, "LT"@), compare);
    let n8 = insert(n7, primitive_name(typename, "LE"@), compare);
    let n9 = insert(n8, primitive_name(typename, "GT"@), compare);
    insert(n9, primitive_name(typename, "GE"@), compare)
}

/// `n` commas.
pub open spec fn commas(n: nat) -> Seq<char>
    decreases n,
{
    if n == 0 {
        Seq::empty()
    } else {
        commas((n - 1) as nat) + ","@
    }
}

/// The name of the tuple type and constructor of `size` fields: a pair of
/// parentheses around one comma less than there are fields.
pub open spec fn tuple_name_spec(size: nat) -> Seq<char> {
    "("@ + commas(
        if size == 0 {
            0
        } else {
            (size - 1) as nat
        },
    ) + ")"@
}

/// The function type from the type variables `i - 1` down to `0`, in that
/// order from the inside out, to `t`.
pub open spec fn arrows(t: Ty, i: nat) -> Ty
    decreases i,
{
    if i == 0 {
        t
    } else {
        arrows(Ty::function(Ty::var(i - 1), t), (i - 1) as nat)
    }
}

/// The type of the constructor of tuples of `size` fields.
pub open spec fn tuple_type_spec(size: nat) -> Ty {
    arrows(Ty::op(tuple_name_spec(size), Seq::new(size, |i: int| Ty::var(i))), size)
}

/// The names with the tuple constructors of `i` to nine fields.
pub open spec fn with_tuples(named: Seq<(Seq<char>, Ty)>, i: nat) -> Seq<(Seq<char>, Ty)>
    decreases 10 - i,
{
    if i >= 10 {
        named
    } else {
        with_tuples(insert(named, tuple_name_spec(i), tuple_type_spec(i)), i + 1)
    }
}

/// The names that every environment starts with: the primitives of `Int`
/// and `Double`, the conversions between them, the list constructors, and
/// the tuple constructors.
pub open spec fn initial_names() -> Seq<(Seq<char>, Ty)> {
    let integer = Ty::op("Int"@, Seq::empty());
    let double = Ty::op("Double"@, Seq::empty());
    let list = Ty::op("[]"@, seq![Ty::var(-10)]);
    let n1 = with_primitives(with_primitives(Seq::empty(), "Int"@), "Double"@);
    let n2 = insert(n1, "primIntToDouble"@, Ty::function(integer, double));
    let n3 = insert(n2, "primDoubleToInt"@, Ty::function(double, integer));
    let n4 = insert(n3, "[]"@, list);
    let n5 = insert(n4, ":"@, Ty::function(Ty::var(-10), Ty::function(list, list)));
    with_tuples(n5, 0)
}

impl EnvironmentModel {
    /// The environment that inference starts with.
    pub open spec fn initial() -> EnvironmentModel {
        EnvironmentModel {
            imported: Seq::empty(),
            imported_instances: Seq::empty(),
            named: initial_names(),
            constraints: Seq::empty(),
            instances: Seq::empty(),
            next: 0,
        }
    }
}

fn nullary(name: &str) -> (res: Type)
    ensures
        res@ == Ty::op(name@, Seq::empty()),
{
    proof {
        assert(seq_view(Seq::<Type>::empty()) =~= Seq::<Ty>::empty());
    }
    Type::new_op(String::from_str(name), Vec::new())
}

fn insert_primitive(globals: &mut Vec<(String, Type)>, typename: &str, op: &str, typ: &Type)
    ensures
        names_model(final(globals)@) == insert(
            names_model(old(globals)@),
            primitive_name(typename@, op@),
            typ@,
        ),
{
    let name = String::from_str("prim").concat(typename).concat(op);
    insert_name(globals, name, typ.clone());
}

fn add_primitives(globals: &mut Vec<(String, Type)>, typename: &str)
    ensures
        names_model(final(globals)@) == with_primitives(names_model(old(globals)@), typename@),
{
    let typ = nullary(typename);
    let binop = function_type(&typ, &function_type(&typ, &typ));
    insert_primitive(globals, typename, "Add", &binop);
    insert_primitive(globals, typename, "Subtract", &binop);
    insert_primitive(globals, typename, "Multiply", &binop);
    insert_primitive(globals, typename, "Divide", &binop);
    insert_primitive(globals, typename, "Remainder", &binop);
    let compare = function_type(&typ, &function_type(&typ, &nullary("Bool")));
    insert_primitive(globals, typename, "EQ", &compare);
    insert_primitive(globals, typename, "LT", &compare);
    insert_primitive(globals, typename, "LE", &compare);
    insert_primitive(globals, typename, "GT", &compare);
    insert_primitive(globals, typename, "GE", &compare);
}

/// The name of the tuple type and constructor of `size` fields.
pub fn tuple_name(size: usize) -> (res: String)
    ensures
        res@ == tuple_name_spec(size as nat),
{
    let mut name = String::from_str("(");
    let mut i: usize = 1;
    proof {
        assert("("@ + commas(0) =~= "("@);
    }
    while i < size
        invariant
            1 <= i,
            size == 0 ==> i == 1,
            size > 0 ==> i <= size,
            name@ == "("@ + commas((i - 1) as nat),
        decreases size - i,
    {
        name.append(",");
        proof {
            assert("("@ + commas((i - 1) as nat) + ","@ =~= "("@ + commas(i as nat));
        }
        i += 1;
    }
    name.append(")");
    name
}

fn create_tuple_type(size: usize) -> (res: (String, Type))
    requires
        size <= 1000,
    ensures
        res.0@ == tuple_name_spec(size as nat),
        res.1@ == tuple_type_spec(size as nat),
{
    let mut var_list: Vec<Type> = Vec::new();
    let mut i: usize = 0;
    while i < size
        invariant
            i <= size <= 1000,
            var_list@.len() == i,
            forall|j: int| 0 <= j < i ==> (#[trigger] var_list@[j])@ == Ty::var(j),
        decreases size - i,
    {
        var_list.push(Type::new_var(i as i64));
        i += 1;
    }
    let ident = tuple_name(size);
    proof {
        assert(seq_view(var_list@) =~= Seq::new(size as nat, |i: int| Ty::var(i)));
    }
    let mut typ = Type::new_op(ident.clone(), var_list);
    let ghost inner = typ@;
    let mut k: usize = size;
    while k > 0
        invariant
            k <= size <= 1000,
            arrows(inner, size as nat) == arrows(typ@, k as nat),
        decreases k,
    {
        typ = function_type(&Type::new_var((k - 1) as i64), &typ);
        k -= 1;
    }
    (ident, typ)
}

impl TypeEnvironment {
    /// Creates a new type environment and adds all the primitive types.
    pub fn new() -> (res: TypeEnvironment)
        ensures
            res@ == EnvironmentModel::initial(),
    {
        let mut globals: Vec<(String, Type)> = Vec::new();
        proof {
            assert(names_model(globals@) =~= Seq::empty());
        }
        add_primitives(&mut globals, "Int");
        add_primitives(&mut globals, "Double");
        insert_name(
            &mut globals,
            String::from_str("primIntToDouble"),
            function_type(&nullary("Int"), &nullary("Double")),
        );
        insert_name(
            &mut globals,
            String::from_str("primDoubleToInt"),
            function_type(&nullary("Double"), &nullary("Int")),
        );
        let var = Type::new_var(-10);
        let mut element: Vec<Type> = Vec::new();
        element.push(var.clone());
        proof {
            assert(seq_view(element@) =~= seq![Ty::var(-10)]);
        }
        let list = Type::new_op(String::from_str("[]"), element);
        insert_name(&mut globals, String::from_str("[]"), list.clone());
        insert_name(
            &mut globals,
            String::from_str(":"),
            function_type(&var, &function_type(&list, &list)),
        );
        let ghost n5 = names_model(globals@);
        let mut i: usize = 0;
        while i < 10
            invariant
                i <= 10,
                with_tuples(n5, 0) == with_tuples(names_model(globals@), i as nat),
            decreases 10 - i,
        {
            let (name, typ) = create_tuple_type(i);
            insert_name(&mut globals, name, typ);
            i += 1;
        }
        let res = TypeEnvironment {
            imported: Vec::new(),
            imported_instances: Vec::new(),
            namedTypes: globals,
            constraints: Vec::new(),
            instances: Vec::new(),
            variableIndex: TypeVariable { id: 0 },
        };
        proof {
            assert(res@.imported =~= Seq::empty());
            assert(res@.imported_instances =~= Seq::empty());
            assert(res@.constraints =~= Seq::empty());
            assert(res@.instances =~= Seq::empty());
        }
        res
    }
}

impl Clone for ImportedInstance {
    fn clone(&self) -> (res: Self)
        ensures
            res@ == self@,
    {
        ImportedInstance {
            classname: self.classname.clone(),
            constraints: clone_constraints(&self.constraints),
            typ: self.typ.clone(),
        }
    }
}

impl Clone for TypeEnvironment {
    fn clone(&self) -> (res: Self)
        ensures
            res@ == self@,
    {
        let mut imported_instances: Vec<ImportedInstance> = Vec::new();
        let mut i: usize = 0;
        while i < self.imported_instances.len()
            invariant
                i <= self.imported_instances.len(),
                imported_instances@.len() == i,
                forall|j: int|
                    0 <= j < i ==> (#[trigger] imported_instances@[j])@
                        == self.imported_instances@[j]@,
            decreases self.imported_instances.len() - i,
        {
            imported_instances.push(self.imported_instances[i].clone());
            i += 1;
        }
        let res = TypeEnvironment {
            imported: clone_name_table(&self.imported),
            imported_instances,
            namedTypes: clone_name_table(&self.namedTypes),
            constraints: clone_class_table(&self.constraints),
            instances: clone_name_table(&self.instances),
            variableIndex: TypeVariable { id: self.variableIndex.id },
        };
        proof {
            assert(res@.imported_instances =~= self@.imported_instances);
        }
        res
    }
}

} // verus!
