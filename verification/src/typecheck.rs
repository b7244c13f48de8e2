//! Type inference for expressions, patterns, groups of bindings and modules.
use crate::environment::{EnvironmentModel, ImportedInstance, TypeErrorModel, DEPTH_LIMIT};
use crate::graph::{scc_spec, strongly_connected_components, Graph};
use crate::module::{
    clone_constraints, clone_patterns, lemma_expr_view, lemma_pattern_view, lemma_type_view,
    seq_view, Alternative, AlternativeModel, Binding, BindingModel, Class, Constraint,
    ConstraintModel, DeclarationModel, Expr, ExprModel, Head, Instance, Located, Module,
    ModuleModel, Pattern, PatternModel, Ty, TypeDeclaration, TypeHead, TypeOperator,
    TypeVariable, TypedExpr, TypedExprModel,
};
use crate::scope::{bind, freshen, freshen_spec, restore, TypeScope, TypeScopeModel};
use crate::substitution::{
    carries, is_name, lemma_replace_keeps_classes, occurs_spec, replace_in, replace_spec, Classes,
    Substitution, SubstitutionModel,
};
use crate::tables::{
    classes_model, clone_names, insert, insert_classes, insert_name, insert_type, lookup,
    lookup_classes, names_model, types_model,
};
use vstd::prelude::*;

pub use crate::environment::TypeEnvironment;
pub use crate::environment::TypeError;
pub use crate::environment::UnifyError;
pub use crate::module::Location;
pub use crate::module::Type;
pub use crate::substitution::function_type;

verus! {

/// The result type of a function type: what stands behind its last arrow.
pub open spec fn return_type(t: Ty) -> Ty
    decreases t,
{
    if t.head == Head::Op("->"@) && t.args.len() >= 2 {
        return_type(t.args[1])
    } else {
        t
    }
}

/// The type behind the last arrow of `typ`.
pub fn get_returntype(typ: &Type) -> (res: Type)
    ensures
        res@ == return_type(typ@),
    decreases typ,
{
    proof {
        lemma_type_view(*typ);
    }
    match &typ.typ {
        TypeHead::TypeOperator(op) => {
            if is_name(&op.name, "->") && typ.types.len() >= 2 {
                get_returntype(&typ.types[1])
            } else {
                typ.clone()
            }
        },
        TypeHead::TypeVariable(_) => typ.clone(),
    }
}

pub open spec fn replace_var_head(t: Ty, var: int, replacement: Ty) -> Ty {
    if t.head == Head::Var(var) {
        if t.args.len() > 0 {
            Ty { head: replacement.head, args: t.args }
        } else {
            replacement
        }
    } else {
        t
    }
}

/// The type `t` with the variable `var` replaced by `replacement`: where the
/// variable has arguments only its head is replaced. None where the type
/// that results is nested deeper than `depth`.
pub open spec fn replace_var_spec(t: Ty, var: int, replacement: Ty, depth: nat) -> Option<Ty>
    decreases depth, 0nat, 0nat,
{
    if depth == 0 {
        None
    } else {
        let head = replace_var_head(t, var, replacement);
        match replace_var_args(head.args, var, replacement, (depth - 1) as nat, 0) {
            Some(args) => Some(Ty { head: head.head, args }),
            None => None,
        }
    }
}

pub open spec fn replace_var_args(
    args: Seq<Ty>,
    var: int,
    replacement: Ty,
    depth: nat,
    i: nat,
) -> Option<Seq<Ty>>
    decreases depth, 1nat, args.len() - i,
{
    if i >= args.len() {
        Some(args)
    } else {
        match replace_var_spec(args[i as int], var, replacement, depth) {
            Some(t) => replace_var_args(args.update(i as int, t), var, replacement, depth, i + 1),
            None => None,
        }
    }
}

/// Replaces the variable `var` in `typ` by `replacement`.
pub fn replace_var(typ: &Type, var: &TypeVariable, replacement: &Type, depth: usize) -> (res:
    Option<Type>)
    ensures
        match replace_var_spec(typ@, var.id as int, replacement@, depth as nat) {
            Some(t) => res is Some && res.unwrap()@ == t,
            None => res is None,
        },
    decreases depth,
{
    if depth == 0 {
        return None;
    }
    proof {
        lemma_type_view(*typ);
        lemma_type_view(*replacement);
    }
    let is_var = match &typ.typ {
        TypeHead::TypeVariable(v) => v.id == var.id,
        TypeHead::TypeOperator(_) => false,
    };
    let head = if is_var {
        if typ.types.len() > 0 {
            let h = Type { typ: replacement.typ.clone(), types: crate::module::clone_types(&typ.types) };
            proof {
                lemma_type_view(h);
            }
            h
        } else {
            replacement.clone()
        }
    } else {
        typ.clone()
    };
    proof {
        lemma_type_view(head);
        assert(head@.args =~= replace_var_head(typ@, var.id as int, replacement@).args);
    }
    let mut types: Vec<Type> = Vec::new();
    let mut i: usize = 0;
    proof {
        assert(seq_view(types@) + head@.args.skip(0) =~= head@.args);
    }
    while i < head.types.len()
        invariant
            i <= head.types.len(),
            depth > 0,
            types@.len() == i,
            head@.args.len() == head.types@.len(),
            head@ == replace_var_head(typ@, var.id as int, replacement@),
            replace_var_args(head@.args, var.id as int, replacement@, (depth - 1) as nat, 0)
                == replace_var_args(
                seq_view(types@) + head@.args.skip(i as int),
                var.id as int,
                replacement@,
                (depth - 1) as nat,
                i as nat,
            ),
        decreases head.types.len() - i,
    {
        proof {
            lemma_type_view(head);
            assert((seq_view(types@) + head@.args.skip(i as int))[i as int]
                == head.types@[i as int]@);
        }
        match replace_var(&head.types[i], var, replacement, depth - 1) {
            Some(t) => {
                proof {
                    assert(seq_view(types@.push(t)) + head@.args.skip(i + 1) =~= (seq_view(types@)
                        + head@.args.skip(i as int)).update(i as int, t@));
                }
                types.push(t);
            },
            None => {
                return None;
            },
        }
        i += 1;
    }
    proof {
        assert(seq_view(types@) + head@.args.skip(i as int) =~= seq_view(types@));
    }
    let res = Type { typ: head.typ, types };
    proof {
        lemma_type_view(res);
    }
    Some(res)
}

/// The constraint of the class `class` on the variable `var`.
pub open spec fn constraint_on(class: Seq<char>, var: int) -> ConstraintModel {
    ConstraintModel { class, variables: seq![var] }
}

/// The constraints that `classes` adds for the variable `var` to `found`:
/// one for each class whose constraint on this variable `found` does not hold yet.
pub open spec fn add_constraints(
    found: Seq<ConstraintModel>,
    classes: Seq<Seq<char>>,
    var: int,
    i: nat,
) -> Seq<ConstraintModel>
    decreases classes.len() - i,
{
    if i >= classes.len() {
        found
    } else if found.contains(constraint_on(classes[i as int], var)) {
        add_constraints(found, classes, var, i + 1)
    } else {
        add_constraints(found.push(constraint_on(classes[i as int], var)), classes, var, i + 1)
    }
}

/// The constraints of the variables of `t`, in the order in which the
/// variables stand in it, added to `found`.
pub open spec fn find_constraints_spec(
    constraints: Classes,
    t: Ty,
    found: Seq<ConstraintModel>,
) -> Seq<ConstraintModel>
    decreases t, 1nat, 0nat,
{
    let here = match t.head {
        Head::Var(v) => match lookup(constraints, v) {
            Some(classes) => add_constraints(found, classes, v, 0),
            None => found,
        },
        Head::Op(_) => found,
    };
    find_constraints_args(constraints, t, here, 0)
}

pub open spec fn find_constraints_args(
    constraints: Classes,
    t: Ty,
    found: Seq<ConstraintModel>,
    i: nat,
) -> Seq<ConstraintModel>
    decreases t, 0nat, t.args.len() - i,
{
    if i >= t.args.len() {
        found
    } else {
        find_constraints_args(
            constraints,
            t,
            find_constraints_spec(constraints, t.args[i as int], found),
            i + 1,
        )
    }
}

fn holds_constraint(found: &Vec<Constraint>, class: &String, var: i64) -> (res: bool)
    ensures
        res == seq_view(found@).contains(constraint_on(class@, var as int)),
{
    let mut k: usize = 0;
    while k < found.len()
        invariant
            k <= found.len(),
            forall|j: int|
                0 <= j < k ==> (#[trigger] seq_view(found@)[j]) != constraint_on(class@, var as int),
        decreases found.len() - k,
    {
        let c = &found[k];
        let same = c.class == *class && c.variables.len() == 1 && c.variables[0].id == var;
        proof {
            assert(seq_view(found@)[k as int] == c@);
            if same {
                assert(c@.variables =~= seq![var as int]);
            } else if c@.class == class@ {
                if c@.variables == seq![var as int] {
                    assert(c@.variables.len() == 1);
                    assert(c@.variables[0] == var as int);
                }
            }
        }
        if same {
            return true;
        }
        k += 1;
    }
    false
}

fn collect_constraints(
    constraints: &Vec<(i64, Vec<String>)>,
    typ: &Type,
    found: &mut Vec<Constraint>,
)
    ensures
        seq_view(final(found)@) == find_constraints_spec(
            classes_model(constraints@),
            typ@,
            seq_view(old(found)@),
        ),
    decreases typ,
{
    proof {
        lemma_type_view(*typ);
    }
    match &typ.typ {
        TypeHead::TypeVariable(var) => {
            match lookup_classes(constraints, var.id) {
                Some(classes) => {
                    let mut i: usize = 0;
                    while i < classes.len()
                        invariant
                            i <= classes.len(),
                            add_constraints(
                                seq_view(old(found)@),
                                seq_view(classes@),
                                var.id as int,
                                0,
                            ) == add_constraints(
                                seq_view(found@),
                                seq_view(classes@),
                                var.id as int,
                                i as nat,
                            ),
                        decreases classes.len() - i,
                    {
                        if !holds_constraint(found, &classes[i], var.id) {
                            let mut variables: Vec<TypeVariable> = Vec::new();
                            variables.push(TypeVariable { id: var.id });
                            let c = Constraint { class: classes[i].clone(), variables };
                            proof {
                                assert(c@.variables =~= seq![var.id as int]);
                                assert(seq_view(found@.push(c)) =~= seq_view(found@).push(c@));
                            }
                            found.push(c);
                        }
                        i += 1;
                    }
                },
                None => {},
            }
        },
        TypeHead::TypeOperator(_) => {},
    }
    let ghost here = seq_view(found@);
    let mut i: usize = 0;
    while i < typ.types.len()
        invariant
            i <= typ.types.len(),
            typ@.args.len() == typ.types@.len(),
            find_constraints_args(classes_model(constraints@), typ@, here, 0)
                == find_constraints_args(
                classes_model(constraints@),
                typ@,
                seq_view(found@),
                i as nat,
            ),
        decreases typ.types.len() - i,
    {
        proof {
            lemma_type_view(*typ);
            assert(typ@.args[i as int] == typ.types@[i as int]@);
        }
        collect_constraints(constraints, &typ.types[i], found);
        i += 1;
    }
}

/// The environment with the substitution applied to the types of its names
/// from the index `i` on, in order.
pub open spec fn apply_spec(env: EnvironmentModel, subs: SubstitutionModel, i: nat) -> Option<
    EnvironmentModel,
>
    decreases env.named.len() - i,
{
    if i >= env.named.len() {
        Some(env)
    } else {
        match replace_spec(env.constraints, env.named[i as int].1, subs, DEPTH_LIMIT as nat) {
            None => None,
            Some((c, t)) => apply_spec(
                EnvironmentModel {
                    constraints: c,
                    named: env.named.update(i as int, (env.named[i as int].0, t)),
                    ..env
                },
                subs,
                i + 1,
            ),
        }
    }
}

impl TypeEnvironment {
    /// Finds all the constraints for a type.
    pub fn find_constraints(&self, typ: &Type) -> (res: Vec<Constraint>)
        ensures
            seq_view(res@) == find_constraints_spec(self@.constraints, typ@, Seq::empty()),
    {
        let mut result: Vec<Constraint> = Vec::new();
        proof {
            assert(seq_view(result@) =~= Seq::<ConstraintModel>::empty());
        }
        collect_constraints(&self.constraints, typ, &mut result);
        result
    }

    /// Applies a substitution on all global types.
    pub(crate) fn apply(&mut self, subs: &Substitution) -> (res: Result<(), TypeError>)
        ensures
            match apply_spec(old(self)@, subs@, 0) {
                Some(env) => res is Ok && final(self)@ == env,
                None => res is Err && res.unwrap_err()@ == TypeErrorModel::TooDeep,
            },
    {
        let mut i: usize = 0;
        while i < self.namedTypes.len()
            invariant
                apply_spec(old(self)@, subs@, 0) == apply_spec(self@, subs@, i as nat),
            decreases self.namedTypes.len() - i,
        {
            let ghost before = self@;
            proof {
                assert(self@.named[i as int] == (
                    self.namedTypes@[i as int].0@,
                    self.namedTypes@[i as int].1@,
                ));
            }
            let t = match replace_in(&mut self.constraints, &self.namedTypes[i].1, subs, DEPTH_LIMIT) {
                Some(t) => t,
                None => {
                    proof {
                        assert(apply_spec(before, subs@, i as nat) is None);
                    }
                    return Err(TypeError::TooDeep);
                },
            };
            let name = self.namedTypes[i].0.clone();
            self.namedTypes[i] = (name, t);
            proof {
                assert(self@.named =~= before.named.update(i as int, (before.named[i as int].0, t@)));
            }
            i += 1;
        }
        Ok(())
    }
}

impl TypedExprModel {
    pub open spec fn with_type(self, typ: Ty) -> TypedExprModel {
        TypedExprModel { typ, ..self }
    }
}

impl BindingModel {
    pub open spec fn with_expression(self, expression: TypedExprModel) -> BindingModel {
        BindingModel { expression, ..self }
    }
}

impl AlternativeModel {
    pub open spec fn with_expression(self, expression: TypedExprModel) -> AlternativeModel {
        AlternativeModel { expression, ..self }
    }
}

/// The expression `e` with the substitution applied to the type of each of
/// its nodes, the node itself first, then what it holds, in order; none where
/// a type or the expression is nested too deep.
pub open spec fn substitute_spec(
    constraints: Classes,
    subs: SubstitutionModel,
    e: TypedExprModel,
    depth: nat,
) -> Option<(Classes, TypedExprModel)>
    decreases depth, 0nat, 0nat,
{
    if depth == 0 {
        None
    } else {
        match replace_spec(constraints, e.typ, subs, DEPTH_LIMIT as nat) {
            None => None,
            Some((c1, t)) => {
                let d = (depth - 1) as nat;
                match e.expr {
                    ExprModel::Apply(func, arg) => match substitute_spec(c1, subs, *func, d) {
                        None => None,
                        Some((c2, f)) => match substitute_spec(c2, subs, *arg, d) {
                            None => None,
                            Some((c3, a)) => Some(
                                (
                                    c3,
                                    TypedExprModel {
                                        expr: ExprModel::Apply(Box::new(f), Box::new(a)),
                                        typ: t,
                                        location: e.location,
                                    },
                                ),
                            ),
                        },
                    },
                    ExprModel::Let(bindings, body) => match substitute_bindings(
                        c1,
                        subs,
                        bindings,
                        0,
                        d,
                    ) {
                        None => None,
                        Some((c2, bs)) => match substitute_spec(c2, subs, *body, d) {
                            None => None,
                            Some((c3, b)) => Some(
                                (
                                    c3,
                                    TypedExprModel {
                                        expr: ExprModel::Let(bs, Box::new(b)),
                                        typ: t,
                                        location: e.location,
                                    },
                                ),
                            ),
                        },
                    },
                    ExprModel::Case(scrutinee, alternatives) => match substitute_spec(
                        c1,
                        subs,
                        *scrutinee,
                        d,
                    ) {
                        None => None,
                        Some((c2, s)) => match substitute_alternatives(
                            c2,
                            subs,
                            alternatives,
                            0,
                            d,
                        ) {
                            None => None,
                            Some((c3, alts)) => Some(
                                (
                                    c3,
                                    TypedExprModel {
                                        expr: ExprModel::Case(Box::new(s), alts),
                                        typ: t,
                                        location: e.location,
                                    },
                                ),
                            ),
                        },
                    },
                    ExprModel::Lambda(arg, body) => match substitute_spec(c1, subs, *body, d) {
                        None => None,
                        Some((c2, b)) => Some(
                            (
                                c2,
                                TypedExprModel {
                                    expr: ExprModel::Lambda(arg, Box::new(b)),
                                    typ: t,
                                    location: e.location,
                                },
                            ),
                        ),
                    },
                    _ => Some((c1, e.with_type(t))),
                }
            },
        }
    }
}

pub open spec fn substitute_bindings(
    constraints: Classes,
    subs: SubstitutionModel,
    bindings: Seq<BindingModel>,
    i: nat,
    depth: nat,
) -> Option<(Classes, Seq<BindingModel>)>
    decreases depth, 1nat, bindings.len() - i,
{
    if i >= bindings.len() {
        Some((constraints, bindings))
    } else {
        match substitute_spec(constraints, subs, bindings[i as int].expression, depth) {
            None => None,
            Some((c, e)) => substitute_bindings(
                c,
                subs,
                bindings.update(i as int, bindings[i as int].with_expression(e)),
                i + 1,
                depth,
            ),
        }
    }
}

pub open spec fn substitute_alternatives(
    constraints: Classes,
    subs: SubstitutionModel,
    alternatives: Seq<AlternativeModel>,
    i: nat,
    depth: nat,
) -> Option<(Classes, Seq<AlternativeModel>)>
    decreases depth, 1nat, alternatives.len() - i,
{
    if i >= alternatives.len() {
        Some((constraints, alternatives))
    } else {
        match substitute_spec(constraints, subs, alternatives[i as int].expression, depth) {
            None => None,
            Some((c, e)) => substitute_alternatives(
                c,
                subs,
                alternatives.update(i as int, alternatives[i as int].with_expression(e)),
                i + 1,
                depth,
            ),
        }
    }
}

/// A copy of the leaf expression `expr`; for the other forms an identifier without name.
fn clone_leaf(expr: &Expr) -> (res: Expr)
    ensures
        (expr is Identifier || expr is Number || expr is Rational || expr is String || expr is Char)
            ==> crate::module::expr_model(res) == crate::module::expr_model(*expr),
{
    match expr {
        Expr::Identifier(name) => Expr::Identifier(name.clone()),
        Expr::Number(i) => Expr::Number(*i),
        Expr::Rational(d) => Expr::Rational(*d),
        Expr::String(text) => Expr::String(text.clone()),
        Expr::Char(c) => Expr::Char(*c),
        _ => Expr::Identifier(String::new()),
    }
}

/// Walks through an expression and applies the substitution on each of its types.
pub(crate) fn substitute(
    constraints: &mut Vec<(i64, Vec<String>)>,
    subs: &Substitution,
    expr: &TypedExpr,
    depth: usize,
) -> (res: Option<TypedExpr>)
    ensures
        match substitute_spec(classes_model(old(constraints)@), subs@, expr@, depth as nat) {
            Some((c, e)) => res is Some && res.unwrap()@ == e && classes_model(final(constraints)@)
                == c,
            None => res is None,
        },
    decreases depth, 0nat, 0nat,
{
    if depth == 0 {
        return None;
    }
    let t = match replace_in(constraints, &expr.typ, subs, DEPTH_LIMIT) {
        Some(t) => t,
        None => {
            return None;
        },
    };
    proof {
        lemma_expr_view(expr.expr);
    }
    match &expr.expr {
        Expr::Apply(func, arg) => {
            let f = match substitute(constraints, subs, func, depth - 1) {
                Some(f) => f,
                None => {
                    return None;
                },
            };
            let a = match substitute(constraints, subs, arg, depth - 1) {
                Some(a) => a,
                None => {
                    return None;
                },
            };
            Some(
                TypedExpr { expr: Expr::Apply(Box::new(f), Box::new(a)), typ: t, location: expr.location },
            )
        },
        Expr::Let(bindings, body) => {
            let bs = match substitute_in_bindings(constraints, subs, bindings, depth - 1) {
                Some(bs) => bs,
                None => {
                    return None;
                },
            };
            let b = match substitute(constraints, subs, body, depth - 1) {
                Some(b) => b,
                None => {
                    return None;
                },
            };
            let res = TypedExpr { expr: Expr::Let(bs, Box::new(b)), typ: t, location: expr.location };
            proof {
                lemma_expr_view(res.expr);
            }
            Some(res)
        },
        Expr::Case(scrutinee, alternatives) => {
            let s = match substitute(constraints, subs, scrutinee, depth - 1) {
                Some(s) => s,
                None => {
                    return None;
                },
            };
            let alts = match substitute_in_alternatives(constraints, subs, alternatives, depth - 1) {
                Some(alts) => alts,
                None => {
                    return None;
                },
            };
            let res = TypedExpr {
                expr: Expr::Case(Box::new(s), alts),
                typ: t,
                location: expr.location,
            };
            proof {
                lemma_expr_view(res.expr);
            }
            Some(res)
        },
        Expr::Lambda(arg, body) => {
            let b = match substitute(constraints, subs, body, depth - 1) {
                Some(b) => b,
                None => {
                    return None;
                },
            };
            Some(
                TypedExpr {
                    expr: Expr::Lambda(arg.clone(), Box::new(b)),
                    typ: t,
                    location: expr.location,
                },
            )
        },
        _ => Some(TypedExpr { expr: clone_leaf(&expr.expr), typ: t, location: expr.location }),
    }
}

fn substitute_in_bindings(
    constraints: &mut Vec<(i64, Vec<String>)>,
    subs: &Substitution,
    bindings: &Vec<Binding>,
    depth: usize,
) -> (res: Option<Vec<Binding>>)
    ensures
        match substitute_bindings(
            classes_model(old(constraints)@),
            subs@,
            seq_view(bindings@),
            0,
            depth as nat,
        ) {
            Some((c, bs)) => res is Some && seq_view(res.unwrap()@) == bs && classes_model(
                final(constraints)@,
            ) == c,
            None => res is None,
        },
    decreases depth, 1nat, 0nat,
{
    let mut out: Vec<Binding> = Vec::new();
    let mut i: usize = 0;
    proof {
        assert(seq_view(out@) + seq_view(bindings@).skip(0) =~= seq_view(bindings@));
    }
    while i < bindings.len()
        invariant
            i <= bindings.len(),
            out@.len() == i,
            substitute_bindings(
                classes_model(old(constraints)@),
                subs@,
                seq_view(bindings@),
                0,
                depth as nat,
            ) == substitute_bindings(
                classes_model(constraints@),
                subs@,
                seq_view(out@) + seq_view(bindings@).skip(i as int),
                i as nat,
                depth as nat,
            ),
        decreases bindings.len() - i,
    {
        let ghost current = seq_view(out@) + seq_view(bindings@).skip(i as int);
        proof {
            assert(current[i as int] == bindings@[i as int]@);
        }
        let e = match substitute(constraints, subs, &bindings[i].expression, depth) {
            Some(e) => e,
            None => {
                return None;
            },
        };
        let b = Binding {
            name: bindings[i].name.clone(),
            expression: e,
            typeDecl: bindings[i].typeDecl.clone(),
            arity: bindings[i].arity,
        };
        proof {
            assert(b@ == current[i as int].with_expression(e@));
            assert(seq_view(out@.push(b)) + seq_view(bindings@).skip(i + 1) =~= current.update(
                i as int,
                b@,
            ));
        }
        out.push(b);
        i += 1;
    }
    proof {
        assert(seq_view(out@) + seq_view(bindings@).skip(i as int) =~= seq_view(out@));
    }
    Some(out)
}

fn substitute_in_alternatives(
    constraints: &mut Vec<(i64, Vec<String>)>,
    subs: &Substitution,
    alternatives: &Vec<Alternative>,
    depth: usize,
) -> (res: Option<Vec<Alternative>>)
    ensures
        match substitute_alternatives(
            classes_model(old(constraints)@),
            subs@,
            seq_view(alternatives@),
            0,
            depth as nat,
        ) {
            Some((c, alts)) => res is Some && seq_view(res.unwrap()@) == alts && classes_model(
                final(constraints)@,
            ) == c,
            None => res is None,
        },
    decreases depth, 1nat, 0nat,
{
    let mut out: Vec<Alternative> = Vec::new();
    let mut i: usize = 0;
    proof {
        assert(seq_view(out@) + seq_view(alternatives@).skip(0) =~= seq_view(alternatives@));
    }
    while i < alternatives.len()
        invariant
            i <= alternatives.len(),
            out@.len() == i,
            substitute_alternatives(
                classes_model(old(constraints)@),
                subs@,
                seq_view(alternatives@),
                0,
                depth as nat,
            ) == substitute_alternatives(
                classes_model(constraints@),
                subs@,
                seq_view(out@) + seq_view(alternatives@).skip(i as int),
                i as nat,
                depth as nat,
            ),
        decreases alternatives.len() - i,
    {
        let ghost current = seq_view(out@) + seq_view(alternatives@).skip(i as int);
        proof {
            assert(current[i as int] == alternatives@[i as int]@);
        }
        let e = match substitute(constraints, subs, &alternatives[i].expression, depth) {
            Some(e) => e,
            None => {
                return None;
            },
        };
        let a = Alternative {
            pattern: Located {
                location: alternatives[i].pattern.location,
                node: alternatives[i].pattern.node.clone(),
            },
            expression: e,
        };
        proof {
            assert(a@ == current[i as int].with_expression(e@));
            assert(seq_view(out@.push(a)) + seq_view(alternatives@).skip(i + 1) =~= current.update(
                i as int,
                a@,
            ));
        }
        out.push(a);
        i += 1;
    }
    proof {
        assert(seq_view(out@) + seq_view(alternatives@).skip(i as int) =~= seq_view(out@));
    }
    Some(out)
}

/// The expression that names `i`.
pub fn identifier(i: String) -> (res: TypedExpr)
    ensures
        res@.expr == ExprModel::Identifier(i@),
        res@.typ == Ty::var(0),
        res@.location == crate::parser::no_location(),
{
    TypedExpr::new(Expr::Identifier(i))
}

/// The function of the parameter `arg` with the body `body`.
pub fn lambda(arg: String, body: TypedExpr) -> (res: TypedExpr)
    ensures
        res@.expr == ExprModel::Lambda(arg@, Box::new(body@)),
        res@.typ == Ty::var(0),
        res@.location == crate::parser::no_location(),
{
    TypedExpr::new(Expr::Lambda(arg, Box::new(body)))
}

/// The integer literal `i`.
pub fn number(i: i64) -> (res: TypedExpr)
    ensures
        res@.expr == ExprModel::Number(i),
        res@.typ == Ty::var(0),
        res@.location == crate::parser::no_location(),
{
    TypedExpr::new(Expr::Number(i))
}

/// The rational literal whose binary64 representation has the bits `bits`.
pub fn rational(bits: u64) -> (res: TypedExpr)
    ensures
        res@.expr == ExprModel::Rational(bits),
        res@.typ == Ty::var(0),
        res@.location == crate::parser::no_location(),
{
    TypedExpr::new(Expr::Rational(bits))
}

/// The application of `func` to `arg`.
pub fn apply(func: TypedExpr, arg: TypedExpr) -> (res: TypedExpr)
    ensures
        res@.expr == ExprModel::Apply(Box::new(func@), Box::new(arg@)),
        res@.typ == Ty::var(0),
        res@.location == crate::parser::no_location(),
{
    TypedExpr::new(Expr::Apply(Box::new(func), Box::new(arg)))
}

/// The expression `expr` in the scope of `bindings`.
pub fn let_(bindings: Vec<Binding>, expr: TypedExpr) -> (res: TypedExpr)
    ensures
        res@.expr == ExprModel::Let(seq_view(bindings@), Box::new(expr@)),
        res@.typ == Ty::var(0),
        res@.location == crate::parser::no_location(),
{
    let e = Expr::Let(bindings, Box::new(expr));
    proof {
        lemma_expr_view(e);
    }
    TypedExpr::new(e)
}

/// The analysis of `expr` by the alternatives `alts`.
pub fn case(expr: TypedExpr, alts: Vec<Alternative>) -> (res: TypedExpr)
    ensures
        res@.expr == ExprModel::Case(Box::new(expr@), seq_view(alts@)),
        res@.typ == Ty::var(0),
        res@.location == crate::parser::no_location(),
{
    let e = Expr::Case(Box::new(expr), alts);
    proof {
        lemma_expr_view(e);
    }
    TypedExpr::new(e)
}

/// The pairs of a class and the type `actual` that `classes` adds to
/// `found`: one for each class that no pair in `found` names yet.
pub open spec fn add_specialized(
    found: Seq<(Seq<char>, Ty)>,
    classes: Seq<Seq<char>>,
    actual: Ty,
    i: nat,
) -> Seq<(Seq<char>, Ty)>
    decreases classes.len() - i,
{
    if i >= classes.len() {
        found
    } else if exists|k: int| 0 <= k < found.len() && (#[trigger] found[k]).0 == classes[i as int] {
        add_specialized(found, classes, actual, i + 1)
    } else {
        add_specialized(found.push((classes[i as int], actual)), classes, actual, i + 1)
    }
}

/// The constraints that the type `actual` specialises: where it has an
/// operator in the place of a variable of `typ` that must belong to
/// classes, a pair of each such class and the type that stands there.
pub open spec fn find_specialized_spec(
    constraints: Classes,
    found: Seq<(Seq<char>, Ty)>,
    actual: Ty,
    typ: Ty,
) -> Seq<(Seq<char>, Ty)>
    decreases actual, 1nat, 0nat,
{
    let here = match (actual.head, typ.head) {
        (Head::Op(_), Head::Var(v)) => match lookup(constraints, v) {
            Some(classes) => add_specialized(found, classes, actual, 0),
            None => found,
        },
        _ => found,
    };
    find_specialized_args(constraints, here, actual, typ, 0)
}

pub open spec fn find_specialized_args(
    constraints: Classes,
    found: Seq<(Seq<char>, Ty)>,
    actual: Ty,
    typ: Ty,
    i: nat,
) -> Seq<(Seq<char>, Ty)>
    decreases actual, 0nat, actual.args.len() - i,
{
    if i >= actual.args.len() || i >= typ.args.len() {
        found
    } else {
        find_specialized_args(
            constraints,
            find_specialized_spec(constraints, found, actual.args[i as int], typ.args[i as int]),
            actual,
            typ,
            i + 1,
        )
    }
}

fn names_pair(found: &Vec<(String, Type)>, class: &String) -> (res: bool)
    ensures
        res == exists|k: int|
            0 <= k < names_model(found@).len() && (#[trigger] names_model(found@)[k]).0 == class@,
{
    let mut k: usize = 0;
    while k < found.len()
        invariant
            k <= found.len(),
            forall|j: int| 0 <= j < k ==> (#[trigger] names_model(found@)[j]).0 != class@,
        decreases found.len() - k,
    {
        if found[k].0 == *class {
            proof {
                assert(names_model(found@)[k as int].0 == class@);
            }
            return true;
        }
        k += 1;
    }
    false
}

fn find_specialized(
    constraints: &Vec<(i64, Vec<String>)>,
    found: &mut Vec<(String, Type)>,
    actual: &Type,
    typ: &Type,
)
    ensures
        names_model(final(found)@) == find_specialized_spec(
            classes_model(constraints@),
            names_model(old(found)@),
            actual@,
            typ@,
        ),
    decreases actual,
{
    proof {
        lemma_type_view(*actual);
        lemma_type_view(*typ);
    }
    match (&actual.typ, &typ.typ) {
        (TypeHead::TypeOperator(_), TypeHead::TypeVariable(var)) => {
            match lookup_classes(constraints, var.id) {
                Some(classes) => {
                    let mut i: usize = 0;
                    while i < classes.len()
                        invariant
                            i <= classes.len(),
                            add_specialized(
                                names_model(old(found)@),
                                seq_view(classes@),
                                actual@,
                                0,
                            ) == add_specialized(
                                names_model(found@),
                                seq_view(classes@),
                                actual@,
                                i as nat,
                            ),
                        decreases classes.len() - i,
                    {
                        if !names_pair(found, &classes[i]) {
                            let ghost before = names_model(found@);
                            found.push((classes[i].clone(), actual.clone()));
                            proof {
                                assert(names_model(found@) =~= before.push(
                                    (classes@[i as int]@, actual@),
                                ));
                            }
                        }
                        i += 1;
                    }
                },
                None => {},
            }
        },
        _ => {},
    }
    let ghost here = names_model(found@);
    let mut i: usize = 0;
    while i < actual.types.len() && i < typ.types.len()
        invariant
            i <= actual.types.len(),
            actual@.args.len() == actual.types@.len(),
            typ@.args.len() == typ.types@.len(),
            find_specialized_args(classes_model(constraints@), here, actual@, typ@, 0)
                == find_specialized_args(
                classes_model(constraints@),
                names_model(found@),
                actual@,
                typ@,
                i as nat,
            ),
        decreases actual.types.len() - i,
    {
        proof {
            lemma_type_view(*actual);
            lemma_type_view(*typ);
            assert(actual@.args[i as int] == actual.types@[i as int]@);
            assert(typ@.args[i as int] == typ.types@[i as int]@);
        }
        find_specialized(constraints, found, &actual.types[i], &typ.types[i]);
        i += 1;
    }
}

impl TypeEnvironment {
    /// Searches through a type, comparing it with the type of the
    /// identifier, and returns all the specialised constraints; none where
    /// nothing defines the identifier.
    pub fn find_specialized_instances(&self, name: &String, actual_type: &Type) -> (res: Option<
        Vec<(String, Type)>,
    >)
        ensures
            match self@.find(name@) {
                Some(t) => res is Some && names_model(res->Some_0@) == find_specialized_spec(
                    self@.constraints,
                    Seq::empty(),
                    actual_type@,
                    t,
                ),
                None => res is None,
            },
    {
        match self.find(name) {
            Some(typ) => {
                let mut found: Vec<(String, Type)> = Vec::new();
                proof {
                    assert(names_model(found@) =~= Seq::empty());
                }
                find_specialized(&self.constraints, &mut found, actual_type, &typ);
                Some(found)
            },
            None => None,
        }
    }
}

/// Applying a substitution to the types of all names removes no class from any variable.
pub proof fn lemma_apply_keeps_classes(
    env: EnvironmentModel,
    subs: SubstitutionModel,
    i: nat,
    var: int,
    class: Seq<char>,
)
    requires
        carries(env.constraints, var, class),
        apply_spec(env, subs, i) is Some,
    ensures
        carries(apply_spec(env, subs, i)->Some_0.constraints, var, class),
    decreases env.named.len() - i,
{
    if i < env.named.len() {
        lemma_replace_keeps_classes(
            env.constraints,
            env.named[i as int].1,
            subs,
            DEPTH_LIMIT as nat,
            var,
            class,
        );
        let (c, t) = replace_spec(env.constraints, env.named[i as int].1, subs, DEPTH_LIMIT as nat)->Some_0;
        lemma_apply_keeps_classes(
            EnvironmentModel {
                constraints: c,
                named: env.named.update(i as int, (env.named[i as int].0, t)),
                ..env
            },
            subs,
            i + 1,
            var,
            class,
        );
    }
}

/// The constraint `x` is one of a class that the variable `x.variables[0]`
/// of the type `t` must belong to.
pub open spec fn constrains(constraints: Classes, t: Ty, x: ConstraintModel) -> bool {
    x.variables.len() == 1 && occurs_spec(x.variables[0], t) && carries(
        constraints,
        x.variables[0],
        x.class,
    )
}

proof fn lemma_add_constraints(
    found: Seq<ConstraintModel>,
    classes: Seq<Seq<char>>,
    var: int,
    i: nat,
)
    ensures
        forall|x: ConstraintModel|
            found.contains(x) ==> #[trigger] add_constraints(found, classes, var, i).contains(x),
        forall|k: int|
            i <= k < classes.len() ==> add_constraints(found, classes, var, i).contains(
                constraint_on(#[trigger] classes[k], var),
            ),
        forall|x: ConstraintModel| #[trigger]
            add_constraints(found, classes, var, i).contains(x) ==> found.contains(x) || (
            x.variables == seq![var] && classes.contains(x.class)),
        found.no_duplicates() ==> add_constraints(found, classes, var, i).no_duplicates(),
    decreases classes.len() - i,
{
    if i < classes.len() {
        let c = constraint_on(classes[i as int], var);
        let next = if found.contains(c) {
            found
        } else {
            found.push(c)
        };
        lemma_add_constraints(next, classes, var, i + 1);
        let r = add_constraints(found, classes, var, i);
        assert(r == add_constraints(next, classes, var, i + 1));
        assert(next.contains(c)) by {
            if !found.contains(c) {
                assert(next[found.len() as int] == c);
            }
        }
        assert forall|x: ConstraintModel| found.contains(x) implies #[trigger] r.contains(x) by {
            let k = choose|k: int| 0 <= k < found.len() && found[k] == x;
            assert(next[k] == x);
        }
        assert forall|x: ConstraintModel| #[trigger] r.contains(x) implies found.contains(x) || (
        x.variables == seq![var] && classes.contains(x.class)) by {
            if next.contains(x) && !found.contains(x) {
                let k = choose|k: int| 0 <= k < next.len() && next[k] == x;
                if k < found.len() {
                    assert(found[k] == x);
                }
                assert(x == c);
                assert(classes[i as int] == x.class);
            }
        }
        if found.no_duplicates() && !found.contains(c) {
            assert forall|a: int, b: int| 0 <= a < next.len() && 0 <= b < next.len() && a
                != b implies next[a] != next[b] by {
                if a < found.len() && b < found.len() {
                } else if a < found.len() {
                    assert(found[a] != c);
                } else {
                    assert(found[b] != c);
                }
            }
        }
    }
}

/// `find_constraints` gives the constraints of a type directly: on top of
/// what was found before, it holds a constraint exactly for each pair of a
/// variable that occurs in the type and a class that this variable must
/// belong to, and each only once.
pub proof fn lemma_find_constraints(constraints: Classes, t: Ty, found: Seq<ConstraintModel>)
    ensures
        forall|x: ConstraintModel|
            found.contains(x) ==> #[trigger] find_constraints_spec(constraints, t, found).contains(
                x,
            ),
        forall|x: ConstraintModel|
            constrains(constraints, t, x) ==> #[trigger] find_constraints_spec(
                constraints,
                t,
                found,
            ).contains(x),
        forall|x: ConstraintModel| #[trigger]
            find_constraints_spec(constraints, t, found).contains(x) ==> found.contains(x)
                || constrains(constraints, t, x),
        found.no_duplicates() ==> find_constraints_spec(constraints, t, found).no_duplicates(),
    decreases t, 1nat, 0nat,
{
    let here = match t.head {
        Head::Var(v) => match lookup(constraints, v) {
            Some(classes) => add_constraints(found, classes, v, 0),
            None => found,
        },
        Head::Op(_) => found,
    };
    match t.head {
        Head::Var(v) => match lookup(constraints, v) {
            Some(classes) => {
                lemma_add_constraints(found, classes, v, 0);
                assert forall|x: ConstraintModel| #[trigger] here.contains(x) implies found.contains(
                    x,
                ) || constrains(constraints, t, x) by {
                    if !found.contains(x) {
                        assert(x.variables == seq![v]);
                        assert(x.variables[0] == v);
                    }
                }
                assert forall|x: ConstraintModel|
                    x.variables.len() == 1 && x.variables[0] == v && carries(
                        constraints,
                        v,
                        x.class,
                    ) implies #[trigger] here.contains(x) by {
                    let k = choose|k: int| 0 <= k < classes.len() && classes[k] == x.class;
                    assert(x.variables =~= seq![v]);
                    assert(x == constraint_on(classes[k], v));
                }
            },
            None => {},
        },
        Head::Op(_) => {},
    }
    lemma_find_constraints_args(constraints, t, here, 0);
    let r = find_constraints_spec(constraints, t, found);
    assert(r == find_constraints_args(constraints, t, here, 0));
    assert forall|x: ConstraintModel| found.contains(x) implies #[trigger] r.contains(x) by {
        assert(here.contains(x));
    }
    assert forall|x: ConstraintModel| constrains(constraints, t, x) implies #[trigger] r.contains(
        x,
    ) by {
        if t.head == Head::Var(x.variables[0]) {
            assert(here.contains(x));
        } else {
            let k = choose|k: int| 0 <= k < t.args.len() && occurs_spec(
                x.variables[0],
                #[trigger] t.args[k],
            );
            assert(constrains(constraints, t.args[k], x));
        }
    }
    assert forall|x: ConstraintModel| #[trigger] r.contains(x) implies found.contains(x)
        || constrains(constraints, t, x) by {
        if !here.contains(x) {
            let k = choose|k: int| 0 <= k < t.args.len() && constrains(
                constraints,
                #[trigger] t.args[k],
                x,
            );
            assert(occurs_spec(x.variables[0], t.args[k]));
        }
    }
}

proof fn lemma_find_constraints_args(
    constraints: Classes,
    t: Ty,
    found: Seq<ConstraintModel>,
    i: nat,
)
    ensures
        forall|x: ConstraintModel|
            found.contains(x) ==> #[trigger] find_constraints_args(constraints, t, found, i).contains(
                x,
            ),
        forall|x: ConstraintModel, k: int|
            i <= k < t.args.len() && constrains(constraints, #[trigger] t.args[k], x)
                ==> #[trigger] find_constraints_args(constraints, t, found, i).contains(x),
        forall|x: ConstraintModel| #[trigger]
            find_constraints_args(constraints, t, found, i).contains(x) ==> found.contains(x)
                || exists|k: int|
                i <= k < t.args.len() && constrains(constraints, #[trigger] t.args[k], x),
        found.no_duplicates() ==> find_constraints_args(constraints, t, found, i).no_duplicates(),
    decreases t, 0nat, t.args.len() - i,
{
    if i < t.args.len() {
        let next = find_constraints_spec(constraints, t.args[i as int], found);
        lemma_find_constraints(constraints, t.args[i as int], found);
        lemma_find_constraints_args(constraints, t, next, i + 1);
        let r = find_constraints_args(constraints, t, found, i);
        assert(r == find_constraints_args(constraints, t, next, i + 1));
        assert forall|x: ConstraintModel| found.contains(x) implies #[trigger] r.contains(x) by {
            assert(next.contains(x));
        }
        assert forall|x: ConstraintModel, k: int|
            i <= k < t.args.len() && constrains(constraints, #[trigger] t.args[k], x)
            implies #[trigger] r.contains(x) by {
            if k == i {
                assert(next.contains(x));
            }
        }
        assert forall|x: ConstraintModel| #[trigger] r.contains(x) implies found.contains(x)
            || exists|k: int|
            i <= k < t.args.len() && constrains(constraints, #[trigger] t.args[k], x) by {
            if next.contains(x) {
                if !found.contains(x) {
                    assert(constrains(constraints, t.args[i as int], x));
                }
            } else {
                let k = choose|k: int|
                    i + 1 <= k < t.args.len() && constrains(constraints, #[trigger] t.args[k], x);
                assert(i <= k);
            }
        }
    }
}

} // verus!
