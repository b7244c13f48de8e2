//! The state of one run of type inference, its model, and the rules by which
//! expressions, patterns and groups of bindings get their types.
use crate::environment::{EnvironmentModel, TypeEnvironment, TypeError, TypeErrorModel, DEPTH_LIMIT};
use crate::graph::{
    edge, holds, in_group, in_group_upto, lemma_components_ordered, lemma_components_partition,
    scc_spec, strongly_connected_components, Graph,
};
use crate::module::{
    lemma_expr_view, lemma_pattern_view, lemma_type_view, seq_view, Alternative, AlternativeModel,
    Binding, BindingModel, DeclarationModel, Expr, ExprModel, Head, Located, Location, Pattern,
    PatternModel, Ty, Type, TypeHead, TypedExpr, TypedExprModel,
};
use crate::scope::{bind, freshen_in, freshen_spec, restore, TypeScope, TypeScopeModel};
use crate::substitution::{function_type, replace_in, replace_spec, Substitution, SubstitutionModel};
use crate::tables::{
    find_name, insert, insert_classes, insert_type, lemma_position_absent, lemma_position_found,
    lookup, types_model,
};
use crate::typecheck::{
    apply_spec, find_constraints_spec, get_returntype, return_type, substitute, substitute_spec,
};
use crate::unify::{unify_at, unify_location_spec};
use vstd::prelude::*;

verus! {

/// The state of one run of type inference.
pub struct Inference {
    pub env: TypeEnvironment,
    pub scope: TypeScope,
    pub subs: Substitution,
}

pub struct InferenceModel {
    pub env: EnvironmentModel,
    pub scope: TypeScopeModel,
    pub subs: SubstitutionModel,
}

impl View for Inference {
    type V = InferenceModel;

    open spec fn view(&self) -> InferenceModel {
        InferenceModel { env: self.env@, scope: self.scope@, subs: self.subs@ }
    }
}

/// What a rule gives: the state after it and its result, or why the program is rejected.
pub type Checked<T> = Result<(InferenceModel, T), TypeErrorModel>;

/// A type of which nothing is known yet: a type variable without arguments.
pub open spec fn is_unknown(t: Ty) -> bool {
    t.head is Var && t.args.len() == 0
}

pub open spec fn int_type() -> Ty {
    Ty::op("Int"@, Seq::empty())
}

pub open spec fn char_type() -> Ty {
    Ty::op("Char"@, Seq::empty())
}

pub open spec fn list_type(t: Ty) -> Ty {
    Ty::op("[]"@, seq![t])
}

impl InferenceModel {
    /// A fresh type variable.
    pub open spec fn fresh(self) -> Checked<Ty> {
        match self.env.fresh() {
            Some((env, t)) => Ok((InferenceModel { env, ..self }, t)),
            None => Err(TypeErrorModel::TooManyVariables),
        }
    }

    /// The type `t`, or a fresh type variable where nothing is known of `t`.
    pub open spec fn start(self, t: Ty) -> Checked<Ty> {
        if is_unknown(t) {
            self.fresh()
        } else {
            Ok((self, t))
        }
    }

    /// The type variable at the head of `t` must belong to `class`, and to
    /// nothing else that was asked of it before.
    pub open spec fn constrain(self, t: Ty, class: Seq<char>) -> InferenceModel {
        match t.head {
            Head::Var(v) => InferenceModel {
                env: EnvironmentModel {
                    constraints: insert(self.env.constraints, v, seq![class]),
                    ..self.env
                },
                ..self
            },
            Head::Op(_) => self,
        }
    }

    /// The substitution applied to `t`.
    pub open spec fn replace(self, t: Ty) -> Checked<Ty> {
        match replace_spec(self.env.constraints, t, self.subs, DEPTH_LIMIT as nat) {
            Some((c, r)) => Ok(
                (InferenceModel { env: EnvironmentModel { constraints: c, ..self.env }, ..self }, r),
            ),
            None => Err(TypeErrorModel::TooDeep),
        }
    }

    /// Unification of `lhs` and `rhs` at `location`.
    pub open spec fn unify(self, location: Location, lhs: Ty, rhs: Ty) -> Checked<(Ty, Ty)> {
        match unify_location_spec(self.env, self.subs, location, lhs, rhs) {
            Ok((env, subs, l, r)) => Ok((InferenceModel { env, subs, ..self }, (l, r))),
            Err(e) => Err(e),
        }
    }

    /// The substitution applied to the types of all names.
    pub open spec fn apply(self) -> Result<InferenceModel, TypeErrorModel> {
        match apply_spec(self.env, self.subs, 0) {
            Some(env) => Ok(InferenceModel { env, ..self }),
            None => Err(TypeErrorModel::TooDeep),
        }
    }

    /// The substitution applied to the types of the expression `e`.
    pub open spec fn substitute(self, e: TypedExprModel) -> Checked<TypedExprModel> {
        match substitute_spec(self.env.constraints, self.subs, e, DEPTH_LIMIT as nat) {
            Some((c, r)) => Ok(
                (InferenceModel { env: EnvironmentModel { constraints: c, ..self.env }, ..self }, r),
            ),
            None => Err(TypeErrorModel::TooDeep),
        }
    }

    /// The name `name` has the type `t` until the current scope ends.
    pub open spec fn insert(self, name: Seq<char>, t: Ty) -> InferenceModel {
        InferenceModel {
            scope: self.scope.shadow(name, lookup(self.env.named, name)),
            env: EnvironmentModel { named: bind(self.env.named, name, t), ..self.env },
            ..self
        }
    }

    pub open spec fn enter(self) -> InferenceModel {
        InferenceModel { scope: self.scope.enter(), ..self }
    }

    pub open spec fn leave(self) -> InferenceModel {
        InferenceModel {
            scope: self.scope.leave(),
            env: EnvironmentModel {
                named: restore(self.env.named, self.scope.vars),
                ..self.env
            },
            ..self
        }
    }

    pub open spec fn non_generic(self, t: Ty) -> InferenceModel {
        InferenceModel { scope: self.scope.with_non_generic(t), ..self }
    }

    pub open spec fn pop_non_generic(self) -> InferenceModel {
        InferenceModel { scope: self.scope.without_last_non_generic(), ..self }
    }

    pub open spec fn bind_variable(self, var: int, t: Ty) -> InferenceModel {
        InferenceModel {
            subs: SubstitutionModel { subs: insert(self.subs.subs, var, t), ..self.subs },
            ..self
        }
    }

    /// The type of `name` with fresh variables for its generic variables;
    /// none where nothing defines the name.
    pub open spec fn instantiate(self, name: Seq<char>) -> Result<
        Option<(InferenceModel, Ty)>,
        TypeErrorModel,
    > {
        match self.env.find(name) {
            None => Ok(None),
            Some(t) => match freshen_spec(self.env, self.scope, Seq::empty(), t) {
                None => Err(TypeErrorModel::TooManyVariables),
                Some((env, _, r)) => Ok(Some((InferenceModel { env, ..self }, r))),
            },
        }
    }
}

/// The type of the expression `e` and of each expression in it.
pub open spec fn infer_spec(st: InferenceModel, e: TypedExprModel, depth: nat) -> Checked<
    TypedExprModel,
>
    decreases depth, 0nat, 0nat,
{
    if depth == 0 {
        Err(TypeErrorModel::TooDeep)
    } else {
        let d = (depth - 1) as nat;
        match st.start(e.typ) {
            Err(err) => Err(err),
            Ok((st1, typ)) => match e.expr {
                ExprModel::Number(_) => Ok((st1.constrain(typ, "Num"@), e.with_type(typ))),
                ExprModel::Rational(_) => Ok(
                    (st1.constrain(typ, "Fractional"@), e.with_type(typ)),
                ),
                ExprModel::String(_) => Ok((st1, e.with_type(list_type(char_type())))),
                ExprModel::Char(_) => Ok((st1, e.with_type(char_type()))),
                ExprModel::Identifier(name) => match st1.instantiate(name) {
                    Err(err) => Err(err),
                    Ok(None) => Err(TypeErrorModel::UndefinedIdentifier(name, e.location)),
                    Ok(Some((st2, t))) => Ok((st2, e.with_type(t))),
                },
                ExprModel::Apply(func, arg) => infer_apply(st1, e.location, *func, *arg, d),
                ExprModel::Lambda(arg, body) => infer_lambda(st1, e.location, arg, *body, d),
                ExprModel::Let(bindings, body) => infer_let(st1, e.location, bindings, *body, d),
                ExprModel::Case(scrutinee, alternatives) => infer_case(
                    st1,
                    e.location,
                    *scrutinee,
                    alternatives,
                    d,
                ),
            },
        }
    }
}

/// An application: the type of the function is unified with a function type
/// from the type of the argument to a fresh variable, which is the result.
pub open spec fn infer_apply(
    st: InferenceModel,
    location: Location,
    func: TypedExprModel,
    arg: TypedExprModel,
    depth: nat,
) -> Checked<TypedExprModel>
    decreases depth, 9nat, 0nat,
{
    match infer_spec(st, func, depth) {
        Err(e) => Err(e),
        Ok((st2, f1)) => match st2.replace(f1.typ) {
            Err(e) => Err(e),
            Ok((st3, ft)) => match infer_spec(st3, arg, depth) {
                Err(e) => Err(e),
                Ok((st4, a1)) => match st4.replace(a1.typ) {
                    Err(e) => Err(e),
                    Ok((st5, at)) => match st5.fresh() {
                        Err(e) => Err(e),
                        Ok((st6, v)) => match st6.unify(location, ft, Ty::function(at, v)) {
                            Err(e) => Err(e),
                            Ok((st7, (ft2, typ3))) => match st7.replace(typ3) {
                                Err(e) => Err(e),
                                Ok((st8, typ4)) => Ok(
                                    (
                                        st8,
                                        TypedExprModel {
                                            expr: ExprModel::Apply(
                                                Box::new(f1.with_type(ft2)),
                                                Box::new(a1.with_type(at)),
                                            ),
                                            typ: if typ4.args.len() >= 2 {
                                                typ4.args[1]
                                            } else {
                                                typ4
                                            },
                                            location,
                                        },
                                    ),
                                ),
                            },
                        },
                    },
                },
            },
        },
    }
}

/// A lambda: the parameter gets a fresh type, which is not generic in the body.
pub open spec fn infer_lambda(
    st: InferenceModel,
    location: Location,
    arg: Seq<char>,
    body: TypedExprModel,
    depth: nat,
) -> Checked<TypedExprModel>
    decreases depth, 9nat, 0nat,
{
    match st.fresh() {
        Err(e) => Err(e),
        Ok((st1, arg_type)) => match st1.fresh() {
            Err(e) => Err(e),
            Ok((st2, result)) => match infer_spec(
                st2.enter().insert(arg, arg_type).non_generic(arg_type),
                body,
                depth,
            ) {
                Err(e) => Err(e),
                Ok((st4, body1)) => match st4.leave().replace(Ty::function(arg_type, result)) {
                    Err(e) => Err(e),
                    Ok((st6, typ3)) => Ok(
                        (
                            st6,
                            TypedExprModel {
                                expr: ExprModel::Lambda(arg, Box::new(body1)),
                                typ: if typ3.args.len() >= 2 {
                                    Ty { args: typ3.args.update(1, body1.typ), ..typ3 }
                                } else {
                                    typ3
                                },
                                location,
                            },
                        ),
                    ),
                },
            },
        },
    }
}

/// A `let`: its bindings are typed as one group of mutually recursive
/// bindings in a scope of their own, then the body.
pub open spec fn infer_let(
    st: InferenceModel,
    location: Location,
    bindings: Seq<BindingModel>,
    body: TypedExprModel,
    depth: nat,
) -> Checked<TypedExprModel>
    decreases depth, 9nat, 0nat,
{
    match infer_bindings(st.enter(), bindings, depth) {
        Err(e) => Err(e),
        Ok((st1, bs)) => match st1.apply() {
            Err(e) => Err(e),
            Ok(st2) => match infer_spec(st2, body, depth) {
                Err(e) => Err(e),
                Ok((st3, body1)) => match st3.leave().replace(body1.typ) {
                    Err(e) => Err(e),
                    Ok((st4, bt)) => Ok(
                        (
                            st4,
                            TypedExprModel {
                                expr: ExprModel::Let(bs, Box::new(body1.with_type(bt))),
                                typ: bt,
                                location,
                            },
                        ),
                    ),
                },
            },
        },
    }
}

/// A `case`: each pattern is typed against the type of the scrutinee, and
/// the types of all branches are unified.
pub open spec fn infer_case(
    st: InferenceModel,
    location: Location,
    scrutinee: TypedExprModel,
    alternatives: Seq<AlternativeModel>,
    depth: nat,
) -> Checked<TypedExprModel>
    decreases depth, 9nat, 0nat,
{
    match infer_spec(st, scrutinee, depth) {
        Err(e) => Err(e),
        Ok((st1, s1)) => if alternatives.len() == 0 {
            Err(TypeErrorModel::EmptyCase(location))
        } else {
            match infer_pattern(
                st1,
                alternatives[0].location,
                alternatives[0].pattern,
                s1.typ,
                depth,
            ) {
                Err(e) => Err(e),
                Ok((st2, mt)) => match infer_spec(st2, alternatives[0].expression, depth) {
                    Err(e) => Err(e),
                    Ok((st3, e0)) => match infer_alternatives(
                        st3,
                        alternatives,
                        1,
                        mt,
                        e0.typ,
                        depth,
                    ) {
                        Err(e) => Err(e),
                        Ok((st4, (rest, mt1, first))) => match st4.replace(e0.typ) {
                            Err(e) => Err(e),
                            Ok((st5, t0)) => match st5.replace(mt1) {
                                Err(e) => Err(e),
                                Ok((st6, matched)) => Ok(
                                    (
                                        st6,
                                        TypedExprModel {
                                            expr: ExprModel::Case(
                                                Box::new(s1.with_type(matched)),
                                                seq![
                                                    alternatives[0].with_expression(
                                                        e0.with_type(t0),
                                                    ),
                                                ] + rest,
                                            ),
                                            typ: first,
                                            location,
                                        },
                                    ),
                                ),
                            },
                        },
                    },
                },
            }
        },
    }
}

/// The alternatives of a `case` from the index `i` on: these alternatives as
/// typed, the type of the scrutinee, and the type of the first branch.
pub open spec fn infer_alternatives(
    st: InferenceModel,
    alternatives: Seq<AlternativeModel>,
    i: nat,
    matched: Ty,
    first: Ty,
    depth: nat,
) -> Checked<(Seq<AlternativeModel>, Ty, Ty)>
    decreases depth, 1nat, alternatives.len() - i,
{
    if i >= alternatives.len() {
        Ok((st, (Seq::empty(), matched, first)))
    } else {
        let alt = alternatives[i as int];
        match infer_pattern(st, alt.location, alt.pattern, matched, depth) {
            Err(e) => Err(e),
            Ok((st1, mt)) => match infer_spec(st1, alt.expression, depth) {
                Err(e) => Err(e),
                Ok((st2, e1)) => match st2.unify(e1.location, first, e1.typ) {
                    Err(e) => Err(e),
                    Ok((st3, (first1, et))) => match st3.replace(et) {
                        Err(e) => Err(e),
                        Ok((st4, et2)) => match infer_alternatives(
                            st4,
                            alternatives,
                            i + 1,
                            mt,
                            first1,
                            depth,
                        ) {
                            Err(e) => Err(e),
                            Ok((st5, (rest, m, f))) => Ok(
                                (
                                    st5,
                                    (seq![alt.with_expression(e1.with_type(et2))] + rest, m, f),
                                ),
                            ),
                        },
                    },
                },
            },
        }
    }
}

/// A pattern against the type `matched` of what it is matched with: the
/// variables of the pattern get their types in the current scope and are not
/// generic. The result is `matched` after unification.
pub open spec fn infer_pattern(
    st: InferenceModel,
    location: Location,
    pattern: PatternModel,
    matched: Ty,
    depth: nat,
) -> Checked<Ty>
    decreases depth, 0nat, 0nat,
{
    if depth == 0 {
        Err(TypeErrorModel::TooDeep)
    } else {
        match pattern {
            PatternModel::Identifier(ident) => match st.fresh() {
                Err(e) => Err(e),
                Ok((st1, typ)) => match st1.unify(location, typ, matched) {
                    Err(e) => Err(e),
                    Ok((st2, (typ1, mt1))) => match st2.replace(mt1) {
                        Err(e) => Err(e),
                        Ok((st3, mt2)) => match st3.replace(typ1) {
                            Err(e) => Err(e),
                            Ok((st4, typ2)) => Ok(
                                (st4.insert(ident, typ2).non_generic(typ2), mt2),
                            ),
                        },
                    },
                },
            },
            PatternModel::Number(_) => match st.unify(location, int_type(), matched) {
                Err(e) => Err(e),
                Ok((st2, (typ1, mt1))) => match st2.replace(mt1) {
                    Err(e) => Err(e),
                    Ok((st3, mt2)) => match st3.replace(typ1) {
                        Err(e) => Err(e),
                        Ok((st4, _)) => Ok((st4, mt2)),
                    },
                },
            },
            PatternModel::Constructor(name, patterns) => match st.instantiate(name) {
                Err(e) => Err(e),
                Ok(None) => Err(TypeErrorModel::UndefinedConstructor(name, location)),
                Ok(Some((st1, t))) => match st1.unify(location, return_type(t), matched) {
                    Err(e) => Err(e),
                    Ok((st2, (_, mt1))) => match st2.replace(mt1) {
                        Err(e) => Err(e),
                        Ok((st3, mt2)) => match st3.replace(t) {
                            Err(e) => Err(e),
                            Ok((st4, t2)) => match st4.apply() {
                                Err(e) => Err(e),
                                Ok(st5) => match infer_patterns(
                                    st5,
                                    location,
                                    patterns,
                                    0,
                                    t2,
                                    (depth - 1) as nat,
                                ) {
                                    Err(e) => Err(e),
                                    Ok(st6) => Ok((st6, mt2)),
                                },
                            },
                        },
                    },
                },
            },
        }
    }
}

/// The patterns of a constructor pattern from the index `i` on, against the
/// parameter types of the constructor's type `func_type`.
pub open spec fn infer_patterns(
    st: InferenceModel,
    location: Location,
    patterns: Seq<PatternModel>,
    i: nat,
    func_type: Ty,
    depth: nat,
) -> Result<InferenceModel, TypeErrorModel>
    decreases depth, 1nat, patterns.len() - i,
{
    if i >= patterns.len() {
        Ok(st)
    } else if func_type.args.len() < 2 {
        Err(TypeErrorModel::PatternArity(location))
    } else {
        match infer_pattern(st, location, patterns[i as int], func_type.args[0], depth) {
            Err(e) => Err(e),
            Ok((st1, _)) => infer_patterns(st1, location, patterns, i + 1, func_type.args[1], depth),
        }
    }
}

/// For each name the index of the last binding of that name.
pub open spec fn binding_indices(
    bindings: Seq<BindingModel>,
    i: nat,
    table: Seq<(Seq<char>, usize)>,
) -> Seq<(Seq<char>, usize)>
    decreases bindings.len() - i,
{
    if i >= bindings.len() {
        table
    } else {
        binding_indices(bindings, i + 1, insert(table, bindings[i as int].name, i as usize))
    }
}

/// The bindings that the expression `e` names, in the order in which it
/// names them, added to `found`; none where the expression is nested deeper
/// than `depth`.
pub open spec fn references_spec(
    table: Seq<(Seq<char>, usize)>,
    e: TypedExprModel,
    found: Seq<usize>,
    depth: nat,
) -> Option<Seq<usize>>
    decreases depth, 0nat, 0nat,
{
    if depth == 0 {
        None
    } else {
        let d = (depth - 1) as nat;
        match e.expr {
            ExprModel::Identifier(name) => Some(
                match lookup(table, name) {
                    Some(index) => found.push(index),
                    None => found,
                },
            ),
            ExprModel::Lambda(_, body) => references_spec(table, *body, found, d),
            ExprModel::Apply(func, arg) => match references_spec(table, *func, found, d) {
                Some(r) => references_spec(table, *arg, r, d),
                None => None,
            },
            ExprModel::Let(bindings, body) => match references_spec(table, *body, found, d) {
                Some(r) => references_bindings(table, bindings, 0, r, d),
                None => None,
            },
            ExprModel::Case(scrutinee, alternatives) => match references_spec(
                table,
                *scrutinee,
                found,
                d,
            ) {
                Some(r) => references_alternatives(table, alternatives, 0, r, d),
                None => None,
            },
            _ => Some(found),
        }
    }
}

pub open spec fn references_bindings(
    table: Seq<(Seq<char>, usize)>,
    bindings: Seq<BindingModel>,
    i: nat,
    found: Seq<usize>,
    depth: nat,
) -> Option<Seq<usize>>
    decreases depth, 1nat, bindings.len() - i,
{
    if i >= bindings.len() {
        Some(found)
    } else {
        match references_spec(table, bindings[i as int].expression, found, depth) {
            Some(r) => references_bindings(table, bindings, i + 1, r, depth),
            None => None,
        }
    }
}

pub open spec fn references_alternatives(
    table: Seq<(Seq<char>, usize)>,
    alternatives: Seq<AlternativeModel>,
    i: nat,
    found: Seq<usize>,
    depth: nat,
) -> Option<Seq<usize>>
    decreases depth, 1nat, alternatives.len() - i,
{
    if i >= alternatives.len() {
        Some(found)
    } else {
        match references_spec(table, alternatives[i as int].expression, found, depth) {
            Some(r) => references_alternatives(table, alternatives, i + 1, r, depth),
            None => None,
        }
    }
}

/// The edges of the dependency graph from the binding `i` on: each binding
/// leads to the bindings that its expression names.
pub open spec fn graph_edges(
    table: Seq<(Seq<char>, usize)>,
    bindings: Seq<BindingModel>,
    i: nat,
    graph: Seq<Seq<usize>>,
) -> Option<Seq<Seq<usize>>>
    decreases bindings.len() - i,
{
    if i >= bindings.len() {
        Some(graph)
    } else {
        match lookup(table, bindings[i as int].name) {
            Some(from) => if from < graph.len() {
                match references_spec(
                    table,
                    bindings[i as int].expression,
                    graph[from as int],
                    DEPTH_LIMIT as nat,
                ) {
                    Some(edges) => graph_edges(
                        table,
                        bindings,
                        i + 1,
                        graph.update(from as int, edges),
                    ),
                    None => None,
                }
            } else {
                graph_edges(table, bindings, i + 1, graph)
            },
            None => graph_edges(table, bindings, i + 1, graph),
        }
    }
}

/// The dependency graph of the bindings: one vertex for each binding, and an
/// edge from a binding to each binding that its expression names.
pub open spec fn graph_spec(bindings: Seq<BindingModel>) -> Option<Seq<Seq<usize>>> {
    graph_edges(
        binding_indices(bindings, 0, Seq::empty()),
        bindings,
        0,
        Seq::new(bindings.len(), |i: int| Seq::empty()),
    )
}

impl BindingModel {
    pub open spec fn with_types(self, typ: Ty, declared: Ty) -> BindingModel {
        BindingModel {
            expression: self.expression.with_type(typ),
            decl: DeclarationModel { typ: declared, ..self.decl },
            ..self
        }
    }
}

/// The bindings as one group of mutually recursive bindings: they are typed
/// component by component of their dependency graph, each after those that it
/// leads to.
pub open spec fn infer_bindings(st: InferenceModel, bindings: Seq<BindingModel>, depth: nat) -> Checked<
    Seq<BindingModel>,
>
    decreases depth, 5nat, 0nat,
{
    match graph_spec(bindings) {
        None => Err(TypeErrorModel::TooDeep),
        Some(graph) => infer_groups(st, bindings, scc_spec(graph), 0, depth),
    }
}

pub open spec fn infer_groups(
    st: InferenceModel,
    bindings: Seq<BindingModel>,
    groups: Seq<Seq<usize>>,
    i: nat,
    depth: nat,
) -> Checked<Seq<BindingModel>>
    decreases depth, 4nat, groups.len() - i,
{
    if i >= groups.len() {
        Ok((st, bindings))
    } else {
        match declare_group(st, bindings, groups[i as int], 0) {
            Err(e) => Err(e),
            Ok((st1, bs1)) => match check_group(st1, bs1, groups[i as int], 0, depth) {
                Err(e) => Err(e),
                Ok((st2, bs2)) => match finish_group(st2, bs2, groups[i as int], 0) {
                    Err(e) => Err(e),
                    Ok((st3, bs3)) => infer_groups(st3, bs3, groups, i + 1, depth),
                },
            },
        }
    }
}

/// Each binding of the group from the index `k` on gets a fresh type
/// variable, under which its name is known, and a fresh variable for its
/// declared type where it has none.
pub open spec fn declare_group(
    st: InferenceModel,
    bindings: Seq<BindingModel>,
    group: Seq<usize>,
    k: nat,
) -> Checked<Seq<BindingModel>>
    decreases group.len() - k,
{
    if k >= group.len() {
        Ok((st, bindings))
    } else if group[k as int] >= bindings.len() {
        declare_group(st, bindings, group, k + 1)
    } else {
        let index = group[k as int] as int;
        let b = bindings[index];
        match st.fresh() {
            Err(e) => Err(e),
            Ok((st1, t)) => match st1.insert(b.name, t).start(b.decl.typ) {
                Err(e) => Err(e),
                Ok((st2, declared)) => declare_group(
                    st2,
                    bindings.update(index, b.with_types(t, declared)),
                    group,
                    k + 1,
                ),
            },
        }
    }
}

/// Each binding of the group from the index `k` on is typed: its type is
/// not generic meanwhile, is unified with its declared type, and then stands
/// for its type variable.
pub open spec fn check_group(
    st: InferenceModel,
    bindings: Seq<BindingModel>,
    group: Seq<usize>,
    k: nat,
    depth: nat,
) -> Checked<Seq<BindingModel>>
    decreases depth, 3nat, group.len() - k,
{
    if k >= group.len() {
        Ok((st, bindings))
    } else if group[k as int] >= bindings.len() {
        check_group(st, bindings, group, k + 1, depth)
    } else {
        let index = group[k as int] as int;
        let b = bindings[index];
        match infer_spec(st.non_generic(b.expression.typ), b.expression, depth) {
            Err(e) => Err(e),
            Ok((st2, e1)) => match st2.unify(e1.location, b.decl.typ, e1.typ) {
                Err(e) => Err(e),
                Ok((st3, (declared, et))) => match st3.substitute(e1.with_type(et)) {
                    Err(e) => Err(e),
                    Ok((st4, e2)) => match st4.bind_variable(
                        b.expression.typ.var_id(),
                        e2.typ,
                    ).apply() {
                        Err(e) => Err(e),
                        Ok(st6) => check_group(
                            st6,
                            bindings.update(
                                index,
                                BindingModel {
                                    expression: e2,
                                    decl: DeclarationModel { typ: declared, ..b.decl },
                                    ..b
                                },
                            ),
                            group,
                            k + 1,
                            depth,
                        ),
                    },
                },
            },
        }
    }
}

/// Each binding of the group from the index `k` on gets its final type, which
/// is also its declared type, with the constraints of its variables as context.
pub open spec fn finish_group(
    st: InferenceModel,
    bindings: Seq<BindingModel>,
    group: Seq<usize>,
    k: nat,
) -> Checked<Seq<BindingModel>>
    decreases group.len() - k,
{
    if k >= group.len() {
        Ok((st, bindings))
    } else if group[k as int] >= bindings.len() {
        finish_group(st, bindings, group, k + 1)
    } else {
        let index = group[k as int] as int;
        let b = bindings[index];
        match st.pop_non_generic().substitute(b.expression) {
            Err(e) => Err(e),
            Ok((st2, e3)) => finish_group(
                st2,
                bindings.update(
                    index,
                    BindingModel {
                        expression: e3,
                        decl: DeclarationModel {
                            typ: e3.typ,
                            context: find_constraints_spec(
                                st2.env.constraints,
                                e3.typ,
                                Seq::empty(),
                            ),
                            ..b.decl
                        },
                        ..b
                    },
                ),
                group,
                k + 1,
            ),
        }
    }
}

/// `res`, with the state `st` after the rule, is what the model `spec` of the rule says.
pub open spec fn checked<T: View>(
    spec: Checked<T::V>,
    st: InferenceModel,
    res: Result<T, TypeError>,
) -> bool {
    match spec {
        Ok((s, v)) => res is Ok && res->Ok_0@ == v && st == s,
        Err(e) => res is Err && res->Err_0@ == e,
    }
}

/// As `checked`, for a rule without a result.
pub open spec fn done(
    spec: Result<InferenceModel, TypeErrorModel>,
    st: InferenceModel,
    res: Result<(), TypeError>,
) -> bool {
    match spec {
        Ok(s) => res is Ok && st == s,
        Err(e) => res is Err && res.unwrap_err()@ == e,
    }
}

impl Inference {
    pub(crate) fn fresh(&mut self) -> (res: Result<Type, TypeError>)
        ensures
            checked(old(self)@.fresh(), final(self)@, res),
    {
        self.env.new_var()
    }

    pub(crate) fn start(&mut self, t: &Type) -> (res: Result<Type, TypeError>)
        ensures
            checked(old(self)@.start(t@), final(self)@, res),
    {
        proof {
            lemma_type_view(*t);
        }
        if t.is_variable() && t.types.len() == 0 {
            self.fresh()
        } else {
            Ok(t.clone())
        }
    }

    pub fn constrain(&mut self, t: &Type, class: &str)
        ensures
            final(self)@ == old(self)@.constrain(t@, class@),
    {
        proof {
            lemma_type_view(*t);
        }
        match &t.typ {
            TypeHead::TypeVariable(v) => {
                let mut classes: Vec<String> = Vec::new();
                classes.push(String::from_str(class));
                proof {
                    assert(seq_view(classes@) =~= seq![class@]);
                }
                insert_classes(&mut self.env.constraints, v.id, classes);
            },
            TypeHead::TypeOperator(_) => {},
        }
    }

    pub(crate) fn replace(&mut self, t: &Type) -> (res: Result<Type, TypeError>)
        ensures
            checked(old(self)@.replace(t@), final(self)@, res),
    {
        match replace_in(&mut self.env.constraints, t, &self.subs, DEPTH_LIMIT) {
            Some(r) => Ok(r),
            None => Err(TypeError::TooDeep),
        }
    }

    pub(crate) fn unify(&mut self, location: &Location, lhs: &Type, rhs: &Type) -> (res: Result<
        (Type, Type),
        TypeError,
    >)
        ensures
            checked(old(self)@.unify(*location, lhs@, rhs@), final(self)@, res),
    {
        unify_at(&mut self.env, &mut self.subs, location, lhs, rhs)
    }

    pub(crate) fn apply(&mut self) -> (res: Result<(), TypeError>)
        ensures
            done(old(self)@.apply(), final(self)@, res),
    {
        self.env.apply(&self.subs)
    }

    pub(crate) fn substitute(&mut self, e: &TypedExpr) -> (res: Result<TypedExpr, TypeError>)
        ensures
            checked(old(self)@.substitute(e@), final(self)@, res),
    {
        match substitute(&mut self.env.constraints, &self.subs, e, DEPTH_LIMIT) {
            Some(r) => Ok(r),
            None => Err(TypeError::TooDeep),
        }
    }

    pub fn insert(&mut self, name: String, t: &Type)
        ensures
            final(self)@ == old(self)@.insert(name@, t@),
    {
        self.scope.insert(&mut self.env, name, t);
    }

    pub fn enter(&mut self)
        ensures
            final(self)@ == old(self)@.enter(),
    {
        self.scope.enter();
    }

    pub fn leave(&mut self)
        ensures
            final(self)@ == old(self)@.leave(),
    {
        self.scope.leave(&mut self.env);
    }

    pub fn non_generic(&mut self, t: Type)
        ensures
            final(self)@ == old(self)@.non_generic(t@),
    {
        self.scope.push_non_generic(t);
    }

    pub fn pop_non_generic(&mut self)
        ensures
            final(self)@ == old(self)@.pop_non_generic(),
    {
        self.scope.pop_non_generic();
    }

    pub fn bind_variable(&mut self, var: i64, t: Type)
        ensures
            final(self)@ == old(self)@.bind_variable(var as int, t@),
    {
        insert_type(&mut self.subs.subs, var, t);
    }

    /// Instantiates new type variables for every generic type variable in
    /// the type found at `name`.
    pub(crate) fn instantiate(&mut self, name: &String) -> (res: Result<Option<Type>, TypeError>)
        ensures
            match old(self)@.instantiate(name@) {
                Ok(Some((st, t))) => res is Ok && res.unwrap() is Some && res.unwrap().unwrap()@
                    == t && final(self)@ == st,
                Ok(None) => res is Ok && res.unwrap() is None && final(self)@ == old(self)@,
                Err(e) => res is Err && res.unwrap_err()@ == e,
            },
    {
        match self.env.find(name) {
            Some(t) => {
                let mut mapping: Vec<(i64, Type)> = Vec::new();
                proof {
                    assert(types_model(mapping@) =~= Seq::empty());
                }
                match freshen_in(&mut self.env, &self.scope, &mut mapping, &t) {
                    Ok(r) => Ok(Some(r)),
                    Err(e) => Err(e),
                }
            },
            None => Ok(None),
        }
    }
}

fn with_type(e: TypedExpr, typ: Type) -> (res: TypedExpr)
    ensures
        res@ == e@.with_type(typ@),
{
    TypedExpr { expr: e.expr, typ, location: e.location }
}

/// Infers the type of the expression and of each expression in it.
pub(crate) fn infer(ck: &mut Inference, expr: &TypedExpr, depth: usize) -> (res: Result<
    TypedExpr,
    TypeError,
>)
    ensures
        checked(infer_spec(old(ck)@, expr@, depth as nat), final(ck)@, res),
    decreases depth, 0nat, 0nat,
{
    if depth == 0 {
        return Err(TypeError::TooDeep);
    }
    let typ = match ck.start(&expr.typ) {
        Ok(typ) => typ,
        Err(e) => {
            return Err(e);
        },
    };
    proof {
        lemma_expr_view(expr.expr);
    }
    match &expr.expr {
        Expr::Number(i) => {
            ck.constrain(&typ, "Num");
            Ok(TypedExpr { expr: Expr::Number(*i), typ, location: expr.location })
        },
        Expr::Rational(d) => {
            ck.constrain(&typ, "Fractional");
            Ok(TypedExpr { expr: Expr::Rational(*d), typ, location: expr.location })
        },
        Expr::String(text) => {
            let mut types: Vec<Type> = Vec::new();
            types.push(Type::new_op(String::from_str("Char"), Vec::new()));
            proof {
                assert(seq_view(Seq::<Type>::empty()) =~= Seq::<Ty>::empty());
                assert(seq_view(types@) =~= seq![char_type()]);
            }
            Ok(
                TypedExpr {
                    expr: Expr::String(text.clone()),
                    typ: Type::new_op(String::from_str("[]"), types),
                    location: expr.location,
                },
            )
        },
        Expr::Char(c) => {
            proof {
                assert(seq_view(Seq::<Type>::empty()) =~= Seq::<Ty>::empty());
            }
            Ok(
                TypedExpr {
                    expr: Expr::Char(*c),
                    typ: Type::new_op(String::from_str("Char"), Vec::new()),
                    location: expr.location,
                },
            )
        },
        Expr::Identifier(name) => match ck.instantiate(name) {
            Ok(Some(t)) => Ok(
                TypedExpr { expr: Expr::Identifier(name.clone()), typ: t, location: expr.location },
            ),
            Ok(None) => Err(TypeError::UndefinedIdentifier(name.clone(), expr.location)),
            Err(e) => Err(e),
        },
        Expr::Apply(func, arg) => check_apply(ck, &expr.location, func, arg, depth - 1),
        Expr::Lambda(arg, body) => check_lambda(ck, &expr.location, arg, body, depth - 1),
        Expr::Let(bindings, body) => check_let(ck, &expr.location, bindings, body, depth - 1),
        Expr::Case(scrutinee, alternatives) => check_case(
            ck,
            &expr.location,
            scrutinee,
            alternatives,
            depth - 1,
        ),
    }
}

fn check_apply(
    ck: &mut Inference,
    location: &Location,
    func: &TypedExpr,
    arg: &TypedExpr,
    depth: usize,
) -> (res: Result<TypedExpr, TypeError>)
    ensures
        checked(infer_apply(old(ck)@, *location, func@, arg@, depth as nat), final(ck)@, res),
    decreases depth, 9nat, 0nat,
{
    let f1 = match infer(ck, func, depth) {
        Ok(x) => x,
        Err(e) => {
            return Err(e);
        },
    };
    let ft = match ck.replace(&f1.typ) {
        Ok(x) => x,
        Err(e) => {
            return Err(e);
        },
    };
    let a1 = match infer(ck, arg, depth) {
        Ok(x) => x,
        Err(e) => {
            return Err(e);
        },
    };
    let at = match ck.replace(&a1.typ) {
        Ok(x) => x,
        Err(e) => {
            return Err(e);
        },
    };
    let v = match ck.fresh() {
        Ok(x) => x,
        Err(e) => {
            return Err(e);
        },
    };
    let typ2 = function_type(&at, &v);
    let (ft2, typ3) = match ck.unify(location, &ft, &typ2) {
        Ok(x) => x,
        Err(e) => {
            return Err(e);
        },
    };
    let typ4 = match ck.replace(&typ3) {
        Ok(x) => x,
        Err(e) => {
            return Err(e);
        },
    };
    proof {
        lemma_type_view(typ4);
    }
    let typ = if typ4.types.len() >= 2 {
        typ4.types[1].clone()
    } else {
        typ4
    };
    Ok(
        TypedExpr {
            expr: Expr::Apply(Box::new(with_type(f1, ft2)), Box::new(with_type(a1, at))),
            typ,
            location: *location,
        },
    )
}

fn check_lambda(
    ck: &mut Inference,
    location: &Location,
    arg: &String,
    body: &TypedExpr,
    depth: usize,
) -> (res: Result<TypedExpr, TypeError>)
    ensures
        checked(infer_lambda(old(ck)@, *location, arg@, body@, depth as nat), final(ck)@, res),
    decreases depth, 9nat, 0nat,
{
    let arg_type = match ck.fresh() {
        Ok(x) => x,
        Err(e) => {
            return Err(e);
        },
    };
    let result = match ck.fresh() {
        Ok(x) => x,
        Err(e) => {
            return Err(e);
        },
    };
    let typ2 = function_type(&arg_type, &result);
    ck.enter();
    ck.insert(arg.clone(), &arg_type);
    ck.non_generic(arg_type.clone());
    let body1 = match infer(ck, body, depth) {
        Ok(x) => x,
        Err(e) => {
            return Err(e);
        },
    };
    ck.leave();
    let typ3 = match ck.replace(&typ2) {
        Ok(x) => x,
        Err(e) => {
            return Err(e);
        },
    };
    proof {
        lemma_type_view(typ3);
    }
    let typ = if typ3.types.len() >= 2 {
        let mut types = crate::module::clone_types(&typ3.types);
        types[1] = body1.typ.clone();
        let t = Type { typ: typ3.typ, types };
        proof {
            lemma_type_view(t);
            assert(t@.args =~= typ3@.args.update(1, body1@.typ));
        }
        t
    } else {
        typ3
    };
    Ok(
        TypedExpr {
            expr: Expr::Lambda(arg.clone(), Box::new(body1)),
            typ,
            location: *location,
        },
    )
}

fn check_let(
    ck: &mut Inference,
    location: &Location,
    bindings: &Vec<Binding>,
    body: &TypedExpr,
    depth: usize,
) -> (res: Result<TypedExpr, TypeError>)
    ensures
        checked(
            infer_let(old(ck)@, *location, seq_view(bindings@), body@, depth as nat),
            final(ck)@,
            res,
        ),
    decreases depth, 9nat, 0nat,
{
    ck.enter();
    let bs = match check_bindings(ck, bindings, depth) {
        Ok(x) => x,
        Err(e) => {
            return Err(e);
        },
    };
    match ck.apply() {
        Ok(()) => {},
        Err(e) => {
            return Err(e);
        },
    }
    let body1 = match infer(ck, body, depth) {
        Ok(x) => x,
        Err(e) => {
            return Err(e);
        },
    };
    ck.leave();
    let bt = match ck.replace(&body1.typ) {
        Ok(x) => x,
        Err(e) => {
            return Err(e);
        },
    };
    let res = TypedExpr {
        expr: Expr::Let(bs, Box::new(with_type(body1, bt.clone()))),
        typ: bt,
        location: *location,
    };
    proof {
        lemma_expr_view(res.expr);
    }
    Ok(res)
}

/// `res` is what the model `spec` of a rule on bindings says.
pub open spec fn checked_bindings(
    spec: Checked<Seq<BindingModel>>,
    st: InferenceModel,
    res: Result<Vec<Binding>, TypeError>,
) -> bool {
    match spec {
        Ok((s, v)) => res is Ok && seq_view(res.unwrap()@) == v && st == s,
        Err(e) => res is Err && res.unwrap_err()@ == e,
    }
}

fn copy_pattern(p: &Located<Pattern>) -> (res: Located<Pattern>)
    ensures
        res.location == p.location,
        res.node@ == p.node@,
{
    Located { location: p.location, node: p.node.clone() }
}

fn check_case(
    ck: &mut Inference,
    location: &Location,
    scrutinee: &TypedExpr,
    alternatives: &Vec<Alternative>,
    depth: usize,
) -> (res: Result<TypedExpr, TypeError>)
    ensures
        checked(
            infer_case(old(ck)@, *location, scrutinee@, seq_view(alternatives@), depth as nat),
            final(ck)@,
            res,
        ),
    decreases depth, 9nat, 0nat,
{
    let s1 = match infer(ck, scrutinee, depth) {
        Ok(x) => x,
        Err(e) => {
            return Err(e);
        },
    };
    if alternatives.len() == 0 {
        return Err(TypeError::EmptyCase(*location));
    }
    proof {
        assert(seq_view(alternatives@)[0] == alternatives@[0]@);
    }
    let mt = match check_pattern(
        ck,
        &alternatives[0].pattern.location,
        &alternatives[0].pattern.node,
        &s1.typ,
        depth,
    ) {
        Ok(x) => x,
        Err(e) => {
            return Err(e);
        },
    };
    let e0 = match infer(ck, &alternatives[0].expression, depth) {
        Ok(x) => x,
        Err(e) => {
            return Err(e);
        },
    };
    let mut rest: Vec<Alternative> = Vec::new();
    proof {
        assert(seq_view(rest@) =~= Seq::<AlternativeModel>::empty());
    }
    let (mt1, first) = match check_alternatives(
        ck,
        alternatives,
        1,
        mt,
        e0.typ.clone(),
        &mut rest,
        depth,
    ) {
        Ok(x) => x,
        Err(e) => {
            return Err(e);
        },
    };
    let t0 = match ck.replace(&e0.typ) {
        Ok(x) => x,
        Err(e) => {
            return Err(e);
        },
    };
    let matched = match ck.replace(&mt1) {
        Ok(x) => x,
        Err(e) => {
            return Err(e);
        },
    };
    let head = Alternative {
        pattern: copy_pattern(&alternatives[0].pattern),
        expression: with_type(e0, t0),
    };
    let mut alts: Vec<Alternative> = Vec::new();
    alts.push(head);
    let ghost typed = seq_view(rest@);
    alts.append(&mut rest);
    proof {
        assert(seq_view(alts@) =~= seq![head@] + typed);
    }
    let res = TypedExpr {
        expr: Expr::Case(Box::new(with_type(s1, matched)), alts),
        typ: first,
        location: *location,
    };
    proof {
        lemma_expr_view(res.expr);
    }
    Ok(res)
}

fn check_alternatives(
    ck: &mut Inference,
    alternatives: &Vec<Alternative>,
    i: usize,
    matched: Type,
    first: Type,
    out: &mut Vec<Alternative>,
    depth: usize,
) -> (res: Result<(Type, Type), TypeError>)
    ensures
        match infer_alternatives(
            old(ck)@,
            seq_view(alternatives@),
            i as nat,
            matched@,
            first@,
            depth as nat,
        ) {
            Ok((st, (typed, m, f))) => res is Ok && res->Ok_0.0@ == m && res->Ok_0.1@ == f
                && final(ck)@ == st && seq_view(final(out)@) == seq_view(old(out)@) + typed,
            Err(e) => res is Err && res->Err_0@ == e,
        },
    decreases depth, 1nat, alternatives@.len() - i,
{
    if i >= alternatives.len() {
        proof {
            assert(seq_view(out@) + Seq::<AlternativeModel>::empty() =~= seq_view(out@));
        }
        return Ok((matched, first));
    }
    let alt = &alternatives[i];
    proof {
        assert(seq_view(alternatives@)[i as int] == alt@);
    }
    let mt = match check_pattern(ck, &alt.pattern.location, &alt.pattern.node, &matched, depth) {
        Ok(x) => x,
        Err(e) => {
            return Err(e);
        },
    };
    let e1 = match infer(ck, &alt.expression, depth) {
        Ok(x) => x,
        Err(e) => {
            return Err(e);
        },
    };
    let (first1, et) = match ck.unify(&e1.location, &first, &e1.typ) {
        Ok(x) => x,
        Err(e) => {
            return Err(e);
        },
    };
    let et2 = match ck.replace(&et) {
        Ok(x) => x,
        Err(e) => {
            return Err(e);
        },
    };
    let typed = Alternative { pattern: copy_pattern(&alt.pattern), expression: with_type(e1, et2) };
    let ghost before = seq_view(out@);
    out.push(typed);
    proof {
        assert(seq_view(out@) =~= before.push(typed@));
    }
    match check_alternatives(ck, alternatives, i + 1, mt, first1, out, depth) {
        Ok(x) => {
            proof {
                let rest = infer_alternatives(
                    old(ck)@,
                    seq_view(alternatives@),
                    i as nat,
                    matched@,
                    first@,
                    depth as nat,
                )->Ok_0.1.0;
                assert(seq_view(out@) =~= before + rest);
            }
            Ok(x)
        },
        Err(e) => Err(e),
    }
}

/// Types the pattern against the type of what it is matched with.
pub(crate) fn check_pattern(
    ck: &mut Inference,
    location: &Location,
    pattern: &Pattern,
    matched: &Type,
    depth: usize,
) -> (res: Result<Type, TypeError>)
    ensures
        checked(
            infer_pattern(old(ck)@, *location, pattern@, matched@, depth as nat),
            final(ck)@,
            res,
        ),
    decreases depth, 0nat, 0nat,
{
    if depth == 0 {
        return Err(TypeError::TooDeep);
    }
    match pattern {
        Pattern::IdentifierPattern(ident) => {
            let typ = match ck.fresh() {
                Ok(x) => x,
                Err(e) => {
                    return Err(e);
                },
            };
            let (typ1, mt1) = match ck.unify(location, &typ, matched) {
                Ok(x) => x,
                Err(e) => {
                    return Err(e);
                },
            };
            let mt2 = match ck.replace(&mt1) {
                Ok(x) => x,
                Err(e) => {
                    return Err(e);
                },
            };
            let typ2 = match ck.replace(&typ1) {
                Ok(x) => x,
                Err(e) => {
                    return Err(e);
                },
            };
            ck.insert(ident.clone(), &typ2);
            ck.non_generic(typ2);
            Ok(mt2)
        },
        Pattern::NumberPattern(_) => {
            proof {
                assert(seq_view(Seq::<Type>::empty()) =~= Seq::<Ty>::empty());
            }
            let typ = Type::new_op(String::from_str("Int"), Vec::new());
            let (typ1, mt1) = match ck.unify(location, &typ, matched) {
                Ok(x) => x,
                Err(e) => {
                    return Err(e);
                },
            };
            let mt2 = match ck.replace(&mt1) {
                Ok(x) => x,
                Err(e) => {
                    return Err(e);
                },
            };
            match ck.replace(&typ1) {
                Ok(_) => Ok(mt2),
                Err(e) => Err(e),
            }
        },
        Pattern::ConstructorPattern(name, patterns) => {
            proof {
                lemma_pattern_view(*pattern);
            }
            let t = match ck.instantiate(name) {
                Ok(Some(t)) => t,
                Ok(None) => {
                    return Err(TypeError::UndefinedConstructor(name.clone(), *location));
                },
                Err(e) => {
                    return Err(e);
                },
            };
            let data_type = get_returntype(&t);
            let (_, mt1) = match ck.unify(location, &data_type, matched) {
                Ok(x) => x,
                Err(e) => {
                    return Err(e);
                },
            };
            let mt2 = match ck.replace(&mt1) {
                Ok(x) => x,
                Err(e) => {
                    return Err(e);
                },
            };
            let t2 = match ck.replace(&t) {
                Ok(x) => x,
                Err(e) => {
                    return Err(e);
                },
            };
            match ck.apply() {
                Ok(()) => {},
                Err(e) => {
                    return Err(e);
                },
            }
            match check_patterns(ck, location, patterns, 0, &t2, depth - 1) {
                Ok(()) => Ok(mt2),
                Err(e) => Err(e),
            }
        },
    }
}

fn check_patterns(
    ck: &mut Inference,
    location: &Location,
    patterns: &Vec<Pattern>,
    i: usize,
    func_type: &Type,
    depth: usize,
) -> (res: Result<(), TypeError>)
    ensures
        done(
            infer_patterns(
                old(ck)@,
                *location,
                seq_view(patterns@),
                i as nat,
                func_type@,
                depth as nat,
            ),
            final(ck)@,
            res,
        ),
    decreases depth, 1nat, patterns@.len() - i,
{
    proof {
        lemma_type_view(*func_type);
    }
    if i >= patterns.len() {
        return Ok(());
    }
    if func_type.types.len() < 2 {
        return Err(TypeError::PatternArity(*location));
    }
    match check_pattern(ck, location, &patterns[i], &func_type.types[0], depth) {
        Ok(_) => check_patterns(ck, location, patterns, i + 1, &func_type.types[1], depth),
        Err(e) => Err(e),
    }
}

/// Model of the table from names to the indices of bindings.
pub open spec fn index_model(t: Seq<(String, usize)>) -> Seq<(Seq<char>, usize)> {
    Seq::new(t.len(), |i: int| (t[i].0@, t[i].1))
}

fn lookup_index(table: &Vec<(String, usize)>, name: &String) -> (res: Option<usize>)
    ensures
        res == lookup(index_model(table@), name@),
{
    match find_name(table, name) {
        Some(i) => {
            proof {
                assert(index_model(table@)[i as int].0 == name@);
                lemma_position_found(index_model(table@), name@, i as int);
            }
            Some(table[i].1)
        },
        None => {
            proof {
                lemma_position_absent(index_model(table@), name@);
            }
            None
        },
    }
}

fn insert_index(table: &mut Vec<(String, usize)>, name: String, index: usize)
    ensures
        index_model(final(table)@) == insert(index_model(old(table)@), name@, index),
{
    match find_name(table, &name) {
        Some(i) => {
            proof {
                assert(index_model(table@)[i as int].0 == name@);
                lemma_position_found(index_model(table@), name@, i as int);
            }
            table[i] = (name, index);
            proof {
                assert(index_model(table@) =~= insert(index_model(old(table)@), name@, index));
            }
        },
        None => {
            proof {
                lemma_position_absent(index_model(table@), name@);
            }
            table.push((name, index));
            proof {
                assert(index_model(table@) =~= insert(index_model(old(table)@), name@, index));
            }
        },
    }
}

/// `graph` is `before` with the edges of the vertex `from` as `edges` says; `ok` says whether
/// there are such edges.
pub open spec fn edges_added(
    edges: Option<Seq<usize>>,
    before: Seq<Seq<usize>>,
    from: int,
    graph: Seq<Seq<usize>>,
    ok: bool,
) -> bool {
    match edges {
        Some(e) => ok && graph == before.update(from, e),
        None => !ok,
    }
}

/// Adds an edge from the vertex `from` to each binding that the expression names.
fn add_edges(
    graph: &mut Graph<usize>,
    table: &Vec<(String, usize)>,
    from: usize,
    expr: &TypedExpr,
    depth: usize,
) -> (res: bool)
    requires
        from < old(graph)@.edges.len(),
    ensures
        final(graph)@.edges.len() == old(graph)@.edges.len(),
        final(graph)@.values == old(graph)@.values,
        edges_added(
            references_spec(index_model(table@), expr@, old(graph)@.edges[from as int], depth as nat),
            old(graph)@.edges,
            from as int,
            final(graph)@.edges,
            res,
        ),
    decreases depth, 0nat, 0nat,
{
    if depth == 0 {
        return false;
    }
    proof {
        lemma_expr_view(expr.expr);
    }
    match &expr.expr {
        Expr::Identifier(name) => {
            match lookup_index(table, name) {
                Some(index) => {
                    graph.connect(from, index);
                },
                None => {
                    proof {
                        assert(graph@.edges =~= old(graph)@.edges.update(from as int, old(graph)@.edges[from as int]));
                    }
                },
            }
            true
        },
        Expr::Lambda(_, body) => add_edges(graph, table, from, body, depth - 1),
        Expr::Apply(func, arg) => {
            if !add_edges(graph, table, from, func, depth - 1) {
                return false;
            }
            let ok = add_edges(graph, table, from, arg, depth - 1);
            proof {
                if ok {
                    assert(graph@.edges =~= old(graph)@.edges.update(from as int, graph@.edges[from as int]));
                }
            }
            ok
        },
        Expr::Let(bindings, body) => {
            if !add_edges(graph, table, from, body, depth - 1) {
                return false;
            }
            let ok = add_edges_bindings(graph, table, from, bindings, 0, depth - 1);
            proof {
                if ok {
                    assert(graph@.edges =~= old(graph)@.edges.update(from as int, graph@.edges[from as int]));
                }
            }
            ok
        },
        Expr::Case(scrutinee, alternatives) => {
            if !add_edges(graph, table, from, scrutinee, depth - 1) {
                return false;
            }
            let ok = add_edges_alternatives(graph, table, from, alternatives, 0, depth - 1);
            proof {
                if ok {
                    assert(graph@.edges =~= old(graph)@.edges.update(from as int, graph@.edges[from as int]));
                }
            }
            ok
        },
        _ => {
            proof {
                assert(graph@.edges =~= old(graph)@.edges.update(from as int, old(graph)@.edges[from as int]));
            }
            true
        },
    }
}

fn add_edges_bindings(
    graph: &mut Graph<usize>,
    table: &Vec<(String, usize)>,
    from: usize,
    bindings: &Vec<Binding>,
    i: usize,
    depth: usize,
) -> (res: bool)
    requires
        from < old(graph)@.edges.len(),
    ensures
        final(graph)@.edges.len() == old(graph)@.edges.len(),
        final(graph)@.values == old(graph)@.values,
        edges_added(
            references_bindings(
                index_model(table@),
                seq_view(bindings@),
                i as nat,
                old(graph)@.edges[from as int],
                depth as nat,
            ),
            old(graph)@.edges,
            from as int,
            final(graph)@.edges,
            res,
        ),
    decreases depth, 1nat, bindings@.len() - i,
{
    if i >= bindings.len() {
        proof {
            assert(graph@.edges =~= old(graph)@.edges.update(from as int, old(graph)@.edges[from as int]));
        }
        return true;
    }
    proof {
        assert(seq_view(bindings@)[i as int] == bindings@[i as int]@);
    }
    if !add_edges(graph, table, from, &bindings[i].expression, depth) {
        return false;
    }
    let ok = add_edges_bindings(graph, table, from, bindings, i + 1, depth);
    proof {
        if ok {
            assert(graph@.edges =~= old(graph)@.edges.update(from as int, graph@.edges[from as int]));
        }
    }
    ok
}

fn add_edges_alternatives(
    graph: &mut Graph<usize>,
    table: &Vec<(String, usize)>,
    from: usize,
    alternatives: &Vec<Alternative>,
    i: usize,
    depth: usize,
) -> (res: bool)
    requires
        from < old(graph)@.edges.len(),
    ensures
        final(graph)@.edges.len() == old(graph)@.edges.len(),
        final(graph)@.values == old(graph)@.values,
        edges_added(
            references_alternatives(
                index_model(table@),
                seq_view(alternatives@),
                i as nat,
                old(graph)@.edges[from as int],
                depth as nat,
            ),
            old(graph)@.edges,
            from as int,
            final(graph)@.edges,
            res,
        ),
    decreases depth, 1nat, alternatives@.len() - i,
{
    if i >= alternatives.len() {
        proof {
            assert(graph@.edges =~= old(graph)@.edges.update(from as int, old(graph)@.edges[from as int]));
        }
        return true;
    }
    proof {
        assert(seq_view(alternatives@)[i as int] == alternatives@[i as int]@);
    }
    if !add_edges(graph, table, from, &alternatives[i].expression, depth) {
        return false;
    }
    let ok = add_edges_alternatives(graph, table, from, alternatives, i + 1, depth);
    proof {
        if ok {
            assert(graph@.edges =~= old(graph)@.edges.update(from as int, graph@.edges[from as int]));
        }
    }
    ok
}

/// Creates a graph containing a vertex for each binding, which holds the
/// index of the binding, and an edge from a binding to each binding that its
/// expression names.
pub fn build_graph(bindings: &Vec<Binding>) -> (res: Option<Graph<usize>>)
    ensures
        match graph_spec(seq_view(bindings@)) {
            Some(g) => res is Some && res->Some_0@.edges == g && res->Some_0@.values == Seq::new(
                bindings@.len(),
                |i: int| i as usize,
            ),
            None => res is None,
        },
{
    let mut graph: Graph<usize> = Graph::new();
    let mut table: Vec<(String, usize)> = Vec::new();
    let mut i: usize = 0;
    proof {
        assert(index_model(table@) =~= Seq::empty());
        assert(graph@.edges =~= Seq::new(0, |i: int| Seq::<usize>::empty()));
        assert(graph@.values =~= Seq::new(0, |i: int| i as usize));
    }
    while i < bindings.len()
        invariant
            i <= bindings.len(),
            graph@.edges == Seq::new(i as nat, |i: int| Seq::<usize>::empty()),
            graph@.values == Seq::new(i as nat, |i: int| i as usize),
            binding_indices(seq_view(bindings@), 0, Seq::empty()) == binding_indices(
                seq_view(bindings@),
                i as nat,
                index_model(table@),
            ),
        decreases bindings.len() - i,
    {
        proof {
            assert(seq_view(bindings@)[i as int] == bindings@[i as int]@);
        }
        let index = graph.new_vertex(i);
        insert_index(&mut table, bindings[i].name.clone(), index);
        proof {
            assert(graph@.edges =~= Seq::new((i + 1) as nat, |i: int| Seq::<usize>::empty()));
            assert(graph@.values =~= Seq::new((i + 1) as nat, |i: int| i as usize));
        }
        i += 1;
    }
    let ghost start = graph@.edges;
    proof {
        assert(start =~= Seq::new(seq_view(bindings@).len(), |i: int| Seq::<usize>::empty()));
    }
    i = 0;
    while i < bindings.len()
        invariant
            i <= bindings.len(),
            graph@.edges.len() == bindings@.len(),
            graph@.values == Seq::new(bindings@.len(), |i: int| i as usize),
            index_model(table@) == binding_indices(seq_view(bindings@), 0, Seq::empty()),
            start == Seq::new(seq_view(bindings@).len(), |i: int| Seq::<usize>::empty()),
            graph_edges(index_model(table@), seq_view(bindings@), 0, start) == graph_edges(
                index_model(table@),
                seq_view(bindings@),
                i as nat,
                graph@.edges,
            ),
        decreases bindings.len() - i,
    {
        proof {
            assert(seq_view(bindings@)[i as int] == bindings@[i as int]@);
        }
        match lookup_index(&table, &bindings[i].name) {
            Some(from) => {
                if from < graph.vertices.len() {
                    if !add_edges(&mut graph, &table, from, &bindings[i].expression, DEPTH_LIMIT) {
                        return None;
                    }
                }
            },
            None => {},
        }
        i += 1;
    }
    Some(graph)
}

/// `res`, with the state and the bindings after the rule, is what the model of the rule says.
pub open spec fn bindings_done(
    spec: Checked<Seq<BindingModel>>,
    st: InferenceModel,
    bindings: Seq<BindingModel>,
    res: Result<(), TypeError>,
) -> bool {
    match spec {
        Ok((s, v)) => res is Ok && bindings == v && st == s,
        Err(e) => res is Err && res->Err_0@ == e,
    }
}

/// Types the bindings as one group of mutually recursive bindings.
pub(crate) fn check_bindings(ck: &mut Inference, bindings: &Vec<Binding>, depth: usize) -> (res: Result<
    Vec<Binding>,
    TypeError,
>)
    ensures
        checked_bindings(
            infer_bindings(old(ck)@, seq_view(bindings@), depth as nat),
            final(ck)@,
            res,
        ),
    decreases depth, 5nat, 0nat,
{
    let graph = match build_graph(bindings) {
        Some(graph) => graph,
        None => {
            return Err(TypeError::TooDeep);
        },
    };
    let groups = strongly_connected_components(&graph);
    let mut bs = crate::module::clone_bindings(bindings);
    match check_groups(ck, &mut bs, &groups, 0, depth) {
        Ok(()) => Ok(bs),
        Err(e) => Err(e),
    }
}

fn check_groups(
    ck: &mut Inference,
    bindings: &mut Vec<Binding>,
    groups: &Vec<Vec<usize>>,
    i: usize,
    depth: usize,
) -> (res: Result<(), TypeError>)
    ensures
        bindings_done(
            infer_groups(
                old(ck)@,
                seq_view(old(bindings)@),
                seq_view(groups@),
                i as nat,
                depth as nat,
            ),
            final(ck)@,
            seq_view(final(bindings)@),
            res,
        ),
    decreases depth, 4nat, groups@.len() - i,
{
    if i >= groups.len() {
        return Ok(());
    }
    proof {
        assert(seq_view(groups@)[i as int] == groups@[i as int]@);
    }
    match declare(ck, bindings, &groups[i], 0) {
        Ok(()) => {},
        Err(e) => {
            return Err(e);
        },
    }
    match check(ck, bindings, &groups[i], 0, depth) {
        Ok(()) => {},
        Err(e) => {
            return Err(e);
        },
    }
    match finish(ck, bindings, &groups[i], 0) {
        Ok(()) => {},
        Err(e) => {
            return Err(e);
        },
    }
    check_groups(ck, bindings, groups, i + 1, depth)
}

fn retype(bindings: &mut Vec<Binding>, index: usize, typ: Type, declared: Type)
    requires
        index < old(bindings)@.len(),
    ensures
        seq_view(final(bindings)@) == seq_view(old(bindings)@).update(
            index as int,
            old(bindings)@[index as int]@.with_types(typ@, declared@),
        ),
{
    bindings[index].expression.typ = typ;
    bindings[index].typeDecl.typ = declared;
    proof {
        assert(seq_view(bindings@) =~= seq_view(old(bindings)@).update(
            index as int,
            old(bindings)@[index as int]@.with_types(typ@, declared@),
        ));
    }
}

fn store(bindings: &mut Vec<Binding>, index: usize, expression: TypedExpr, declared: Type)
    requires
        index < old(bindings)@.len(),
    ensures
        seq_view(final(bindings)@) == seq_view(old(bindings)@).update(
            index as int,
            BindingModel {
                expression: expression@,
                decl: DeclarationModel { typ: declared@, ..old(bindings)@[index as int]@.decl },
                ..old(bindings)@[index as int]@
            },
        ),
{
    bindings[index].expression = expression;
    bindings[index].typeDecl.typ = declared;
    proof {
        assert(seq_view(bindings@) =~= seq_view(old(bindings)@).update(
            index as int,
            BindingModel {
                expression: expression@,
                decl: DeclarationModel { typ: declared@, ..old(bindings)@[index as int]@.decl },
                ..old(bindings)@[index as int]@
            },
        ));
    }
}

fn variable_id(t: &Type) -> (res: i64)
    ensures
        res as int == t@.var_id(),
{
    proof {
        lemma_type_view(*t);
    }
    match &t.typ {
        TypeHead::TypeVariable(v) => v.id,
        TypeHead::TypeOperator(_) => 0,
    }
}

fn declare(ck: &mut Inference, bindings: &mut Vec<Binding>, group: &Vec<usize>, k: usize) -> (res:
    Result<(), TypeError>)
    ensures
        bindings_done(
            declare_group(old(ck)@, seq_view(old(bindings)@), group@, k as nat),
            final(ck)@,
            seq_view(final(bindings)@),
            res,
        ),
    decreases group@.len() - k,
{
    if k >= group.len() {
        return Ok(());
    }
    let index = group[k];
    if index >= bindings.len() {
        return declare(ck, bindings, group, k + 1);
    }
    proof {
        assert(seq_view(bindings@)[index as int] == bindings@[index as int]@);
    }
    let t = match ck.fresh() {
        Ok(x) => x,
        Err(e) => {
            return Err(e);
        },
    };
    ck.insert(bindings[index].name.clone(), &t);
    let declared = match ck.start(&bindings[index].typeDecl.typ) {
        Ok(x) => x,
        Err(e) => {
            return Err(e);
        },
    };
    retype(bindings, index, t, declared);
    declare(ck, bindings, group, k + 1)
}

fn check(
    ck: &mut Inference,
    bindings: &mut Vec<Binding>,
    group: &Vec<usize>,
    k: usize,
    depth: usize,
) -> (res: Result<(), TypeError>)
    ensures
        bindings_done(
            check_group(old(ck)@, seq_view(old(bindings)@), group@, k as nat, depth as nat),
            final(ck)@,
            seq_view(final(bindings)@),
            res,
        ),
    decreases depth, 3nat, group@.len() - k,
{
    if k >= group.len() {
        return Ok(());
    }
    let index = group[k];
    if index >= bindings.len() {
        return check(ck, bindings, group, k + 1, depth);
    }
    proof {
        assert(seq_view(bindings@)[index as int] == bindings@[index as int]@);
    }
    let typ = bindings[index].expression.typ.clone();
    let var = variable_id(&typ);
    ck.non_generic(typ);
    let e1 = match infer(ck, &bindings[index].expression, depth) {
        Ok(x) => x,
        Err(e) => {
            return Err(e);
        },
    };
    let (declared, et) = match ck.unify(&e1.location, &bindings[index].typeDecl.typ, &e1.typ) {
        Ok(x) => x,
        Err(e) => {
            return Err(e);
        },
    };
    let e2 = match ck.substitute(&with_type(e1, et)) {
        Ok(x) => x,
        Err(e) => {
            return Err(e);
        },
    };
    ck.bind_variable(var, e2.typ.clone());
    match ck.apply() {
        Ok(()) => {},
        Err(e) => {
            return Err(e);
        },
    }
    store(bindings, index, e2, declared);
    check(ck, bindings, group, k + 1, depth)
}

fn finish(ck: &mut Inference, bindings: &mut Vec<Binding>, group: &Vec<usize>, k: usize) -> (res:
    Result<(), TypeError>)
    ensures
        bindings_done(
            finish_group(old(ck)@, seq_view(old(bindings)@), group@, k as nat),
            final(ck)@,
            seq_view(final(bindings)@),
            res,
        ),
    decreases group@.len() - k,
{
    if k >= group.len() {
        return Ok(());
    }
    let index = group[k];
    if index >= bindings.len() {
        return finish(ck, bindings, group, k + 1);
    }
    proof {
        assert(seq_view(bindings@)[index as int] == bindings@[index as int]@);
    }
    ck.pop_non_generic();
    let e3 = match ck.substitute(&bindings[index].expression) {
        Ok(x) => x,
        Err(e) => {
            return Err(e);
        },
    };
    let context = ck.env.find_constraints(&e3.typ);
    let ghost before = seq_view(bindings@);
    let declared = e3.typ.clone();
    bindings[index].expression = e3;
    bindings[index].typeDecl.typ = declared;
    bindings[index].typeDecl.context = context;
    proof {
        assert(seq_view(bindings@) =~= before.update(
            index as int,
            BindingModel {
                expression: e3@,
                decl: DeclarationModel {
                    typ: e3@.typ,
                    context: seq_view(context@),
                    ..before[index as int].decl
                },
                ..before[index as int]
            },
        ));
    }
    finish(ck, bindings, group, k + 1)
}

impl InferenceModel {
    /// The state in which a run of inference on the environment `env` starts.
    pub open spec fn start_with(env: EnvironmentModel) -> InferenceModel {
        InferenceModel {
            env,
            scope: TypeScopeModel::empty(),
            subs: SubstitutionModel { subs: Seq::empty(), constraints: Seq::empty() },
        }
    }
}

/// The expression `e` with its types inferred in the environment `env`, and
/// the environment after that.
pub open spec fn typecheck_spec(env: EnvironmentModel, e: TypedExprModel) -> Result<
    (EnvironmentModel, TypedExprModel),
    TypeErrorModel,
> {
    match infer_spec(InferenceModel::start_with(env), e, DEPTH_LIMIT as nat) {
        Err(err) => Err(err),
        Ok((st, e1)) => match st.leave().substitute(e1) {
            Err(err) => Err(err),
            Ok((st2, e2)) => Ok((st2.env, e2)),
        },
    }
}

impl Inference {
    /// The state in which a run of inference on the environment `env` starts.
    pub fn start_with(env: TypeEnvironment) -> (res: Inference)
        ensures
            res@ == InferenceModel::start_with(env@),
    {
        Inference { env, scope: TypeScope::new(), subs: Substitution::new() }
    }
}

impl TypeEnvironment {
    /// Infers the types of the expression and of each expression in it, and
    /// updates them in place. Where the expression is rejected, the
    /// environment and the expression stay as they were.
    pub fn typecheck(&mut self, expr: &mut TypedExpr) -> (res: Result<(), TypeError>)
        ensures
            match typecheck_spec(old(self)@, old(expr)@) {
                Ok((env, e)) => res is Ok && final(self)@ == env && final(expr)@ == e,
                Err(err) => res is Err && res->Err_0@ == err && final(self)@ == old(self)@
                    && final(expr)@ == old(expr)@,
            },
    {
        let mut ck = Inference::start_with(self.clone());
        let e1 = match infer(&mut ck, expr, DEPTH_LIMIT) {
            Ok(x) => x,
            Err(e) => {
                return Err(e);
            },
        };
        ck.leave();
        let e2 = match ck.substitute(&e1) {
            Ok(x) => x,
            Err(e) => {
                return Err(e);
            },
        };
        *expr = e2;
        *self = ck.env;
        Ok(())
    }
}

proof fn lemma_graph_edges_keep_vertices(
    table: Seq<(Seq<char>, usize)>,
    bindings: Seq<BindingModel>,
    i: nat,
    graph: Seq<Seq<usize>>,
)
    requires
        graph_edges(table, bindings, i, graph) is Some,
    ensures
        graph_edges(table, bindings, i, graph)->Some_0.len() == graph.len(),
    decreases bindings.len() - i,
{
    if i < bindings.len() {
        match lookup(table, bindings[i as int].name) {
            Some(from) => if from < graph.len() {
                let edges = references_spec(
                    table,
                    bindings[i as int].expression,
                    graph[from as int],
                    DEPTH_LIMIT as nat,
                )->Some_0;
                lemma_graph_edges_keep_vertices(
                    table,
                    bindings,
                    i + 1,
                    graph.update(from as int, edges),
                );
            } else {
                lemma_graph_edges_keep_vertices(table, bindings, i + 1, graph);
            },
            None => {
                lemma_graph_edges_keep_vertices(table, bindings, i + 1, graph);
            },
        }
    }
}

/// The order in which the bindings of a group are typed is sound: the
/// dependency graph has one vertex for each binding, each binding is in
/// exactly one of the components that are typed one after the other, and a
/// binding that another one leads to is in the component of that one or in
/// one that is typed before it.
pub proof fn lemma_bindings_are_typed_in_order(
    bindings: Seq<BindingModel>,
    i: int,
    u: int,
    j: int,
    v: int,
)
    requires
        bindings.len() <= usize::MAX,
        graph_spec(bindings) is Some,
        in_group(scc_spec(graph_spec(bindings)->Some_0), i, u),
        in_group(scc_spec(graph_spec(bindings)->Some_0), j, v),
        edge(graph_spec(bindings)->Some_0, u, v),
    ensures
        graph_spec(bindings)->Some_0.len() == bindings.len(),
        j <= i,
{
    let g = graph_spec(bindings)->Some_0;
    lemma_graph_edges_keep_vertices(
        binding_indices(bindings, 0, Seq::empty()),
        bindings,
        0,
        Seq::new(bindings.len(), |i: int| Seq::empty()),
    );
    lemma_components_ordered(g, i, u, v);
    let k = choose|k: int| 0 <= k <= i && #[trigger] in_group(scc_spec(g), k, v);
    let only = lemma_components_partition(g, v);
}

/// The declared type of the binding is the type of its expression.
pub open spec fn has_its_type(b: BindingModel) -> bool {
    b.decl.typ == b.expression.typ
}

proof fn lemma_declare_group_elsewhere(
    st: InferenceModel,
    bindings: Seq<BindingModel>,
    group: Seq<usize>,
    k: nat,
    v: int,
)
    requires
        declare_group(st, bindings, group, k) is Ok,
        0 <= v < bindings.len(),
    ensures
        declare_group(st, bindings, group, k)->Ok_0.1.len() == bindings.len(),
        !holds(group, v) ==> declare_group(st, bindings, group, k)->Ok_0.1[v] == bindings[v],
    decreases group.len() - k,
{
    if k < group.len() {
        if group[k as int] >= bindings.len() {
            lemma_declare_group_elsewhere(st, bindings, group, k + 1, v);
        } else {
            let index = group[k as int] as int;
            let b = bindings[index];
            let (st1, t) = st.fresh()->Ok_0;
            let (st2, declared) = st1.insert(b.name, t).start(b.decl.typ)->Ok_0;
            lemma_declare_group_elsewhere(
                st2,
                bindings.update(index, b.with_types(t, declared)),
                group,
                k + 1,
                v,
            );
        }
    }
}

proof fn lemma_check_group_elsewhere(
    st: InferenceModel,
    bindings: Seq<BindingModel>,
    group: Seq<usize>,
    k: nat,
    depth: nat,
    v: int,
)
    requires
        check_group(st, bindings, group, k, depth) is Ok,
        0 <= v < bindings.len(),
    ensures
        check_group(st, bindings, group, k, depth)->Ok_0.1.len() == bindings.len(),
        !holds(group, v) ==> check_group(st, bindings, group, k, depth)->Ok_0.1[v] == bindings[v],
    decreases group.len() - k,
{
    if k < group.len() {
        if group[k as int] >= bindings.len() {
            lemma_check_group_elsewhere(st, bindings, group, k + 1, depth, v);
        } else {
            let index = group[k as int] as int;
            let b = bindings[index];
            let (st2, e1) = infer_spec(st.non_generic(b.expression.typ), b.expression, depth)->Ok_0;
            let (st3, both) = st2.unify(e1.location, b.decl.typ, e1.typ)->Ok_0;
            let (st4, e2) = st3.substitute(e1.with_type(both.1))->Ok_0;
            let st6 = st4.bind_variable(b.expression.typ.var_id(), e2.typ).apply()->Ok_0;
            lemma_check_group_elsewhere(
                st6,
                bindings.update(
                    index,
                    BindingModel {
                        expression: e2,
                        decl: DeclarationModel { typ: both.0, ..b.decl },
                        ..b
                    },
                ),
                group,
                k + 1,
                depth,
                v,
            );
        }
    }
}

proof fn lemma_finish_group_types(
    st: InferenceModel,
    bindings: Seq<BindingModel>,
    group: Seq<usize>,
    k: nat,
    v: int,
)
    requires
        finish_group(st, bindings, group, k) is Ok,
        0 <= v < bindings.len(),
    ensures
        finish_group(st, bindings, group, k)->Ok_0.1.len() == bindings.len(),
        !holds(group, v) ==> finish_group(st, bindings, group, k)->Ok_0.1[v] == bindings[v],
        has_its_type(bindings[v]) || (exists|q: int| k <= q < group.len() && group[q] == v)
            ==> has_its_type(finish_group(st, bindings, group, k)->Ok_0.1[v]),
    decreases group.len() - k,
{
    if k < group.len() {
        if group[k as int] >= bindings.len() {
            lemma_finish_group_types(st, bindings, group, k + 1, v);
        } else {
            let index = group[k as int] as int;
            let b = bindings[index];
            let (st2, e3) = st.pop_non_generic().substitute(b.expression)->Ok_0;
            let next = bindings.update(
                index,
                BindingModel {
                    expression: e3,
                    decl: DeclarationModel {
                        typ: e3.typ,
                        context: find_constraints_spec(st2.env.constraints, e3.typ, Seq::empty()),
                        ..b.decl
                    },
                    ..b
                },
            );
            lemma_finish_group_types(st2, next, group, k + 1, v);
            if index == v {
                assert(has_its_type(next[v]));
            }
        }
    }
}

proof fn lemma_infer_groups_types(
    st: InferenceModel,
    bindings: Seq<BindingModel>,
    groups: Seq<Seq<usize>>,
    i: nat,
    depth: nat,
    v: int,
    own: int,
)
    requires
        infer_groups(st, bindings, groups, i, depth) is Ok,
        0 <= v < bindings.len(),
        in_group(groups, own, v),
        forall|j: int| in_group(groups, j, v) ==> j == own,
        i > own ==> has_its_type(bindings[v]),
    ensures
        infer_groups(st, bindings, groups, i, depth)->Ok_0.1.len() == bindings.len(),
        has_its_type(infer_groups(st, bindings, groups, i, depth)->Ok_0.1[v]),
    decreases groups.len() - i,
{
    if i < groups.len() {
        let group = groups[i as int];
        let (st1, bs1) = declare_group(st, bindings, group, 0)->Ok_0;
        let (st2, bs2) = check_group(st1, bs1, group, 0, depth)->Ok_0;
        let (st3, bs3) = finish_group(st2, bs2, group, 0)->Ok_0;
        lemma_declare_group_elsewhere(st, bindings, group, 0, v);
        lemma_check_group_elsewhere(st1, bs1, group, 0, depth, v);
        lemma_finish_group_types(st2, bs2, group, 0, v);
        if i == own {
            assert(holds(group, v));
        } else {
            assert(!in_group(groups, i as int, v));
            assert(!holds(group, v));
        }
        lemma_infer_groups_types(st3, bs3, groups, i + 1, depth, v, own);
    }
}

/// When the bindings of a group have been typed, each has as its declared
/// type the type that its expression was given.
pub proof fn lemma_bindings_have_their_types(
    st: InferenceModel,
    bindings: Seq<BindingModel>,
    depth: nat,
    v: int,
)
    requires
        bindings.len() <= usize::MAX,
        infer_bindings(st, bindings, depth) is Ok,
        0 <= v < bindings.len(),
    ensures
        infer_bindings(st, bindings, depth)->Ok_0.1.len() == bindings.len(),
        has_its_type(infer_bindings(st, bindings, depth)->Ok_0.1[v]),
{
    let g = graph_spec(bindings)->Some_0;
    lemma_graph_edges_keep_vertices(
        binding_indices(bindings, 0, Seq::empty()),
        bindings,
        0,
        Seq::new(bindings.len(), |i: int| Seq::empty()),
    );
    let own = lemma_components_partition(g, v);
    lemma_infer_groups_types(st, bindings, scc_spec(g), 0, depth, v, own);
}

} // verus!
