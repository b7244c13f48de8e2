//! Unification: making two types the same under a substitution.
use crate::environment::{
    EnvironmentModel, TypeEnvironment, TypeError, TypeErrorModel, UnifyError, UnifyErrorModel,
};
use crate::module::{clone_types, lemma_type_view, seq_view, Head, Location, Ty, Type, TypeHead, TypeVariable};
use crate::substitution::{
    carries, is_name, lemma_replace_keeps_classes, occurs, occurs_spec, replace_in, replace_spec,
    Classes, Substitution, SubstitutionModel,
};
use crate::environment::DEPTH_LIMIT;
use crate::tables::{
    classes_model, clone_class_table, clone_type_table, insert, insert_classes, insert_type,
    lemma_lookup_insert, lemma_lookup_remove, lookup, lookup_classes, remove, remove_classes,
    types_model,
};
use vstd::prelude::*;

verus! {

/// What unification gives: the environment and the substitution after it, and
/// the two types as it left them.
pub type Unified = Result<(EnvironmentModel, SubstitutionModel, Ty, Ty), UnifyErrorModel>;

impl Ty {
    /// The type with `t` as its argument `i`.
    pub open spec fn with_arg(self, i: int, t: Ty) -> Ty {
        Ty { args: self.args.update(i, t), ..self }
    }
}

impl EnvironmentModel {
    pub open spec fn with_constraints(self, constraints: Classes) -> EnvironmentModel {
        EnvironmentModel { constraints, ..self }
    }
}

/// The classes that the numeric types belong to without an instance: `Int`
/// and `Double` to `Num`, `Double` to `Fractional`.
pub open spec fn builtin_instance(class: Seq<char>, t: Ty) -> bool {
    t.args.len() == 0 && ((class == "Num"@ && (t.head == Head::Op("Int"@) || t.head == Head::Op(
        "Double"@,
    ))) || (class == "Fractional"@ && t.head == Head::Op("Double"@)))
}

/// The first class from `i` on of which `t` has no instance.
pub open spec fn missing_instance(
    env: EnvironmentModel,
    classes: Seq<Seq<char>>,
    t: Ty,
    i: nat,
) -> Option<Seq<char>>
    decreases classes.len() - i,
{
    if i >= classes.len() {
        None
    } else if !env.has_instance(classes[i as int], t) && !builtin_instance(classes[i as int], t) {
        Some(classes[i as int])
    } else {
        missing_instance(env, classes, t, i + 1)
    }
}

/// Unification of the type variable `l` without arguments, or of its
/// bound form, with the variable `r`: `l` now stands for what the
/// substitution makes of `r`, and the substitution takes over the classes of `l`.
pub open spec fn unify_variables(
    env: EnvironmentModel,
    subs: SubstitutionModel,
    l: int,
    r: int,
    depth: nat,
) -> Result<(EnvironmentModel, SubstitutionModel), UnifyErrorModel> {
    match replace_spec(env.constraints, Ty::var(r), subs, depth) {
        None => Err(UnifyErrorModel::TooDeep),
        Some((c, t)) => {
            let subs1 = SubstitutionModel { subs: insert(subs.subs, l, t), ..subs };
            match lookup(c, l) {
                Some(classes) => Ok(
                    (
                        env.with_constraints(remove(c, l)),
                        SubstitutionModel {
                            constraints: insert(subs1.constraints, l, classes),
                            ..subs1
                        },
                    ),
                ),
                None => Ok((env.with_constraints(c), subs1)),
            }
        },
    }
}

/// Unification of `lhs` with `rhs`; the two types come back as the
/// substitution of later arguments has left them.
pub open spec fn unify_spec(
    env: EnvironmentModel,
    subs: SubstitutionModel,
    lhs: Ty,
    rhs: Ty,
    depth: nat,
) -> Unified
    decreases depth, 0nat, 1nat,
{
    if depth == 0 {
        Err(UnifyErrorModel::TooDeep)
    } else {
        match (lhs.head, rhs.head) {
            (Head::Var(l), Head::Var(r)) => if l != r {
                match unify_variables(env, subs, l, r, depth) {
                    Ok((e, s)) => Ok((e, s, lhs, rhs)),
                    Err(e) => Err(e),
                }
            } else {
                Ok((env, subs, lhs, rhs))
            },
            (Head::Op(l), Head::Op(r)) => if l != r || lhs.args.len() != rhs.args.len() {
                Err(UnifyErrorModel::Operators)
            } else {
                unify_args(env, subs, lhs, rhs, 0, (depth - 1) as nat)
            },
            (Head::Var(_), Head::Op(_)) => unify_variable(env, subs, lhs, rhs, depth),
            (Head::Op(_), Head::Var(_)) => match unify_variable(env, subs, rhs, lhs, depth) {
                Ok((e, s, r, l)) => Ok((e, s, l, r)),
                Err(e) => Err(e),
            },
        }
    }
}

/// Unification of a type `lhs` whose head is a variable with a type `rhs`
/// whose head is an operator.
pub open spec fn unify_variable(
    env: EnvironmentModel,
    subs: SubstitutionModel,
    lhs: Ty,
    rhs: Ty,
    depth: nat,
) -> Unified
    decreases depth, 0nat, 0nat,
{
    let l = lhs.var_id();
    if depth == 0 {
        Err(UnifyErrorModel::TooDeep)
    } else if occurs_spec(l, rhs) {
        Err(UnifyErrorModel::Recursive)
    } else {
        let bound: Unified = if lhs.args.len() == 0 {
            match replace_spec(env.constraints, rhs, subs, depth) {
                None => Err(UnifyErrorModel::TooDeep),
                Some((c, t)) => Ok(
                    (
                        env.with_constraints(c),
                        SubstitutionModel { subs: insert(subs.subs, l, t), ..subs },
                        lhs,
                        rhs,
                    ),
                ),
            }
        } else if lhs.args.len() != rhs.args.len() {
            Err(UnifyErrorModel::Arity)
        } else {
            unify_args(
                env,
                SubstitutionModel {
                    subs: insert(subs.subs, l, Ty { head: rhs.head, args: Seq::empty() }),
                    ..subs
                },
                lhs,
                rhs,
                0,
                (depth - 1) as nat,
            )
        };
        match bound {
            Err(e) => Err(e),
            Ok((e, s, lhs2, rhs2)) => match lookup(e.constraints, l) {
                Some(classes) => match missing_instance(e, classes, rhs2, 0) {
                    Some(class) => Err(UnifyErrorModel::NoInstance(class)),
                    None => bound,
                },
                None => bound,
            },
        }
    }
}

/// Unification of the arguments of `lhs` and `rhs` from the index `i` on, in
/// order; after each pair the substitution is applied to the next one.
pub open spec fn unify_args(
    env: EnvironmentModel,
    subs: SubstitutionModel,
    lhs: Ty,
    rhs: Ty,
    i: nat,
    depth: nat,
) -> Unified
    decreases depth, 1nat, lhs.args.len() - i,
{
    if i >= lhs.args.len() || i >= rhs.args.len() {
        Ok((env, subs, lhs, rhs))
    } else {
        match unify_spec(env, subs, lhs.args[i as int], rhs.args[i as int], depth) {
            Err(e) => Err(e),
            Ok((e1, s1, l, r)) => {
                let lhs1 = lhs.with_arg(i as int, l);
                let rhs1 = rhs.with_arg(i as int, r);
                if i + 1 < lhs.args.len() && i + 1 < rhs.args.len() {
                    match replace_spec(e1.constraints, lhs1.args[i as int + 1], s1, depth) {
                        None => Err(UnifyErrorModel::TooDeep),
                        Some((c2, l_next)) => match replace_spec(
                            c2,
                            rhs1.args[i as int + 1],
                            s1,
                            depth,
                        ) {
                            None => Err(UnifyErrorModel::TooDeep),
                            Some((c3, r_next)) => unify_args(
                                e1.with_constraints(c3),
                                s1,
                                lhs1.with_arg(i as int + 1, l_next),
                                rhs1.with_arg(i as int + 1, r_next),
                                i + 1,
                                depth,
                            ),
                        },
                    }
                } else {
                    unify_args(e1, s1, lhs1, rhs1, i + 1, depth)
                }
            },
        }
    }
}

/// `res` is what the model `spec` of a unification says.
pub open spec fn unified(
    spec: Unified,
    env: EnvironmentModel,
    subs: SubstitutionModel,
    res: Result<(Type, Type), UnifyError>,
) -> bool {
    match spec {
        Ok((e, s, l, r)) => res is Ok && res.unwrap().0@ == l && res.unwrap().1@ == r && env == e
            && subs == s,
        Err(err) => res is Err && res.unwrap_err()@ == err,
    }
}

fn with_types(t: &Type, types: Vec<Type>) -> (res: Type)
    ensures
        res@ == (Ty { head: t@.head, args: seq_view(types@) }),
{
    let res = Type { typ: t.typ.clone(), types };
    proof {
        lemma_type_view(res);
        lemma_type_view(*t);
    }
    res
}

fn put_type(types: &mut Vec<Type>, i: usize, t: Type)
    requires
        i < old(types)@.len(),
    ensures
        seq_view(final(types)@) == seq_view(old(types)@).update(i as int, t@),
        final(types)@.len() == old(types)@.len(),
{
    types[i] = t;
    proof {
        assert(seq_view(types@) =~= seq_view(old(types)@).update(i as int, t@));
    }
}

fn is_builtin_instance(class: &String, t: &Type) -> (res: bool)
    ensures
        res == builtin_instance(class@, t@),
{
    proof {
        lemma_type_view(*t);
    }
    if t.types.len() != 0 {
        return false;
    }
    match &t.typ {
        TypeHead::TypeOperator(op) => {
            (is_name(class, "Num") && (is_name(&op.name, "Int") || is_name(&op.name, "Double")))
                || (is_name(class, "Fractional") && is_name(&op.name, "Double"))
        },
        TypeHead::TypeVariable(_) => false,
    }
}

/// Checks that `t` has an instance of each class in `classes`.
fn check_instances(env: &TypeEnvironment, classes: &Vec<String>, t: &Type) -> (res: Result<
    (),
    UnifyError,
>)
    ensures
        match missing_instance(env@, seq_view(classes@), t@, 0) {
            Some(class) => res is Err && res.unwrap_err()@ == UnifyErrorModel::NoInstance(class),
            None => res is Ok,
        },
{
    let mut i: usize = 0;
    while i < classes.len()
        invariant
            i <= classes.len(),
            missing_instance(env@, seq_view(classes@), t@, 0) == missing_instance(
                env@,
                seq_view(classes@),
                t@,
                i as nat,
            ),
        decreases classes.len() - i,
    {
        if !env.has_instance(&classes[i], t) && !is_builtin_instance(&classes[i], t) {
            return Err(UnifyError::NoInstance(classes[i].clone()));
        }
        i += 1;
    }
    Ok(())
}

fn unify_vars(env: &mut TypeEnvironment, subs: &mut Substitution, l: i64, r: i64, depth: usize) -> (res:
    Result<(), UnifyError>)
    ensures
        match unify_variables(old(env)@, old(subs)@, l as int, r as int, depth as nat) {
            Ok((e, s)) => res is Ok && final(env)@ == e && final(subs)@ == s,
            Err(err) => res is Err && res.unwrap_err()@ == err,
        },
{
    let var = Type::new_var(r);
    let t = match replace_in(&mut env.constraints, &var, subs, depth) {
        Some(t) => t,
        None => {
            return Err(UnifyError::TooDeep);
        },
    };
    insert_type(&mut subs.subs, l, t);
    match remove_classes(&mut env.constraints, l) {
        Some(classes) => {
            insert_classes(&mut subs.constraints, l, classes);
        },
        None => {},
    }
    Ok(())
}

/// As `unify`, but after a failure the environment and the substitution are
/// left as they were when it was found.
pub(crate) fn unify_(
    env: &mut TypeEnvironment,
    subs: &mut Substitution,
    lhs: &Type,
    rhs: &Type,
    depth: usize,
) -> (res: Result<(Type, Type), UnifyError>)
    ensures
        unified(
            unify_spec(old(env)@, old(subs)@, lhs@, rhs@, depth as nat),
            final(env)@,
            final(subs)@,
            res,
        ),
    decreases depth, 0nat, 1nat,
{
    proof {
        lemma_type_view(*lhs);
        lemma_type_view(*rhs);
    }
    if depth == 0 {
        return Err(UnifyError::TooDeep);
    }
    match (&lhs.typ, &rhs.typ) {
        (TypeHead::TypeVariable(l), TypeHead::TypeVariable(r)) => {
            if l.id != r.id {
                match unify_vars(env, subs, l.id, r.id, depth) {
                    Ok(()) => Ok((lhs.clone(), rhs.clone())),
                    Err(e) => Err(e),
                }
            } else {
                Ok((lhs.clone(), rhs.clone()))
            }
        },
        (TypeHead::TypeOperator(l), TypeHead::TypeOperator(r)) => {
            if !(l.name == r.name) || lhs.types.len() != rhs.types.len() {
                Err(UnifyError::Operators)
            } else {
                unify_arguments(env, subs, lhs, rhs, depth - 1)
            }
        },
        (TypeHead::TypeVariable(_), TypeHead::TypeOperator(_)) => unify_var_op(
            env,
            subs,
            lhs,
            rhs,
            depth,
        ),
        (TypeHead::TypeOperator(_), TypeHead::TypeVariable(_)) => match unify_var_op(
            env,
            subs,
            rhs,
            lhs,
            depth,
        ) {
            Ok((r, l)) => Ok((l, r)),
            Err(e) => Err(e),
        },
    }
}

fn unify_var_op(
    env: &mut TypeEnvironment,
    subs: &mut Substitution,
    lhs: &Type,
    rhs: &Type,
    depth: usize,
) -> (res: Result<(Type, Type), UnifyError>)
    requires
        lhs@.head is Var,
        rhs@.head is Op,
    ensures
        unified(
            unify_variable(old(env)@, old(subs)@, lhs@, rhs@, depth as nat),
            final(env)@,
            final(subs)@,
            res,
        ),
    decreases depth, 0nat, 0nat,
{
    proof {
        lemma_type_view(*lhs);
        lemma_type_view(*rhs);
    }
    if depth == 0 {
        return Err(UnifyError::TooDeep);
    }
    let lid = lhs.var().id;
    if occurs(lhs.var(), rhs) {
        return Err(UnifyError::Recursive);
    }
    let (lhs2, rhs2) = if lhs.types.len() == 0 {
        let t = match replace_in(&mut env.constraints, rhs, subs, depth) {
            Some(t) => t,
            None => {
                return Err(UnifyError::TooDeep);
            },
        };
        insert_type(&mut subs.subs, lid, t);
        (lhs.clone(), rhs.clone())
    } else {
        if lhs.types.len() != rhs.types.len() {
            return Err(UnifyError::Arity);
        }
        let x = with_types(rhs, Vec::new());
        proof {
            assert(x@.args =~= Seq::<Ty>::empty());
        }
        insert_type(&mut subs.subs, lid, x);
        match unify_arguments(env, subs, lhs, rhs, depth - 1) {
            Ok(pair) => pair,
            Err(e) => {
                return Err(e);
            },
        }
    };
    match lookup_classes(&env.constraints, lid) {
        Some(classes) => match check_instances(env, &classes, &rhs2) {
            Ok(()) => Ok((lhs2, rhs2)),
            Err(e) => Err(e),
        },
        None => Ok((lhs2, rhs2)),
    }
}

fn unify_arguments(
    env: &mut TypeEnvironment,
    subs: &mut Substitution,
    lhs: &Type,
    rhs: &Type,
    depth: usize,
) -> (res: Result<(Type, Type), UnifyError>)
    requires
        lhs@.args.len() == rhs@.args.len(),
    ensures
        unified(
            unify_args(old(env)@, old(subs)@, lhs@, rhs@, 0, depth as nat),
            final(env)@,
            final(subs)@,
            res,
        ),
    decreases depth, 1nat, 0nat,
{
    proof {
        lemma_type_view(*lhs);
        lemma_type_view(*rhs);
    }
    let mut largs = clone_types(&lhs.types);
    let mut rargs = clone_types(&rhs.types);
    let n = largs.len();
    let mut i: usize = 0;
    while i < n
        invariant
            i <= n,
            n == largs@.len(),
            n == rargs@.len(),
            unify_args(old(env)@, old(subs)@, lhs@, rhs@, 0, depth as nat) == unify_args(
                env@,
                subs@,
                Ty { head: lhs@.head, args: seq_view(largs@) },
                Ty { head: rhs@.head, args: seq_view(rargs@) },
                i as nat,
                depth as nat,
            ),
        decreases n - i,
    {
        let ghost lhs0 = Ty { head: lhs@.head, args: seq_view(largs@) };
        let ghost rhs0 = Ty { head: rhs@.head, args: seq_view(rargs@) };
        let (l, r) = match unify_(env, subs, &largs[i], &rargs[i], depth) {
            Ok(pair) => pair,
            Err(e) => {
                return Err(e);
            },
        };
        put_type(&mut largs, i, l);
        put_type(&mut rargs, i, r);
        let ghost lhs1 = lhs0.with_arg(i as int, l@);
        let ghost rhs1 = rhs0.with_arg(i as int, r@);
        if i + 1 < n {
            let l_next = match replace_in(&mut env.constraints, &largs[i + 1], subs, depth) {
                Some(t) => t,
                None => {
                    return Err(UnifyError::TooDeep);
                },
            };
            let r_next = match replace_in(&mut env.constraints, &rargs[i + 1], subs, depth) {
                Some(t) => t,
                None => {
                    return Err(UnifyError::TooDeep);
                },
            };
            put_type(&mut largs, i + 1, l_next);
            put_type(&mut rargs, i + 1, r_next);
            proof {
                assert((Ty { head: lhs@.head, args: seq_view(largs@) }) == lhs1.with_arg(
                    i + 1,
                    l_next@,
                ));
                assert((Ty { head: rhs@.head, args: seq_view(rargs@) }) == rhs1.with_arg(
                    i + 1,
                    r_next@,
                ));
            }
        }
        i += 1;
    }
    Ok((with_types(lhs, largs), with_types(rhs, rargs)))
}

/// The substitution `subs` with each of its types from the index `i` on
/// replaced, in order, by what the substitution `snapshot` makes of it.
pub open spec fn normalize_spec(
    constraints: Classes,
    subs: SubstitutionModel,
    snapshot: SubstitutionModel,
    i: nat,
) -> Option<(Classes, SubstitutionModel)>
    decreases subs.subs.len() - i,
{
    if i >= subs.subs.len() {
        Some((constraints, subs))
    } else {
        match replace_spec(constraints, subs.subs[i as int].1, snapshot, DEPTH_LIMIT as nat) {
            None => None,
            Some((c, t)) => normalize_spec(
                c,
                SubstitutionModel {
                    subs: subs.subs.update(i as int, (subs.subs[i as int].0, t)),
                    ..subs
                },
                snapshot,
                i + 1,
            ),
        }
    }
}

/// What unification at a place in the source text gives.
pub type Located = Result<(EnvironmentModel, SubstitutionModel, Ty, Ty), TypeErrorModel>;

/// Unification of `lhs` and `rhs` for the expression at `location`: after it
/// the substitution is applied to each of its own types. A failure names the
/// place and the two types.
pub open spec fn unify_location_spec(
    env: EnvironmentModel,
    subs: SubstitutionModel,
    location: Location,
    lhs: Ty,
    rhs: Ty,
) -> Located {
    match unify_spec(env, subs, lhs, rhs, DEPTH_LIMIT as nat) {
        Err(e) => Err(TypeErrorModel::Unification(e, location, lhs, rhs)),
        Ok((e1, s1, l, r)) => match normalize_spec(e1.constraints, s1, s1, 0) {
            None => Err(TypeErrorModel::Unification(UnifyErrorModel::TooDeep, location, lhs, rhs)),
            Some((c, s2)) => Ok((e1.with_constraints(c), s2, l, r)),
        },
    }
}

/// `res` is what the model `spec` of a located unification says.
pub open spec fn located(
    spec: Located,
    env: EnvironmentModel,
    subs: SubstitutionModel,
    res: Result<(Type, Type), TypeError>,
) -> bool {
    match spec {
        Ok((e, s, l, r)) => res is Ok && res.unwrap().0@ == l && res.unwrap().1@ == r && env == e
            && subs == s,
        Err(err) => res is Err && res.unwrap_err()@ == err,
    }
}

/// As `unify_location`, but after a failure the environment and the
/// substitution are left as they were when it was found.
pub(crate) fn unify_at(
    env: &mut TypeEnvironment,
    subs: &mut Substitution,
    location: &Location,
    lhs: &Type,
    rhs: &Type,
) -> (res: Result<(Type, Type), TypeError>)
    ensures
        located(
            unify_location_spec(old(env)@, old(subs)@, *location, lhs@, rhs@),
            final(env)@,
            final(subs)@,
            res,
        ),
{
    let (l, r) = match unify_(env, subs, lhs, rhs, DEPTH_LIMIT) {
        Ok(pair) => pair,
        Err(e) => {
            return Err(TypeError::Unification(e, *location, lhs.clone(), rhs.clone()));
        },
    };
    let snapshot = Substitution {
        subs: clone_type_table(&subs.subs),
        constraints: clone_class_table(&subs.constraints),
    };
    let ghost e1 = env@;
    let ghost s1 = subs@;
    let mut i: usize = 0;
    while i < subs.subs.len()
        invariant
            snapshot@ == s1,
            env@ == e1.with_constraints(env@.constraints),
            unify_spec(old(env)@, old(subs)@, lhs@, rhs@, DEPTH_LIMIT as nat) == Unified::Ok(
                (e1, s1, l@, r@),
            ),
            normalize_spec(e1.constraints, s1, s1, 0) == normalize_spec(
                env@.constraints,
                subs@,
                s1,
                i as nat,
            ),
        decreases subs.subs.len() - i,
    {
        let ghost before = subs@;
        let ghost c0 = env@.constraints;
        proof {
            assert(subs@.subs[i as int] == (subs.subs@[i as int].0 as int, subs.subs@[i as int].1@));
        }
        let t = match replace_in(&mut env.constraints, &subs.subs[i].1, &snapshot, DEPTH_LIMIT) {
            Some(t) => t,
            None => {
                proof {
                    assert(normalize_spec(c0, before, s1, i as nat) is None);
                }
                return Err(
                    TypeError::Unification(
                        UnifyError::TooDeep,
                        *location,
                        lhs.clone(),
                        rhs.clone(),
                    ),
                );
            },
        };
        let key = subs.subs[i].0;
        subs.subs[i] = (key, t);
        proof {
            assert(subs@.subs =~= before.subs.update(i as int, (before.subs[i as int].0, t@)));
        }
        i += 1;
    }
    Ok((l, r))
}

/// The result of a unification with the two types exchanged.
pub open spec fn exchanged(u: Unified) -> Unified {
    match u {
        Ok((e, s, l, r)) => Ok((e, s, r, l)),
        Err(e) => Err(e),
    }
}

/// Unification of a variable with an operator is symmetric: in either
/// order it succeeds or fails identically, and on success it yields the same
/// environment, the same substitution and the same two types.
pub proof fn lemma_unify_symmetric(
    env: EnvironmentModel,
    subs: SubstitutionModel,
    a: Ty,
    b: Ty,
    depth: nat,
)
    requires
        a.head is Var != b.head is Var,
    ensures
        unify_spec(env, subs, a, b, depth) == exchanged(unify_spec(env, subs, b, a, depth)),
{
}

/// Unification of two operators that differ in name or in their number of
/// arguments fails in either order, and unification of a variable with
/// itself succeeds in either order and changes nothing.
pub proof fn lemma_unify_heads_symmetric(
    env: EnvironmentModel,
    subs: SubstitutionModel,
    a: Ty,
    b: Ty,
    depth: nat,
)
    requires
        depth > 0,
    ensures
        a.head is Op && b.head is Op && (a.head != b.head || a.args.len() != b.args.len())
            ==> unify_spec(env, subs, a, b, depth) == Unified::Err(UnifyErrorModel::Operators)
            && unify_spec(env, subs, b, a, depth) == Unified::Err(UnifyErrorModel::Operators),
        a.head is Var && a.head == b.head ==> unify_spec(env, subs, a, b, depth) == Unified::Ok(
            (env, subs, a, b),
        ) && unify_spec(env, subs, b, a, depth) == Unified::Ok((env, subs, b, a)),
{
}

/// Unification of two different variables that stand for nothing yet
/// succeeds in either order, and the two results differ only in which of the
/// two names is kept: in one order the first is bound to the second, in the
/// other the second to the first, and the two types come back as they were.
pub proof fn lemma_unify_variables_symmetric(
    env: EnvironmentModel,
    subs: SubstitutionModel,
    l: int,
    r: int,
    depth: nat,
)
    requires
        depth > 0,
        l != r,
        lookup(subs.subs, l) is None,
        lookup(subs.subs, r) is None,
    ensures
        unify_spec(env, subs, Ty::var(l), Ty::var(r), depth) matches Ok((_, s, a, b)) && s.subs
            == insert(subs.subs, l, Ty::var(r)) && a == Ty::var(l) && b == Ty::var(r),
        unify_spec(env, subs, Ty::var(r), Ty::var(l), depth) matches Ok((_, s, a, b)) && s.subs
            == insert(subs.subs, r, Ty::var(l)) && a == Ty::var(r) && b == Ty::var(l),
{
    assert(replace_spec(env.constraints, Ty::var(r), subs, depth) == Some(
        (env.constraints, Ty::var(r)),
    )) by {
        assert(crate::substitution::replace_args(env.constraints, Ty::var(r).args, subs, (depth - 1) as nat, 0) == Some(
            (env.constraints, Ty::var(r).args),
        ));
    }
    assert(replace_spec(env.constraints, Ty::var(l), subs, depth) == Some(
        (env.constraints, Ty::var(l)),
    )) by {
        assert(crate::substitution::replace_args(env.constraints, Ty::var(l).args, subs, (depth - 1) as nat, 0) == Some(
            (env.constraints, Ty::var(l).args),
        ));
    }
}

/// When two variables are unified no class is lost: every variable but the
/// one that is bound keeps its classes, and the classes of the one that is
/// bound are kept with the substitution, from where they reach the variable
/// that replaces it.
pub proof fn lemma_unify_variables_keeps_classes(
    env: EnvironmentModel,
    subs: SubstitutionModel,
    l: int,
    r: int,
    depth: nat,
    var: int,
    class: Seq<char>,
)
    requires
        carries(env.constraints, var, class),
        unify_variables(env, subs, l, r, depth) is Ok,
    ensures
        var != l ==> carries(unify_variables(env, subs, l, r, depth)->Ok_0.0.constraints, var, class),
        var == l ==> carries(unify_variables(env, subs, l, r, depth)->Ok_0.1.constraints, l, class),
{
    lemma_replace_keeps_classes(env.constraints, Ty::var(r), subs, depth, var, class);
    let (c, t) = replace_spec(env.constraints, Ty::var(r), subs, depth)->Some_0;
    match lookup(c, l) {
        Some(classes) => {
            if var != l {
                lemma_lookup_remove(c, l, var);
            } else {
                lemma_lookup_insert(subs.constraints, l, classes, l);
            }
        },
        None => {},
    }
}

/// Applying the substitution to its own types removes no class from any variable.
pub proof fn lemma_normalize_keeps_classes(
    constraints: Classes,
    subs: SubstitutionModel,
    snapshot: SubstitutionModel,
    i: nat,
    var: int,
    class: Seq<char>,
)
    requires
        carries(constraints, var, class),
        normalize_spec(constraints, subs, snapshot, i) is Some,
    ensures
        carries(normalize_spec(constraints, subs, snapshot, i)->Some_0.0, var, class),
    decreases subs.subs.len() - i,
{
    if i < subs.subs.len() {
        lemma_replace_keeps_classes(
            constraints,
            subs.subs[i as int].1,
            snapshot,
            DEPTH_LIMIT as nat,
            var,
            class,
        );
        let (c, t) = replace_spec(constraints, subs.subs[i as int].1, snapshot, DEPTH_LIMIT as nat)->Some_0;
        lemma_normalize_keeps_classes(
            c,
            SubstitutionModel {
                subs: subs.subs.update(i as int, (subs.subs[i as int].0, t)),
                ..subs
            },
            snapshot,
            i + 1,
            var,
            class,
        );
    }
}

/// A type without type variables.
pub open spec fn ground(t: Ty) -> bool
    decreases t,
{
    t.head is Op && forall|i: int| 0 <= i < t.args.len() ==> ground(#[trigger] t.args[i])
}

/// The type is nested less deep than `depth`.
pub open spec fn within(t: Ty, depth: nat) -> bool
    decreases t,
{
    depth > 0 && forall|i: int|
        0 <= i < t.args.len() ==> within(#[trigger] t.args[i], (depth - 1) as nat)
}

/// A substitution leaves a type without variables, and the constraints, as they are.
pub proof fn lemma_replace_ground(
    constraints: Classes,
    t: Ty,
    subs: SubstitutionModel,
    depth: nat,
)
    requires
        ground(t),
        within(t, depth),
    ensures
        replace_spec(constraints, t, subs, depth) == Some((constraints, t)),
    decreases depth, 0nat, 0nat,
{
    lemma_replace_args_ground(constraints, t.args, subs, (depth - 1) as nat, 0);
}

proof fn lemma_replace_args_ground(
    constraints: Classes,
    args: Seq<Ty>,
    subs: SubstitutionModel,
    depth: nat,
    i: nat,
)
    requires
        forall|k: int| 0 <= k < args.len() ==> ground(#[trigger] args[k]) && within(args[k], depth),
    ensures
        crate::substitution::replace_args(constraints, args, subs, depth, i) == Some(
            (constraints, args),
        ),
    decreases depth, 1nat, args.len() - i,
{
    if i < args.len() {
        lemma_replace_ground(constraints, args[i as int], subs, depth);
        assert(args.update(i as int, args[i as int]) =~= args);
        lemma_replace_args_ground(constraints, args, subs, depth, i + 1);
    }
}

/// Two types without variables unify if and only if they are the same; the
/// environment and the substitution stay as they are. So on such types
/// unification succeeds or fails identically in either order.
pub proof fn lemma_unify_ground(
    env: EnvironmentModel,
    subs: SubstitutionModel,
    a: Ty,
    b: Ty,
    depth: nat,
)
    requires
        ground(a),
        ground(b),
        within(a, depth),
        within(b, depth),
    ensures
        a == b ==> unify_spec(env, subs, a, b, depth) == Unified::Ok((env, subs, a, b)),
        a != b ==> unify_spec(env, subs, a, b, depth) == Unified::Err(UnifyErrorModel::Operators),
    decreases depth, 0nat, 0nat,
{
    if a.head == b.head && a.args.len() == b.args.len() {
        lemma_unify_args_ground(env, subs, a, b, 0, (depth - 1) as nat);
        if a != b {
            if forall|k: int| 0 <= k < a.args.len() ==> a.args[k] == b.args[k] {
                assert(a.args =~= b.args);
            }
        }
    }
}

proof fn lemma_unify_args_ground(
    env: EnvironmentModel,
    subs: SubstitutionModel,
    lhs: Ty,
    rhs: Ty,
    i: nat,
    depth: nat,
)
    requires
        lhs.args.len() == rhs.args.len(),
        forall|k: int|
            0 <= k < lhs.args.len() ==> ground(#[trigger] lhs.args[k]) && within(lhs.args[k], depth),
        forall|k: int|
            0 <= k < rhs.args.len() ==> ground(#[trigger] rhs.args[k]) && within(rhs.args[k], depth),
    ensures
        (forall|k: int| i <= k < lhs.args.len() ==> lhs.args[k] == rhs.args[k]) ==> unify_args(
            env,
            subs,
            lhs,
            rhs,
            i,
            depth,
        ) == Unified::Ok((env, subs, lhs, rhs)),
        (exists|k: int| i <= k < lhs.args.len() && lhs.args[k] != rhs.args[k]) ==> unify_args(
            env,
            subs,
            lhs,
            rhs,
            i,
            depth,
        ) == Unified::Err(UnifyErrorModel::Operators),
    decreases depth, 1nat, lhs.args.len() - i,
{
    if i < lhs.args.len() {
        let l = lhs.args[i as int];
        let r = rhs.args[i as int];
        lemma_unify_ground(env, subs, l, r, depth);
        if l == r {
            let lhs1 = lhs.with_arg(i as int, l);
            let rhs1 = rhs.with_arg(i as int, r);
            assert(lhs1.args =~= lhs.args);
            assert(rhs1.args =~= rhs.args);
            assert(lhs1 == lhs);
            assert(rhs1 == rhs);
            if i + 1 < lhs.args.len() {
                lemma_replace_ground(env.constraints, lhs.args[i as int + 1], subs, depth);
                lemma_replace_ground(env.constraints, rhs.args[i as int + 1], subs, depth);
                assert(lhs.with_arg(i as int + 1, lhs.args[i as int + 1]).args =~= lhs.args);
                assert(rhs.with_arg(i as int + 1, rhs.args[i as int + 1]).args =~= rhs.args);
                assert(env.with_constraints(env.constraints) == env);
            }
            lemma_unify_args_ground(env, subs, lhs, rhs, i + 1, depth);
            if exists|k: int| i <= k < lhs.args.len() && lhs.args[k] != rhs.args[k] {
                let k = choose|k: int| i <= k < lhs.args.len() && lhs.args[k] != rhs.args[k];
                assert(i + 1 <= k);
            }
        }
    }
}

/// Takes two types and attempts to make them the same type. After a
/// failure the environment and the substitution are as they were before.
pub fn unify(
    env: &mut TypeEnvironment,
    subs: &mut Substitution,
    lhs: &Type,
    rhs: &Type,
    depth: usize,
) -> (res: Result<(Type, Type), UnifyError>)
    ensures
        unified(
            unify_spec(old(env)@, old(subs)@, lhs@, rhs@, depth as nat),
            final(env)@,
            final(subs)@,
            res,
        ),
        res is Err ==> final(env)@ == old(env)@ && final(subs)@ == old(subs)@,
{
    let mut e = env.clone();
    let mut s = subs.clone();
    match unify_(&mut e, &mut s, lhs, rhs, depth) {
        Ok(pair) => {
            *env = e;
            *subs = s;
            Ok(pair)
        },
        Err(error) => Err(error),
    }
}

/// Takes two types and attempts to make them the same type, for the
/// expression at `location`. After a failure the environment and the
/// substitution are as they were before.
pub fn unify_location(
    env: &mut TypeEnvironment,
    subs: &mut Substitution,
    location: &Location,
    lhs: &Type,
    rhs: &Type,
) -> (res: Result<(Type, Type), TypeError>)
    ensures
        located(
            unify_location_spec(old(env)@, old(subs)@, *location, lhs@, rhs@),
            final(env)@,
            final(subs)@,
            res,
        ),
        res is Err ==> final(env)@ == old(env)@ && final(subs)@ == old(subs)@,
{
    let mut e = env.clone();
    let mut s = subs.clone();
    match unify_at(&mut e, &mut s, location, lhs, rhs) {
        Ok(pair) => {
            *env = e;
            *subs = s;
            Ok(pair)
        },
        Err(error) => Err(error),
    }
}

} // verus!
