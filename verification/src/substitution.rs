//! Substitutions of types for type variables, and the operations that apply
//! them: the replacement of variables, the occurs check, and the propagation
//! of class constraints from a replaced variable to the variable that replaces it.
use crate::module::{clone_types, lemma_type_view, seq_view, Head, Ty, Type, TypeHead, TypeOperator, TypeVariable};
use crate::tables::{
    classes_model, clone_class_table, clone_names, clone_type_table, has_name, insert,
    insert_classes, lemma_lookup_insert, lookup, lookup_classes, lookup_type, types_model,
};
use vstd::prelude::*;

verus! {

/// Model of a map from type variables to the classes they must belong to.
pub type Classes = Seq<(int, Seq<Seq<char>>)>;

/// The types that stand for type variables, and the class constraints that
/// the replaced variables carried.
pub struct Substitution {
    pub subs: Vec<(i64, Type)>,
    pub constraints: Vec<(i64, Vec<String>)>,
}

pub struct SubstitutionModel {
    pub subs: Seq<(int, Ty)>,
    pub constraints: Classes,
}

impl View for Substitution {
    type V = SubstitutionModel;

    open spec fn view(&self) -> SubstitutionModel {
        SubstitutionModel {
            subs: types_model(self.subs@),
            constraints: classes_model(self.constraints@),
        }
    }
}

impl Substitution {
    /// The empty substitution.
    pub fn new() -> (res: Substitution)
        ensures
            res@ == (SubstitutionModel { subs: Seq::empty(), constraints: Seq::empty() }),
    {
        let res = Substitution { subs: Vec::new(), constraints: Vec::new() };
        proof {
            assert(res@.subs =~= Seq::empty());
            assert(res@.constraints =~= Seq::empty());
        }
        res
    }
}

/// Whether `s` is the name `lit`.
pub fn is_name(s: &String, lit: &str) -> (res: bool)
    ensures
        res == (s@ == lit@),
{
    let name = String::from_str(lit);
    *s == name
}

/// The type `arg -> result`.
pub fn function_type(func: &Type, arg: &Type) -> (res: Type)
    ensures
        res@ == Ty::function(func@, arg@),
{
    let mut types: Vec<Type> = Vec::new();
    types.push(func.clone());
    types.push(arg.clone());
    proof {
        assert(seq_view(types@) =~= seq![func@, arg@]);
    }
    Type::new_op(String::from_str("->"), types)
}

/// Whether the type variable `v` occurs in the type `t`.
pub open spec fn occurs_spec(v: int, t: Ty) -> bool
    decreases t,
{
    t.head == Head::Var(v) || exists|i: int|
        0 <= i < t.args.len() && occurs_spec(v, #[trigger] t.args[i])
}

/// Checks whether a type variable occurs in a type.
pub fn occurs(type_var: &TypeVariable, in_type: &Type) -> (res: bool)
    ensures
        res == occurs_spec(type_var.id as int, in_type@),
    decreases in_type,
{
    let here = match &in_type.typ {
        TypeHead::TypeVariable(var) => type_var.id == var.id,
        TypeHead::TypeOperator(_) => false,
    };
    if here {
        return true;
    }
    let mut i: usize = 0;
    while i < in_type.types.len()
        invariant
            i <= in_type.types.len(),
            forall|j: int| 0 <= j < i ==> !occurs_spec(type_var.id as int, #[trigger] in_type@.args[j]),
        decreases in_type.types.len() - i,
    {
        if occurs(type_var, &in_type.types[i]) {
            proof {
                assert(in_type@.args[i as int] == in_type.types@[i as int]@);
            }
            return true;
        }
        proof {
            assert(in_type@.args[i as int] == in_type.types@[i as int]@);
        }
        i += 1;
    }
    false
}

/// The list `to` followed by the names of `from` that it lacks, in order.
pub open spec fn add_missing(to: Seq<Seq<char>>, from: Seq<Seq<char>>) -> Seq<Seq<char>>
    decreases from.len(),
{
    if from.len() == 0 {
        to
    } else {
        let rest = add_missing(to, from.drop_last());
        if rest.contains(from.last()) {
            rest
        } else {
            rest.push(from.last())
        }
    }
}

/// Appends to `to` the names of `from` that it lacks.
pub fn merge_names(to: &mut Vec<String>, from: &Vec<String>)
    ensures
        seq_view(final(to)@) == add_missing(seq_view(old(to)@), seq_view(from@)),
{
    let mut i: usize = 0;
    proof {
        assert(seq_view(from@).take(0) =~= Seq::<Seq<char>>::empty());
    }
    while i < from.len()
        invariant
            i <= from.len(),
            seq_view(to@) == add_missing(seq_view(old(to)@), seq_view(from@).take(i as int)),
        decreases from.len() - i,
    {
        proof {
            let next = seq_view(from@).take(i + 1);
            assert(next.drop_last() =~= seq_view(from@).take(i as int));
            assert(next.last() == from@[i as int]@);
        }
        if !has_name(to, &from[i]) {
            let ghost before = to@;
            to.push(from[i].clone());
            proof {
                assert(seq_view(to@) =~= seq_view(before).push(from@[i as int]@));
            }
        }
        i += 1;
    }
    proof {
        assert(seq_view(from@).take(from@.len() as int) =~= seq_view(from@));
    }
}

/// The constraints after the variable `old` has been replaced by `new`: where
/// `new` is a variable, it carries in addition what the substitution recorded for `old`.
pub open spec fn update_constraints_spec(
    constraints: Classes,
    old: int,
    new: Ty,
    subs: SubstitutionModel,
) -> Classes {
    match new.head {
        Head::Var(new_var) => match lookup(subs.constraints, old) {
            Some(carried) => insert(
                constraints,
                new_var,
                add_missing(
                    match lookup(constraints, new_var) {
                        Some(had) => had,
                        None => Seq::empty(),
                    },
                    carried,
                ),
            ),
            None => constraints,
        },
        Head::Op(_) => constraints,
    }
}

/// Update the constraints when replacing the variable `var` with `new`.
pub fn update_constraints(
    constraints: &mut Vec<(i64, Vec<String>)>,
    var: i64,
    new: &Type,
    subs: &Substitution,
)
    ensures
        classes_model(final(constraints)@) == update_constraints_spec(
            classes_model(old(constraints)@),
            var as int,
            new@,
            subs@,
        ),
{
    match &new.typ {
        TypeHead::TypeVariable(new_var) => {
            match lookup_classes(&subs.constraints, var) {
                Some(carried) => {
                    let mut to_update = match lookup_classes(constraints, new_var.id) {
                        Some(had) => had,
                        None => {
                            let empty: Vec<String> = Vec::new();
                            proof {
                                assert(seq_view(empty@) =~= Seq::<Seq<char>>::empty());
                            }
                            empty
                        },
                    };
                    merge_names(&mut to_update, &carried);
                    insert_classes(constraints, new_var.id, to_update);
                },
                None => {},
            }
        },
        TypeHead::TypeOperator(_) => {},
    }
}

/// The head of `t` replaced by what the substitution holds for it: the whole
/// type where `t` has no arguments, else only the head.
pub open spec fn replace_head(constraints: Classes, t: Ty, subs: SubstitutionModel) -> (
    Classes,
    Ty,
) {
    match t.head {
        Head::Var(id) => match lookup(subs.subs, id) {
            Some(new) => (
                update_constraints_spec(constraints, id, new, subs),
                if t.args.len() > 0 {
                    Ty { head: new.head, args: t.args }
                } else {
                    new
                },
            ),
            None => (constraints, t),
        },
        Head::Op(_) => (constraints, t),
    }
}

/// The type `t` with its variables replaced by what the substitution holds
/// for them, and the constraints that this carries over; none where the type
/// that results is nested deeper than `depth`.
pub open spec fn replace_spec(
    constraints: Classes,
    t: Ty,
    subs: SubstitutionModel,
    depth: nat,
) -> Option<(Classes, Ty)>
    decreases depth, 0nat, 0nat,
{
    if depth == 0 {
        None
    } else {
        let (c, head) = replace_head(constraints, t, subs);
        match replace_args(c, head.args, subs, (depth - 1) as nat, 0) {
            Some((c2, args)) => Some((c2, Ty { head: head.head, args })),
            None => None,
        }
    }
}

/// `replace_spec` on each of `args` from the index `i` on, in order.
pub open spec fn replace_args(
    constraints: Classes,
    args: Seq<Ty>,
    subs: SubstitutionModel,
    depth: nat,
    i: nat,
) -> Option<(Classes, Seq<Ty>)>
    decreases depth, 1nat, args.len() - i,
{
    if i >= args.len() {
        Some((constraints, args))
    } else {
        match replace_spec(constraints, args[i as int], subs, depth) {
            Some((c, t)) => replace_args(c, args.update(i as int, t), subs, depth, i + 1),
            None => None,
        }
    }
}

/// As `replace`, but where the type is nested too deep the constraints are
/// left as they were when that was found.
pub(crate) fn replace_in(
    constraints: &mut Vec<(i64, Vec<String>)>,
    typ: &Type,
    subs: &Substitution,
    depth: usize,
) -> (res: Option<Type>)
    ensures
        match replace_spec(classes_model(old(constraints)@), typ@, subs@, depth as nat) {
            Some((c, t)) => res is Some && res.unwrap()@ == t && classes_model(final(constraints)@)
                == c,
            None => res is None,
        },
    decreases depth,
{
    if depth == 0 {
        return None;
    }
    let replaced = match &typ.typ {
        TypeHead::TypeVariable(id) => match lookup_type(&subs.subs, id.id) {
            Some(new) => {
                update_constraints(constraints, id.id, &new, subs);
                Some(new)
            },
            None => None,
        },
        TypeHead::TypeOperator(_) => None,
    };
    let head = match replaced {
        Some(x) => {
            if typ.types.len() > 0 {
                Type { typ: x.typ, types: clone_types(&typ.types) }
            } else {
                x
            }
        },
        None => typ.clone(),
    };
    proof {
        lemma_type_view(head);
        lemma_type_view(*typ);
        assert(head@ == replace_head(classes_model(old(constraints)@), typ@, subs@).1) by {
            assert(head@.args =~= replace_head(
                classes_model(old(constraints)@),
                typ@,
                subs@,
            ).1.args);
        }
    }
    let ghost c0 = classes_model(constraints@);
    let mut types: Vec<Type> = Vec::new();
    let mut i: usize = 0;
    proof {
        assert(seq_view(types@) + head@.args.skip(0) =~= head@.args);
    }
    while i < head.types.len()
        invariant
            i <= head.types.len(),
            depth > 0,
            types@.len() == i,
            replace_head(classes_model(old(constraints)@), typ@, subs@) == (c0, head@),
            replace_args(c0, head@.args, subs@, (depth - 1) as nat, 0) == replace_args(
                classes_model(constraints@),
                seq_view(types@) + head@.args.skip(i as int),
                subs@,
                (depth - 1) as nat,
                i as nat,
            ),
        decreases head.types.len() - i,
    {
        proof {
            lemma_type_view(head);
            assert((seq_view(types@) + head@.args.skip(i as int))[i as int]
                == head.types@[i as int]@);
        }
        let ghost before = classes_model(constraints@);
        match replace_in(constraints, &head.types[i], subs, depth - 1) {
            Some(t) => {
                proof {
                    assert(seq_view(types@.push(t)) + head@.args.skip(i + 1) =~= (seq_view(types@)
                        + head@.args.skip(i as int)).update(i as int, t@));
                }
                types.push(t);
            },
            None => {
                proof {
                    assert(replace_args(
                        before,
                        seq_view(types@) + head@.args.skip(i as int),
                        subs@,
                        (depth - 1) as nat,
                        i as nat,
                    ) is None);
                }
                return None;
            },
        }
        i += 1;
    }
    proof {
        lemma_type_view(head);
        assert(seq_view(types@) + head@.args.skip(i as int) =~= seq_view(types@));
    }
    let res = Type { typ: head.typ, types };
    proof {
        lemma_type_view(res);
    }
    Some(res)
}

/// Replace all type variables using the substitution `subs`. Where the type
/// that results is nested deeper than `depth`, the constraints stay as they were.
pub fn replace(
    constraints: &mut Vec<(i64, Vec<String>)>,
    typ: &Type,
    subs: &Substitution,
    depth: usize,
) -> (res: Option<Type>)
    ensures
        match replace_spec(classes_model(old(constraints)@), typ@, subs@, depth as nat) {
            Some((c, t)) => res is Some && res.unwrap()@ == t && classes_model(final(constraints)@)
                == c,
            None => res is None && classes_model(final(constraints)@) == classes_model(
                old(constraints)@,
            ),
        },
{
    let mut work = clone_class_table(constraints);
    match replace_in(&mut work, typ, subs, depth) {
        Some(t) => {
            *constraints = work;
            Some(t)
        },
        None => None,
    }
}

impl Clone for Substitution {
    fn clone(&self) -> (res: Self)
        ensures
            res@ == self@,
    {
        Substitution {
            subs: clone_type_table(&self.subs),
            constraints: clone_class_table(&self.constraints),
        }
    }
}

/// The type variable `var` must belong to the class `class`.
pub open spec fn carries(constraints: Classes, var: int, class: Seq<char>) -> bool {
    lookup(constraints, var) is Some && lookup(constraints, var)->Some_0.contains(class)
}

/// `add_missing` keeps what the list holds and adds what the other holds.
pub proof fn lemma_add_missing(to: Seq<Seq<char>>, from: Seq<Seq<char>>, class: Seq<char>)
    ensures
        to.contains(class) ==> add_missing(to, from).contains(class),
        from.contains(class) ==> add_missing(to, from).contains(class),
    decreases from.len(),
{
    if from.len() > 0 {
        let rest = add_missing(to, from.drop_last());
        lemma_add_missing(to, from.drop_last(), class);
        if to.contains(class) || from.drop_last().contains(class) {
            if !rest.contains(from.last()) {
                let k = choose|k: int| 0 <= k < rest.len() && rest[k] == class;
                assert(rest.push(from.last())[k] == class);
            }
        } else if from.contains(class) {
            let k = choose|k: int| 0 <= k < from.len() && from[k] == class;
            if k < from.len() - 1 {
                assert(from.drop_last()[k] == class);
            }
            assert(from.last() == class);
            if !rest.contains(class) {
                assert(rest.push(class)[rest.len() as int] == class);
            }
        }
    }
}

/// Replacing a variable removes no class from any variable, and the
/// variable that replaces it carries each class that the substitution
/// recorded for the replaced one.
pub proof fn lemma_update_constraints(
    constraints: Classes,
    replaced: int,
    new: Ty,
    subs: SubstitutionModel,
    var: int,
    class: Seq<char>,
)
    ensures
        carries(constraints, var, class) ==> carries(
            update_constraints_spec(constraints, replaced, new, subs),
            var,
            class,
        ),
        new.head is Var && carries(subs.constraints, replaced, class) ==> carries(
            update_constraints_spec(constraints, replaced, new, subs),
            new.var_id(),
            class,
        ),
{
    match new.head {
        Head::Var(new_var) => match lookup(subs.constraints, replaced) {
            Some(carried) => {
                let had = match lookup(constraints, new_var) {
                    Some(had) => had,
                    None => Seq::empty(),
                };
                lemma_lookup_insert(constraints, new_var, add_missing(had, carried), var);
                lemma_lookup_insert(constraints, new_var, add_missing(had, carried), new_var);
                lemma_add_missing(had, carried, class);
            },
            None => {},
        },
        Head::Op(_) => {},
    }
}

/// Constraint propagation is monotone: a class that a variable carries
/// before a substitution is applied to a type, it carries after it.
pub proof fn lemma_replace_keeps_classes(
    constraints: Classes,
    t: Ty,
    subs: SubstitutionModel,
    depth: nat,
    var: int,
    class: Seq<char>,
)
    requires
        carries(constraints, var, class),
        replace_spec(constraints, t, subs, depth) is Some,
    ensures
        carries(replace_spec(constraints, t, subs, depth)->Some_0.0, var, class),
    decreases depth, 0nat, 0nat,
{
    let (c, head) = replace_head(constraints, t, subs);
    match t.head {
        Head::Var(id) => match lookup(subs.subs, id) {
            Some(new) => {
                lemma_update_constraints(constraints, id, new, subs, var, class);
            },
            None => {},
        },
        Head::Op(_) => {},
    }
    lemma_replace_args_keep_classes(c, head.args, subs, (depth - 1) as nat, 0, var, class);
}

proof fn lemma_replace_args_keep_classes(
    constraints: Classes,
    args: Seq<Ty>,
    subs: SubstitutionModel,
    depth: nat,
    i: nat,
    var: int,
    class: Seq<char>,
)
    requires
        carries(constraints, var, class),
        replace_args(constraints, args, subs, depth, i) is Some,
    ensures
        carries(replace_args(constraints, args, subs, depth, i)->Some_0.0, var, class),
    decreases depth, 1nat, args.len() - i,
{
    if i < args.len() {
        lemma_replace_keeps_classes(constraints, args[i as int], subs, depth, var, class);
        let (c, t) = replace_spec(constraints, args[i as int], subs, depth)->Some_0;
        lemma_replace_args_keep_classes(c, args.update(i as int, t), subs, depth, i + 1, var, class);
    }
}

/// Constraint propagation reaches every depth: where a variable that the
/// substitution replaces by another variable occurs anywhere in a type, the
/// variable that replaces it carries, once the substitution has been applied
/// to the type, each class that the substitution recorded for the replaced one.
pub proof fn lemma_replace_carries_classes_over(
    constraints: Classes,
    t: Ty,
    subs: SubstitutionModel,
    depth: nat,
    replaced: int,
    class: Seq<char>,
)
    requires
        occurs_spec(replaced, t),
        lookup(subs.subs, replaced) is Some,
        lookup(subs.subs, replaced)->Some_0.head is Var,
        carries(subs.constraints, replaced, class),
        replace_spec(constraints, t, subs, depth) is Some,
    ensures
        carries(
            replace_spec(constraints, t, subs, depth)->Some_0.0,
            lookup(subs.subs, replaced)->Some_0.var_id(),
            class,
        ),
    decreases depth, 0nat, 0nat,
{
    let (c, head) = replace_head(constraints, t, subs);
    let new = lookup(subs.subs, replaced)->Some_0;
    if t.head == Head::Var(replaced) {
        lemma_update_constraints(constraints, replaced, new, subs, new.var_id(), class);
        lemma_replace_args_keep_classes(
            c,
            head.args,
            subs,
            (depth - 1) as nat,
            0,
            new.var_id(),
            class,
        );
    } else {
        let k = choose|k: int| 0 <= k < t.args.len() && occurs_spec(replaced, #[trigger] t.args[k]);
        assert(head.args == t.args);
        lemma_replace_args_carry_classes_over(
            c,
            head.args,
            subs,
            (depth - 1) as nat,
            0,
            k,
            replaced,
            class,
        );
    }
}

proof fn lemma_replace_args_carry_classes_over(
    constraints: Classes,
    args: Seq<Ty>,
    subs: SubstitutionModel,
    depth: nat,
    i: nat,
    k: int,
    replaced: int,
    class: Seq<char>,
)
    requires
        i <= k < args.len(),
        occurs_spec(replaced, args[k]),
        lookup(subs.subs, replaced) is Some,
        lookup(subs.subs, replaced)->Some_0.head is Var,
        carries(subs.constraints, replaced, class),
        replace_args(constraints, args, subs, depth, i) is Some,
    ensures
        carries(
            replace_args(constraints, args, subs, depth, i)->Some_0.0,
            lookup(subs.subs, replaced)->Some_0.var_id(),
            class,
        ),
    decreases depth, 1nat, args.len() - i,
{
    let new = lookup(subs.subs, replaced)->Some_0;
    let (c, t) = replace_spec(constraints, args[i as int], subs, depth)->Some_0;
    let rest = args.update(i as int, t);
    assert(replace_args(constraints, args, subs, depth, i) == replace_args(
        c,
        rest,
        subs,
        depth,
        i + 1,
    ));
    if i == k {
        lemma_replace_carries_classes_over(constraints, args[i as int], subs, depth, replaced, class);
        lemma_replace_args_keep_classes(c, rest, subs, depth, i + 1, new.var_id(), class);
    } else {
        assert(rest[k] == args[k]);
        lemma_replace_args_carry_classes_over(c, rest, subs, depth, i + 1, k, replaced, class);
    }
}

/// The type `r` has the operators of `t` where `t` has them: the same name
/// with as many arguments at each place down to the variables of `t` that
/// have no arguments.
pub open spec fn keeps_operators(t: Ty, r: Ty) -> bool
    decreases t,
{
    &&& t.head is Op ==> r.head == t.head
    &&& t.head is Op || t.args.len() > 0 ==> {
        &&& r.args.len() == t.args.len()
        &&& forall|i: int|
            0 <= i < t.args.len() ==> keeps_operators(#[trigger] t.args[i], r.args[i])
    }
}

/// Applying a substitution to a type changes its variables only: each
/// operator keeps its name and its number of arguments.
pub proof fn lemma_replace_keeps_operators(
    constraints: Classes,
    t: Ty,
    subs: SubstitutionModel,
    depth: nat,
)
    requires
        replace_spec(constraints, t, subs, depth) is Some,
    ensures
        keeps_operators(t, replace_spec(constraints, t, subs, depth)->Some_0.1),
    decreases depth, 0nat, 0nat,
{
    let (c, head) = replace_head(constraints, t, subs);
    lemma_replace_args_keep_operators(c, head.args, subs, (depth - 1) as nat, 0);
    let r = replace_spec(constraints, t, subs, depth)->Some_0.1;
    if t.head is Op || t.args.len() > 0 {
        assert(head.args == t.args);
        assert forall|i: int| 0 <= i < t.args.len() implies keeps_operators(
            #[trigger] t.args[i],
            r.args[i],
        ) by {}
    }
}

proof fn lemma_replace_args_keep_operators(
    constraints: Classes,
    args: Seq<Ty>,
    subs: SubstitutionModel,
    depth: nat,
    i: nat,
)
    requires
        replace_args(constraints, args, subs, depth, i) is Some,
    ensures
        ({
            let res = replace_args(constraints, args, subs, depth, i)->Some_0.1;
            &&& res.len() == args.len()
            &&& forall|j: int| 0 <= j < i && j < args.len() ==> #[trigger] res[j] == args[j]
            &&& forall|j: int| i <= j < args.len() ==> keeps_operators(#[trigger] args[j], res[j])
        }),
    decreases depth, 1nat, args.len() - i,
{
    if i < args.len() {
        let (c, t) = replace_spec(constraints, args[i as int], subs, depth)->Some_0;
        let rest = args.update(i as int, t);
        assert(replace_args(constraints, args, subs, depth, i) == replace_args(
            c,
            rest,
            subs,
            depth,
            i + 1,
        ));
        lemma_replace_keeps_operators(constraints, args[i as int], subs, depth);
        lemma_replace_args_keep_operators(c, rest, subs, depth, i + 1);
        let res = replace_args(c, rest, subs, depth, i + 1)->Some_0.1;
        assert forall|j: int| i <= j < args.len() implies keeps_operators(
            #[trigger] args[j],
            res[j],
        ) by {
            if j == i {
                assert(res[j] == rest[j]);
            } else {
                assert(rest[j] == args[j]);
            }
        }
        assert forall|j: int| 0 <= j < i && j < args.len() implies #[trigger] res[j] == args[j] by {
            assert(res[j] == rest[j]);
        }
    }
}

} // verus!
