//! Association lists: the maps of type inference, kept in the order in which
//! their keys were first inserted.
use crate::module::{seq_view, Ty, Type};
use vstd::prelude::*;

verus! {

/// The first index at or after `from` at which the key `k` stands.
pub open spec fn position<K, V>(s: Seq<(K, V)>, k: K, from: int) -> Option<int>
    decreases s.len() - from,
{
    if from < 0 || from >= s.len() {
        None
    } else if s[from].0 == k {
        Some(from)
    } else {
        position(s, k, from + 1)
    }
}

/// The value of the key `k`.
pub open spec fn lookup<K, V>(s: Seq<(K, V)>, k: K) -> Option<V> {
    match position(s, k, 0) {
        Some(i) => Some(s[i].1),
        None => None,
    }
}

/// The list in which `k` has the value `v`: in the place that `k` had, or at the end.
pub open spec fn insert<K, V>(s: Seq<(K, V)>, k: K, v: V) -> Seq<(K, V)> {
    match position(s, k, 0) {
        Some(i) => s.update(i, (k, v)),
        None => s.push((k, v)),
    }
}

/// The list without the key `k`.
pub open spec fn remove<K, V>(s: Seq<(K, V)>, k: K) -> Seq<(K, V)> {
    match position(s, k, 0) {
        Some(i) => s.remove(i),
        None => s,
    }
}

/// `position` finds the first index that holds the key, and none only where no index holds it.
pub proof fn lemma_position<K, V>(s: Seq<(K, V)>, k: K, from: int)
    requires
        0 <= from,
    ensures
        match position(s, k, from) {
            Some(i) => from <= i < s.len() && s[i].0 == k && forall|j: int|
                from <= j < i ==> (#[trigger] s[j]).0 != k,
            None => forall|j: int| from <= j < s.len() ==> (#[trigger] s[j]).0 != k,
        },
    decreases s.len() - from,
{
    if from < s.len() && s[from].0 != k {
        lemma_position(s, k, from + 1);
    }
}

/// The index `i` holds the key `k` and no index before it does, so `position` finds it.
pub proof fn lemma_position_found<K, V>(s: Seq<(K, V)>, k: K, i: int)
    requires
        0 <= i < s.len(),
        s[i].0 == k,
        forall|j: int| 0 <= j < i ==> (#[trigger] s[j]).0 != k,
    ensures
        position(s, k, 0) == Some(i),
{
    lemma_position(s, k, 0);
}

/// No index holds the key `k`, so `position` finds none.
pub proof fn lemma_position_absent<K, V>(s: Seq<(K, V)>, k: K)
    requires
        forall|j: int| 0 <= j < s.len() ==> (#[trigger] s[j]).0 != k,
    ensures
        position(s, k, 0) is None,
{
    lemma_position(s, k, 0);
}

/// Model of a table from names to types.
pub open spec fn names_model(t: Seq<(String, Type)>) -> Seq<(Seq<char>, Ty)> {
    Seq::new(t.len(), |i: int| (t[i].0@, t[i].1@))
}

/// Model of a table from type variables to class names.
pub open spec fn classes_model(t: Seq<(i64, Vec<String>)>) -> Seq<(int, Seq<Seq<char>>)> {
    Seq::new(t.len(), |i: int| (t[i].0 as int, seq_view(t[i].1@)))
}

/// Model of a table from type variables to types.
pub open spec fn types_model(t: Seq<(i64, Type)>) -> Seq<(int, Ty)> {
    Seq::new(t.len(), |i: int| (t[i].0 as int, t[i].1@))
}

/// The first index of `table` whose key is `name`.
pub fn find_name<V>(table: &Vec<(String, V)>, name: &String) -> (res: Option<usize>)
    ensures
        match res {
            Some(i) => i < table@.len() && table@[i as int].0@ == name@ && forall|j: int|
                0 <= j < i ==> (#[trigger] table@[j]).0@ != name@,
            None => forall|j: int| 0 <= j < table@.len() ==> (#[trigger] table@[j]).0@ != name@,
        },
{
    let mut i: usize = 0;
    while i < table.len()
        invariant
            i <= table.len(),
            forall|j: int| 0 <= j < i ==> (#[trigger] table@[j]).0@ != name@,
        decreases table.len() - i,
    {
        if table[i].0 == *name {
            return Some(i);
        }
        i += 1;
    }
    None
}

/// The first index of `table` whose key is `var`.
pub fn find_var<V>(table: &Vec<(i64, V)>, var: i64) -> (res: Option<usize>)
    ensures
        match res {
            Some(i) => i < table@.len() && table@[i as int].0 == var && forall|j: int|
                0 <= j < i ==> (#[trigger] table@[j]).0 != var,
            None => forall|j: int| 0 <= j < table@.len() ==> (#[trigger] table@[j]).0 != var,
        },
{
    let mut i: usize = 0;
    while i < table.len()
        invariant
            i <= table.len(),
            forall|j: int| 0 <= j < i ==> (#[trigger] table@[j]).0 != var,
        decreases table.len() - i,
    {
        if table[i].0 == var {
            return Some(i);
        }
        i += 1;
    }
    None
}

/// Whether the list of names holds `name`.
pub fn has_name(list: &Vec<String>, name: &String) -> (res: bool)
    ensures
        res == seq_view(list@).contains(name@),
{
    let mut i: usize = 0;
    while i < list.len()
        invariant
            i <= list.len(),
            forall|j: int| 0 <= j < i ==> (#[trigger] list@[j])@ != name@,
        decreases list.len() - i,
    {
        if list[i] == *name {
            proof {
                assert(seq_view(list@)[i as int] == name@);
            }
            return true;
        }
        i += 1;
    }
    proof {
        assert forall|j: int| 0 <= j < seq_view(list@).len() implies seq_view(list@)[j]
            != name@ by {
            assert(list@[j]@ != name@);
        }
    }
    false
}

/// Copies a list of names.
pub fn clone_names(list: &Vec<String>) -> (res: Vec<String>)
    ensures
        seq_view(res@) == seq_view(list@),
{
    let mut out: Vec<String> = Vec::new();
    let mut i: usize = 0;
    while i < list.len()
        invariant
            i <= list.len(),
            out@.len() == i,
            forall|j: int| 0 <= j < i ==> (#[trigger] out@[j])@ == list@[j]@,
        decreases list.len() - i,
    {
        out.push(list[i].clone());
        i += 1;
    }
    proof {
        assert(seq_view(out@) =~= seq_view(list@));
    }
    out
}

/// The type of `name` in `table`, copied.
pub fn lookup_name(table: &Vec<(String, Type)>, name: &String) -> (res: Option<Type>)
    ensures
        match lookup(names_model(table@), name@) {
            Some(t) => res is Some && res.unwrap()@ == t,
            None => res is None,
        },
{
    proof {
        lemma_position(names_model(table@), name@, 0);
    }
    match find_name(table, name) {
        Some(i) => {
            proof {
                assert(names_model(table@)[i as int].0 == name@);
                lemma_position_found(names_model(table@), name@, i as int);
            }
            Some(table[i].1.clone())
        },
        None => {
            proof {
                lemma_position_absent(names_model(table@), name@);
            }
            None
        },
    }
}

/// Gives `name` the type `typ` in `table`.
pub fn insert_name(table: &mut Vec<(String, Type)>, name: String, typ: Type)
    ensures
        names_model(final(table)@) == insert(names_model(old(table)@), name@, typ@),
{
    match find_name(table, &name) {
        Some(i) => {
            proof {
                assert(names_model(table@)[i as int].0 == name@);
                lemma_position_found(names_model(table@), name@, i as int);
            }
            table[i] = (name, typ);
            proof {
                assert(names_model(table@) =~= insert(names_model(old(table)@), name@, typ@));
            }
        },
        None => {
            proof {
                lemma_position_absent(names_model(table@), name@);
            }
            table.push((name, typ));
            proof {
                assert(names_model(table@) =~= insert(names_model(old(table)@), name@, typ@));
            }
        },
    }
}

/// Takes `name` out of `table` and returns the type it had.
pub fn remove_name(table: &mut Vec<(String, Type)>, name: &String) -> (res: Option<Type>)
    ensures
        names_model(final(table)@) == remove(names_model(old(table)@), name@),
        match lookup(names_model(old(table)@), name@) {
            Some(t) => res is Some && res.unwrap()@ == t,
            None => res is None,
        },
{
    match find_name(table, name) {
        Some(i) => {
            proof {
                assert(names_model(table@)[i as int].0 == name@);
                lemma_position_found(names_model(table@), name@, i as int);
            }
            let (_, typ) = table.remove(i);
            proof {
                assert(names_model(table@) =~= remove(names_model(old(table)@), name@));
            }
            Some(typ)
        },
        None => {
            proof {
                lemma_position_absent(names_model(table@), name@);
            }
            None
        },
    }
}

/// The type of `var` in `table`, copied.
pub fn lookup_type(table: &Vec<(i64, Type)>, var: i64) -> (res: Option<Type>)
    ensures
        match lookup(types_model(table@), var as int) {
            Some(t) => res is Some && res.unwrap()@ == t,
            None => res is None,
        },
{
    match find_var(table, var) {
        Some(i) => {
            proof {
                assert(types_model(table@)[i as int].0 == var);
                lemma_position_found(types_model(table@), var as int, i as int);
            }
            Some(table[i].1.clone())
        },
        None => {
            proof {
                lemma_position_absent(types_model(table@), var as int);
            }
            None
        },
    }
}

/// Gives `var` the type `typ` in `table`.
pub fn insert_type(table: &mut Vec<(i64, Type)>, var: i64, typ: Type)
    ensures
        types_model(final(table)@) == insert(types_model(old(table)@), var as int, typ@),
{
    match find_var(table, var) {
        Some(i) => {
            proof {
                assert(types_model(table@)[i as int].0 == var);
                lemma_position_found(types_model(table@), var as int, i as int);
            }
            table[i] = (var, typ);
            proof {
                assert(types_model(table@) =~= insert(types_model(old(table)@), var as int, typ@));
            }
        },
        None => {
            proof {
                lemma_position_absent(types_model(table@), var as int);
            }
            table.push((var, typ));
            proof {
                assert(types_model(table@) =~= insert(types_model(old(table)@), var as int, typ@));
            }
        },
    }
}

/// The classes of `var` in `table`, copied.
pub fn lookup_classes(table: &Vec<(i64, Vec<String>)>, var: i64) -> (res: Option<Vec<String>>)
    ensures
        match lookup(classes_model(table@), var as int) {
            Some(c) => res is Some && seq_view(res.unwrap()@) == c,
            None => res is None,
        },
{
    match find_var(table, var) {
        Some(i) => {
            proof {
                assert(classes_model(table@)[i as int].0 == var);
                lemma_position_found(classes_model(table@), var as int, i as int);
            }
            Some(clone_names(&table[i].1))
        },
        None => {
            proof {
                lemma_position_absent(classes_model(table@), var as int);
            }
            None
        },
    }
}

/// Gives `var` the classes `classes` in `table`.
pub fn insert_classes(table: &mut Vec<(i64, Vec<String>)>, var: i64, classes: Vec<String>)
    ensures
        classes_model(final(table)@) == insert(
            classes_model(old(table)@),
            var as int,
            seq_view(classes@),
        ),
{
    match find_var(table, var) {
        Some(i) => {
            proof {
                assert(classes_model(table@)[i as int].0 == var);
                lemma_position_found(classes_model(table@), var as int, i as int);
            }
            table[i] = (var, classes);
            proof {
                assert(classes_model(table@) =~= insert(
                    classes_model(old(table)@),
                    var as int,
                    seq_view(classes@),
                ));
            }
        },
        None => {
            proof {
                lemma_position_absent(classes_model(table@), var as int);
            }
            table.push((var, classes));
            proof {
                assert(classes_model(table@) =~= insert(
                    classes_model(old(table)@),
                    var as int,
                    seq_view(classes@),
                ));
            }
        },
    }
}

/// Takes `var` out of `table` and returns the classes it had.
pub fn remove_classes(table: &mut Vec<(i64, Vec<String>)>, var: i64) -> (res: Option<Vec<String>>)
    ensures
        classes_model(final(table)@) == remove(classes_model(old(table)@), var as int),
        match lookup(classes_model(old(table)@), var as int) {
            Some(c) => res is Some && seq_view(res.unwrap()@) == c,
            None => res is None,
        },
{
    match find_var(table, var) {
        Some(i) => {
            proof {
                assert(classes_model(table@)[i as int].0 == var);
                lemma_position_found(classes_model(table@), var as int, i as int);
            }
            let (_, classes) = table.remove(i);
            proof {
                assert(classes_model(table@) =~= remove(classes_model(old(table)@), var as int));
            }
            Some(classes)
        },
        None => {
            proof {
                lemma_position_absent(classes_model(table@), var as int);
            }
            None
        },
    }
}

/// Copies a table from type variables to types.
pub fn clone_type_table(table: &Vec<(i64, Type)>) -> (res: Vec<(i64, Type)>)
    ensures
        types_model(res@) == types_model(table@),
{
    let mut out: Vec<(i64, Type)> = Vec::new();
    let mut i: usize = 0;
    while i < table.len()
        invariant
            i <= table.len(),
            out@.len() == i,
            forall|j: int|
                0 <= j < i ==> (#[trigger] out@[j]).0 == table@[j].0 && out@[j].1@ == table@[j].1@,
        decreases table.len() - i,
    {
        out.push((table[i].0, table[i].1.clone()));
        i += 1;
    }
    proof {
        assert(types_model(out@) =~= types_model(table@));
    }
    out
}

/// Copies a table from type variables to class names.
pub fn clone_class_table(table: &Vec<(i64, Vec<String>)>) -> (res: Vec<(i64, Vec<String>)>)
    ensures
        classes_model(res@) == classes_model(table@),
{
    let mut out: Vec<(i64, Vec<String>)> = Vec::new();
    let mut i: usize = 0;
    while i < table.len()
        invariant
            i <= table.len(),
            out@.len() == i,
            forall|j: int|
                0 <= j < i ==> (#[trigger] out@[j]).0 == table@[j].0 && seq_view(out@[j].1@)
                    == seq_view(table@[j].1@),
        decreases table.len() - i,
    {
        out.push((table[i].0, clone_names(&table[i].1)));
        i += 1;
    }
    proof {
        assert(classes_model(out@) =~= classes_model(table@));
    }
    out
}

/// After `k` got the value `v`, `k` has the value `v` and every other key
/// the value it had.
pub proof fn lemma_lookup_insert<K, V>(s: Seq<(K, V)>, k: K, v: V, other: K)
    ensures
        lookup(insert(s, k, v), other) == if other == k {
            Some(v)
        } else {
            lookup(s, other)
        },
{
    let t = insert(s, k, v);
    lemma_position(s, k, 0);
    lemma_position(s, other, 0);
    lemma_position(t, other, 0);
    match position(s, k, 0) {
        Some(i) => {
            assert(t == s.update(i, (k, v)));
            if other == k {
                assert(t[i].0 == k);
                assert forall|j: int| 0 <= j < i implies (#[trigger] t[j]).0 != k by {
                    assert(t[j] == s[j]);
                }
                lemma_position_found(t, k, i);
            } else {
                match position(s, other, 0) {
                    Some(j) => {
                        assert(t[j] == s[j]);
                        assert forall|x: int| 0 <= x < j implies (#[trigger] t[x]).0 != other by {
                            assert(t[x].0 == s[x].0);
                        }
                        lemma_position_found(t, other, j);
                    },
                    None => {
                        assert forall|x: int| 0 <= x < t.len() implies (#[trigger] t[x]).0
                            != other by {
                            assert(t[x].0 == s[x].0);
                        }
                        lemma_position_absent(t, other);
                    },
                }
            }
        },
        None => {
            assert(t == s.push((k, v)));
            if other == k {
                assert forall|j: int| 0 <= j < s.len() implies (#[trigger] t[j]).0 != k by {
                    assert(t[j] == s[j]);
                }
                lemma_position_found(t, k, s.len() as int);
            } else {
                match position(s, other, 0) {
                    Some(j) => {
                        assert(t[j] == s[j]);
                        assert forall|x: int| 0 <= x < j implies (#[trigger] t[x]).0 != other by {
                            assert(t[x] == s[x]);
                        }
                        lemma_position_found(t, other, j);
                    },
                    None => {
                        assert forall|x: int| 0 <= x < t.len() implies (#[trigger] t[x]).0
                            != other by {
                            if x < s.len() {
                                assert(t[x] == s[x]);
                            }
                        }
                        lemma_position_absent(t, other);
                    },
                }
            }
        },
    }
}

/// After `k` was taken out, every other key has the value it had.
pub proof fn lemma_lookup_remove<K, V>(s: Seq<(K, V)>, k: K, other: K)
    requires
        other != k,
    ensures
        lookup(remove(s, k), other) == lookup(s, other),
{
    let t = remove(s, k);
    lemma_position(s, k, 0);
    lemma_position(s, other, 0);
    lemma_position(t, other, 0);
    match position(s, k, 0) {
        Some(i) => {
            assert(t == s.remove(i));
            match position(s, other, 0) {
                Some(j) => {
                    let j2 = if j < i {
                        j
                    } else {
                        j - 1
                    };
                    assert(t[j2] == s[j]);
                    assert forall|x: int| 0 <= x < j2 implies (#[trigger] t[x]).0 != other by {
                        if x < i {
                            assert(t[x] == s[x]);
                        } else {
                            assert(t[x] == s[x + 1]);
                        }
                    }
                    lemma_position_found(t, other, j2);
                },
                None => {
                    assert forall|x: int| 0 <= x < t.len() implies (#[trigger] t[x]).0 != other by {
                        if x < i {
                            assert(t[x] == s[x]);
                        } else {
                            assert(t[x] == s[x + 1]);
                        }
                    }
                    lemma_position_absent(t, other);
                },
            }
        },
        None => {},
    }
}

/// Copies a table from names to types.
pub fn clone_name_table(table: &Vec<(String, Type)>) -> (res: Vec<(String, Type)>)
    ensures
        names_model(res@) == names_model(table@),
{
    let mut out: Vec<(String, Type)> = Vec::new();
    let mut i: usize = 0;
    while i < table.len()
        invariant
            i <= table.len(),
            out@.len() == i,
            forall|j: int|
                0 <= j < i ==> (#[trigger] out@[j]).0@ == table@[j].0@ && out@[j].1@ == table@[j].1@,
        decreases table.len() - i,
    {
        out.push((table[i].0.clone(), table[i].1.clone()));
        i += 1;
    }
    proof {
        assert(names_model(out@) =~= names_model(table@));
    }
    out
}

} // verus!
