//! Scopes: the names that a scope shadows, which it restores when it ends, and
//! the types whose variables may not be generalised while it lasts.
use crate::environment::{EnvironmentModel, TypeEnvironment, TypeError, TypeErrorModel};
use crate::module::{lemma_type_view, seq_view, Head, Ty, Type, TypeHead, TypeVariable};
use crate::substitution::occurs;
use crate::substitution::occurs_spec;
use crate::tables::{
    clone_name_table, clone_type_table, insert, insert_classes, insert_name, insert_type, lookup,
    lookup_classes, lookup_type, names_model, remove, remove_name, types_model,
};
use vstd::prelude::*;

verus! {

/// An enclosing scope.
#[derive(Debug)]
pub struct Scope {
    pub vars: Vec<(String, Type)>,
    pub non_generic: Vec<Type>,
}

pub struct ScopeModel {
    pub vars: Seq<(Seq<char>, Ty)>,
    pub non_generic: Seq<Ty>,
}

impl View for Scope {
    type V = ScopeModel;

    open spec fn view(&self) -> ScopeModel {
        ScopeModel { vars: names_model(self.vars@), non_generic: seq_view(self.non_generic@) }
    }
}

/// The current scope and the scopes that enclose it, the outermost first.
/// `vars` holds the types that names had before this scope gave them another.
#[derive(Debug)]
pub struct TypeScope {
    pub vars: Vec<(String, Type)>,
    pub non_generic: Vec<Type>,
    pub parents: Vec<Scope>,
}

pub struct TypeScopeModel {
    pub vars: Seq<(Seq<char>, Ty)>,
    pub non_generic: Seq<Ty>,
    pub parents: Seq<ScopeModel>,
}

impl View for TypeScope {
    type V = TypeScopeModel;

    open spec fn view(&self) -> TypeScopeModel {
        TypeScopeModel {
            vars: names_model(self.vars@),
            non_generic: seq_view(self.non_generic@),
            parents: seq_view(self.parents@),
        }
    }
}

/// The variable `var` occurs in none of `types`.
pub open spec fn free_of(types: Seq<Ty>, var: int) -> bool {
    forall|j: int| 0 <= j < types.len() ==> !occurs_spec(var, #[trigger] types[j])
}

/// The names of `vars`, last first, given back the types they had.
pub open spec fn restore(named: Seq<(Seq<char>, Ty)>, vars: Seq<(Seq<char>, Ty)>) -> Seq<
    (Seq<char>, Ty),
>
    decreases vars.len(),
{
    if vars.len() == 0 {
        named
    } else {
        restore(insert(named, vars.last().0, vars.last().1), vars.drop_last())
    }
}

impl TypeScopeModel {
    pub open spec fn empty() -> TypeScopeModel {
        TypeScopeModel { vars: Seq::empty(), non_generic: Seq::empty(), parents: Seq::empty() }
    }

    /// A variable is generic if it occurs in no type that this scope or an
    /// enclosing one holds as not generic.
    pub open spec fn is_generic(self, var: int) -> bool {
        free_of(self.non_generic, var) && forall|i: int|
            0 <= i < self.parents.len() ==> free_of((#[trigger] self.parents[i]).non_generic, var)
    }

    /// The scope inside this one.
    pub open spec fn enter(self) -> TypeScopeModel {
        TypeScopeModel {
            vars: Seq::empty(),
            non_generic: Seq::empty(),
            parents: self.parents.push(
                ScopeModel { vars: self.vars, non_generic: self.non_generic },
            ),
        }
    }

    /// The scope around this one; the empty scope where there is none.
    pub open spec fn leave(self) -> TypeScopeModel {
        if self.parents.len() == 0 {
            TypeScopeModel::empty()
        } else {
            TypeScopeModel {
                vars: self.parents.last().vars,
                non_generic: self.parents.last().non_generic,
                parents: self.parents.drop_last(),
            }
        }
    }

    /// The scope after `name` got a type in it, where `had` is the type that
    /// the name had before.
    pub open spec fn shadow(self, name: Seq<char>, had: Option<Ty>) -> TypeScopeModel {
        match had {
            Some(t) => TypeScopeModel { vars: self.vars.push((name, t)), ..self },
            None => self,
        }
    }

    pub open spec fn with_non_generic(self, t: Ty) -> TypeScopeModel {
        TypeScopeModel { non_generic: self.non_generic.push(t), ..self }
    }

    pub open spec fn without_last_non_generic(self) -> TypeScopeModel {
        if self.non_generic.len() == 0 {
            self
        } else {
            TypeScopeModel { non_generic: self.non_generic.drop_last(), ..self }
        }
    }
}

/// The names of the environment after `name` got the type `t`.
pub open spec fn bind(named: Seq<(Seq<char>, Ty)>, name: Seq<char>, t: Ty) -> Seq<
    (Seq<char>, Ty),
> {
    insert(remove(named, name), name, t)
}

/// The head that freshening gives to the type `t`: for a generic variable a
/// fresh variable is made, which takes over the classes of the old one, and
/// the head is that of the type which `mapping` holds for the old one, or of
/// the fresh one where it holds none.
pub open spec fn freshen_head(
    env: EnvironmentModel,
    scope: TypeScopeModel,
    mapping: Seq<(int, Ty)>,
    t: Ty,
) -> Option<(EnvironmentModel, Seq<(int, Ty)>, Head)> {
    match t.head {
        Head::Var(id) => if scope.is_generic(id) {
            match env.fresh() {
                None => None,
                Some((e1, new)) => {
                    let e2 = match lookup(e1.constraints, id) {
                        Some(c) => EnvironmentModel {
                            constraints: insert(e1.constraints, new.var_id(), c),
                            ..e1
                        },
                        None => e1,
                    };
                    match lookup(mapping, id) {
                        Some(known) => Some((e2, mapping, known.head)),
                        None => Some((e2, insert(mapping, id, new), new.head)),
                    }
                },
            }
        } else {
            Some((env, mapping, t.head))
        },
        Head::Op(_) => Some((env, mapping, t.head)),
    }
}

/// The type `t` with each generic variable replaced by a fresh one, the same
/// old variable by the same fresh one; none where the ids are used up.
pub open spec fn freshen_spec(
    env: EnvironmentModel,
    scope: TypeScopeModel,
    mapping: Seq<(int, Ty)>,
    t: Ty,
) -> Option<(EnvironmentModel, Seq<(int, Ty)>, Ty)>
    decreases t, 1nat, 0nat,
{
    match freshen_head(env, scope, mapping, t) {
        None => None,
        Some((e, m, head)) => match freshen_args(e, scope, m, t, Seq::empty()) {
            None => None,
            Some((e2, m2, args)) => Some((e2, m2, Ty { head, args })),
        },
    }
}

/// The arguments of `t` freshened in order, after those in `done`.
pub open spec fn freshen_args(
    env: EnvironmentModel,
    scope: TypeScopeModel,
    mapping: Seq<(int, Ty)>,
    t: Ty,
    done: Seq<Ty>,
) -> Option<(EnvironmentModel, Seq<(int, Ty)>, Seq<Ty>)>
    decreases t, 0nat, t.args.len() - done.len(),
{
    if done.len() >= t.args.len() {
        Some((env, mapping, done))
    } else {
        match freshen_spec(env, scope, mapping, t.args[done.len() as int]) {
            None => None,
            Some((e, m, a)) => freshen_args(e, scope, m, t, done.push(a)),
        }
    }
}

fn occurs_in_any(types: &Vec<Type>, var: &TypeVariable) -> (res: bool)
    ensures
        res == !free_of(seq_view(types@), var.id as int),
{
    let mut j: usize = 0;
    while j < types.len()
        invariant
            j <= types.len(),
            forall|k: int| 0 <= k < j ==> !occurs_spec(var.id as int, #[trigger] seq_view(types@)[k]),
        decreases types.len() - j,
    {
        if occurs(var, &types[j]) {
            proof {
                assert(occurs_spec(var.id as int, seq_view(types@)[j as int]));
            }
            return true;
        }
        j += 1;
    }
    false
}

impl TypeScope {
    /// The outermost scope.
    pub fn new() -> (res: TypeScope)
        ensures
            res@ == TypeScopeModel::empty(),
    {
        let res = TypeScope { vars: Vec::new(), non_generic: Vec::new(), parents: Vec::new() };
        proof {
            assert(res@.vars =~= Seq::empty());
            assert(res@.non_generic =~= Seq::empty());
            assert(res@.parents =~= Seq::empty());
        }
        res
    }

    /// Whether the variable may be generalised in this scope.
    pub fn is_generic(&self, var: &TypeVariable) -> (res: bool)
        ensures
            res == self@.is_generic(var.id as int),
    {
        if occurs_in_any(&self.non_generic, var) {
            return false;
        }
        let mut i: usize = 0;
        while i < self.parents.len()
            invariant
                i <= self.parents.len(),
                free_of(self@.non_generic, var.id as int),
                forall|k: int|
                    0 <= k < i ==> free_of((#[trigger] self@.parents[k]).non_generic, var.id as int),
            decreases self.parents.len() - i,
        {
            if occurs_in_any(&self.parents[i].non_generic, var) {
                proof {
                    assert(!free_of(self@.parents[i as int].non_generic, var.id as int));
                }
                return false;
            }
            proof {
                assert(self@.parents[i as int].non_generic == seq_view(
                    self.parents@[i as int].non_generic@,
                ));
            }
            i += 1;
        }
        true
    }

    /// Enters a scope inside this one.
    pub fn enter(&mut self)
        ensures
            final(self)@ == old(self)@.enter(),
    {
        let mut vars: Vec<(String, Type)> = Vec::new();
        let mut non_generic: Vec<Type> = Vec::new();
        std::mem::swap(&mut self.vars, &mut vars);
        std::mem::swap(&mut self.non_generic, &mut non_generic);
        let parent = Scope { vars, non_generic };
        self.parents.push(parent);
        proof {
            assert(self@.vars =~= Seq::empty());
            assert(self@.non_generic =~= Seq::empty());
            assert(self@.parents =~= old(self)@.parents.push(parent@));
        }
    }

    /// Leaves the current scope: the names that it shadowed get back, last
    /// first, the types they had.
    pub fn leave(&mut self, env: &mut TypeEnvironment)
        ensures
            final(self)@ == old(self)@.leave(),
            final(env)@ == (EnvironmentModel {
                named: restore(old(env)@.named, old(self)@.vars),
                ..old(env)@
            }),
    {
        while self.vars.len() > 0
            invariant
                self@.parents == old(self)@.parents,
                restore(env@.named, self@.vars) == restore(old(env)@.named, old(self)@.vars),
                env@ == (EnvironmentModel { named: env@.named, ..old(env)@ }),
            decreases self.vars.len(),
        {
            let ghost before = self@.vars;
            let (name, typ) = self.vars.pop().unwrap();
            proof {
                assert(self@.vars =~= before.drop_last());
                assert(before.last() == (name@, typ@));
            }
            insert_name(&mut env.namedTypes, name, typ);
        }
        match self.parents.pop() {
            Some(parent) => {
                self.vars = parent.vars;
                self.non_generic = parent.non_generic;
                proof {
                    assert(self@.parents =~= old(self)@.parents.drop_last());
                    assert(old(self)@.parents.last() == parent@);
                }
            },
            None => {
                self.non_generic = Vec::new();
                proof {
                    assert(self@.vars =~= Seq::empty());
                    assert(self@.non_generic =~= Seq::empty());
                    assert(self@.parents =~= Seq::empty());
                }
            },
        }
    }

    /// Gives `name` the type `t`, and keeps the type that it had for the end of the scope.
    pub fn insert(&mut self, env: &mut TypeEnvironment, name: String, t: &Type)
        ensures
            final(self)@ == old(self)@.shadow(name@, lookup(old(env)@.named, name@)),
            final(env)@ == (EnvironmentModel {
                named: bind(old(env)@.named, name@, t@),
                ..old(env)@
            }),
    {
        match remove_name(&mut env.namedTypes, &name) {
            Some(typ) => {
                self.vars.push((name.clone(), typ));
                proof {
                    assert(self@.vars =~= old(self)@.vars.push((name@, typ@)));
                }
            },
            None => {},
        }
        insert_name(&mut env.namedTypes, name, t.clone());
    }

    /// Holds `t` as not generic in this scope.
    pub fn push_non_generic(&mut self, t: Type)
        ensures
            final(self)@ == old(self)@.with_non_generic(t@),
    {
        self.non_generic.push(t);
        proof {
            assert(self@.non_generic =~= old(self)@.non_generic.push(t@));
        }
    }

    /// Drops the type that was last held as not generic in this scope.
    pub fn pop_non_generic(&mut self)
        ensures
            final(self)@ == old(self)@.without_last_non_generic(),
    {
        if self.non_generic.len() > 0 {
            self.non_generic.pop();
            proof {
                assert(self@.non_generic =~= old(self)@.non_generic.drop_last());
            }
        }
    }
}

/// As `freshen`, but where the ids are used up the environment and the
/// mapping are left as they were when that was found.
pub(crate) fn freshen_in(
    env: &mut TypeEnvironment,
    scope: &TypeScope,
    mapping: &mut Vec<(i64, Type)>,
    typ: &Type,
) -> (res: Result<Type, TypeError>)
    ensures
        match freshen_spec(old(env)@, scope@, types_model(old(mapping)@), typ@) {
            Some((e, m, t)) => res is Ok && res.unwrap()@ == t && final(env)@ == e && types_model(
                final(mapping)@,
            ) == m,
            None => res is Err && res.unwrap_err()@ == TypeErrorModel::TooManyVariables,
        },
    decreases typ,
{
    proof {
        lemma_type_view(*typ);
    }
    let head: TypeHead = match &typ.typ {
        TypeHead::TypeVariable(id) => {
            if scope.is_generic(id) {
                let new = match env.new_var() {
                    Ok(new) => new,
                    Err(e) => {
                        return Err(e);
                    },
                };
                proof {
                    lemma_type_view(new);
                }
                match lookup_classes(&env.constraints, id.id) {
                    Some(c) => {
                        insert_classes(&mut env.constraints, new.var().id, c);
                    },
                    None => {},
                }
                match lookup_type(mapping, id.id) {
                    Some(known) => {
                        proof {
                            lemma_type_view(known);
                        }
                        known.typ
                    },
                    None => {
                        insert_type(mapping, id.id, new.clone());
                        new.typ
                    },
                }
            } else {
                typ.typ.clone()
            }
        },
        TypeHead::TypeOperator(_) => typ.typ.clone(),
    };
    let ghost e0 = env@;
    let ghost m0 = types_model(mapping@);
    let mut types: Vec<Type> = Vec::new();
    let mut i: usize = 0;
    proof {
        assert(seq_view(types@) =~= Seq::<Ty>::empty());
    }
    while i < typ.types.len()
        invariant
            i <= typ.types.len(),
            types@.len() == i,
            typ@.args.len() == typ.types@.len(),
            freshen_head(old(env)@, scope@, types_model(old(mapping)@), typ@) == Some(
                (e0, m0, head@),
            ),
            freshen_args(e0, scope@, m0, typ@, Seq::empty()) == freshen_args(
                env@,
                scope@,
                types_model(mapping@),
                typ@,
                seq_view(types@),
            ),
        decreases typ.types.len() - i,
    {
        proof {
            lemma_type_view(*typ);
            assert(typ@.args[i as int] == typ.types@[i as int]@);
        }
        match freshen_in(env, scope, mapping, &typ.types[i]) {
            Ok(t) => {
                proof {
                    assert(seq_view(types@.push(t)) =~= seq_view(types@).push(t@));
                }
                types.push(t);
            },
            Err(e) => {
                return Err(e);
            },
        }
        i += 1;
    }
    let res = Type { typ: head, types };
    proof {
        lemma_type_view(res);
    }
    Ok(res)
}

/// Instantiates new type variables for the generic type variables of `typ`.
/// Where the ids are used up, the environment and the mapping stay as they were.
pub fn freshen(
    env: &mut TypeEnvironment,
    scope: &TypeScope,
    mapping: &mut Vec<(i64, Type)>,
    typ: &Type,
) -> (res: Result<Type, TypeError>)
    ensures
        match freshen_spec(old(env)@, scope@, types_model(old(mapping)@), typ@) {
            Some((e, m, t)) => res is Ok && res.unwrap()@ == t && final(env)@ == e && types_model(
                final(mapping)@,
            ) == m,
            None => res is Err && res.unwrap_err()@ == TypeErrorModel::TooManyVariables
                && final(env)@ == old(env)@ && types_model(final(mapping)@) == types_model(
                old(mapping)@,
            ),
        },
{
    let mut work = env.clone();
    let mut pairs = clone_type_table(mapping);
    match freshen_in(&mut work, scope, &mut pairs, typ) {
        Ok(t) => {
            *env = work;
            *mapping = pairs;
            Ok(t)
        },
        Err(e) => Err(e),
    }
}

impl Clone for Scope {
    fn clone(&self) -> (res: Self)
        ensures
            res@ == self@,
    {
        Scope {
            vars: clone_name_table(&self.vars),
            non_generic: crate::module::clone_types(&self.non_generic),
        }
    }
}

impl Clone for TypeScope {
    fn clone(&self) -> (res: Self)
        ensures
            res@ == self@,
    {
        let mut parents: Vec<Scope> = Vec::new();
        let mut i: usize = 0;
        while i < self.parents.len()
            invariant
                i <= self.parents.len(),
                parents@.len() == i,
                forall|j: int| 0 <= j < i ==> (#[trigger] parents@[j])@ == self.parents@[j]@,
            decreases self.parents.len() - i,
        {
            parents.push(self.parents[i].clone());
            i += 1;
        }
        let res = TypeScope {
            vars: clone_name_table(&self.vars),
            non_generic: crate::module::clone_types(&self.non_generic),
            parents,
        };
        proof {
            assert(res@.parents =~= self@.parents);
        }
        res
    }
}

} // verus!
