use haskell_compiler::environment::{ImportedInstance, TypeEnvironment, TypeError, UnifyError};
use haskell_compiler::inference::Inference;
use haskell_compiler::module::{
    types_equivalent, Binding, Class, Constraint, Instance, Location, Module, Type,
    TypeDeclaration, TypeVariable,
};
use haskell_compiler::modules::{ends_with, Types};
use haskell_compiler::scope::{freshen, TypeScope};
use haskell_compiler::substitution::{
    function_type, merge_names, occurs, replace, update_constraints, Substitution,
};
use haskell_compiler::tables::{insert_classes, insert_name, lookup_classes, lookup_name, remove_name};
use haskell_compiler::typecheck::{get_returntype, identifier, number, replace_var};
use haskell_compiler::unify::{unify, unify_location};

const DEPTH: usize = 1000;

fn name(s: &str) -> String {
    s.to_string()
}

fn op(n: &str, types: Vec<Type>) -> Type {
    Type::new_op(name(n), types)
}

fn var(id: i64) -> Type {
    Type::new_var(id)
}

fn int_type() -> Type {
    op("Int", vec![])
}

fn classes(env: &TypeEnvironment, id: i64) -> Option<Vec<String>> {
    lookup_classes(&env.constraints, id)
}

/// Whether two types are the same, variable for variable.
fn identical(a: &Type, b: &Type) -> bool {
    format!("{:?}", a) == format!("{:?}", b)
}

fn subs_of(pairs: Vec<(i64, Type)>) -> Substitution {
    Substitution { subs: pairs, constraints: vec![] }
}

#[test]
fn equality_is_up_to_the_names_of_variables() {
    assert_eq!(function_type(&var(1), &var(2)), function_type(&var(7), &var(-3)));
    assert_eq!(function_type(&var(1), &var(1)), function_type(&var(5), &var(5)));
    assert_ne!(function_type(&var(1), &var(2)), function_type(&var(5), &var(5)));
    assert_ne!(function_type(&var(1), &var(1)), function_type(&var(5), &var(6)));
    assert_ne!(var(1), int_type());
    assert_ne!(op("[]", vec![int_type()]), op("[]", vec![]));
    assert_ne!(op("Int", vec![]), op("Double", vec![]));
    assert!(types_equivalent(&op("(,)", vec![var(0), int_type()]), &op("(,)", vec![var(9), int_type()])));
}

#[test]
fn occurs_check() {
    let t = function_type(&var(1), &op("[]", vec![var(2)]));
    assert!(occurs(&TypeVariable { id: 1 }, &t));
    assert!(occurs(&TypeVariable { id: 2 }, &t));
    assert!(!occurs(&TypeVariable { id: 3 }, &t));
    assert!(occurs(&TypeVariable { id: 3 }, &var(3)));
    assert!(!occurs(&TypeVariable { id: 3 }, &int_type()));
}

#[test]
fn replace_applies_the_substitution() {
    let subs = subs_of(vec![(1, int_type()), (2, op("[]", vec![var(1)]))]);
    let mut constraints = vec![];
    let t = function_type(&var(1), &function_type(&var(2), &var(3)));
    let r = replace(&mut constraints, &t, &subs, DEPTH).unwrap();
    let expected = function_type(
        &int_type(),
        &function_type(&op("[]", vec![int_type()]), &var(3)),
    );
    assert!(identical(&r, &expected));
    // A variable with arguments gets only the head of what stands for it.
    let f = Type { typ: var(4).typ, types: vec![var(1)] };
    let subs = subs_of(vec![(4, op("Maybe", vec![])), (1, int_type())]);
    let r = replace(&mut constraints, &f, &subs, DEPTH).unwrap();
    assert!(identical(&r, &op("Maybe", vec![int_type()])));
}

#[test]
fn replace_gives_up_on_a_circle() {
    let subs = subs_of(vec![(1, op("[]", vec![var(1)]))]);
    let mut constraints = vec![];
    assert!(replace(&mut constraints, &var(1), &subs, DEPTH).is_none());
    assert!(replace(&mut constraints, &int_type(), &subs, 0).is_none());
    assert!(replace(&mut constraints, &int_type(), &subs, 1).is_some());
}

#[test]
fn constraints_move_to_the_variable_that_replaces() {
    let subs = Substitution {
        subs: vec![(1, var(2))],
        constraints: vec![(1, vec![name("Eq"), name("Ord")])],
    };
    let mut constraints = vec![(2, vec![name("Ord"), name("Num")]), (3, vec![name("Show")])];
    update_constraints(&mut constraints, 1, &var(2), &subs);
    assert_eq!(
        lookup_classes(&constraints, 2),
        Some(vec![name("Ord"), name("Num"), name("Eq")])
    );
    assert_eq!(lookup_classes(&constraints, 3), Some(vec![name("Show")]));
    // Replacing by an operator moves nothing.
    update_constraints(&mut constraints, 1, &int_type(), &subs);
    assert_eq!(constraints.len(), 2);
    // Applying a substitution to a type removes no class.
    let r = replace(&mut constraints, &function_type(&var(1), &var(3)), &subs, DEPTH).unwrap();
    assert!(identical(&r, &function_type(&var(2), &var(3))));
    assert_eq!(
        lookup_classes(&constraints, 2),
        Some(vec![name("Ord"), name("Num"), name("Eq")])
    );
    assert_eq!(lookup_classes(&constraints, 3), Some(vec![name("Show")]));
    let mut list = vec![name("a")];
    merge_names(&mut list, &vec![name("b"), name("a"), name("c"), name("b")]);
    assert_eq!(list, vec![name("a"), name("b"), name("c")]);
}

#[test]
fn unification_binds_variables() {
    let mut env = TypeEnvironment::new();
    let mut subs = Substitution::new();
    let lhs = function_type(&var(1), &var(1));
    let rhs = function_type(&int_type(), &var(2));
    let (l, r) = unify(&mut env, &mut subs, &lhs, &rhs, DEPTH).unwrap();
    // The later arguments have seen the earlier binding.
    assert!(identical(&l, &function_type(&var(1), &int_type())));
    assert!(identical(&r, &function_type(&int_type(), &var(2))));
    assert_eq!(subs.subs.len(), 2);
    assert!(identical(&subs.subs[0].1, &int_type()));
    assert!(identical(&subs.subs[1].1, &int_type()));
}

#[test]
fn unification_of_a_variable_and_an_operator_is_symmetric() {
    let a = var(1);
    let b = op("[]", vec![var(2)]);
    let mut env1 = TypeEnvironment::new();
    let mut subs1 = Substitution::new();
    let (l1, r1) = unify(&mut env1, &mut subs1, &a, &b, DEPTH).unwrap();
    let mut env2 = TypeEnvironment::new();
    let mut subs2 = Substitution::new();
    let (l2, r2) = unify(&mut env2, &mut subs2, &b, &a, DEPTH).unwrap();
    assert!(identical(&l1, &r2));
    assert!(identical(&r1, &l2));
    assert_eq!(format!("{:?}", subs1.subs), format!("{:?}", subs2.subs));
    assert_eq!(format!("{:?}", env1), format!("{:?}", env2));
    // They fail identically too.
    let c = op("[]", vec![var(1)]);
    let e1 = unify(&mut env1, &mut Substitution::new(), &a, &c, DEPTH).unwrap_err();
    let e2 = unify(&mut env2, &mut Substitution::new(), &c, &a, DEPTH).unwrap_err();
    assert!(matches!(e1, UnifyError::Recursive));
    assert!(matches!(e2, UnifyError::Recursive));
}

#[test]
fn unification_failures() {
    let mut env = TypeEnvironment::new();
    let location = Location { column: 3, row: 1, absolute: 9 };
    let fails = |env: &mut TypeEnvironment, l: &Type, r: &Type| match unify_location(
        env,
        &mut Substitution::new(),
        &location,
        l,
        r,
    ) {
        Err(TypeError::Unification(e, at, lhs, rhs)) => {
            assert_eq!(at, location);
            assert!(identical(&lhs, l));
            assert!(identical(&rhs, r));
            e
        }
        other => panic!("expected a failure, got {:?}", other),
    };
    assert!(matches!(fails(&mut env, &int_type(), &op("Double", vec![])), UnifyError::Operators));
    assert!(matches!(
        fails(&mut env, &op("[]", vec![int_type()]), &op("[]", vec![])),
        UnifyError::Operators
    ));
    assert!(matches!(fails(&mut env, &var(1), &op("[]", vec![var(1)])), UnifyError::Recursive));
    let f = Type { typ: var(1).typ, types: vec![var(2), var(3)] };
    assert!(matches!(fails(&mut env, &f, &op("Maybe", vec![int_type()])), UnifyError::Arity));
    insert_classes(&mut env.constraints, 5, vec![name("Show")]);
    match fails(&mut env, &var(5), &int_type()) {
        UnifyError::NoInstance(class) => assert_eq!(class, "Show"),
        other => panic!("expected a missing instance, got {:?}", other),
    }
    assert!(matches!(
        unify(&mut env, &mut Substitution::new(), &var(1), &var(2), 0),
        Err(UnifyError::TooDeep)
    ));
}

#[test]
fn numeric_classes_need_no_instance() {
    let unifies = |class: &str, t: Type| {
        let mut env = TypeEnvironment::new();
        insert_classes(&mut env.constraints, 1, vec![name(class)]);
        unify(&mut env, &mut Substitution::new(), &var(1), &t, DEPTH).is_ok()
    };
    assert!(unifies("Num", int_type()));
    assert!(unifies("Num", op("Double", vec![])));
    assert!(unifies("Fractional", op("Double", vec![])));
    assert!(!unifies("Fractional", int_type()));
    assert!(!unifies("Num", op("Bool", vec![])));
    assert!(!unifies("Num", op("Int", vec![int_type()])));
}

#[test]
fn instances_are_found() {
    let mut env = TypeEnvironment::new();
    env.instances.push((name("Eq"), int_type()));
    assert!(env.has_instance(&name("Eq"), &int_type()));
    assert!(!env.has_instance(&name("Ord"), &int_type()));
    assert!(!env.has_instance(&name("Eq"), &op("Bool", vec![])));
    // An imported instance `Eq a => Eq [a]` holds where its context holds.
    env.imported_instances.push(ImportedInstance {
        classname: name("Eq"),
        constraints: vec![Constraint { class: name("Eq"), variables: vec![TypeVariable { id: 0 }] }],
        typ: op("[]", vec![var(0)]),
    });
    assert!(env.has_instance(&name("Eq"), &op("[]", vec![int_type()])));
    assert!(env.has_instance(&name("Eq"), &op("[]", vec![op("[]", vec![int_type()])])));
    assert!(!env.has_instance(&name("Eq"), &op("[]", vec![op("Bool", vec![])])));
}

#[test]
fn fresh_variables_grow() {
    let mut env = TypeEnvironment::new();
    let a = env.new_var().unwrap();
    let b = env.new_var().unwrap();
    assert!(identical(&a, &var(1)));
    assert!(identical(&b, &var(2)));
    env.variableIndex.id = i64::MAX;
    assert!(matches!(env.new_var(), Err(TypeError::TooManyVariables)));
}

#[test]
fn freshening_renames_generic_variables_consistently() {
    let mut env = TypeEnvironment::new();
    env.variableIndex.id = 100;
    insert_classes(&mut env.constraints, 1, vec![name("Eq")]);
    let mut scope = TypeScope::new();
    scope.push_non_generic(op("[]", vec![var(2)]));
    let t = function_type(&var(1), &function_type(&var(2), &var(1)));
    let mut mapping = vec![];
    let fresh = freshen(&mut env, &scope, &mut mapping, &t).unwrap();
    // 1 is generic and gets the same fresh variable twice; 2 is not generic.
    assert!(identical(&fresh, &function_type(&var(101), &function_type(&var(2), &var(101)))));
    assert_eq!(fresh, t);
    assert_eq!(classes(&env, 101), Some(vec![name("Eq")]));
    assert_eq!(classes(&env, 1), Some(vec![name("Eq")]));
    assert!(!scope.is_generic(&TypeVariable { id: 2 }));
    assert!(scope.is_generic(&TypeVariable { id: 1 }));
    // A variable is not generic either where an enclosing scope holds it.
    scope.enter();
    assert!(!scope.is_generic(&TypeVariable { id: 2 }));
    scope.leave(&mut env);
    scope.pop_non_generic();
    assert!(scope.is_generic(&TypeVariable { id: 2 }));
}

#[test]
fn a_scope_restores_what_it_shadowed() {
    let mut ck = Inference::start_with(TypeEnvironment::new());
    let before = ck.env.namedTypes.len();
    ck.insert(name("x"), &int_type());
    ck.enter();
    ck.insert(name("x"), &op("Bool", vec![]));
    ck.insert(name("y"), &var(1));
    assert!(identical(&ck.env.find(&name("x")).unwrap(), &op("Bool", vec![])));
    ck.leave();
    assert!(identical(&ck.env.find(&name("x")).unwrap(), &int_type()));
    // A name that the scope did not shadow stays.
    assert!(ck.env.find(&name("y")).is_some());
    assert_eq!(ck.env.namedTypes.len(), before + 2);
}

#[test]
fn the_environment_starts_with_the_primitives() {
    let env = TypeEnvironment::new();
    let int = int_type();
    let double = op("Double", vec![]);
    let binop = |t: &Type| function_type(t, &function_type(t, t));
    let compare = |t: &Type| function_type(t, &function_type(t, &op("Bool", vec![])));
    for t in ["Int", "Double"] {
        let typ = op(t, vec![]);
        for f in ["Add", "Subtract", "Multiply", "Divide", "Remainder"] {
            let found = env.find(&format!("prim{}{}", t, f)).unwrap();
            assert!(identical(&found, &binop(&typ)));
        }
        for f in ["EQ", "LT", "LE", "GT", "GE"] {
            let found = env.find(&format!("prim{}{}", t, f)).unwrap();
            assert!(identical(&found, &compare(&typ)));
        }
    }
    assert!(identical(&env.find(&name("primIntToDouble")).unwrap(), &function_type(&int, &double)));
    assert!(identical(&env.find(&name("primDoubleToInt")).unwrap(), &function_type(&double, &int)));
    let list = op("[]", vec![var(-10)]);
    assert!(identical(&env.find(&name("[]")).unwrap(), &list));
    assert!(identical(
        &env.find(&name(":")).unwrap(),
        &function_type(&var(-10), &function_type(&list, &list))
    ));
    let pair = op("(,)", vec![var(0), var(1)]);
    assert!(identical(
        &env.find(&name("(,)")).unwrap(),
        &function_type(&var(0), &function_type(&var(1), &pair))
    ));
    // The tuples of no and of one field share a name; the later one stays.
    let unit = env.find(&name("()")).unwrap();
    assert!(identical(&unit, &function_type(&var(0), &op("()", vec![var(0)]))));
    assert!(env.find(&name("(,,,,,,,,)")).is_some());
    assert!(env.find(&name("(,,,,,,,,,)")).is_none());
    assert_eq!(env.namedTypes.len(), 20 + 4 + 9);
    assert!(env.find(&name("undefined")).is_none());
    assert_eq!(env.variableIndex.id, 0);
}

#[test]
fn tables_keep_their_order() {
    let mut table = vec![];
    insert_name(&mut table, name("a"), int_type());
    insert_name(&mut table, name("b"), var(1));
    insert_name(&mut table, name("a"), var(2));
    assert_eq!(table.len(), 2);
    assert_eq!(table[0].0, "a");
    assert!(identical(&lookup_name(&table, &name("a")).unwrap(), &var(2)));
    assert!(identical(&remove_name(&mut table, &name("a")).unwrap(), &var(2)));
    assert!(remove_name(&mut table, &name("a")).is_none());
    assert_eq!(table.len(), 1);
    assert!(lookup_name(&table, &name("a")).is_none());
}

#[test]
fn constraints_of_a_type() {
    let mut env = TypeEnvironment::new();
    insert_classes(&mut env.constraints, 1, vec![name("Eq"), name("Ord")]);
    insert_classes(&mut env.constraints, 2, vec![name("Ord"), name("Show")]);
    let found = env.find_constraints(&function_type(&var(2), &function_type(&var(1), &var(3))));
    let got: Vec<(String, i64)> =
        found.iter().map(|c| (c.class.clone(), c.variables[0].id)).collect();
    // One constraint for each class of each variable, in the order of the variables.
    assert_eq!(
        got,
        vec![(name("Ord"), 2), (name("Show"), 2), (name("Eq"), 1), (name("Ord"), 1)]
    );
    // A variable that stands twice gives its constraints once.
    let twice = env.find_constraints(&function_type(&var(1), &var(1)));
    assert_eq!(twice.len(), 2);
    assert!(env.find_constraints(&int_type()).is_empty());
}

#[test]
fn specialised_instances() {
    let mut env = TypeEnvironment::new();
    insert_classes(&mut env.constraints, 1, vec![name("Eq")]);
    env.namedTypes.push((name("eq"), function_type(&var(1), &function_type(&var(1), &var(2)))));
    let actual = function_type(&int_type(), &function_type(&int_type(), &op("Bool", vec![])));
    let found = env.find_specialized_instances(&name("eq"), &actual).unwrap();
    assert_eq!(found.len(), 1);
    assert_eq!(found[0].0, "Eq");
    assert!(identical(&found[0].1, &int_type()));
    assert!(env.find_specialized_instances(&name("missing"), &actual).is_none());
}

#[test]
fn return_types_and_variable_replacement() {
    let t = function_type(&var(1), &function_type(&int_type(), &op("[]", vec![var(1)])));
    assert!(identical(&get_returntype(&t), &op("[]", vec![var(1)])));
    assert!(identical(&get_returntype(&int_type()), &int_type()));
    let r = replace_var(&t, &TypeVariable { id: 1 }, &op("Bool", vec![]), DEPTH).unwrap();
    let bool_type = op("Bool", vec![]);
    assert!(identical(
        &r,
        &function_type(&bool_type, &function_type(&int_type(), &op("[]", vec![bool_type.clone()])))
    ));
    let f = Type { typ: var(1).typ, types: vec![int_type()] };
    let r = replace_var(&f, &TypeVariable { id: 1 }, &op("Maybe", vec![]), DEPTH).unwrap();
    assert!(identical(&r, &op("Maybe", vec![int_type()])));
    assert!(replace_var(&var(1), &TypeVariable { id: 1 }, &op("[]", vec![var(1)]), DEPTH).is_none());
}

#[test]
fn name_endings() {
    assert!(ends_with(&name("#Inttest"), &name("test")));
    assert!(ends_with(&name("test"), &name("test")));
    assert!(ends_with(&name("test"), &name("")));
    assert!(!ends_with(&name("est"), &name("test")));
    assert!(!ends_with(&name("#Inttest"), &name("tes")));
    assert!(ends_with(&name("#[]=="), &name("==")));
}

fn untyped(n: &str, expression: haskell_compiler::module::TypedExpr) -> Binding {
    Binding {
        name: name(n),
        expression,
        typeDecl: TypeDeclaration { context: vec![], typ: var(-1), name: name("") },
        arity: 0,
    }
}

/// A module that defines `id`, the class `Show` with `show`, and an instance of it at `Int`.
fn library() -> Module {
    let mut id = untyped("id", haskell_compiler::typecheck::lambda(name("x"), identifier(name("x"))));
    id.arity = 1;
    let class = Class {
        name: name("Show"),
        variable: TypeVariable { id: 1000000 },
        declarations: vec![TypeDeclaration {
            context: vec![],
            typ: function_type(&var(1000000), &int_type()),
            name: name("show"),
        }],
    };
    let mut show = untyped("#Intshow", haskell_compiler::typecheck::lambda(name("x"), identifier(name("x"))));
    show.arity = 1;
    let instance =
        Instance { bindings: vec![show], constraints: vec![], typ: int_type(), classname: name("Show") };
    Module {
        name: name("Library"),
        bindings: vec![id],
        typeDeclarations: vec![],
        classes: vec![class],
        instances: vec![instance],
        dataDefinitions: vec![],
    }
}

#[test]
fn an_imported_module_gives_its_types_and_instances() {
    let mut library = library();
    TypeEnvironment::new().typecheck_module(&mut library).unwrap();
    assert_eq!(library.find_type(&name("id")).unwrap(), function_type(&var(0), &var(0)));
    assert!(library.find_type(&name("show")).is_some());
    assert!(library.find_type(&name("missing")).is_none());
    assert_eq!(library.find_class(&name("Show")).unwrap().name, "Show");
    assert!(library.find_class(&name("Eq")).is_none());
    assert!(Types::has_instance(&library, &name("Show"), &int_type()));
    assert!(!Types::has_instance(&library, &name("Show"), &op("Bool", vec![])));
    assert!(library.find_instance(&name("Show"), &int_type()).is_some());
    assert_eq!(library.each_typedeclaration().len(), 2);

    // test1 = id (primIntAdd 2 0); test2 = show 1
    let mut env = TypeEnvironment::new();
    env.add_types(&library);
    let call = |f: &str, x| haskell_compiler::typecheck::apply(identifier(name(f)), x);
    let sum = haskell_compiler::typecheck::apply(call("primIntAdd", number(2)), number(0));
    let mut module = Module {
        name: name("Main"),
        bindings: vec![untyped("test1", call("id", sum)), untyped("test2", call("show", number(1)))],
        typeDeclarations: vec![],
        classes: vec![],
        instances: vec![],
        dataDefinitions: vec![],
    };
    env.typecheck_module(&mut module).unwrap();
    assert_eq!(module.bindings[0].name, name("test1"));
    assert_eq!(module.bindings[0].expression.typ, int_type());
    assert_eq!(module.bindings[1].expression.typ, int_type());
}

#[test]
fn rejected_programs() {
    let mut env = TypeEnvironment::new();
    let mut expr = identifier(name("nothing"));
    expr.location = Location { column: 1, row: 2, absolute: 3 };
    match env.typecheck(&mut expr) {
        Err(TypeError::UndefinedIdentifier(n, at)) => {
            assert_eq!(n, "nothing");
            assert_eq!(at, Location { column: 1, row: 2, absolute: 3 });
        }
        other => panic!("expected an undefined identifier, got {:?}", other),
    }
    // A declaration without a binding.
    let mut module = library();
    module.typeDeclarations.push(TypeDeclaration { context: vec![], typ: int_type(), name: name("lost") });
    assert!(matches!(
        TypeEnvironment::new().typecheck_module(&mut module),
        Err(TypeError::OrphanDeclaration(n)) if n == "lost"
    ));
    // An instance of a class that is not there, and a binding that is no method.
    let mut module = library();
    module.instances[0].classname = name("Eq");
    assert!(matches!(
        TypeEnvironment::new().typecheck_module(&mut module),
        Err(TypeError::UndefinedClass(n)) if n == "Eq"
    ));
    let mut module = library();
    module.instances[0].bindings[0].name = name("#Intprint");
    assert!(matches!(
        TypeEnvironment::new().typecheck_module(&mut module),
        Err(TypeError::UndefinedMethod(b, c)) if b == "#Intprint" && c == "Show"
    ));
}

#[test]
fn a_group_of_bindings_is_typed_in_a_scope() {
    // one = 1; inc x = primIntAdd x one
    let call = |f: &str, x| haskell_compiler::typecheck::apply(identifier(name(f)), x);
    let mut inc = untyped(
        "inc",
        haskell_compiler::typecheck::lambda(
            name("x"),
            haskell_compiler::typecheck::apply(call("primIntAdd", identifier(name("x"))), identifier(name("one"))),
        ),
    );
    inc.arity = 1;
    let mut bindings = vec![inc, untyped("one", number(1))];
    let mut env = TypeEnvironment::new();
    let mut scope = TypeScope::new();
    let mut subs = Substitution::new();
    scope.typecheck_mutually_recursive_bindings(&mut env, &mut subs, &mut bindings).unwrap();
    assert_eq!(bindings[0].expression.typ, function_type(&int_type(), &int_type()));
    // `one` is typed first, by itself: it is any number.
    assert_eq!(bindings[1].expression.typ, var(0));
    assert_eq!(classes(&env, bindings[1].expression.typ.var().id), Some(vec![name("Num")]));
    assert_eq!(bindings[1].typeDecl.context.len(), 1);
    assert_eq!(bindings[1].typeDecl.context[0].class, "Num");
    assert_eq!(bindings[0].typeDecl.typ, function_type(&int_type(), &int_type()));
    assert!(env.find(&name("inc")).is_some());
}

fn long_list(n: i64) -> haskell_compiler::module::TypedExpr {
    let mut e = identifier(name("[]"));
    for x in 0..n {
        e = haskell_compiler::typecheck::apply(
            haskell_compiler::typecheck::apply(identifier(name(":")), number(x)),
            e,
        );
    }
    e
}

#[test]
fn a_long_list_is_typed() {
    let mut list = long_list(500);
    TypeEnvironment::new().typecheck(&mut list).unwrap();
    let mut element = var(0);
    match &list.typ.typ {
        haskell_compiler::module::TypeHead::TypeOperator(o) => {
            assert_eq!(o.name, "[]");
            element = list.typ.types[0].clone();
        }
        _ => panic!("expected a list"),
    }
    assert!(element.is_variable());
}

#[test]
fn importing_never_sets_the_counter_of_variables_back() {
    let mut env = TypeEnvironment::new();
    env.variableIndex.id = 50;
    let empty = Module {
        name: name("Empty"),
        bindings: vec![],
        typeDeclarations: vec![],
        classes: vec![],
        instances: vec![],
        dataDefinitions: vec![],
    };
    env.add_types(&empty);
    assert_eq!(env.variableIndex.id, 50);
    assert!(identical(&env.new_var().unwrap(), &var(51)));
    // A larger variable in an imported context moves the counter on.
    let mut with_context = library();
    with_context.bindings[0].typeDecl.context =
        vec![Constraint { class: name("Show"), variables: vec![TypeVariable { id: 70 }] }];
    env.add_types(&with_context);
    assert_eq!(env.variableIndex.id, 70);
    assert_eq!(classes(&env, 70), Some(vec![name("Show")]));
    let mut small = library();
    small.bindings[0].typeDecl.context =
        vec![Constraint { class: name("Show"), variables: vec![TypeVariable { id: 3 }] }];
    env.add_types(&small);
    assert_eq!(env.variableIndex.id, 70);
}

#[test]
fn a_rejected_program_leaves_everything_as_it_was() {
    let mut env = TypeEnvironment::new();
    let before = format!("{:?}", env);
    // f (undefined name)
    let mut expr = haskell_compiler::typecheck::apply(identifier(name("primIntAdd")), identifier(name("nothing")));
    let shown = format!("{:?}", expr);
    assert!(env.typecheck(&mut expr).is_err());
    assert_eq!(format!("{:?}", env), before);
    assert_eq!(format!("{:?}", expr), shown);
    let mut module = library();
    module.bindings.push(untyped("bad", haskell_compiler::typecheck::apply(number(1), number(2))));
    let shown = format!("{:?}", module);
    assert!(env.typecheck_module(&mut module).is_err());
    assert_eq!(format!("{:?}", env), before);
    assert_eq!(format!("{:?}", module), shown);
    // Unification that fails in its second argument has bound a variable in its first.
    let mut subs = Substitution::new();
    let l = op("(,)", vec![var(1), int_type()]);
    let r = op("(,)", vec![int_type(), op("Bool", vec![])]);
    assert!(unify(&mut env, &mut subs, &l, &r, DEPTH).is_err());
    assert!(subs.subs.is_empty());
    assert_eq!(format!("{:?}", env), before);
    let at = Location { column: 0, row: 0, absolute: 0 };
    assert!(unify_location(&mut env, &mut subs, &at, &l, &r).is_err());
    assert!(subs.subs.is_empty());
    assert_eq!(format!("{:?}", env), before);
    let mut bindings = vec![untyped("bad", haskell_compiler::typecheck::apply(number(1), number(2)))];
    let mut scope = TypeScope::new();
    assert!(scope.typecheck_mutually_recursive_bindings(&mut env, &mut subs, &mut bindings).is_err());
    assert_eq!(format!("{:?}", env), before);
    assert_eq!(format!("{:?}", scope), format!("{:?}", TypeScope::new()));
    let mut constraints = vec![(2, vec![name("Eq")])];
    let circle = Substitution {
        subs: vec![(1, var(2)), (3, op("[]", vec![var(3)]))],
        constraints: vec![(1, vec![name("Ord")])],
    };
    assert!(replace(&mut constraints, &function_type(&var(1), &var(3)), &circle, DEPTH).is_none());
    assert_eq!(constraints, vec![(2, vec![name("Eq")])]);
}

#[test]
fn types_without_variables_unify_exactly_when_they_are_the_same() {
    let pair = |a: Type, b: Type| op("(,)", vec![a, b]);
    let a = pair(op("[]", vec![int_type()]), op("Bool", vec![]));
    let b = pair(op("[]", vec![int_type()]), op("Bool", vec![]));
    let c = pair(op("[]", vec![op("Bool", vec![])]), op("Bool", vec![]));
    let mut env = TypeEnvironment::new();
    let before = format!("{:?}", env);
    let mut subs = Substitution::new();
    let (l, r) = unify(&mut env, &mut subs, &a, &b, DEPTH).unwrap();
    assert!(identical(&l, &a) && identical(&r, &b));
    assert!(subs.subs.is_empty() && subs.constraints.is_empty());
    assert_eq!(format!("{:?}", env), before);
    assert!(matches!(unify(&mut env, &mut subs, &a, &c, DEPTH), Err(UnifyError::Operators)));
    assert!(matches!(unify(&mut env, &mut subs, &c, &a, DEPTH), Err(UnifyError::Operators)));
    // Below the depth of the types unification gives up.
    assert!(matches!(unify(&mut env, &mut subs, &a, &b, 2), Err(UnifyError::TooDeep)));
}

#[test]
fn classes_reach_the_replacement_at_any_depth() {
    // [[a] -> Int] with `a` replaced by `b`, where `a` was recorded with `Eq`.
    let subs = Substitution {
        subs: vec![(1, var(2))],
        constraints: vec![(1, vec![name("Eq")])],
    };
    let nested = |inner: Type| op("[]", vec![function_type(&op("[]", vec![inner]), &int_type())]);
    let mut constraints = vec![];
    let r = replace(&mut constraints, &nested(var(1)), &subs, DEPTH).unwrap();
    // Operators keep their names and their numbers of arguments.
    assert!(identical(&r, &nested(var(2))));
    assert_eq!(lookup_classes(&constraints, 2), Some(vec![name("Eq")]));
    assert_eq!(lookup_classes(&constraints, 1), None);
}

#[test]
fn unification_of_two_free_variables_binds_one_to_the_other() {
    let mut env = TypeEnvironment::new();
    let mut subs = Substitution::new();
    let (l, r) = unify(&mut env, &mut subs, &var(1), &var(2), DEPTH).unwrap();
    assert!(identical(&l, &var(1)) && identical(&r, &var(2)));
    assert_eq!(subs.subs.len(), 1);
    assert_eq!(subs.subs[0].0, 1);
    assert!(identical(&subs.subs[0].1, &var(2)));
    let mut env = TypeEnvironment::new();
    let mut subs = Substitution::new();
    let (l, r) = unify(&mut env, &mut subs, &var(2), &var(1), DEPTH).unwrap();
    assert!(identical(&l, &var(2)) && identical(&r, &var(1)));
    assert_eq!(subs.subs.len(), 1);
    assert_eq!(subs.subs[0].0, 2);
    assert!(identical(&subs.subs[0].1, &var(1)));
}

#[test]
fn each_use_of_an_earlier_binding_gets_its_own_instance() {
    // ident x = x; both = primIntToDouble (ident (primDoubleToInt (ident 1.5)))
    let call = |f: &str, x| haskell_compiler::typecheck::apply(identifier(name(f)), x);
    let mut ident = untyped(
        "ident",
        haskell_compiler::typecheck::lambda(name("x"), identifier(name("x"))),
    );
    ident.arity = 1;
    let half = haskell_compiler::typecheck::rational(1.5f64.to_bits());
    let both = untyped(
        "both",
        call("primIntToDouble", call("ident", call("primDoubleToInt", call("ident", half)))),
    );
    let mut bindings = vec![both, ident];
    let mut env = TypeEnvironment::new();
    let mut scope = TypeScope::new();
    let mut subs = Substitution::new();
    scope.typecheck_mutually_recursive_bindings(&mut env, &mut subs, &mut bindings).unwrap();
    assert_eq!(bindings[0].expression.typ, op("Double", vec![]));
    assert_eq!(bindings[1].expression.typ, function_type(&var(0), &var(0)));
    // Each binding has as its declared type the type of its expression.
    for b in bindings.iter() {
        assert!(identical(&b.typeDecl.typ, &b.expression.typ));
    }
}
