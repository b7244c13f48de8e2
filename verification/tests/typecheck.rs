use haskell_compiler::module::{
    Alternative, Binding, Class, Constraint, Constructor, DataDefinition, Expr, Instance, Located,
    Location, Module, Pattern, Type, TypeDeclaration, TypeVariable, TypedExpr,
};
use haskell_compiler::tables::lookup_classes;
use haskell_compiler::typecheck::{
    apply, case, function_type, identifier, lambda, let_, number, TypeEnvironment, TypeError,
    UnifyError,
};

fn name(s: &str) -> String {
    s.to_string()
}

fn op(n: &str, types: Vec<Type>) -> Type {
    Type::new_op(name(n), types)
}

fn int_type() -> Type {
    op("Int", vec![])
}

fn bool_type() -> Type {
    op("Bool", vec![])
}

fn list_of(t: Type) -> Type {
    op("[]", vec![t])
}

fn id(s: &str) -> TypedExpr {
    identifier(name(s))
}

/// The application of the function named `f` to the arguments.
fn call(f: &str, args: Vec<TypedExpr>) -> TypedExpr {
    let mut e = id(f);
    for a in args {
        e = apply(e, a);
    }
    e
}

/// The list of the elements, built with `:` and `[]`.
fn list(elements: Vec<TypedExpr>) -> TypedExpr {
    let mut e = id("[]");
    for x in elements.into_iter().rev() {
        e = call(":", vec![x, e]);
    }
    e
}

fn string(s: &str) -> TypedExpr {
    TypedExpr::new(Expr::String(name(s)))
}

/// The binding of `n` with the parameters `args`, as it is before type inference.
fn binding(n: &str, args: &[&str], body: TypedExpr) -> Binding {
    let mut e = body;
    for a in args.iter().rev() {
        e = lambda(name(a), e);
    }
    Binding {
        name: name(n),
        expression: e,
        typeDecl: TypeDeclaration { context: vec![], typ: Type::new_var(-1), name: name("") },
        arity: args.len(),
    }
}

fn alt(pattern: Pattern, expression: TypedExpr) -> Alternative {
    Alternative { pattern: Located { location: Location::eof(), node: pattern }, expression }
}

fn var_pattern(n: &str) -> Pattern {
    Pattern::IdentifierPattern(name(n))
}

fn ctor_pattern(n: &str, patterns: Vec<Pattern>) -> Pattern {
    Pattern::ConstructorPattern(name(n), patterns)
}

fn module(bindings: Vec<Binding>) -> Module {
    Module {
        name: name("Main"),
        bindings,
        typeDeclarations: vec![],
        classes: vec![],
        instances: vec![],
        dataDefinitions: vec![],
    }
}

/// `data Bool = True | False`
fn bool_definition() -> DataDefinition {
    DataDefinition {
        constructors: vec![
            Constructor { name: name("True"), typ: bool_type(), tag: 0, arity: 0 },
            Constructor { name: name("False"), typ: bool_type(), tag: 1, arity: 0 },
        ],
        typ: bool_type(),
        parameters: vec![],
    }
}

/// `class Test a where test :: a -> Int`
fn test_class() -> Class {
    Class {
        name: name("Test"),
        variable: TypeVariable { id: 1000000 },
        declarations: vec![TypeDeclaration {
            context: vec![],
            typ: function_type(&Type::new_var(1000000), &int_type()),
            name: name("test"),
        }],
    }
}

/// `instance Test Int where test x = <body>`
fn test_int_instance(body: TypedExpr) -> Instance {
    Instance {
        bindings: vec![binding("#Inttest", &["x"], body)],
        constraints: vec![],
        typ: int_type(),
        classname: name("Test"),
    }
}

fn classes_of(env: &TypeEnvironment, t: &Type) -> Option<Vec<String>> {
    lookup_classes(&env.constraints, t.var().id)
}

#[test]
fn application() {
    let mut env = TypeEnvironment::new();
    let mut expr = apply(identifier(name("add")), number(1));
    let type_int = int_type();
    let unary_func = function_type(&type_int, &type_int);
    let add_type = function_type(&type_int, &unary_func);
    env.namedTypes.push((name("add"), add_type));
    env.typecheck(&mut expr).unwrap();

    let expr_type = expr.typ;
    assert!(expr_type == unary_func);
}

#[test]
fn typecheck_lambda() {
    let mut env = TypeEnvironment::new();
    let type_int = int_type();
    let unary_func = function_type(&type_int, &type_int);
    let add_type = function_type(&type_int, &unary_func);

    let mut expr = lambda(
        name("x"),
        apply(apply(identifier(name("add")), identifier(name("x"))), number(1)),
    );
    env.namedTypes.push((name("add"), add_type));
    env.typecheck(&mut expr).unwrap();

    assert_eq!(expr.typ, unary_func);
}

#[test]
fn typecheck_let() {
    let mut env = TypeEnvironment::new();
    let type_int = int_type();
    let unary_func = function_type(&type_int, &type_int);
    let add_type = function_type(&type_int, &unary_func);

    //let test x = add x in test
    let unary_bind = lambda(
        name("x"),
        apply(apply(identifier(name("add")), identifier(name("x"))), number(1)),
    );
    let mut expr = let_(
        vec![Binding {
            arity: 1,
            name: name("test"),
            expression: unary_bind,
            typeDecl: TypeDeclaration::default(),
        }],
        identifier(name("test")),
    );
    env.namedTypes.push((name("add"), add_type));
    env.typecheck(&mut expr).unwrap();

    assert_eq!(expr.typ, unary_func);
}

#[test]
fn typecheck_case() {
    let mut env = TypeEnvironment::new();
    let type_int = int_type();
    let unary_func = function_type(&type_int, &type_int);
    let add_type = function_type(&type_int, &unary_func);

    // case [] of { : x xs -> add x 2 ; [] -> 3}
    let mut expr = case(
        id("[]"),
        vec![
            alt(
                ctor_pattern(":", vec![var_pattern("x"), var_pattern("xs")]),
                call("add", vec![id("x"), number(2)]),
            ),
            alt(ctor_pattern("[]", vec![]), number(3)),
        ],
    );
    env.namedTypes.push((name("add"), add_type));
    env.typecheck(&mut expr).unwrap();

    assert_eq!(expr.typ, type_int);
    match &expr.expr {
        Expr::Case(case_expr, _) => {
            assert_eq!(case_expr.typ, list_of(int_type()));
        }
        _ => panic!("typecheck_case"),
    }
}

#[test]
fn typecheck_list() {
    let mut env = TypeEnvironment::new();

    // mult2 x = primIntMultiply x 2
    //
    // main = case [mult2 123, 0] of
    //     : x xs -> x
    //     [] -> 10
    let mut module = module(vec![
        binding("mult2", &["x"], call("primIntMultiply", vec![id("x"), number(2)])),
        binding(
            "main",
            &[],
            case(
                list(vec![call("mult2", vec![number(123)]), number(0)]),
                vec![
                    alt(ctor_pattern(":", vec![var_pattern("x"), var_pattern("xs")]), id("x")),
                    alt(ctor_pattern("[]", vec![]), number(10)),
                ],
            ),
        ),
    ]);
    env.typecheck_module(&mut module).unwrap();

    assert_eq!(module.bindings[1].expression.typ, int_type());
}

#[test]
fn typecheck_string() {
    let mut env = TypeEnvironment::new();

    let mut expr = string("hello");
    env.typecheck(&mut expr).unwrap();

    assert_eq!(expr.typ, list_of(op("Char", vec![])));
}

#[test]
fn typecheck_tuple() {
    let mut env = TypeEnvironment::new();

    // (primIntAdd 0 0, "a")
    let mut expr =
        call("(,)", vec![call("primIntAdd", vec![number(0), number(0)]), string("a")]);
    env.typecheck(&mut expr).unwrap();

    let list = list_of(op("Char", vec![]));
    assert_eq!(expr.typ, op("(,)", vec![int_type(), list]));
}

#[test]
fn typecheck_module() {
    let mut env = TypeEnvironment::new();

    // data Bool = True | False
    // test x = True
    let mut module = module(vec![binding("test", &["x"], id("True"))]);
    module.dataDefinitions.push(bool_definition());
    env.typecheck_module(&mut module).unwrap();

    let typ = function_type(&Type::new_var(0), &bool_type());
    let bind_type0 = &module.bindings[0].expression.typ;
    assert_eq!(*bind_type0, typ);
}

#[test]
fn typecheck_recursive_let() {
    let mut env = TypeEnvironment::new();

    // let
    //     a = primIntAdd 0 1
    //     test = primIntAdd 1 2 : test2
    //     test2 = 2 : test
    //     b = test
    // in b
    let mut expr = let_(
        vec![
            binding("a", &[], call("primIntAdd", vec![number(0), number(1)])),
            binding(
                "test",
                &[],
                call(":", vec![call("primIntAdd", vec![number(1), number(2)]), id("test2")]),
            ),
            binding("test2", &[], call(":", vec![number(2), id("test")])),
            binding("b", &[], id("test")),
        ],
        id("b"),
    );
    env.typecheck(&mut expr).unwrap();

    let int_type = int_type();
    let list_type = list_of(int_type.clone());
    match &expr.expr {
        Expr::Let(binds, _) => {
            assert_eq!(binds.len(), 4);
            assert_eq!(binds[0].name, name("a"));
            assert_eq!(binds[0].expression.typ, int_type);
            assert_eq!(binds[1].name, name("test"));
            assert_eq!(binds[1].expression.typ, list_type);
        }
        _ => panic!("Error"),
    }
}

#[test]
fn typecheck_constraints() {
    // class Test a where
    //     test :: a -> Int
    //
    // instance Test Int where
    //     test x = 10
    //
    // main = test 1
    let mut module = module(vec![binding("main", &[], call("test", vec![number(1)]))]);
    module.classes.push(test_class());
    module.instances.push(test_int_instance(number(10)));

    let mut env = TypeEnvironment::new();
    env.typecheck_module(&mut module).unwrap();

    let typ = &module.bindings[0].expression.typ;
    assert_eq!(typ, &int_type());
}

//Test that calling a function with constraints will propagate the constraints to
//the type of the caller
#[test]
fn typecheck_constraints2() {
    // class Test a where
    //     test :: a -> Int
    //
    // instance Test Int where
    //     test x = 10
    //
    // main x y = primIntAdd (test x) (test y)
    let mut module = module(vec![binding(
        "main",
        &["x", "y"],
        call("primIntAdd", vec![call("test", vec![id("x")]), call("test", vec![id("y")])]),
    )]);
    module.classes.push(test_class());
    module.instances.push(test_int_instance(number(10)));

    let mut env = TypeEnvironment::new();
    env.typecheck_module(&mut module).unwrap();

    let typ = &module.bindings[0].expression.typ;
    let int_type = int_type();
    let test =
        function_type(&Type::new_var(-1), &function_type(&Type::new_var(-2), &int_type));
    assert_eq!(typ, &test);
    let test_cons = vec![name("Test")];
    assert_eq!(classes_of(&env, &typ.types[0]), Some(test_cons.clone()));
    let second_fn = &typ.types[1];
    assert_eq!(classes_of(&env, &second_fn.types[0]), Some(test_cons));
}

#[test]
fn typecheck_constraints_no_instance() {
    // class Test a where
    //     test :: a -> Int
    //
    // instance Test Int where
    //     test x = 10
    //
    // main = test [1]
    let mut module = module(vec![binding("main", &[], call("test", vec![list(vec![number(1)])]))]);
    module.classes.push(test_class());
    module.instances.push(test_int_instance(number(10)));

    let mut env = TypeEnvironment::new();
    let result = env.typecheck_module(&mut module);
    match result {
        Err(TypeError::Unification(UnifyError::NoInstance(class), _, _, _)) => {
            assert_eq!(class, name("Test"))
        }
        other => panic!("expected a missing instance, got {:?}", other),
    }
}

#[test]
fn typecheck_instance_super_class() {
    // data Bool = True | False
    //
    // class Eq a where
    //     (==) :: a -> a -> Bool
    //
    // instance Eq a => Eq [a] where
    //     (==) xs ys = case xs of
    //         : x2 xs2 -> case ys of
    //             : y2 ys2 -> (x2 == y2) && (xs2 == ys2)
    //             [] -> False
    //         [] -> case ys of
    //             : y2 ys2 -> False
    //             [] -> True
    //
    // (&&) :: Bool -> Bool -> Bool
    // (&&) x y = case x of
    //     True -> y
    //     False -> False
    let eq_class = Class {
        name: name("Eq"),
        variable: TypeVariable { id: 1000000 },
        declarations: vec![TypeDeclaration {
            context: vec![],
            typ: function_type(
                &Type::new_var(1000000),
                &function_type(&Type::new_var(1000000), &bool_type()),
            ),
            name: name("=="),
        }],
    };
    let cons = |a: &str, b: &str| ctor_pattern(":", vec![var_pattern(a), var_pattern(b)]);
    let nil = || ctor_pattern("[]", vec![]);
    let eq_body = case(
        id("xs"),
        vec![
            alt(
                cons("x2", "xs2"),
                case(
                    id("ys"),
                    vec![
                        alt(
                            cons("y2", "ys2"),
                            call(
                                "&&",
                                vec![
                                    call("==", vec![id("x2"), id("y2")]),
                                    call("==", vec![id("xs2"), id("ys2")]),
                                ],
                            ),
                        ),
                        alt(nil(), id("False")),
                    ],
                ),
            ),
            alt(
                nil(),
                case(id("ys"), vec![alt(cons("y2", "ys2"), id("False")), alt(nil(), id("True"))]),
            ),
        ],
    );
    let instance = Instance {
        bindings: vec![binding("#[]==", &["xs", "ys"], eq_body)],
        constraints: vec![Constraint { class: name("Eq"), variables: vec![TypeVariable { id: 0 }] }],
        typ: list_of(Type::new_var(0)),
        classname: name("Eq"),
    };
    let and_decl = TypeDeclaration {
        context: vec![],
        typ: function_type(&bool_type(), &function_type(&bool_type(), &bool_type())),
        name: name("&&"),
    };
    let mut and = binding(
        "&&",
        &["x", "y"],
        case(
            id("x"),
            vec![
                alt(ctor_pattern("True", vec![]), id("y")),
                alt(ctor_pattern("False", vec![]), id("False")),
            ],
        ),
    );
    and.typeDecl = and_decl.clone();
    let mut module = module(vec![and]);
    module.dataDefinitions.push(bool_definition());
    module.classes.push(eq_class);
    module.instances.push(instance);
    module.typeDeclarations.push(and_decl);

    let mut env = TypeEnvironment::new();
    env.typecheck_module(&mut module).unwrap();

    let typ = &module.instances[0].bindings[0].expression.typ;
    let list_type = list_of(Type::new_var(100));
    assert_eq!(*typ, function_type(&list_type, &function_type(&list_type, &bool_type())));
    let var = &typ.types[0].types[0];
    let eq = vec![name("Eq")];
    assert_eq!(classes_of(&env, var), Some(eq));
}

#[test]
fn typecheck_num_double() {
    let mut env = TypeEnvironment::new();

    // test x = primDoubleAdd 0 x
    let mut module =
        module(vec![binding("test", &["x"], call("primDoubleAdd", vec![number(0), id("x")]))]);
    env.typecheck_module(&mut module).unwrap();

    let typ = function_type(&op("Double", vec![]), &op("Double", vec![]));
    let bind_type0 = &module.bindings[0].expression.typ;
    assert_eq!(*bind_type0, typ);
}

#[test]
fn typecheck_functor() {
    let mut env = TypeEnvironment::new();

    // data Maybe a = Just a | Nothing
    //
    // class Functor f where
    //     fmap :: (a -> b) -> f a -> f b
    //
    // instance Functor Maybe where
    //     fmap f x = case x of
    //         Just y -> Just (f y)
    //         Nothing -> Nothing
    //
    // add2 x = primIntAdd x 2
    // main = fmap add2 (Just 3)
    let maybe = op("Maybe", vec![Type::new_var(-1)]);
    let maybe_definition = DataDefinition {
        constructors: vec![
            Constructor {
                name: name("Just"),
                typ: function_type(&Type::new_var(-1), &maybe),
                tag: 0,
                arity: 1,
            },
            Constructor { name: name("Nothing"), typ: maybe.clone(), tag: 1, arity: 0 },
        ],
        typ: maybe.clone(),
        parameters: vec![(name("a"), -1)],
    };
    let f = |arg: i64| Type { typ: Type::new_var(1000000).typ, types: vec![Type::new_var(arg)] };
    let functor = Class {
        name: name("Functor"),
        variable: TypeVariable { id: 1000000 },
        declarations: vec![TypeDeclaration {
            context: vec![],
            typ: function_type(
                &function_type(&Type::new_var(0), &Type::new_var(1)),
                &function_type(&f(0), &f(1)),
            ),
            name: name("fmap"),
        }],
    };
    let instance = Instance {
        bindings: vec![binding(
            "#Maybefmap",
            &["f", "x"],
            case(
                id("x"),
                vec![
                    alt(
                        ctor_pattern("Just", vec![var_pattern("y")]),
                        call("Just", vec![call("f", vec![id("y")])]),
                    ),
                    alt(ctor_pattern("Nothing", vec![]), id("Nothing")),
                ],
            ),
        )],
        constraints: vec![],
        typ: op("Maybe", vec![]),
        classname: name("Functor"),
    };
    let mut module = module(vec![
        binding("add2", &["x"], call("primIntAdd", vec![id("x"), number(2)])),
        binding("main", &[], call("fmap", vec![id("add2"), call("Just", vec![number(3)])])),
    ]);
    module.dataDefinitions.push(maybe_definition);
    module.classes.push(functor);
    module.instances.push(instance);
    env.typecheck_module(&mut module).unwrap();

    let main = &module.bindings[1];
    assert_eq!(main.expression.typ, op("Maybe", vec![int_type()]));
}

#[test]
fn type_declaration() {
    // class Test a where
    //     test :: a -> Int
    //
    // instance Test Int where
    //     test x = x
    //
    // test :: Test a => a -> Int -> Int
    // test x y = primIntAdd (test x) y
    let decl = TypeDeclaration {
        context: vec![Constraint { class: name("Test"), variables: vec![TypeVariable { id: 0 }] }],
        typ: function_type(&Type::new_var(0), &function_type(&int_type(), &int_type())),
        name: name("test"),
    };
    let mut test = binding(
        "test",
        &["x", "y"],
        call("primIntAdd", vec![call("test", vec![id("x")]), id("y")]),
    );
    test.typeDecl = decl.clone();
    let mut module = module(vec![test]);
    module.classes.push(test_class());
    module.instances.push(test_int_instance(id("x")));
    module.typeDeclarations.push(decl);

    let mut env = TypeEnvironment::new();
    env.typecheck_module(&mut module).unwrap();

    assert_eq!(module.bindings[0].typeDecl.typ, module.typeDeclarations[0].typ);
}

#[test]
fn type_declaration_error() {
    // test :: [Int] -> Int -> Int
    // test x y = primIntAdd x y
    let decl = TypeDeclaration {
        context: vec![],
        typ: function_type(&list_of(int_type()), &function_type(&int_type(), &int_type())),
        name: name("test"),
    };
    let mut test = binding("test", &["x", "y"], call("primIntAdd", vec![id("x"), id("y")]));
    test.typeDecl = decl.clone();
    let mut module = module(vec![test]);
    module.typeDeclarations.push(decl);

    let mut env = TypeEnvironment::new();
    let result = env.typecheck_module(&mut module);
    match result {
        Err(TypeError::Unification(UnifyError::Operators, _, _, _)) => {}
        other => panic!("expected a unification failure, got {:?}", other),
    }
}
