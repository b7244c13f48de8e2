use haskell_compiler::lexer::{Token, TokenEnum};
use haskell_compiler::module::{
    Alternative, Binding, Constructor, Expr, Located, Location, Pattern, Type, TypeDeclaration,
    TypedExpr,
};
use haskell_compiler::parser::{
    encode_binding_identifier, field_type, make_application, make_lambda, named_pattern,
    named_type, new_tuple, parse_number, precedence, ParseErrorKind, Parser, TypeVariables,
};
use haskell_compiler::typecheck::{
    apply, case, function_type, identifier, lambda, let_, number, rational, TypeEnvironment,
};

fn name(s: &str) -> String {
    s.to_string()
}

/// The tokens of a text in which blocks stand in braces and their items
/// are parted by semicolons.
fn lex(text: &str) -> Vec<Token> {
    let chars: Vec<char> = text.chars().collect();
    let mut tokens = Vec::new();
    let mut i = 0;
    let mut row = 0;
    let mut column = 0;
    let symbols = "+-*/%=<>|&.:!$^~\\#@?";
    while i < chars.len() {
        let c = chars[i];
        let start = i;
        let location = Location { column, row, absolute: i as i64 };
        let mut bits = 0;
        let kind;
        if c == '\n' {
            i += 1;
            row += 1;
            column = 0;
            continue;
        } else if c.is_whitespace() {
            i += 1;
            column += 1;
            continue;
        } else if c.is_ascii_digit() {
            while i < chars.len() && chars[i].is_ascii_digit() {
                i += 1;
            }
            if i < chars.len() && chars[i] == '.' {
                i += 1;
                while i < chars.len() && chars[i].is_ascii_digit() {
                    i += 1;
                }
                let text: String = chars[start..i].iter().collect();
                bits = text.parse::<f64>().unwrap().to_bits();
                kind = TokenEnum::FLOAT;
            } else {
                kind = TokenEnum::NUMBER;
            }
        } else if c.is_alphabetic() || c == '_' {
            while i < chars.len() && (chars[i].is_alphanumeric() || chars[i] == '_' || chars[i] == '\'')
            {
                i += 1;
            }
            let word: String = chars[start..i].iter().collect();
            kind = match word.as_str() {
                "module" => TokenEnum::MODULE,
                "class" => TokenEnum::CLASS,
                "instance" => TokenEnum::INSTANCE,
                "where" => TokenEnum::WHERE,
                "let" => TokenEnum::LET,
                "in" => TokenEnum::IN,
                "case" => TokenEnum::CASE,
                "of" => TokenEnum::OF,
                "data" => TokenEnum::DATA,
                _ => TokenEnum::NAME,
            };
        } else if c == '"' {
            i += 1;
            while i < chars.len() && chars[i] != '"' {
                i += 1;
            }
            let value: String = chars[start + 1..i].iter().collect();
            i += 1;
            column += (i - start) as i64;
            tokens.push(Token { token: TokenEnum::STRING, value, location, bits: 0 });
            continue;
        } else if c == '\'' {
            let value: String = chars[start + 1..start + 2].iter().collect();
            i += 3;
            column += 3;
            tokens.push(Token { token: TokenEnum::CHAR, value, location, bits: 0 });
            continue;
        } else if symbols.contains(c) {
            while i < chars.len() && symbols.contains(chars[i]) {
                i += 1;
            }
            let word: String = chars[start..i].iter().collect();
            kind = match word.as_str() {
                "=" => TokenEnum::EQUALSSIGN,
                "->" => TokenEnum::ARROW,
                "::" => TokenEnum::TYPEDECL,
                _ => TokenEnum::OPERATOR,
            };
        } else {
            i += 1;
            kind = match c {
                '(' => TokenEnum::LPARENS,
                ')' => TokenEnum::RPARENS,
                '[' => TokenEnum::LBRACKET,
                ']' => TokenEnum::RBRACKET,
                '{' => TokenEnum::LBRACE,
                '}' => TokenEnum::RBRACE,
                ',' => TokenEnum::COMMA,
                ';' => TokenEnum::SEMICOLON,
                _ => panic!("unexpected character {}", c),
            };
        }
        let value: String = chars[start..i].iter().collect();
        column += (i - start) as i64;
        tokens.push(Token { token: kind, value, location, bits });
    }
    tokens
}

fn parser(text: &str) -> Parser {
    Parser::new(lex(text))
}

fn same_pattern(a: &Pattern, b: &Pattern) -> bool {
    match (a, b) {
        (Pattern::NumberPattern(x), Pattern::NumberPattern(y)) => x == y,
        (Pattern::IdentifierPattern(x), Pattern::IdentifierPattern(y)) => x == y,
        (Pattern::ConstructorPattern(x, xs), Pattern::ConstructorPattern(y, ys)) => {
            x == y && xs.len() == ys.len() && xs.iter().zip(ys).all(|(p, q)| same_pattern(p, q))
        }
        _ => false,
    }
}

fn same_binding(a: &Binding, b: &Binding) -> bool {
    a.name == b.name && a.arity == b.arity && same(&a.expression, &b.expression)
}

/// Whether two expressions are the same but for their types and places.
fn same(a: &TypedExpr, b: &TypedExpr) -> bool {
    match (&a.expr, &b.expr) {
        (Expr::Identifier(x), Expr::Identifier(y)) => x == y,
        (Expr::Apply(f, x), Expr::Apply(g, y)) => same(f, g) && same(x, y),
        (Expr::Number(x), Expr::Number(y)) => x == y,
        (Expr::Rational(x), Expr::Rational(y)) => x == y,
        (Expr::String(x), Expr::String(y)) => x == y,
        (Expr::Char(x), Expr::Char(y)) => x == y,
        (Expr::Lambda(x, e), Expr::Lambda(y, f)) => x == y && same(e, f),
        (Expr::Let(bs, e), Expr::Let(cs, f)) => {
            bs.len() == cs.len()
                && bs.iter().zip(cs).all(|(b, c)| same_binding(b, c))
                && same(e, f)
        }
        (Expr::Case(e, xs), Expr::Case(f, ys)) => {
            same(e, f)
                && xs.len() == ys.len()
                && xs.iter().zip(ys).all(|(x, y)| {
                    same_pattern(&x.pattern.node, &y.pattern.node)
                        && same(&x.expression, &y.expression)
                })
        }
        _ => false,
    }
}

fn same_constructor(a: &Constructor, b: &Constructor) -> bool {
    a.name == b.name && a.tag == b.tag && a.arity == b.arity && a.typ == b.typ
}

#[test]
fn simple() {
    let mut parser = parser("2 + 3");
    let expr = parser.expression_().unwrap();
    assert!(same(&expr, &apply(apply(identifier(name("+")), number(2)), number(3))));
}

#[test]
fn binding() {
    let mut parser = parser("test x = x + 3");
    let bind = parser.binding().unwrap();
    assert!(same(
        &bind.expression,
        &lambda(name("x"), apply(apply(identifier(name("+")), identifier(name("x"))), number(3)))
    ));
    assert_eq!(bind.name, name("test"));
}

#[test]
fn double() {
    let mut parser = parser("test = 3.14");
    let bind = parser.binding().unwrap();
    assert!(same(&bind.expression, &rational(3.14f64.to_bits())));
    assert_eq!(bind.name, name("test"));
}

#[test]
fn parse_let() {
    let mut parser = parser(
        r"
let {
    test = add 3 2
} in test - 2",
    );
    let expr = parser.expression_().unwrap();
    let bind = Binding {
        arity: 0,
        name: name("test"),
        typeDecl: TypeDeclaration::default(),
        expression: apply(apply(identifier(name("add")), number(3)), number(2)),
    };
    assert!(same(
        &expr,
        &let_(vec![bind], apply(apply(identifier(name("-")), identifier(name("test"))), number(2)))
    ));
}

#[test]
fn parse_case() {
    let mut parser = parser(
        r"case [] of {
    : x xs -> x ;
    [] -> 2
}",
    );
    let expression = parser.expression_().unwrap();
    let alt = Alternative {
        pattern: Located {
            location: Location::eof(),
            node: Pattern::ConstructorPattern(
                name(":"),
                vec![Pattern::IdentifierPattern(name("x")), Pattern::IdentifierPattern(name("xs"))],
            ),
        },
        expression: identifier(name("x")),
    };
    let alt2 = Alternative {
        pattern: Located {
            location: Location::eof(),
            node: Pattern::ConstructorPattern(name("[]"), vec![]),
        },
        expression: number(2),
    };
    assert!(same(&expression, &case(identifier(name("[]")), vec![alt, alt2])));
}

#[test]
fn parse_type() {
    let mut parser = parser(r"(.) :: (b -> c) -> (a -> b) -> (a -> c)");
    let type_decl = parser.type_declaration().unwrap();
    let a = &Type::new_var(0);
    let b = &Type::new_var(1);
    let c = &Type::new_var(2);
    let f = function_type(
        &function_type(b, c),
        &function_type(&function_type(a, b), &function_type(a, c)),
    );

    assert_eq!(type_decl.name, name("."));
    assert_eq!(type_decl.typ, f);
}

#[test]
fn parse_data() {
    let mut parser = parser(r"data Bool = True | False");
    let data = parser.data_definition().unwrap();

    let bool_type = Type::new_op(name("Bool"), vec![]);
    let true_ = Constructor { name: name("True"), tag: 0, arity: 0, typ: bool_type.clone() };
    let false_ = Constructor { name: name("False"), tag: 1, arity: 0, typ: bool_type.clone() };
    assert_eq!(data.typ, bool_type);
    assert!(same_constructor(&data.constructors[0], &true_));
    assert!(same_constructor(&data.constructors[1], &false_));
}

#[test]
fn parse_data_2() {
    let mut parser = parser(r"data List a = Cons a (List a) | Nil");
    let data = parser.data_definition().unwrap();

    let list = Type::new_op(name("List"), vec![Type::new_var(0)]);
    let cons = Constructor {
        name: name("Cons"),
        tag: 0,
        arity: 2,
        typ: function_type(&Type::new_var(0), &function_type(&list, &list)),
    };
    let nil = Constructor { name: name("Nil"), tag: 1, arity: 0, typ: list.clone() };
    assert_eq!(data.typ, list);
    assert!(same_constructor(&data.constructors[0], &cons));
    assert!(same_constructor(&data.constructors[1], &nil));
}

#[test]
fn parse_tuple() {
    let mut parser = parser(r"(1, x)");
    let expr = parser.expression_().unwrap();

    assert!(same(
        &expr,
        &apply(apply(identifier(name("(,)")), number(1)), identifier(name("x")))
    ));
}

#[test]
fn test_operators() {
    // Operators of equal strength associate to the left.
    let mut parser = parser("1 : 2 : []");
    let expr = parser.expression_().unwrap();
    assert!(same(
        &expr,
        &apply(
            apply(identifier(name(":")), apply(apply(identifier(name(":")), number(1)), number(2))),
            identifier(name("[]"))
        )
    ));
    let expr = self::parser("7 - 2 - 1").expression_().unwrap();
    let minus = |l, r| apply(apply(identifier(name("-")), l), r);
    assert!(same(&expr, &minus(minus(number(7), number(2)), number(1))));
    let expr = self::parser("1 + 2 * 3 * 4 - 5").expression_().unwrap();
    let times = |l, r| apply(apply(identifier(name("*")), l), r);
    let plus = |l, r| apply(apply(identifier(name("+")), l), r);
    assert!(same(
        &expr,
        &minus(plus(number(1), times(times(number(2), number(3)), number(4))), number(5))
    ));
}

#[test]
fn parse_instance_class() {
    let mut parser = parser(
        r"{ class Eq a where {
    (==) :: a -> a -> Bool
} ;
instance Eq a => Eq [a] where {
    (==) xs ys = undefined
} }",
    );
    let module = parser.module().unwrap();

    assert_eq!(module.classes[0].name, name("Eq"));
    assert_eq!(module.instances[0].classname, name("Eq"));
    assert_eq!(module.instances[0].constraints[0].class, name("Eq"));
    assert_eq!(module.instances[0].typ, Type::new_op(name("[]"), vec![Type::new_var(0)]));
    assert_eq!(module.instances[0].bindings[0].name, name("#[]=="));
    assert_eq!(module.classes[0].variable.id, 1000000);
}

#[test]
fn operators_bind_by_precedence() {
    assert_eq!(precedence(&name("+")), 1);
    assert_eq!(precedence(&name("-")), 1);
    assert_eq!(precedence(&name("==")), 1);
    assert_eq!(precedence(&name("/=")), 1);
    assert_eq!(precedence(&name("<")), 1);
    assert_eq!(precedence(&name(">")), 1);
    assert_eq!(precedence(&name("<=")), 1);
    assert_eq!(precedence(&name(">=")), 1);
    assert_eq!(precedence(&name("*")), 3);
    assert_eq!(precedence(&name("/")), 3);
    assert_eq!(precedence(&name("%")), 3);
    assert_eq!(precedence(&name("&&")), 9);
    assert_eq!(precedence(&name(":")), 9);
    // 1 + 2 * 3 is 1 + (2 * 3)
    let expr = parser("1 + 2 * 3").expression_().unwrap();
    let product = apply(apply(identifier(name("*")), number(2)), number(3));
    assert!(same(&expr, &apply(apply(identifier(name("+")), number(1)), product)));
    // 1 * 2 + 3 is (1 * 2) + 3
    let expr = parser("1 * 2 + 3").expression_().unwrap();
    let product = apply(apply(identifier(name("*")), number(1)), number(2));
    assert!(same(&expr, &apply(apply(identifier(name("+")), product), number(3))));
}

#[test]
fn unary_minus_negates_and_other_operators_make_sections() {
    let expr = parser("- x").expression_().unwrap();
    assert!(same(&expr, &apply(identifier(name("negate")), identifier(name("x")))));
    let expr = parser("(+ 2)").expression_().unwrap();
    let section = lambda(
        name("#"),
        apply(apply(identifier(name("+")), identifier(name("#"))), number(2)),
    );
    assert!(same(&expr, &section));
}

#[test]
fn lists_and_literals() {
    let expr = parser("[1, 2]").expression_().unwrap();
    let nil = || identifier(name("[]"));
    let cons = |x, xs| apply(apply(identifier(name(":")), x), xs);
    assert!(same(&expr, &cons(number(1), cons(number(2), nil()))));
    assert!(same(&parser("[]").expression_().unwrap(), &nil()));
    let expr = parser("\"hello\"").expression_().unwrap();
    assert!(matches!(&expr.expr, Expr::String(s) if s == "hello"));
    let expr = parser("'c'").expression_().unwrap();
    assert!(matches!(&expr.expr, Expr::Char('c')));
    let expr = parser("(1, 2, 3)").expression_().unwrap();
    assert!(same(&expr, &new_tuple(vec![number(1), number(2), number(3)])));
}

#[test]
fn places_are_kept() {
    let expr = parser("  f x").expression_().unwrap();
    assert_eq!(expr.location, Location { column: 2, row: 0, absolute: 2 });
    match &expr.expr {
        Expr::Apply(f, x) => {
            assert_eq!(f.location.column, 2);
            assert_eq!(x.location.column, 4);
        }
        _ => panic!("expected an application"),
    }
}

#[test]
fn helpers() {
    assert_eq!(encode_binding_identifier(&name("Int"), &name("test")), name("#Inttest"));
    assert_eq!(parse_number(&name("0123")), Some(123));
    assert_eq!(parse_number(&name("9223372036854775807")), Some(i64::MAX));
    assert_eq!(parse_number(&name("9223372036854775808")), None);
    assert_eq!(parse_number(&name("12a")), None);
    assert_eq!(parse_number(&name("")), None);
    let f = make_application(identifier(name("f")), vec![number(1), number(2)]);
    assert!(same(&f, &apply(apply(identifier(name("f")), number(1)), number(2))));
    let l = make_lambda(vec![name("x"), name("y")], number(1));
    assert!(same(&l, &lambda(name("x"), lambda(name("y"), number(1)))));
}

#[test]
fn module_with_header_and_declarations() {
    let mut parser = parser(
        "module Test where { id :: a -> a ; id x = x ; data Maybe a = Just a | Nothing ; two = 2 }",
    );
    let module = parser.module().unwrap();
    assert_eq!(module.name, name("Test"));
    assert_eq!(module.bindings.len(), 2);
    assert_eq!(module.typeDeclarations.len(), 1);
    assert_eq!(module.dataDefinitions.len(), 1);
    // The declaration is attached to its binding.
    assert_eq!(module.bindings[0].typeDecl.name, name("id"));
    assert_eq!(
        module.bindings[0].typeDecl.typ,
        function_type(&Type::new_var(0), &Type::new_var(0))
    );
    assert_eq!(module.bindings[0].arity, 1);
    assert_eq!(module.bindings[1].typeDecl.name, name(""));
    // Without a header the module is Main.
    assert_eq!(self::parser("{ one = 1 }").module().unwrap().name, name("Main"));
}

fn error_of(text: &str) -> (ParseErrorKind, TokenEnum) {
    let e = parser(text).module().unwrap_err();
    (e.kind, e.found.token)
}

#[test]
fn parse_errors() {
    assert_eq!(error_of("x = 1"), (ParseErrorKind::Expected(TokenEnum::LBRACE), TokenEnum::NAME));
    assert_eq!(error_of("{ x = 1"), (ParseErrorKind::Expected(TokenEnum::RBRACE), TokenEnum::EOF));
    assert_eq!(error_of("{ x = 1 } y"), (ParseErrorKind::TrailingToken, TokenEnum::NAME));
    assert_eq!(error_of("{ x = }"), (ParseErrorKind::NoExpression, TokenEnum::EQUALSSIGN));
    assert_eq!(error_of("{ x 1 }"), (ParseErrorKind::Expected(TokenEnum::EQUALSSIGN), TokenEnum::NUMBER));
    assert_eq!(error_of("{ (1) = 2 }"), (ParseErrorKind::BindingName, TokenEnum::NUMBER));
    assert_eq!(
        error_of("{ x = (1 }"),
        (ParseErrorKind::Expected(TokenEnum::RPARENS), TokenEnum::RBRACE)
    );
    assert_eq!(
        error_of("{ x = 99999999999999999999 }"),
        (ParseErrorKind::Number, TokenEnum::NUMBER)
    );
    assert_eq!(error_of("{ x :: = }"), (ParseErrorKind::Type, TokenEnum::EQUALSSIGN));
    assert_eq!(
        error_of("{ x :: (a ; b) }"),
        (ParseErrorKind::ExpectedEither(TokenEnum::COMMA, TokenEnum::RPARENS), TokenEnum::SEMICOLON)
    );
    assert_eq!(
        error_of("{ data T = C b }"),
        (ParseErrorKind::TypeParameter, TokenEnum::NAME)
    );
    assert_eq!(
        error_of("{ x = case y of { 1 2 -> 3 } }"),
        (ParseErrorKind::Expected(TokenEnum::ARROW), TokenEnum::NUMBER)
    );
    assert_eq!(
        error_of("{ x = case y of { ; } }"),
        (ParseErrorKind::Pattern, TokenEnum::SEMICOLON)
    );
    assert_eq!(
        error_of("{ x = case y of { a b -> 3 } }"),
        (ParseErrorKind::Pattern, TokenEnum::NAME)
    );
    assert_eq!(
        error_of("{ instance a where { x = 1 } }"),
        (ParseErrorKind::InstanceHead, TokenEnum::NAME)
    );
    assert_eq!(
        error_of("{ x :: a b => a }"),
        (ParseErrorKind::Constraint, TokenEnum::NAME)
    );
}

#[test]
fn a_parsed_module_typechecks() {
    let mut parser = parser(
        r"{ data Bool = True | False ;

class Test a where {
    test :: a -> Int
} ;

instance Test Int where {
    test x = x
} ;

instance Test Bool where {
    test x = case x of {
        True -> 1 ;
        False -> 0
    }
} ;

main = primIntSubtract (test (primIntAdd 5 0)) (test True) }",
    );
    let mut module = parser.module().unwrap();
    let mut env = TypeEnvironment::new();
    env.typecheck_module(&mut module).unwrap();
    assert_eq!(module.bindings[0].expression.typ, Type::new_op(name("Int"), vec![]));
    assert_eq!(module.instances[1].bindings[0].name, name("#Booltest"));
    assert_eq!(
        module.instances[1].bindings[0].expression.typ,
        function_type(&Type::new_op(name("Bool"), vec![]), &Type::new_op(name("Int"), vec![]))
    );
}

#[test]
fn names_are_types_and_patterns_by_their_first_letter() {
    let mut vars = TypeVariables { next: 3, mapping: vec![(name("a"), 7)] };
    let int = named_type(&mut vars, name("Int"), true, vec![]);
    assert_eq!(format!("{:?}", int), format!("{:?}", Type::new_op(name("Int"), vec![])));
    assert_eq!(vars.next, 3);
    // A known variable keeps its id, a new one gets the next; the next id goes up both times.
    let a = named_type(&mut vars, name("a"), false, vec![]);
    assert_eq!(a.var().id, 7);
    let b = named_type(&mut vars, name("b"), false, vec![Type::new_var(0)]);
    assert_eq!(b.var().id, 4);
    assert_eq!(b.types.len(), 1);
    assert_eq!(vars.next, 5);
    assert_eq!(vars.mapping, vec![(name("a"), 7), (name("b"), 4)]);

    let mapping = vec![(name("a"), -1)];
    assert_eq!(field_type(&mapping, name("a"), true).unwrap().var().id, -1);
    assert!(field_type(&mapping, name("b"), true).is_none());
    assert_eq!(field_type(&mapping, name("Bool"), false).unwrap().op().name, "Bool");

    let x = Pattern::IdentifierPattern(name("x"));
    assert!(same_pattern(
        &named_pattern(name("Just"), true, vec![Pattern::NumberPattern(1)]).unwrap(),
        &Pattern::ConstructorPattern(name("Just"), vec![Pattern::NumberPattern(1)])
    ));
    assert!(same_pattern(&named_pattern(name("x"), false, vec![]).unwrap(), &x));
    assert!(named_pattern(name("x"), false, vec![Pattern::NumberPattern(1)]).is_none());
    assert!(same_pattern(
        &named_pattern(name(":"), false, vec![]).unwrap(),
        &Pattern::ConstructorPattern(name(":"), vec![])
    ));
    // Through the parser: an upper case name is a constructor, a lower case name a variable.
    assert!(same_pattern(
        &parser("Nothing").pattern().unwrap(),
        &Pattern::ConstructorPattern(name("Nothing"), vec![])
    ));
    assert!(same_pattern(&parser("x").pattern().unwrap(), &x));
    assert!(same_pattern(
        &parser("\u{c9}tat").pattern().unwrap(),
        &Pattern::ConstructorPattern(name("\u{c9}tat"), vec![])
    ));
}

fn checked(text: &str) -> haskell_compiler::module::Module {
    let mut module = parser(text).module().unwrap();
    TypeEnvironment::new().typecheck_module(&mut module).unwrap();
    module
}

#[test]
fn a_parsed_instance_with_a_context_typechecks() {
    let module = checked(
        r"{ data Bool = True | False ;

class Eq a where {
    (==) :: a -> a -> Bool
} ;

instance Eq a => Eq [a] where {
    (==) xs ys = case xs of {
        : x2 xs2 -> case ys of {
            : y2 ys2 -> (x2 == y2) && (xs2 == ys2) ;
            [] -> False
        } ;
        [] -> case ys of {
            : y2 ys2 -> False ;
            [] -> True
        }
    }
} ;

(&&) :: Bool -> Bool -> Bool ;
(&&) x y = case x of {
    True -> y ;
    False -> False
} }",
    );
    let typ = &module.instances[0].bindings[0].expression.typ;
    let list_type = Type::new_op(name("[]"), vec![Type::new_var(100)]);
    let bool_type = Type::new_op(name("Bool"), vec![]);
    assert_eq!(*typ, function_type(&list_type, &function_type(&list_type, &bool_type)));
    assert_eq!(
        module.bindings[0].expression.typ,
        function_type(&bool_type, &function_type(&bool_type, &bool_type))
    );
}

#[test]
fn a_parsed_functor_typechecks() {
    let module = checked(
        r"{ data Maybe a = Just a | Nothing ;

class Functor f where {
    fmap :: (a -> b) -> f a -> f b
} ;

instance Functor Maybe where {
    fmap f x = case x of {
        Just y -> Just (f y) ;
        Nothing -> Nothing
    }
} ;

add2 x = primIntAdd x 2 ;
main = fmap add2 (Just 3) }",
    );
    let main = &module.bindings[1];
    assert_eq!(
        main.expression.typ,
        Type::new_op(name("Maybe"), vec![Type::new_op(name("Int"), vec![])])
    );
}

#[test]
fn a_parsed_recursive_let_typechecks() {
    let mut expr = parser(
        r"let {
    a = primIntAdd 0 1 ;
    test = primIntAdd 1 2 : test2 ;
    test2 = 2 : test ;
    b = test
} in b",
    )
    .expression_()
    .unwrap();
    TypeEnvironment::new().typecheck(&mut expr).unwrap();
    let int_type = Type::new_op(name("Int"), vec![]);
    let list_type = Type::new_op(name("[]"), vec![int_type.clone()]);
    assert_eq!(expr.typ, list_type);
    match &expr.expr {
        Expr::Let(binds, _) => {
            assert_eq!(binds.len(), 4);
            assert_eq!(binds[0].name, name("a"));
            assert_eq!(binds[0].expression.typ, int_type);
            assert_eq!(binds[1].name, name("test"));
            assert_eq!(binds[1].expression.typ, list_type);
        }
        _ => panic!("expected a let"),
    }
}

#[test]
fn parsed_programs_are_rejected_for_their_types() {
    let reject = |text: &str| {
        let mut module = parser(text).module().unwrap();
        TypeEnvironment::new().typecheck_module(&mut module).unwrap_err()
    };
    let e = reject("{ test :: [Int] -> Int -> Int ; test x y = primIntAdd x y }");
    assert!(matches!(
        e,
        haskell_compiler::typecheck::TypeError::Unification(
            haskell_compiler::typecheck::UnifyError::Operators,
            _,
            _,
            _
        )
    ));
    let e = reject("{ main = case 1 of { Just x -> x } }");
    assert!(matches!(
        e,
        haskell_compiler::typecheck::TypeError::UndefinedConstructor(n, _) if n == "Just"
    ));
    let e = reject("{ main = case [] of { : x y z -> x } }");
    assert!(matches!(e, haskell_compiler::typecheck::TypeError::PatternArity(_)));
}

#[test]
fn a_character_token_needs_a_character() {
    let empty = Token {
        token: TokenEnum::CHAR,
        value: String::new(),
        location: Location::eof(),
        bits: 0,
    };
    let e = Parser::new(vec![empty]).expression_().unwrap_err();
    assert_eq!(e.kind, ParseErrorKind::Character);
    // A hundred parentheses around a number are the number.
    let text = format!("{}1{}", "(".repeat(100), ")".repeat(100));
    assert!(same(&parser(&text).expression_().unwrap(), &number(1)));
}

#[test]
fn a_rejected_text_leaves_the_cursor_where_it_stood() {
    let mut p = parser("f x = ( 1");
    assert!(p.binding().is_err());
    assert_eq!(p.lexer.position, 0);
    assert!(p.expression_().is_ok());
    let at = p.lexer.position;
    assert!(p.pattern().is_err());
    assert_eq!(p.lexer.position, at);
    let mut p = parser("{ x = }");
    assert!(p.module().is_err());
    assert_eq!(p.lexer.position, 0);
}

#[test]
fn a_case_without_alternatives_is_rejected() {
    let mut expr = case(number(1), vec![]);
    expr.location = Location { column: 4, row: 5, absolute: 6 };
    match TypeEnvironment::new().typecheck(&mut expr) {
        Err(haskell_compiler::typecheck::TypeError::EmptyCase(at)) => {
            assert_eq!(at, Location { column: 4, row: 5, absolute: 6 })
        }
        other => panic!("expected an empty case, got {:?}", other),
    }
}
