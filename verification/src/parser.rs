//! The parser: from the tokens of a text to its abstract syntax.
//!
//! Every rule is stated twice: as a function on the sequence of tokens and a
//! position in it, which says what the rule yields, and as the code that
//! reads the tokens.
use crate::environment::{tuple_name, tuple_name_spec, DEPTH_LIMIT};
use crate::lexer::{advance, retreat, token_at, Lexer, Token, TokenEnum, TokenModel};
use crate::module::{
    lemma_expr_view, lemma_pattern_view, lemma_type_view, seq_view, Alternative,
    AlternativeModel, Binding, BindingModel, Class, ClassModel, Constraint, ConstraintModel,
    Constructor, ConstructorModel, DataDefinition, DataModel, DeclarationModel, Expr, ExprModel,
    Head, Instance, InstanceModel, Located, Location, Module, ModuleModel, Pattern, PatternModel,
    Ty, Type, TypeDeclaration, TypeHead, TypeVariable, TypedExpr, TypedExprModel,
};
use crate::substitution::function_type;
use crate::tables::{insert, lookup};
use vstd::prelude::*;

verus! {

/// Why a text was rejected.
#[derive(Clone, Copy, Debug, PartialEq, Eq)]
pub enum ParseErrorKind {
    /// A token of this kind was expected.
    Expected(TokenEnum),
    /// A token of one of these two kinds was expected.
    ExpectedEither(TokenEnum, TokenEnum),
    /// A token follows the end of the module.
    TrailingToken,
    /// An instance is declared for a type variable, or for a class without a type.
    InstanceHead,
    /// An expression was expected.
    NoExpression,
    /// The left side of a binding is neither a name nor an operator.
    BindingName,
    /// This is no pattern.
    Pattern,
    /// A type parameter that the data definition does not declare.
    TypeParameter,
    /// This is no type.
    Type,
    /// This is no constraint of a class on a type variable.
    Constraint,
    /// The number does not fit.
    Number,
    /// A character token without a character.
    Character,
    /// The text is nested too deep.
    TooDeep,
}

/// Why a text was rejected, and the token at which it was.
#[derive(Debug)]
pub struct ParseError {
    pub kind: ParseErrorKind,
    pub found: Token,
}

pub struct ParseErrorModel {
    pub kind: ParseErrorKind,
    pub found: TokenModel,
}

impl View for ParseError {
    type V = ParseErrorModel;

    open spec fn view(&self) -> ParseErrorModel {
        ParseErrorModel { kind: self.kind, found: self.found@ }
    }
}

/// What a rule yields: the position behind what it read, and its result.
pub type Parsed<T> = Result<(nat, T), ParseErrorModel>;

/// The failure of the kind `kind` at the token that was read last.
pub open spec fn failure(ts: Seq<TokenModel>, pos: nat, kind: ParseErrorKind) -> ParseErrorModel {
    ParseErrorModel { kind, found: token_at(ts, pos) }
}

/// How often a rule may repeat: once more than there are tokens, since each
/// repetition reads a token.
pub open spec fn bound(ts: Seq<TokenModel>) -> nat {
    if ts.len() + 2 <= usize::MAX {
        ts.len() + 2
    } else {
        usize::MAX as nat
    }
}

/// How strongly an operator binds.
pub open spec fn precedence_spec(s: Seq<char>) -> int {
    if s == "+"@ || s == "-"@ || s == "=="@ || s == "/="@ || s == "<"@ || s == ">"@ || s == "<="@
        || s == ">="@ {
        1
    } else if s == "*"@ || s == "/"@ || s == "%"@ {
        3
    } else {
        9
    }
}

/// Whether a character is an upper case letter, as `char::is_uppercase` says.
pub uninterp spec fn uppercase(c: char) -> bool;

/// Whether a character is a lower case letter, as `char::is_lowercase` says.
pub uninterp spec fn lowercase(c: char) -> bool;

/// `char::is_uppercase`: whether the character has the Unicode property
/// `Uppercase`. The contract only gives that answer a name.
#[verifier::external_body]
fn is_uppercase(c: char) -> (res: bool)
    ensures
        res == uppercase(c),
{
    c.is_uppercase()
}

/// `char::is_lowercase`: whether the character has the Unicode property
/// `Lowercase`. The contract only gives that answer a name.
#[verifier::external_body]
fn is_lowercase(c: char) -> (res: bool)
    ensures
        res == lowercase(c),
{
    c.is_lowercase()
}

pub open spec fn starts_uppercase(s: Seq<char>) -> bool {
    s.len() > 0 && uppercase(s[0])
}

pub open spec fn starts_lowercase(s: Seq<char>) -> bool {
    s.len() > 0 && lowercase(s[0])
}

/// The value of the decimal digit `c`.
pub open spec fn digit(c: char) -> Option<int> {
    if '0' <= c <= '9' {
        Some(c as int - '0' as int)
    } else {
        None
    }
}

/// The number that the first `n` characters of `s` denote as decimal
/// digits; none where one of them is no digit or the number does not fit.
pub open spec fn digits_value(s: Seq<char>, n: nat) -> Option<int>
    decreases n,
{
    if n == 0 {
        Some(0)
    } else if n > s.len() {
        None
    } else {
        match (digits_value(s, (n - 1) as nat), digit(s[n - 1])) {
            (Some(v), Some(d)) => if v * 10 + d <= i64::MAX {
                Some(v * 10 + d)
            } else {
                None
            },
            _ => None,
        }
    }
}

/// The number that a text of decimal digits denotes.
pub open spec fn number_value(s: Seq<char>) -> Option<int> {
    if s.len() == 0 {
        None
    } else {
        digits_value(s, s.len())
    }
}

/// An expression whose type is not known yet.
pub open spec fn untyped(expr: ExprModel, location: Location) -> TypedExprModel {
    TypedExprModel { expr, typ: Ty::var(0), location }
}

pub open spec fn no_location() -> Location {
    Location { column: -1i64, row: -1i64, absolute: -1i64 }
}

/// The function `f` applied to the arguments from the index `i` on, one
/// after the other; each application stands at the place of its function.
pub open spec fn make_application_spec(f: TypedExprModel, args: Seq<TypedExprModel>, i: nat) -> TypedExprModel
    decreases args.len() - i,
{
    if i >= args.len() {
        f
    } else {
        make_application_spec(
            untyped(ExprModel::Apply(Box::new(f), Box::new(args[i as int])), f.location),
            args,
            i + 1,
        )
    }
}

/// The function of the first `n` of the parameters `args`, the first
/// outermost, with the body `body`; each function stands at the place of its body.
pub open spec fn make_lambda_spec(args: Seq<Seq<char>>, body: TypedExprModel, n: nat) -> TypedExprModel
    decreases n,
{
    if n == 0 || n > args.len() {
        body
    } else {
        make_lambda_spec(
            args,
            untyped(ExprModel::Lambda(args[n - 1], Box::new(body)), body.location),
            (n - 1) as nat,
        )
    }
}

/// The tuple of the expressions: the constructor named by their number, applied to them.
pub open spec fn new_tuple_spec(args: Seq<TypedExprModel>) -> TypedExprModel {
    make_application_spec(
        untyped(ExprModel::Identifier(tuple_name_spec(args.len())), no_location()),
        args,
        0,
    )
}

/// The list of the first `n` of the expressions `es` before the list `rest`.
pub open spec fn make_list_spec(es: Seq<TypedExprModel>, n: nat, rest: TypedExprModel) -> TypedExprModel
    decreases n,
{
    if n == 0 || n > es.len() {
        rest
    } else {
        make_list_spec(
            es,
            (n - 1) as nat,
            make_application_spec(
                untyped(ExprModel::Identifier(":"@), no_location()),
                seq![es[n - 1], rest],
                0,
            ),
        )
    }
}

/// The name under which the binding `binding` of an instance at the type
/// `instance` is known.
pub open spec fn encode_spec(instance: Seq<char>, binding: Seq<char>) -> Seq<char> {
    "#"@ + instance + binding
}

/// The constraint that the type `t` states: a class applied to a type variable.
pub open spec fn constraint_of(t: Ty) -> Option<ConstraintModel> {
    match t.head {
        Head::Op(class) => if t.args.len() > 0 && t.args[0].head is Var {
            Some(ConstraintModel { class, variables: seq![t.args[0].var_id()] })
        } else {
            None
        },
        Head::Var(_) => None,
    }
}

/// The constraints that the types from the index `i` on state.
pub open spec fn constraints_from(types: Seq<Ty>, i: nat) -> Option<Seq<ConstraintModel>>
    decreases types.len() - i,
{
    if i >= types.len() {
        Some(Seq::empty())
    } else {
        match (constraint_of(types[i as int]), constraints_from(types, i + 1)) {
            (Some(c), Some(rest)) => Some(seq![c] + rest),
            _ => None,
        }
    }
}

/// The constraints that a context states: those of the fields of a tuple,
/// or the one of a single type.
pub open spec fn create_type_constraints_spec(context: Ty) -> Option<Seq<ConstraintModel>> {
    match context.head {
        Head::Op(name) => if name.len() > 0 && name[0] == '(' {
            constraints_from(context.args, 0)
        } else {
            match constraint_of(context) {
                Some(c) => Some(seq![c]),
                None => None,
            }
        },
        Head::Var(_) => None,
    }
}

/// The type variables of a type that is being read: the id that the next
/// new variable gets, and the ids of the names so far.
pub struct TypeVars {
    pub next: i64,
    pub mapping: Seq<(Seq<char>, i64)>,
}

impl TypeVars {
    /// The id of the type variable `name`, which is the next id where the
    /// name is new; in either case the next id goes up by one.
    pub open spec fn variable(self, name: Seq<char>) -> (TypeVars, i64) {
        let id = match lookup(self.mapping, name) {
            Some(id) => id,
            None => self.next,
        };
        (
            TypeVars {
                next: if self.next < i64::MAX {
                    (self.next + 1) as i64
                } else {
                    self.next
                },
                mapping: match lookup(self.mapping, name) {
                    Some(_) => self.mapping,
                    None => insert(self.mapping, name, self.next),
                },
            },
            id,
        )
    }
}

/// The type that the name `name` with the arguments `args` denotes: a type
/// operator where the name begins with an upper case letter, which `upper`
/// says, and else a type variable.
pub open spec fn named_type_spec(vars: TypeVars, name: Seq<char>, upper: bool, args: Seq<Ty>) -> (
    TypeVars,
    Ty,
) {
    if upper {
        (vars, Ty::op(name, args))
    } else {
        let (v, id) = vars.variable(name);
        (v, Ty { head: Head::Var(id as int), args })
    }
}

/// The type of the field of a constructor that the name `name` denotes: a
/// parameter of the data definition where the name begins with a lower case
/// letter, which `lower` says, and else a type operator. None where the
/// data definition has no such parameter.
pub open spec fn field_type_spec(mapping: Seq<(Seq<char>, i64)>, name: Seq<char>, lower: bool) -> Option<
    Ty,
> {
    if lower {
        match lookup(mapping, name) {
            Some(id) => Some(Ty::var(id as int)),
            None => None,
        }
    } else {
        Some(Ty::op(name, Seq::empty()))
    }
}

/// The pattern that the name `name` before the patterns `patterns` makes: a
/// constructor pattern where the name begins with an upper case letter,
/// which `upper` says, or is `:`, and else a variable, which no patterns
/// may follow.
pub open spec fn named_pattern_spec(name: Seq<char>, upper: bool, patterns: Seq<PatternModel>) -> Option<
    PatternModel,
> {
    if upper || name == ":"@ {
        Some(PatternModel::Constructor(name, patterns))
    } else if patterns.len() == 0 {
        Some(PatternModel::Identifier(name))
    } else {
        None
    }
}

/// The next token must be of the kind `expected`.
pub open spec fn require_spec(ts: Seq<TokenModel>, pos: nat, expected: TokenEnum) -> Result<
    nat,
    ParseErrorModel,
> {
    let p = advance(ts, pos);
    if token_at(ts, p).token == expected {
        Ok(p)
    } else {
        Err(failure(ts, p, ParseErrorKind::Expected(expected)))
    }
}

/// A type.
pub open spec fn parse_type_spec(ts: Seq<TokenModel>, pos: nat, vars: TypeVars, depth: nat) -> Parsed<
    (TypeVars, Ty),
>
    decreases depth, 0nat, 0nat,
{
    let p = advance(ts, pos);
    if depth == 0 {
        Err(failure(ts, p, ParseErrorKind::TooDeep))
    } else {
        let d = (depth - 1) as nat;
        match token_at(ts, p).token {
            TokenEnum::LBRACKET => {
                let p2 = advance(ts, p);
                if token_at(ts, p2).token == TokenEnum::RBRACKET {
                    return_type_spec(ts, p2, vars, Ty::op("[]"@, Seq::empty()), d)
                } else {
                    match parse_type_spec(ts, retreat(p2), vars, d) {
                        Err(e) => Err(e),
                        Ok((p3, (v3, t))) => match require_spec(ts, p3, TokenEnum::RBRACKET) {
                            Err(e) => Err(e),
                            Ok(p4) => return_type_spec(ts, p4, v3, Ty::op("[]"@, seq![t]), d),
                        },
                    }
                }
            },
            TokenEnum::LPARENS => match parse_type_spec(ts, p, vars, d) {
                Err(e) => Err(e),
                Ok((p2, (v2, t))) => {
                    let p3 = advance(ts, p2);
                    match token_at(ts, p3).token {
                        TokenEnum::COMMA => match type_list_spec(ts, p3, v2, seq![t], 0, d) {
                            Err(e) => Err(e),
                            Ok((p4, (v4, args))) => match require_spec(
                                ts,
                                retreat(p4),
                                TokenEnum::RPARENS,
                            ) {
                                Err(e) => Err(e),
                                Ok(p5) => return_type_spec(
                                    ts,
                                    p5,
                                    v4,
                                    Ty::op(tuple_name_spec(args.len()), args),
                                    d,
                                ),
                            },
                        },
                        TokenEnum::RPARENS => return_type_spec(ts, p3, v2, t, d),
                        _ => Err(
                            failure(
                                ts,
                                p3,
                                ParseErrorKind::ExpectedEither(
                                    TokenEnum::COMMA,
                                    TokenEnum::RPARENS,
                                ),
                            ),
                        ),
                    }
                },
            },
            TokenEnum::NAME => match type_arguments_spec(ts, p, vars, Seq::empty(), 0, d) {
                Err(e) => Err(e),
                Ok((p2, (v2, args))) => {
                    let name = token_at(ts, p).value;
                    let (v3, this) = named_type_spec(v2, name, starts_uppercase(name), args);
                    return_type_spec(ts, p2, v3, this, d)
                },
            },
            _ => Err(failure(ts, p, ParseErrorKind::Type)),
        }
    }
}

/// What follows a type: an arrow and the result type of a function, or nothing.
pub open spec fn return_type_spec(
    ts: Seq<TokenModel>,
    pos: nat,
    vars: TypeVars,
    typ: Ty,
    depth: nat,
) -> Parsed<(TypeVars, Ty)>
    decreases depth, 1nat, 0nat,
{
    let p = advance(ts, pos);
    if token_at(ts, p).token == TokenEnum::ARROW {
        match parse_type_spec(ts, p, vars, depth) {
            Err(e) => Err(e),
            Ok((p2, (v, t))) => Ok((p2, (v, Ty::function(typ, t)))),
        }
    } else {
        Ok((retreat(p), (vars, typ)))
    }
}

/// Types parted by commas, behind those in `acc`. The token behind the
/// last type is read.
pub open spec fn type_list_spec(
    ts: Seq<TokenModel>,
    pos: nat,
    vars: TypeVars,
    acc: Seq<Ty>,
    i: nat,
    depth: nat,
) -> Parsed<(TypeVars, Seq<Ty>)>
    decreases depth, 1nat, bound(ts) - i,
{
    if i >= bound(ts) {
        Err(failure(ts, pos, ParseErrorKind::TooDeep))
    } else {
        match parse_type_spec(ts, pos, vars, depth) {
            Err(e) => Err(e),
            Ok((p, (v, t))) => {
                let p2 = advance(ts, p);
                if token_at(ts, p2).token == TokenEnum::COMMA {
                    type_list_spec(ts, p2, v, acc.push(t), i + 1, depth)
                } else {
                    Ok((p2, (v, acc.push(t))))
                }
            },
        }
    }
}

/// An argument of a type operator: a name, or a type in brackets or parentheses.
pub open spec fn sub_type_spec(ts: Seq<TokenModel>, pos: nat, vars: TypeVars, depth: nat) -> Parsed<
    (TypeVars, Option<Ty>),
>
    decreases depth, 0nat, 0nat,
{
    let p = advance(ts, pos);
    if depth == 0 {
        Err(failure(ts, p, ParseErrorKind::TooDeep))
    } else {
        match token_at(ts, p).token {
            TokenEnum::LBRACKET | TokenEnum::LPARENS => match parse_type_spec(
                ts,
                retreat(p),
                vars,
                (depth - 1) as nat,
            ) {
                Err(e) => Err(e),
                Ok((p2, (v, t))) => Ok((p2, (v, Some(t)))),
            },
            TokenEnum::NAME => {
                let name = token_at(ts, p).value;
                let (v, this) = named_type_spec(vars, name, starts_uppercase(name), Seq::empty());
                Ok((p, (v, Some(this))))
            },
            _ => Ok((retreat(p), (vars, None))),
        }
    }
}

/// The arguments of a type operator, behind those in `acc`.
pub open spec fn type_arguments_spec(
    ts: Seq<TokenModel>,
    pos: nat,
    vars: TypeVars,
    acc: Seq<Ty>,
    i: nat,
    depth: nat,
) -> Parsed<(TypeVars, Seq<Ty>)>
    decreases depth, 1nat, bound(ts) - i,
{
    if i >= bound(ts) {
        Err(failure(ts, pos, ParseErrorKind::TooDeep))
    } else {
        match sub_type_spec(ts, pos, vars, depth) {
            Err(e) => Err(e),
            Ok((p, (v, None))) => Ok((p, (v, acc))),
            Ok((p, (v, Some(t)))) => type_arguments_spec(ts, p, v, acc.push(t), i + 1, depth),
        }
    }
}

/// A type with its context, where it has one: `context => type`.
pub open spec fn constrained_type_spec(
    ts: Seq<TokenModel>,
    pos: nat,
    mapping: Seq<(Seq<char>, i64)>,
    depth: nat,
) -> Parsed<(Seq<(Seq<char>, i64)>, Seq<ConstraintModel>, Ty)>
    decreases depth, 1nat, 0nat,
{
    match parse_type_spec(ts, pos, TypeVars { next: 0, mapping }, depth) {
        Err(e) => Err(e),
        Ok((p, (v, first))) => {
            let p2 = advance(ts, p);
            if token_at(ts, p2).token == TokenEnum::OPERATOR && token_at(ts, p2).value == "=>"@ {
                match parse_type_spec(ts, p2, v, depth) {
                    Err(e) => Err(e),
                    Ok((p3, (v3, t))) => match create_type_constraints_spec(first) {
                        Some(context) => Ok((p3, (v3.mapping, context, t))),
                        None => Err(failure(ts, p3, ParseErrorKind::Constraint)),
                    },
                }
            } else {
                Ok((retreat(p2), (v.mapping, Seq::empty(), first)))
            }
        },
    }
}

/// The name on the left side of a binding or of a type declaration, whose
/// first token has been read: a name, or a name or an operator in parentheses.
pub open spec fn declared_name_spec(ts: Seq<TokenModel>, pos: nat) -> Parsed<Seq<char>> {
    match token_at(ts, pos).token {
        TokenEnum::LPARENS => {
            let p2 = advance(ts, pos);
            if token_at(ts, p2).token == TokenEnum::NAME || token_at(ts, p2).token
                == TokenEnum::OPERATOR {
                let p3 = advance(ts, p2);
                if token_at(ts, p3).token == TokenEnum::RPARENS {
                    Ok((p3, token_at(ts, p2).value))
                } else {
                    Err(failure(ts, p3, ParseErrorKind::Expected(TokenEnum::RPARENS)))
                }
            } else {
                Err(failure(ts, p2, ParseErrorKind::BindingName))
            }
        },
        TokenEnum::NAME => Ok((pos, token_at(ts, pos).value)),
        _ => Err(failure(ts, pos, ParseErrorKind::Expected(TokenEnum::NAME))),
    }
}

/// A type declaration: `name :: context => type`.
pub open spec fn type_declaration_spec(
    ts: Seq<TokenModel>,
    pos: nat,
    mapping: Seq<(Seq<char>, i64)>,
    depth: nat,
) -> Parsed<(Seq<(Seq<char>, i64)>, DeclarationModel)>
    decreases depth, 2nat, 0nat,
{
    match declared_name_spec(ts, advance(ts, pos)) {
        Err(e) => Err(e),
        Ok((p, name)) => match require_spec(ts, p, TokenEnum::TYPEDECL) {
            Err(e) => Err(e),
            Ok(p2) => match constrained_type_spec(ts, p2, mapping, depth) {
                Err(e) => Err(e),
                Ok((p3, (m, context, typ))) => Ok(
                    (p3, (m, DeclarationModel { context, typ, name })),
                ),
            },
        },
    }
}

/// Type declarations parted by semicolons, behind those in `acc`; they
/// share their type variables. The token behind the last one is read.
pub open spec fn declaration_list_spec(
    ts: Seq<TokenModel>,
    pos: nat,
    mapping: Seq<(Seq<char>, i64)>,
    acc: Seq<DeclarationModel>,
    i: nat,
    depth: nat,
) -> Parsed<Seq<DeclarationModel>>
    decreases depth, 3nat, bound(ts) - i,
{
    if i >= bound(ts) {
        Err(failure(ts, pos, ParseErrorKind::TooDeep))
    } else {
        match type_declaration_spec(ts, pos, mapping, depth) {
            Err(e) => Err(e),
            Ok((p, (m, d))) => {
                let p2 = advance(ts, p);
                if token_at(ts, p2).token == TokenEnum::SEMICOLON {
                    declaration_list_spec(ts, p2, m, acc.push(d), i + 1, depth)
                } else {
                    Ok((p2, acc.push(d)))
                }
            },
        }
    }
}

/// The number one larger, or the same where there is none.
pub open spec fn succ(n: i64) -> i64 {
    if n < i64::MAX {
        (n + 1) as i64
    } else {
        n
    }
}

/// The type of a constructor whose fields follow: a function from the
/// types of the fields to the type `data` of the data definition, and the
/// number of the fields added to `arity`. The token behind the last field is read.
pub open spec fn constructor_type_spec(
    ts: Seq<TokenModel>,
    pos: nat,
    data: Ty,
    mapping: Seq<(Seq<char>, i64)>,
    arity: i64,
    depth: nat,
) -> Parsed<(i64, Ty)>
    decreases depth, 0nat, 0nat,
{
    let p = advance(ts, pos);
    if depth == 0 {
        Err(failure(ts, p, ParseErrorKind::TooDeep))
    } else {
        let d = (depth - 1) as nat;
        match token_at(ts, p).token {
            TokenEnum::NAME => {
                let name = token_at(ts, p).value;
                match field_type_spec(mapping, name, starts_lowercase(name)) {
                    None => Err(failure(ts, p, ParseErrorKind::TypeParameter)),
                    Some(arg) => match constructor_type_spec(
                        ts,
                        p,
                        data,
                        mapping,
                        succ(arity),
                        d,
                    ) {
                        Err(e) => Err(e),
                        Ok((p2, (a, rest))) => Ok((p2, (a, Ty::function(arg, rest)))),
                    },
                }
            },
            TokenEnum::LPARENS => match parse_type_spec(
                ts,
                p,
                TypeVars { next: 100000, mapping },
                d,
            ) {
                Err(e) => Err(e),
                Ok((p2, (v, arg))) => match require_spec(ts, p2, TokenEnum::RPARENS) {
                    Err(e) => Err(e),
                    Ok(p3) => match constructor_type_spec(
                        ts,
                        p3,
                        data,
                        v.mapping,
                        succ(arity),
                        d,
                    ) {
                        Err(e) => Err(e),
                        Ok((p4, (a, rest))) => Ok((p4, (a, Ty::function(arg, rest)))),
                    },
                },
            },
            _ => Ok((p, (arity, data))),
        }
    }
}

/// A constructor: its name and its fields.
pub open spec fn constructor_spec(
    ts: Seq<TokenModel>,
    pos: nat,
    data: Ty,
    parameters: Seq<(Seq<char>, i64)>,
    depth: nat,
) -> Parsed<ConstructorModel>
    decreases depth, 1nat, 0nat,
{
    match require_spec(ts, pos, TokenEnum::NAME) {
        Err(e) => Err(e),
        Ok(p) => match constructor_type_spec(ts, p, data, parameters, 0, depth) {
            Err(e) => Err(e),
            Ok((p2, (arity, typ))) => Ok(
                (
                    retreat(p2),
                    ConstructorModel { name: token_at(ts, p).value, typ, tag: 0, arity },
                ),
            ),
        },
    }
}

/// Constructors parted by `|`, behind those in `acc`; each has its index
/// as its tag. The token behind the last one is read.
pub open spec fn constructor_list_spec(
    ts: Seq<TokenModel>,
    pos: nat,
    data: Ty,
    parameters: Seq<(Seq<char>, i64)>,
    acc: Seq<ConstructorModel>,
    i: nat,
    depth: nat,
) -> Parsed<Seq<ConstructorModel>>
    decreases depth, 2nat, bound(ts) - i,
{
    if i >= bound(ts) || acc.len() > i64::MAX {
        Err(failure(ts, pos, ParseErrorKind::TooDeep))
    } else {
        match constructor_spec(ts, pos, data, parameters, depth) {
            Err(e) => Err(e),
            Ok((p, c)) => {
                let p2 = advance(ts, p);
                let all = acc.push(ConstructorModel { tag: acc.len() as i64, ..c });
                if token_at(ts, p2).token == TokenEnum::OPERATOR && token_at(ts, p2).value == "|"@ {
                    constructor_list_spec(ts, p2, data, parameters, all, i + 1, depth)
                } else {
                    Ok((p2, all))
                }
            },
        }
    }
}

/// The parameters of a data definition: each name is a type variable with
/// the id -1. The token behind the last one is read.
pub open spec fn data_parameters_spec(
    ts: Seq<TokenModel>,
    pos: nat,
    args: Seq<Ty>,
    parameters: Seq<(Seq<char>, i64)>,
    i: nat,
) -> Parsed<(Seq<Ty>, Seq<(Seq<char>, i64)>)>
    decreases bound(ts) - i,
{
    let p = advance(ts, pos);
    if i >= bound(ts) {
        Err(failure(ts, p, ParseErrorKind::TooDeep))
    } else if token_at(ts, p).token == TokenEnum::NAME {
        data_parameters_spec(
            ts,
            p,
            args.push(Ty::var(-1)),
            insert(parameters, token_at(ts, p).value, -1i64),
            i + 1,
        )
    } else {
        Ok((p, (args, parameters)))
    }
}

/// A data definition: `data Name parameters = constructor | ...`.
#[verifier::opaque]
pub open spec fn data_definition_spec(ts: Seq<TokenModel>, pos: nat, depth: nat) -> Parsed<DataModel>
    decreases depth, 3nat, 0nat,
{
    match require_spec(ts, pos, TokenEnum::DATA) {
        Err(e) => Err(e),
        Ok(p) => match require_spec(ts, p, TokenEnum::NAME) {
            Err(e) => Err(e),
            Ok(p2) => match data_parameters_spec(ts, p2, Seq::empty(), Seq::empty(), 0) {
                Err(e) => Err(e),
                Ok((p3, (args, parameters))) => if token_at(ts, p3).token
                    != TokenEnum::EQUALSSIGN {
                    Err(failure(ts, p3, ParseErrorKind::Expected(TokenEnum::EQUALSSIGN)))
                } else {
                    let typ = Ty::op(token_at(ts, p2).value, args);
                    match constructor_list_spec(ts, p3, typ, parameters, Seq::empty(), 0, depth) {
                        Err(e) => Err(e),
                        Ok((p4, constructors)) => Ok(
                            (retreat(p4), DataModel { constructors, typ, parameters }),
                        ),
                    }
                },
            },
        },
    }
}

/// A pattern.
pub open spec fn pattern_spec(ts: Seq<TokenModel>, pos: nat, depth: nat) -> Parsed<PatternModel>
    decreases depth, 0nat, 0nat,
{
    let p = advance(ts, pos);
    if depth == 0 {
        Err(failure(ts, p, ParseErrorKind::TooDeep))
    } else {
        let d = (depth - 1) as nat;
        let name = token_at(ts, p).value;
        match token_at(ts, p).token {
            TokenEnum::LBRACKET => match require_spec(ts, p, TokenEnum::RBRACKET) {
                Err(e) => Err(e),
                Ok(p2) => Ok((p2, PatternModel::Constructor("[]"@, Seq::empty()))),
            },
            TokenEnum::NAME | TokenEnum::OPERATOR => match pattern_parameters_spec(
                ts,
                p,
                Seq::empty(),
                0,
                d,
            ) {
                Err(e) => Err(e),
                Ok((p2, patterns)) => match named_pattern_spec(
                    name,
                    starts_uppercase(name),
                    patterns,
                ) {
                    Some(pattern) => Ok((p2, pattern)),
                    None => Err(failure(ts, p2, ParseErrorKind::Pattern)),
                },
            },
            TokenEnum::NUMBER => match number_value(name) {
                Some(i) => Ok((p, PatternModel::Number(i as i64))),
                None => Err(failure(ts, p, ParseErrorKind::Number)),
            },
            TokenEnum::LPARENS => match pattern_list_spec(ts, p, Seq::empty(), 0, d) {
                Err(e) => Err(e),
                Ok((p2, args)) => if token_at(ts, p2).token == TokenEnum::RPARENS {
                    Ok((p2, PatternModel::Constructor(tuple_name_spec(args.len()), args)))
                } else {
                    Err(failure(ts, p2, ParseErrorKind::Expected(TokenEnum::RPARENS)))
                },
            },
            _ => Err(failure(ts, p, ParseErrorKind::Pattern)),
        }
    }
}

/// Patterns parted by commas, behind those in `acc`. The token behind the
/// last one is read.
pub open spec fn pattern_list_spec(
    ts: Seq<TokenModel>,
    pos: nat,
    acc: Seq<PatternModel>,
    i: nat,
    depth: nat,
) -> Parsed<Seq<PatternModel>>
    decreases depth, 1nat, bound(ts) - i,
{
    if i >= bound(ts) {
        Err(failure(ts, pos, ParseErrorKind::TooDeep))
    } else {
        match pattern_spec(ts, pos, depth) {
            Err(e) => Err(e),
            Ok((p, pat)) => {
                let p2 = advance(ts, p);
                if token_at(ts, p2).token == TokenEnum::COMMA {
                    pattern_list_spec(ts, p2, acc.push(pat), i + 1, depth)
                } else {
                    Ok((p2, acc.push(pat)))
                }
            },
        }
    }
}

/// The patterns that follow a constructor, behind those in `acc`: names,
/// numbers, tuples in parentheses and empty lists. A single pattern in
/// parentheses is read and left out.
pub open spec fn pattern_parameters_spec(
    ts: Seq<TokenModel>,
    pos: nat,
    acc: Seq<PatternModel>,
    i: nat,
    depth: nat,
) -> Parsed<Seq<PatternModel>>
    decreases depth, 2nat, bound(ts) - i,
{
    let p = advance(ts, pos);
    if i >= bound(ts) {
        Err(failure(ts, p, ParseErrorKind::TooDeep))
    } else {
        match token_at(ts, p).token {
            TokenEnum::NAME => pattern_parameters_spec(
                ts,
                p,
                acc.push(PatternModel::Identifier(token_at(ts, p).value)),
                i + 1,
                depth,
            ),
            TokenEnum::NUMBER => match number_value(token_at(ts, p).value) {
                Some(n) => pattern_parameters_spec(
                    ts,
                    p,
                    acc.push(PatternModel::Number(n as i64)),
                    i + 1,
                    depth,
                ),
                None => Err(failure(ts, p, ParseErrorKind::Number)),
            },
            TokenEnum::LPARENS => match pattern_spec(ts, p, depth) {
                Err(e) => Err(e),
                Ok((p2, first)) => {
                    let p3 = advance(ts, p2);
                    if token_at(ts, p3).token == TokenEnum::COMMA {
                        match pattern_list_spec(ts, p3, seq![first], 0, depth) {
                            Err(e) => Err(e),
                            Ok((p4, args)) => if token_at(ts, p4).token == TokenEnum::RPARENS {
                                pattern_parameters_spec(
                                    ts,
                                    p4,
                                    acc.push(
                                        PatternModel::Constructor(
                                            tuple_name_spec(args.len()),
                                            args,
                                        ),
                                    ),
                                    i + 1,
                                    depth,
                                )
                            } else {
                                Err(failure(ts, p4, ParseErrorKind::Expected(TokenEnum::RPARENS)))
                            },
                        }
                    } else {
                        pattern_parameters_spec(ts, p3, acc, i + 1, depth)
                    }
                },
            },
            TokenEnum::LBRACKET => match require_spec(ts, p, TokenEnum::RBRACKET) {
                Err(e) => Err(e),
                Ok(p2) => pattern_parameters_spec(
                    ts,
                    p2,
                    acc.push(PatternModel::Constructor("[]"@, Seq::empty())),
                    i + 1,
                    depth,
                ),
            },
            _ => Ok((retreat(p), acc)),
        }
    }
}

/// An expression, where one stands here.
pub open spec fn expression_spec(ts: Seq<TokenModel>, pos: nat, depth: nat) -> Parsed<
    Option<TypedExprModel>,
>
    decreases depth, 0nat, 0nat,
{
    if depth == 0 {
        Err(failure(ts, pos, ParseErrorKind::TooDeep))
    } else {
        match application_spec(ts, pos, (depth - 1) as nat) {
            Err(e) => Err(e),
            Ok((p, app)) => operator_expression_spec(ts, p, app, 0, (depth - 1) as nat),
        }
    }
}

/// An expression, which must stand here.
pub open spec fn required_expression_spec(ts: Seq<TokenModel>, pos: nat, depth: nat) -> Parsed<
    TypedExprModel,
>
    decreases depth, 1nat, 0nat,
{
    match expression_spec(ts, pos, depth) {
        Err(e) => Err(e),
        Ok((p, Some(e))) => Ok((p, e)),
        Ok((p, None)) => Err(failure(ts, p, ParseErrorKind::NoExpression)),
    }
}

/// Expressions parted by commas, behind those in `acc`. The token behind
/// the last one is read.
pub open spec fn expression_list_spec(
    ts: Seq<TokenModel>,
    pos: nat,
    acc: Seq<TypedExprModel>,
    i: nat,
    depth: nat,
) -> Parsed<Seq<TypedExprModel>>
    decreases depth, 2nat, bound(ts) - i,
{
    if i >= bound(ts) {
        Err(failure(ts, pos, ParseErrorKind::TooDeep))
    } else {
        match required_expression_spec(ts, pos, depth) {
            Err(e) => Err(e),
            Ok((p, e)) => {
                let p2 = advance(ts, p);
                if token_at(ts, p2).token == TokenEnum::COMMA {
                    expression_list_spec(ts, p2, acc.push(e), i + 1, depth)
                } else {
                    Ok((p2, acc.push(e)))
                }
            },
        }
    }
}

/// The elements of a list in brackets, behind those in `acc`.
pub open spec fn list_elements_spec(
    ts: Seq<TokenModel>,
    pos: nat,
    acc: Seq<TypedExprModel>,
    i: nat,
    depth: nat,
) -> Parsed<Seq<TypedExprModel>>
    decreases depth, 1nat, bound(ts) - i,
{
    if i >= bound(ts) {
        Err(failure(ts, pos, ParseErrorKind::TooDeep))
    } else {
        match expression_spec(ts, pos, depth) {
            Err(e) => Err(e),
            Ok((p, None)) => Ok((p, acc)),
            Ok((p, Some(e))) => {
                let p2 = advance(ts, p);
                if token_at(ts, p2).token == TokenEnum::COMMA {
                    list_elements_spec(ts, p2, acc.push(e), i + 1, depth)
                } else {
                    Ok((retreat(p2), acc.push(e)))
                }
            },
        }
    }
}

/// A list in brackets, whose opening bracket has been read: the elements
/// joined by `:` before `[]`.
pub open spec fn parse_list_spec(ts: Seq<TokenModel>, pos: nat, depth: nat) -> Parsed<TypedExprModel>
    decreases depth, 2nat, 0nat,
{
    match list_elements_spec(ts, pos, Seq::empty(), 0, depth) {
        Err(e) => Err(e),
        Ok((p, es)) => match require_spec(ts, p, TokenEnum::RBRACKET) {
            Err(e) => Err(e),
            Ok(p2) => Ok(
                (
                    p2,
                    if es.len() == 0 {
                        untyped(ExprModel::Identifier("[]"@), no_location())
                    } else {
                        make_list_spec(
                            es,
                            (es.len() - 1) as nat,
                            make_application_spec(
                                untyped(ExprModel::Identifier(":"@), no_location()),
                                seq![
                                    es.last(),
                                    untyped(ExprModel::Identifier("[]"@), no_location()),
                                ],
                                0,
                            ),
                        )
                    },
                ),
            ),
        },
    }
}

/// What stands in parentheses, whose opening one has been read: an
/// expression, or the tuple of several.
pub open spec fn parenthesized_spec(ts: Seq<TokenModel>, pos: nat, depth: nat) -> Parsed<
    Option<TypedExprModel>,
>
    decreases depth, 4nat, 0nat,
{
    match expression_list_spec(ts, pos, Seq::empty(), 0, depth) {
        Err(e) => Err(e),
        Ok((p2, es)) => if token_at(ts, p2).token != TokenEnum::RPARENS {
            Err(failure(ts, p2, ParseErrorKind::Expected(TokenEnum::RPARENS)))
        } else if es.len() == 1 {
            Ok((p2, Some(es[0])))
        } else {
            Ok((p2, Some(new_tuple_spec(es))))
        },
    }
}

/// A `let`, whose first token has been read: `let { bindings } in expression`.
pub open spec fn let_spec(ts: Seq<TokenModel>, pos: nat, depth: nat) -> Parsed<
    Option<TypedExprModel>,
>
    decreases depth, 4nat, 0nat,
{
    match require_spec(ts, pos, TokenEnum::LBRACE) {
        Err(e) => Err(e),
        Ok(p1) => match binding_list_spec(ts, p1, Seq::empty(), 0, depth) {
            Err(e) => Err(e),
            Ok((p2, binds)) => if token_at(ts, p2).token != TokenEnum::RBRACE {
                Err(failure(ts, p2, ParseErrorKind::Expected(TokenEnum::RBRACE)))
            } else {
                match require_spec(ts, p2, TokenEnum::IN) {
                    Err(e) => Err(e),
                    Ok(p3) => match expression_spec(ts, p3, depth) {
                        Err(e) => Err(e),
                        Ok((p4, None)) => Ok((p4, None)),
                        Ok((p4, Some(e))) => Ok(
                            (
                                p4,
                                Some(untyped(ExprModel::Let(binds, Box::new(e)), no_location())),
                            ),
                        ),
                    },
                }
            },
        },
    }
}

/// A `case`, whose first token has been read at `location`:
/// `case expression of { alternatives }`.
pub open spec fn case_spec(ts: Seq<TokenModel>, pos: nat, location: Location, depth: nat) -> Parsed<
    Option<TypedExprModel>,
>
    decreases depth, 4nat, 0nat,
{
    match expression_spec(ts, pos, depth) {
        Err(e) => Err(e),
        Ok((p1, scrutinee)) => match require_spec(ts, p1, TokenEnum::OF) {
            Err(e) => Err(e),
            Ok(p2) => match require_spec(ts, p2, TokenEnum::LBRACE) {
                Err(e) => Err(e),
                Ok(p3) => match alternative_list_spec(ts, p3, Seq::empty(), 0, depth) {
                    Err(e) => Err(e),
                    Ok((p4, alts)) => if token_at(ts, p4).token != TokenEnum::RBRACE {
                        Err(failure(ts, p4, ParseErrorKind::Expected(TokenEnum::RBRACE)))
                    } else {
                        match scrutinee {
                            Some(e) => Ok(
                                (p4, Some(untyped(ExprModel::Case(Box::new(e), alts), location))),
                            ),
                            None => Ok((p4, None)),
                        }
                    },
                },
            },
        },
    }
}

/// The expression that the token that was read last is by itself: a name
/// or a literal. Any other token is given back.
pub open spec fn atom_spec(ts: Seq<TokenModel>, pos: nat) -> Parsed<Option<TypedExprModel>> {
    let token = token_at(ts, pos);
    match token.token {
        TokenEnum::NAME => Ok(
            (pos, Some(untyped(ExprModel::Identifier(token.value), token.location))),
        ),
        TokenEnum::NUMBER => match number_value(token.value) {
            Some(n) => Ok((pos, Some(untyped(ExprModel::Number(n as i64), token.location)))),
            None => Err(failure(ts, pos, ParseErrorKind::Number)),
        },
        TokenEnum::FLOAT => Ok(
            (pos, Some(untyped(ExprModel::Rational(token.bits), token.location))),
        ),
        TokenEnum::STRING => Ok(
            (pos, Some(untyped(ExprModel::String(token.value), token.location))),
        ),
        TokenEnum::CHAR => if token.value.len() > 0 {
            Ok((pos, Some(untyped(ExprModel::Char(token.value[0]), token.location))))
        } else {
            Err(failure(ts, pos, ParseErrorKind::Character))
        },
        _ => Ok((retreat(pos), None)),
    }
}

/// An expression that is no application and holds no operator outside
/// parentheses; none where no such expression stands here.
pub open spec fn sub_expression_spec(ts: Seq<TokenModel>, pos: nat, depth: nat) -> Parsed<
    Option<TypedExprModel>,
>
    decreases depth, 0nat, 0nat,
{
    let p = advance(ts, pos);
    if depth == 0 {
        Err(failure(ts, p, ParseErrorKind::TooDeep))
    } else {
        let d = (depth - 1) as nat;
        match token_at(ts, p).token {
            TokenEnum::LPARENS => parenthesized_spec(ts, p, d),
            TokenEnum::LBRACKET => match parse_list_spec(ts, p, d) {
                Err(e) => Err(e),
                Ok((p2, e)) => Ok((p2, Some(e))),
            },
            TokenEnum::LET => let_spec(ts, p, d),
            TokenEnum::CASE => case_spec(ts, p, token_at(ts, p).location, d),
            _ => atom_spec(ts, p),
        }
    }
}

/// The arguments of an application, behind those in `acc`.
pub open spec fn arguments_spec(
    ts: Seq<TokenModel>,
    pos: nat,
    acc: Seq<TypedExprModel>,
    i: nat,
    depth: nat,
) -> Parsed<Seq<TypedExprModel>>
    decreases depth, 1nat, bound(ts) - i,
{
    if i >= bound(ts) {
        Err(failure(ts, pos, ParseErrorKind::TooDeep))
    } else {
        match sub_expression_spec(ts, pos, depth) {
            Err(e) => Err(e),
            Ok((p, None)) => Ok((p, acc)),
            Ok((p, Some(e))) => arguments_spec(ts, p, acc.push(e), i + 1, depth),
        }
    }
}

/// A function with the arguments that follow it; it stands at the place
/// of the function.
pub open spec fn application_spec(ts: Seq<TokenModel>, pos: nat, depth: nat) -> Parsed<
    Option<TypedExprModel>,
>
    decreases depth, 2nat, 0nat,
{
    match sub_expression_spec(ts, pos, depth) {
        Err(e) => Err(e),
        Ok((p, None)) => Ok((p, None)),
        Ok((p, Some(lhs))) => match arguments_spec(ts, p, Seq::empty(), 0, depth) {
            Err(e) => Err(e),
            Ok((p2, args)) => Ok(
                (
                    p2,
                    Some(
                        if args.len() > 0 {
                            TypedExprModel {
                                location: lhs.location,
                                ..make_application_spec(lhs, args, 0)
                            }
                        } else {
                            lhs
                        },
                    ),
                ),
            ),
        },
    }
}

/// The expression that the operator `op` makes of what stands on its two
/// sides. Without a left side `-` negates the right side, and any other
/// operator gives the function of `#` that applies it to `#` and the right
/// side. Without a right side the operator is applied to the left side.
/// None where nothing stands on either side.
pub open spec fn combine_spec(
    lhs: Option<TypedExprModel>,
    rhs: Option<TypedExprModel>,
    op: TokenModel,
) -> Option<TypedExprModel> {
    let name = untyped(ExprModel::Identifier(op.value), op.location);
    match (lhs, rhs) {
        (Some(l), Some(r)) => Some(make_application_spec(name, seq![l, r], 0)),
        (Some(l), None) => Some(
            untyped(ExprModel::Apply(Box::new(name), Box::new(l)), l.location),
        ),
        (None, Some(r)) => if op.value == "-"@ {
            Some(
                make_application_spec(
                    untyped(ExprModel::Identifier("negate"@), op.location),
                    seq![r],
                    0,
                ),
            )
        } else {
            Some(
                make_lambda_spec(
                    seq!["#"@],
                    TypedExprModel {
                        location: op.location,
                        ..make_application_spec(
                            name,
                            seq![untyped(ExprModel::Identifier("#"@), op.location), r],
                            0,
                        )
                    },
                    1,
                ),
            )
        },
        (None, None) => None,
    }
}

/// The operators that follow the expression `lhs` and bind at least as
/// strongly as `min`, with their right sides.
pub open spec fn operator_expression_spec(
    ts: Seq<TokenModel>,
    pos: nat,
    lhs: Option<TypedExprModel>,
    min: int,
    depth: nat,
) -> Parsed<Option<TypedExprModel>>
    decreases depth, 0nat, 0nat,
{
    let p = advance(ts, pos);
    if depth == 0 {
        Err(failure(ts, p, ParseErrorKind::TooDeep))
    } else {
        operator_loop_spec(ts, p, lhs, min, 0, (depth - 1) as nat)
    }
}

/// As `operator_expression_spec`, where the token that may be the next
/// operator has been read.
pub open spec fn operator_loop_spec(
    ts: Seq<TokenModel>,
    pos: nat,
    lhs: Option<TypedExprModel>,
    min: int,
    i: nat,
    depth: nat,
) -> Parsed<Option<TypedExprModel>>
    decreases depth, 3nat, bound(ts) - i,
{
    let op = token_at(ts, pos);
    if i >= bound(ts) {
        Err(failure(ts, pos, ParseErrorKind::TooDeep))
    } else if op.token == TokenEnum::OPERATOR && precedence_spec(op.value) >= min {
        match application_spec(ts, pos, depth) {
            Err(e) => Err(e),
            Ok((p1, rhs)) => match operator_rhs_spec(
                ts,
                advance(ts, p1),
                rhs,
                precedence_spec(op.value),
                0,
                depth,
            ) {
                Err(e) => Err(e),
                Ok((p3, rhs2)) => match combine_spec(lhs, rhs2, op) {
                    None => Ok((p3, None)),
                    Some(l) => operator_loop_spec(ts, p3, Some(l), min, i + 1, depth),
                },
            },
        }
    } else {
        Ok((retreat(pos), lhs))
    }
}

/// The right side `rhs` of an operator that binds with the strength
/// `strength`, with the operators that follow it and bind more strongly. An
/// operator of the same strength ends the right side, so operators of equal
/// strength associate to the left.
pub open spec fn operator_rhs_spec(
    ts: Seq<TokenModel>,
    pos: nat,
    rhs: Option<TypedExprModel>,
    strength: int,
    i: nat,
    depth: nat,
) -> Parsed<Option<TypedExprModel>>
    decreases depth, 1nat, bound(ts) - i,
{
    let next = token_at(ts, pos);
    if i >= bound(ts) || depth == 0 {
        Err(failure(ts, pos, ParseErrorKind::TooDeep))
    } else if next.token == TokenEnum::OPERATOR && precedence_spec(next.value) > strength {
        match operator_expression_spec(
            ts,
            retreat(pos),
            rhs,
            precedence_spec(next.value),
            (depth - 1) as nat,
        ) {
            Err(e) => Err(e),
            Ok((p, r)) => operator_rhs_spec(ts, advance(ts, p), r, strength, i + 1, depth),
        }
    } else {
        Ok((pos, rhs))
    }
}

/// The names of the parameters of a binding, behind those in `acc`. The
/// token behind the last one is read.
pub open spec fn binding_arguments_spec(
    ts: Seq<TokenModel>,
    pos: nat,
    acc: Seq<Seq<char>>,
    i: nat,
) -> Parsed<Seq<Seq<char>>>
    decreases bound(ts) - i,
{
    let p = advance(ts, pos);
    if i >= bound(ts) {
        Err(failure(ts, p, ParseErrorKind::TooDeep))
    } else if token_at(ts, p).token == TokenEnum::NAME {
        binding_arguments_spec(ts, p, acc.push(token_at(ts, p).value), i + 1)
    } else {
        Ok((p, acc))
    }
}

/// The declaration of a binding of which none has been read.
pub open spec fn no_declaration() -> DeclarationModel {
    DeclarationModel { context: Seq::empty(), typ: Ty::var(-1), name: Seq::empty() }
}

/// A binding: `name parameters = expression`.
pub open spec fn binding_spec(ts: Seq<TokenModel>, pos: nat, depth: nat) -> Parsed<BindingModel>
    decreases depth, 2nat, 0nat,
{
    match declared_name_spec(ts, advance(ts, pos)) {
        Err(e) => Err(e),
        Ok((p, name)) => match binding_arguments_spec(ts, p, Seq::empty(), 0) {
            Err(e) => Err(e),
            Ok((p2, args)) => if token_at(ts, p2).token != TokenEnum::EQUALSSIGN {
                Err(failure(ts, p2, ParseErrorKind::Expected(TokenEnum::EQUALSSIGN)))
            } else if args.len() > usize::MAX {
                Err(failure(ts, p2, ParseErrorKind::TooDeep))
            } else {
                match required_expression_spec(ts, p2, depth) {
                    Err(e) => Err(e),
                    Ok((p3, body)) => Ok(
                        (
                            p3,
                            BindingModel {
                                name,
                                expression: make_lambda_spec(args, body, args.len()),
                                decl: no_declaration(),
                                arity: args.len() as usize,
                            },
                        ),
                    ),
                }
            },
        },
    }
}

/// Bindings parted by semicolons, behind those in `acc`. The token behind
/// the last one is read.
pub open spec fn binding_list_spec(
    ts: Seq<TokenModel>,
    pos: nat,
    acc: Seq<BindingModel>,
    i: nat,
    depth: nat,
) -> Parsed<Seq<BindingModel>>
    decreases depth, 3nat, bound(ts) - i,
{
    if i >= bound(ts) {
        Err(failure(ts, pos, ParseErrorKind::TooDeep))
    } else {
        match binding_spec(ts, pos, depth) {
            Err(e) => Err(e),
            Ok((p, b)) => {
                let p2 = advance(ts, p);
                if token_at(ts, p2).token == TokenEnum::SEMICOLON {
                    binding_list_spec(ts, p2, acc.push(b), i + 1, depth)
                } else {
                    Ok((p2, acc.push(b)))
                }
            },
        }
    }
}

/// An alternative of a `case`: `pattern -> expression`, with the place of
/// the first token of the pattern.
pub open spec fn alternative_spec(ts: Seq<TokenModel>, pos: nat, depth: nat) -> Parsed<
    AlternativeModel,
>
    decreases depth, 2nat, 0nat,
{
    let first = advance(ts, pos);
    match pattern_spec(ts, retreat(first), depth) {
        Err(e) => Err(e),
        Ok((p, pattern)) => match require_spec(ts, p, TokenEnum::ARROW) {
            Err(e) => Err(e),
            Ok(p2) => match required_expression_spec(ts, p2, depth) {
                Err(e) => Err(e),
                Ok((p3, expression)) => Ok(
                    (
                        p3,
                        AlternativeModel {
                            location: token_at(ts, first).location,
                            pattern,
                            expression,
                        },
                    ),
                ),
            },
        },
    }
}

/// Alternatives parted by semicolons, behind those in `acc`. The token
/// behind the last one is read.
pub open spec fn alternative_list_spec(
    ts: Seq<TokenModel>,
    pos: nat,
    acc: Seq<AlternativeModel>,
    i: nat,
    depth: nat,
) -> Parsed<Seq<AlternativeModel>>
    decreases depth, 3nat, bound(ts) - i,
{
    if i >= bound(ts) {
        Err(failure(ts, pos, ParseErrorKind::TooDeep))
    } else {
        match alternative_spec(ts, pos, depth) {
            Err(e) => Err(e),
            Ok((p, a)) => {
                let p2 = advance(ts, p);
                if token_at(ts, p2).token == TokenEnum::SEMICOLON {
                    alternative_list_spec(ts, p2, acc.push(a), i + 1, depth)
                } else {
                    Ok((p2, acc.push(a)))
                }
            },
        }
    }
}

/// A class: `class Name variable where { declarations }`. Its variable has
/// the id 1000000.
#[verifier::opaque]
pub open spec fn class_spec(ts: Seq<TokenModel>, pos: nat, depth: nat) -> Parsed<ClassModel>
    decreases depth, 4nat, 0nat,
{
    match require_spec(ts, pos, TokenEnum::CLASS) {
        Err(e) => Err(e),
        Ok(p1) => match require_spec(ts, p1, TokenEnum::NAME) {
            Err(e) => Err(e),
            Ok(p2) => match require_spec(ts, p2, TokenEnum::NAME) {
                Err(e) => Err(e),
                Ok(p3) => match require_spec(ts, p3, TokenEnum::WHERE) {
                    Err(e) => Err(e),
                    Ok(p4) => match require_spec(ts, p4, TokenEnum::LBRACE) {
                        Err(e) => Err(e),
                        Ok(p5) => match declaration_list_spec(
                            ts,
                            p5,
                            seq![(token_at(ts, p3).value, 1000000i64)],
                            Seq::empty(),
                            0,
                            depth,
                        ) {
                            Err(e) => Err(e),
                            Ok((p6, declarations)) => match require_spec(
                                ts,
                                retreat(p6),
                                TokenEnum::RBRACE,
                            ) {
                                Err(e) => Err(e),
                                Ok(p7) => Ok(
                                    (
                                        p7,
                                        ClassModel {
                                            name: token_at(ts, p2).value,
                                            variable: 1000000,
                                            declarations,
                                        },
                                    ),
                                ),
                            },
                        },
                    },
                },
            },
        },
    }
}

/// The bindings with their names as those of an instance at the type `instance`.
pub open spec fn encode_bindings(bindings: Seq<BindingModel>, instance: Seq<char>) -> Seq<
    BindingModel,
> {
    Seq::new(
        bindings.len(),
        |i: int| BindingModel { name: encode_spec(instance, bindings[i].name), ..bindings[i] },
    )
}

/// An instance: `instance context => Class type where { bindings }`.
#[verifier::opaque]
pub open spec fn instance_spec(ts: Seq<TokenModel>, pos: nat, depth: nat) -> Parsed<InstanceModel>
    decreases depth, 4nat, 0nat,
{
    match require_spec(ts, pos, TokenEnum::INSTANCE) {
        Err(e) => Err(e),
        Ok(p1) => match constrained_type_spec(ts, p1, Seq::empty(), depth) {
            Err(e) => Err(e),
            Ok((p2, (_, constraints, head))) => if !(head.head is Op && head.args.len() > 0
                && head.args[0].head is Op) {
                Err(failure(ts, p2, ParseErrorKind::InstanceHead))
            } else {
                match require_spec(ts, p2, TokenEnum::WHERE) {
                    Err(e) => Err(e),
                    Ok(p3) => match require_spec(ts, p3, TokenEnum::LBRACE) {
                        Err(e) => Err(e),
                        Ok(p4) => match binding_list_spec(ts, p4, Seq::empty(), 0, depth) {
                            Err(e) => Err(e),
                            Ok((p5, bindings)) => match require_spec(
                                ts,
                                retreat(p5),
                                TokenEnum::RBRACE,
                            ) {
                                Err(e) => Err(e),
                                Ok(p6) => Ok(
                                    (
                                        p6,
                                        InstanceModel {
                                            bindings: encode_bindings(
                                                bindings,
                                                head.args[0].op_name(),
                                            ),
                                            constraints,
                                            typ: head.args[0],
                                            classname: head.op_name(),
                                        },
                                    ),
                                ),
                            },
                        },
                    },
                }
            },
        },
    }
}

/// Whether a token of the kind `TYPEDECL` stands before the first token of
/// the kind `EQUALSSIGN` from the position `pos` on.
pub open spec fn declares_type(ts: Seq<TokenModel>, pos: nat) -> bool
    decreases ts.len() + 1 - pos,
{
    if pos > ts.len() {
        false
    } else if token_at(ts, pos).token == TokenEnum::TYPEDECL {
        true
    } else if token_at(ts, pos).token == TokenEnum::EQUALSSIGN {
        false
    } else {
        declares_type(ts, pos + 1)
    }
}

/// The type declaration or the binding that begins behind the position
/// `pos`, added to the module `m`.
#[verifier::opaque]
pub open spec fn named_item_spec(ts: Seq<TokenModel>, pos: nat, m: ModuleModel, depth: nat) -> Parsed<
    ModuleModel,
>
    decreases depth, 4nat, 0nat,
{
    if declares_type(ts, advance(ts, pos) + 1) {
        match type_declaration_spec(ts, pos, Seq::empty(), depth) {
            Err(e) => Err(e),
            Ok((p2, (_, d))) => Ok((p2, ModuleModel { declarations: m.declarations.push(d), ..m })),
        }
    } else {
        match binding_spec(ts, pos, depth) {
            Err(e) => Err(e),
            Ok((p2, b)) => Ok((p2, ModuleModel { bindings: m.bindings.push(b), ..m })),
        }
    }
}

/// The item of a module that begins behind the position `pos`, added to
/// the module `m`, and whether there is one; where there is none, the token
/// behind `pos` is read.
pub open spec fn module_item_spec(ts: Seq<TokenModel>, pos: nat, m: ModuleModel, depth: nat) -> Parsed<
    (ModuleModel, bool),
>
    decreases depth, 5nat, 0nat,
{
    let p = advance(ts, pos);
    match token_at(ts, p).token {
        TokenEnum::NAME | TokenEnum::LPARENS => match named_item_spec(ts, pos, m, depth) {
            Err(e) => Err(e),
            Ok((p2, m2)) => Ok((p2, (m2, true))),
        },
        TokenEnum::CLASS => match class_spec(ts, pos, depth) {
            Err(e) => Err(e),
            Ok((p2, c)) => Ok((p2, (ModuleModel { classes: m.classes.push(c), ..m }, true))),
        },
        TokenEnum::INSTANCE => match instance_spec(ts, pos, depth) {
            Err(e) => Err(e),
            Ok((p2, x)) => Ok((p2, (ModuleModel { instances: m.instances.push(x), ..m }, true))),
        },
        TokenEnum::DATA => match data_definition_spec(ts, pos, depth) {
            Err(e) => Err(e),
            Ok((p2, d)) => Ok((p2, (ModuleModel { data: m.data.push(d), ..m }, true))),
        },
        _ => Ok((p, (m, false))),
    }
}

/// The items of a module from the position `pos` on, behind those in `m`.
/// The token behind the last item is read.
pub open spec fn module_items_spec(
    ts: Seq<TokenModel>,
    pos: nat,
    m: ModuleModel,
    i: nat,
    depth: nat,
) -> Parsed<ModuleModel>
    decreases depth, 6nat, bound(ts) - i,
{
    if i >= bound(ts) {
        Err(failure(ts, advance(ts, pos), ParseErrorKind::TooDeep))
    } else {
        match module_item_spec(ts, pos, m, depth) {
            Err(e) => Err(e),
            Ok((p, (m2, false))) => Ok((p, m2)),
            Ok((p2, (m2, true))) => {
                let p3 = advance(ts, p2);
                if token_at(ts, p3).token == TokenEnum::SEMICOLON {
                    module_items_spec(ts, p3, m2, i + 1, depth)
                } else {
                    Ok((p3, m2))
                }
            },
        }
    }
}

/// The declaration that the bindings of the name of `d` get: each binding
/// of that name gets `d`.
pub open spec fn attach_declaration(bindings: Seq<BindingModel>, d: DeclarationModel) -> Seq<
    BindingModel,
> {
    Seq::new(
        bindings.len(),
        |i: int|
            if bindings[i].name == d.name {
                BindingModel { decl: d, ..bindings[i] }
            } else {
                bindings[i]
            },
    )
}

/// The bindings after each of the declarations from the index `i` on has
/// been attached to the bindings of its name.
pub open spec fn attach_declarations(
    bindings: Seq<BindingModel>,
    declarations: Seq<DeclarationModel>,
    i: nat,
) -> Seq<BindingModel>
    decreases declarations.len() - i,
{
    if i >= declarations.len() {
        bindings
    } else {
        attach_declarations(
            attach_declaration(bindings, declarations[i as int]),
            declarations,
            i + 1,
        )
    }
}

/// A module: `module Name where { items }`, or only `{ items }`, which is
/// the module `Main`; nothing may follow it.
pub open spec fn module_spec(ts: Seq<TokenModel>, pos: nat, depth: nat) -> Parsed<ModuleModel>
    decreases depth, 7nat, 0nat,
{
    let p = advance(ts, pos);
    let header: Parsed<Seq<char>> = match token_at(ts, p).token {
        TokenEnum::MODULE => match require_spec(ts, p, TokenEnum::NAME) {
            Err(e) => Err(e),
            Ok(p1) => match require_spec(ts, p1, TokenEnum::WHERE) {
                Err(e) => Err(e),
                Ok(p2) => match require_spec(ts, p2, TokenEnum::LBRACE) {
                    Err(e) => Err(e),
                    Ok(p3) => Ok((p3, token_at(ts, p1).value)),
                },
            },
        },
        TokenEnum::LBRACE => Ok((p, "Main"@)),
        _ => Err(failure(ts, p, ParseErrorKind::Expected(TokenEnum::LBRACE))),
    };
    match header {
        Err(e) => Err(e),
        Ok((p1, name)) => match module_items_spec(
            ts,
            p1,
            ModuleModel {
                name,
                bindings: Seq::empty(),
                declarations: Seq::empty(),
                classes: Seq::empty(),
                instances: Seq::empty(),
                data: Seq::empty(),
            },
            0,
            depth,
        ) {
            Err(e) => Err(e),
            Ok((p2, m)) => if token_at(ts, p2).token != TokenEnum::RBRACE {
                Err(failure(ts, p2, ParseErrorKind::Expected(TokenEnum::RBRACE)))
            } else {
                let p3 = advance(ts, p2);
                if token_at(ts, p3).token != TokenEnum::EOF {
                    Err(failure(ts, p3, ParseErrorKind::TrailingToken))
                } else {
                    Ok(
                        (
                            p3,
                            ModuleModel {
                                bindings: attach_declarations(m.bindings, m.declarations, 0),
                                ..m
                            },
                        ),
                    )
                }
            },
        },
    }
}

/// The parser: a cursor in the tokens of a text.
#[derive(Debug)]
pub struct Parser {
    pub lexer: Lexer,
}

/// `res`, with the position `pos` behind what was read and the value
/// `value` of the result, is what the model `spec` of the rule says.
pub open spec fn yields<V, T>(spec: Parsed<V>, pos: nat, value: V, res: Result<T, ParseError>) -> bool {
    match spec {
        Ok((p, v)) => res is Ok && pos == p && value == v,
        Err(e) => res is Err && res->Err_0@ == e,
    }
}

/// Model of the ids of named type variables.
pub open spec fn ids_model(t: Seq<(String, i64)>) -> Seq<(Seq<char>, i64)> {
    Seq::new(t.len(), |i: int| (t[i].0@, t[i].1))
}

/// The type variables of a type that is being read.
pub struct TypeVariables {
    pub next: i64,
    pub mapping: Vec<(String, i64)>,
}

impl View for TypeVariables {
    type V = TypeVars;

    open spec fn view(&self) -> TypeVars {
        TypeVars { next: self.next, mapping: ids_model(self.mapping@) }
    }
}

fn lookup_id(table: &Vec<(String, i64)>, name: &String) -> (res: Option<i64>)
    ensures
        res == lookup(ids_model(table@), name@),
{
    match crate::tables::find_name(table, name) {
        Some(i) => {
            proof {
                assert(ids_model(table@)[i as int].0 == name@);
                crate::tables::lemma_position_found(ids_model(table@), name@, i as int);
            }
            Some(table[i].1)
        },
        None => {
            proof {
                crate::tables::lemma_position_absent(ids_model(table@), name@);
            }
            None
        },
    }
}

fn insert_id(table: &mut Vec<(String, i64)>, name: String, id: i64)
    ensures
        ids_model(final(table)@) == insert(ids_model(old(table)@), name@, id),
{
    match crate::tables::find_name(table, &name) {
        Some(i) => {
            proof {
                assert(ids_model(table@)[i as int].0 == name@);
                crate::tables::lemma_position_found(ids_model(table@), name@, i as int);
            }
            table[i] = (name, id);
            proof {
                assert(ids_model(table@) =~= insert(ids_model(old(table)@), name@, id));
            }
        },
        None => {
            proof {
                crate::tables::lemma_position_absent(ids_model(table@), name@);
            }
            table.push((name, id));
            proof {
                assert(ids_model(table@) =~= insert(ids_model(old(table)@), name@, id));
            }
        },
    }
}

fn copy_ids(table: &Vec<(String, i64)>) -> (res: Vec<(String, i64)>)
    ensures
        ids_model(res@) == ids_model(table@),
{
    let mut out: Vec<(String, i64)> = Vec::new();
    let mut i: usize = 0;
    while i < table.len()
        invariant
            i <= table.len(),
            out@.len() == i,
            forall|j: int|
                0 <= j < i ==> (#[trigger] out@[j]).0@ == table@[j].0@ && out@[j].1 == table@[j].1,
        decreases table.len() - i,
    {
        out.push((table[i].0.clone(), table[i].1));
        i += 1;
    }
    proof {
        assert(ids_model(out@) =~= ids_model(table@));
    }
    out
}

impl TypeVariables {
    fn variable(&mut self, name: &String) -> (res: i64)
        ensures
            (final(self)@, res) == old(self)@.variable(name@),
    {
        let id = match lookup_id(&self.mapping, name) {
            Some(id) => id,
            None => {
                insert_id(&mut self.mapping, name.clone(), self.next);
                self.next
            },
        };
        if self.next < i64::MAX {
            self.next = self.next + 1;
        }
        id
    }
}

/// How strongly an operator binds.
pub fn precedence(s: &String) -> (res: i64)
    ensures
        res as int == precedence_spec(s@),
{
    if crate::substitution::is_name(s, "+") || crate::substitution::is_name(s, "-")
        || crate::substitution::is_name(s, "==") || crate::substitution::is_name(s, "/=")
        || crate::substitution::is_name(s, "<") || crate::substitution::is_name(s, ">")
        || crate::substitution::is_name(s, "<=") || crate::substitution::is_name(s, ">=") {
        1
    } else if crate::substitution::is_name(s, "*") || crate::substitution::is_name(s, "/")
        || crate::substitution::is_name(s, "%") {
        3
    } else {
        9
    }
}

fn begins_uppercase(s: &String) -> (res: bool)
    ensures
        res == starts_uppercase(s@),
{
    if s.as_str().unicode_len() > 0 {
        is_uppercase(s.as_str().get_char(0))
    } else {
        false
    }
}

fn begins_lowercase(s: &String) -> (res: bool)
    ensures
        res == starts_lowercase(s@),
{
    if s.as_str().unicode_len() > 0 {
        is_lowercase(s.as_str().get_char(0))
    } else {
        false
    }
}

/// The number that a text of decimal digits denotes.
pub fn parse_number(s: &String) -> (res: Option<i64>)
    ensures
        match number_value(s@) {
            Some(v) => res == Some(v as i64) && 0 <= v <= i64::MAX,
            None => res is None,
        },
{
    let n = s.as_str().unicode_len();
    if n == 0 {
        return None;
    }
    let mut value: i64 = 0;
    let mut i: usize = 0;
    while i < n
        invariant
            i <= n,
            n == s@.len(),
            0 <= value,
            digits_value(s@, i as nat) == Some(value as int),
        decreases n - i,
    {
        let c = s.as_str().get_char(i);
        if !('0' <= c && c <= '9') {
            proof {
                lemma_digits_fail(s@, (i + 1) as nat, n as nat);
            }
            return None;
        }
        let d = (c as u32 - '0' as u32) as i64;
        if value > (i64::MAX - d) / 10 {
            proof {
                assert(value * 10 + d > i64::MAX);
                lemma_digits_fail(s@, (i + 1) as nat, n as nat);
            }
            return None;
        }
        value = value * 10 + d;
        i += 1;
    }
    Some(value)
}

/// Where the digits up to `k` denote no number, those up to `n` denote none.
proof fn lemma_digits_fail(s: Seq<char>, k: nat, n: nat)
    requires
        k <= n,
        digits_value(s, k) is None,
    ensures
        digits_value(s, n) is None,
    decreases n - k,
{
    if k < n {
        lemma_digits_fail(s, k, (n - 1) as nat);
    }
}

/// An expression whose type is not known yet, at `location`.
fn located(expr: Expr, location: Location) -> (res: TypedExpr)
    ensures
        res@ == untyped(crate::module::expr_model(expr), location),
{
    TypedExpr::with_location(expr, location)
}

fn named(name: &str, location: Location) -> (res: TypedExpr)
    ensures
        res@ == untyped(ExprModel::Identifier(name@), location),
{
    located(Expr::Identifier(String::from_str(name)), location)
}

/// The expressions in the opposite order.
fn reversed(v: Vec<TypedExpr>) -> (res: Vec<TypedExpr>)
    ensures
        res@.len() == v@.len(),
        forall|k: int| 0 <= k < res@.len() ==> (#[trigger] res@[k])@ == seq_view(v@)[v@.len() - 1 - k],
{
    let mut v = v;
    let ghost all = seq_view(v@);
    let mut out: Vec<TypedExpr> = Vec::new();
    while v.len() > 0
        invariant
            v@.len() + out@.len() == all.len(),
            forall|k: int| 0 <= k < v@.len() ==> (#[trigger] v@[k])@ == all[k],
            forall|k: int| 0 <= k < out@.len() ==> (#[trigger] out@[k])@ == all[all.len() - 1 - k],
        decreases v@.len(),
    {
        let e = v.pop().unwrap();
        out.push(e);
    }
    out
}

/// Applies the function `f` to the arguments `args`, one after the other.
pub fn make_application(f: TypedExpr, args: Vec<TypedExpr>) -> (res: TypedExpr)
    ensures
        res@ == make_application_spec(f@, seq_view(args@), 0),
{
    let mut func = f;
    let ghost all = seq_view(args@);
    let mut rest = reversed(args);
    let mut i: usize = 0;
    let n = rest.len();
    while rest.len() > 0
        invariant
            n == all.len(),
            i + rest@.len() == n,
            forall|k: int| 0 <= k < rest@.len() ==> (#[trigger] rest@[k])@ == all[n - 1 - k],
            make_application_spec(f@, all, 0) == make_application_spec(func@, all, i as nat),
        decreases rest@.len(),
    {
        let ghost m = rest@.len();
        let a = rest.pop().unwrap();
        proof {
            assert(a@ == all[i as int]);
        }
        let location = func.location;
        func = located(Expr::Apply(Box::new(func), Box::new(a)), location);
        i += 1;
    }
    func
}

/// The function of the parameters `args` with the body `body`.
pub fn make_lambda(args: Vec<String>, body: TypedExpr) -> (res: TypedExpr)
    ensures
        res@ == make_lambda_spec(seq_view(args@), body@, args@.len()),
{
    let mut args = args;
    let mut body = body;
    let ghost all = seq_view(args@);
    let ghost first = body@;
    while args.len() > 0
        invariant
            args@.len() <= all.len(),
            forall|k: int| 0 <= k < args@.len() ==> (#[trigger] args@[k])@ == all[k],
            make_lambda_spec(all, first, all.len()) == make_lambda_spec(all, body@, args@.len()),
        decreases args@.len(),
    {
        let ghost n = args@.len();
        let arg = args.pop().unwrap();
        proof {
            assert(arg@ == all[n - 1]);
        }
        let location = body.location;
        body = located(Expr::Lambda(arg, Box::new(body)), location);
    }
    body
}

/// Creates a tuple with the constructor name inferred from the number of arguments passed in.
pub fn new_tuple(arguments: Vec<TypedExpr>) -> (res: TypedExpr)
    ensures
        res@ == new_tuple_spec(seq_view(arguments@)),
{
    let name = located(Expr::Identifier(tuple_name(arguments.len())), Location::eof());
    make_application(name, arguments)
}

fn pair(a: TypedExpr, b: TypedExpr) -> (res: Vec<TypedExpr>)
    ensures
        seq_view(res@) == seq![a@, b@],
{
    let mut v: Vec<TypedExpr> = Vec::new();
    v.push(a);
    v.push(b);
    proof {
        assert(seq_view(v@) =~= seq![a@, b@]);
    }
    v
}

/// The list of the expressions: they are joined by `:` before `[]`.
fn make_list(expressions: Vec<TypedExpr>) -> (res: TypedExpr)
    requires
        expressions@.len() > 0,
    ensures
        res@ == make_list_spec(
            seq_view(expressions@),
            (expressions@.len() - 1) as nat,
            make_application_spec(
                untyped(ExprModel::Identifier(":"@), no_location()),
                seq![
                    seq_view(expressions@).last(),
                    untyped(ExprModel::Identifier("[]"@), no_location()),
                ],
                0,
            ),
        ),
{
    let mut expressions = expressions;
    let ghost all = seq_view(expressions@);
    let last = expressions.pop().unwrap();
    proof {
        assert(last@ == all.last());
    }
    let mut application = make_application(
        named(":", Location::eof()),
        pair(last, named("[]", Location::eof())),
    );
    let ghost start = application@;
    while expressions.len() > 0
        invariant
            expressions@.len() < all.len(),
            forall|k: int| 0 <= k < expressions@.len() ==> (#[trigger] expressions@[k])@ == all[k],
            make_list_spec(all, (all.len() - 1) as nat, start) == make_list_spec(
                all,
                expressions@.len(),
                application@,
            ),
        decreases expressions@.len(),
    {
        let ghost n = expressions@.len();
        let e = expressions.pop().unwrap();
        proof {
            assert(e@ == all[n - 1]);
        }
        application = make_application(named(":", Location::eof()), pair(e, application));
    }
    application
}

/// The name of the binding `bindingname` of an instance at the type `instancename`.
pub fn encode_binding_identifier(instancename: &String, bindingname: &String) -> (res: String)
    ensures
        res@ == encode_spec(instancename@, bindingname@),
{
    String::from_str("#").concat(instancename.as_str()).concat(bindingname.as_str())
}

fn constraint(t: &Type) -> (res: Option<Constraint>)
    ensures
        match constraint_of(t@) {
            Some(c) => res is Some && res->Some_0@ == c,
            None => res is None,
        },
{
    proof {
        lemma_type_view(*t);
    }
    match &t.typ {
        TypeHead::TypeOperator(op) => {
            if t.types.len() > 0 {
                proof {
                    lemma_type_view(t.types@[0]);
                    assert(t@.args[0] == t.types@[0]@);
                }
                match &t.types[0].typ {
                    TypeHead::TypeVariable(v) => {
                        let mut variables: Vec<TypeVariable> = Vec::new();
                        variables.push(TypeVariable { id: v.id });
                        let c = Constraint { class: op.name.clone(), variables };
                        proof {
                            assert(c@.variables =~= seq![v.id as int]);
                        }
                        Some(c)
                    },
                    TypeHead::TypeOperator(_) => None,
                }
            } else {
                None
            }
        },
        TypeHead::TypeVariable(_) => None,
    }
}

fn constraints(types: &Vec<Type>, i: usize) -> (res: Option<Vec<Constraint>>)
    ensures
        match constraints_from(seq_view(types@), i as nat) {
            Some(c) => res is Some && seq_view(res->Some_0@) == c,
            None => res is None,
        },
    decreases types@.len() - i,
{
    if i >= types.len() {
        let out: Vec<Constraint> = Vec::new();
        proof {
            assert(seq_view(out@) =~= Seq::<ConstraintModel>::empty());
        }
        return Some(out);
    }
    proof {
        assert(seq_view(types@)[i as int] == types@[i as int]@);
    }
    match (constraint(&types[i]), constraints(types, i + 1)) {
        (Some(c), Some(rest)) => {
            let mut out: Vec<Constraint> = Vec::new();
            out.push(c);
            let mut rest = rest;
            let ghost tail = seq_view(rest@);
            out.append(&mut rest);
            proof {
                assert(seq_view(out@) =~= seq![c@] + tail);
            }
            Some(out)
        },
        _ => None,
    }
}

/// The constraints that a context states.
pub fn create_type_constraints(context: &Type) -> (res: Option<Vec<Constraint>>)
    ensures
        match create_type_constraints_spec(context@) {
            Some(c) => res is Some && seq_view(res->Some_0@) == c,
            None => res is None,
        },
{
    proof {
        lemma_type_view(*context);
    }
    match &context.typ {
        TypeHead::TypeOperator(op) => {
            let tuple = if op.name.as_str().unicode_len() > 0 {
                op.name.as_str().get_char(0) == '('
            } else {
                false
            };
            if tuple {
                constraints(&context.types, 0)
            } else {
                match constraint(context) {
                    Some(c) => {
                        let mut out: Vec<Constraint> = Vec::new();
                        out.push(c);
                        proof {
                            assert(seq_view(out@) =~= seq![c@]);
                        }
                        Some(out)
                    },
                    None => None,
                }
            }
        },
        TypeHead::TypeVariable(_) => None,
    }
}

fn type_vector(t: Type) -> (res: Vec<Type>)
    ensures
        seq_view(res@) == seq![t@],
{
    let mut v: Vec<Type> = Vec::new();
    v.push(t);
    proof {
        assert(seq_view(v@) =~= seq![t@]);
    }
    v
}

fn no_types() -> (res: Vec<Type>)
    ensures
        seq_view(res@) == Seq::<Ty>::empty(),
{
    let v: Vec<Type> = Vec::new();
    proof {
        assert(seq_view(v@) =~= Seq::<Ty>::empty());
    }
    v
}

impl Parser {
    /// A parser before the first of `tokens`.
    pub fn new(tokens: Vec<Token>) -> (res: Parser)
        ensures
            res.lexer.tokens == tokens,
            res.lexer.position == 0,
    {
        Parser { lexer: Lexer::new(tokens) }
    }

    /// The tokens as the contracts speak of them.
    pub open spec fn tokens(&self) -> Seq<TokenModel> {
        self.lexer.model()
    }

    /// The number of tokens that have been read.
    pub open spec fn position(&self) -> nat {
        self.lexer.position as nat
    }

    fn fail(&self, kind: ParseErrorKind) -> (res: ParseError)
        ensures
            res@ == failure(self.tokens(), self.position(), kind),
    {
        ParseError { kind, found: self.lexer.current() }
    }

    fn over_bound(&self, i: usize) -> (res: bool)
        ensures
            res == (i >= bound(self.tokens())),
    {
        let len = self.lexer.tokens.len();
        if len > usize::MAX - 2 {
            i >= usize::MAX
        } else {
            i >= len + 2
        }
    }

    fn require_next(&mut self, expected: TokenEnum) -> (res: Result<(), ParseError>)
        ensures
            final(self).lexer.tokens == old(self).lexer.tokens,
            match require_spec(old(self).tokens(), old(self).position(), expected) {
                Ok(p) => res is Ok && final(self).position() == p,
                Err(e) => res is Err && res->Err_0@ == e,
            },
    {
        let token = self.lexer.next_();
        if token == expected {
            Ok(())
        } else {
            Err(self.fail(ParseErrorKind::Expected(expected)))
        }
    }

    fn parse_type(&mut self, vars: &mut TypeVariables, depth: usize) -> (res: Result<
        Type,
        ParseError,
    >)
        ensures
            final(self).lexer.tokens == old(self).lexer.tokens,
            yields(
                parse_type_spec(old(self).tokens(), old(self).position(), old(vars)@, depth as nat),
                final(self).position(),
                (final(vars)@, res->Ok_0@),
                res,
            ),
        decreases depth, 0nat, 0nat,
    {
        let token = self.lexer.next_();
        if depth == 0 {
            return Err(self.fail(ParseErrorKind::TooDeep));
        }
        match token {
            TokenEnum::LBRACKET => {
                if self.lexer.next_() == TokenEnum::RBRACKET {
                    let list = Type::new_op(String::from_str("[]"), no_types());
                    self.parse_return_type(list, vars, depth - 1)
                } else {
                    self.lexer.backtrack();
                    let t = match self.parse_type(vars, depth - 1) {
                        Ok(t) => t,
                        Err(e) => {
                            return Err(e);
                        },
                    };
                    match self.require_next(TokenEnum::RBRACKET) {
                        Ok(()) => {},
                        Err(e) => {
                            return Err(e);
                        },
                    }
                    let list = Type::new_op(String::from_str("[]"), type_vector(t));
                    self.parse_return_type(list, vars, depth - 1)
                }
            },
            TokenEnum::LPARENS => {
                let t = match self.parse_type(vars, depth - 1) {
                    Ok(t) => t,
                    Err(e) => {
                        return Err(e);
                    },
                };
                match self.lexer.next_() {
                    TokenEnum::COMMA => {
                        let args = match self.type_list(vars, type_vector(t), 0, depth - 1) {
                            Ok(args) => args,
                            Err(e) => {
                                return Err(e);
                            },
                        };
                        self.lexer.backtrack();
                        match self.require_next(TokenEnum::RPARENS) {
                            Ok(()) => {},
                            Err(e) => {
                                return Err(e);
                            },
                        }
                        let tuple = Type::new_op(tuple_name(args.len()), args);
                        self.parse_return_type(tuple, vars, depth - 1)
                    },
                    TokenEnum::RPARENS => self.parse_return_type(t, vars, depth - 1),
                    _ => Err(
                        self.fail(
                            ParseErrorKind::ExpectedEither(TokenEnum::COMMA, TokenEnum::RPARENS),
                        ),
                    ),
                }
            },
            TokenEnum::NAME => {
                let name = self.lexer.value();
                let args = match self.type_arguments(vars, no_types(), 0, depth - 1) {
                    Ok(args) => args,
                    Err(e) => {
                        return Err(e);
                    },
                };
                let upper = begins_uppercase(&name);
                let this = named_type(vars, name, upper, args);
                self.parse_return_type(this, vars, depth - 1)
            },
            _ => Err(self.fail(ParseErrorKind::Type)),
        }
    }

    fn parse_return_type(&mut self, typ: Type, vars: &mut TypeVariables, depth: usize) -> (res:
        Result<Type, ParseError>)
        ensures
            final(self).lexer.tokens == old(self).lexer.tokens,
            yields(
                return_type_spec(
                    old(self).tokens(),
                    old(self).position(),
                    old(vars)@,
                    typ@,
                    depth as nat,
                ),
                final(self).position(),
                (final(vars)@, res->Ok_0@),
                res,
            ),
        decreases depth, 1nat, 0nat,
    {
        if self.lexer.next_() == TokenEnum::ARROW {
            match self.parse_type(vars, depth) {
                Ok(t) => Ok(function_type(&typ, &t)),
                Err(e) => Err(e),
            }
        } else {
            self.lexer.backtrack();
            Ok(typ)
        }
    }

    fn type_list(&mut self, vars: &mut TypeVariables, acc: Vec<Type>, i: usize, depth: usize) -> (res:
        Result<Vec<Type>, ParseError>)
        ensures
            final(self).lexer.tokens == old(self).lexer.tokens,
            yields(
                type_list_spec(
                    old(self).tokens(),
                    old(self).position(),
                    old(vars)@,
                    seq_view(acc@),
                    i as nat,
                    depth as nat,
                ),
                final(self).position(),
                (final(vars)@, seq_view(res->Ok_0@)),
                res,
            ),
        decreases depth, 1nat, bound(old(self).tokens()) - i,
    {
        if self.over_bound(i) {
            return Err(self.fail(ParseErrorKind::TooDeep));
        }
        let t = match self.parse_type(vars, depth) {
            Ok(t) => t,
            Err(e) => {
                return Err(e);
            },
        };
        let mut acc = acc;
        let ghost before = seq_view(acc@);
        acc.push(t);
        proof {
            assert(seq_view(acc@) =~= before.push(t@));
        }
        if self.lexer.next_() == TokenEnum::COMMA {
            self.type_list(vars, acc, i + 1, depth)
        } else {
            Ok(acc)
        }
    }

    fn sub_type(&mut self, vars: &mut TypeVariables, depth: usize) -> (res: Result<
        Option<Type>,
        ParseError,
    >)
        ensures
            final(self).lexer.tokens == old(self).lexer.tokens,
            yields(
                sub_type_spec(old(self).tokens(), old(self).position(), old(vars)@, depth as nat),
                final(self).position(),
                (
                    final(vars)@,
                    match res->Ok_0 {
                        Some(t) => Some(t@),
                        None => None,
                    },
                ),
                res,
            ),
        decreases depth, 0nat, 0nat,
    {
        let token = self.lexer.next_();
        if depth == 0 {
            return Err(self.fail(ParseErrorKind::TooDeep));
        }
        match token {
            TokenEnum::LBRACKET | TokenEnum::LPARENS => {
                self.lexer.backtrack();
                match self.parse_type(vars, depth - 1) {
                    Ok(t) => Ok(Some(t)),
                    Err(e) => Err(e),
                }
            },
            TokenEnum::NAME => {
                let name = self.lexer.value();
                let upper = begins_uppercase(&name);
                Ok(Some(named_type(vars, name, upper, no_types())))
            },
            _ => {
                self.lexer.backtrack();
                Ok(None)
            },
        }
    }

    fn type_arguments(
        &mut self,
        vars: &mut TypeVariables,
        acc: Vec<Type>,
        i: usize,
        depth: usize,
    ) -> (res: Result<Vec<Type>, ParseError>)
        ensures
            final(self).lexer.tokens == old(self).lexer.tokens,
            yields(
                type_arguments_spec(
                    old(self).tokens(),
                    old(self).position(),
                    old(vars)@,
                    seq_view(acc@),
                    i as nat,
                    depth as nat,
                ),
                final(self).position(),
                (final(vars)@, seq_view(res->Ok_0@)),
                res,
            ),
        decreases depth, 1nat, bound(old(self).tokens()) - i,
    {
        if self.over_bound(i) {
            return Err(self.fail(ParseErrorKind::TooDeep));
        }
        match self.sub_type(vars, depth) {
            Ok(Some(t)) => {
                let mut acc = acc;
                let ghost before = seq_view(acc@);
                acc.push(t);
                proof {
                    assert(seq_view(acc@) =~= before.push(t@));
                }
                self.type_arguments(vars, acc, i + 1, depth)
            },
            Ok(None) => Ok(acc),
            Err(e) => Err(e),
        }
    }

    fn constrained_type(&mut self, mapping: &mut Vec<(String, i64)>, depth: usize) -> (res: Result<
        (Vec<Constraint>, Type),
        ParseError,
    >)
        ensures
            final(self).lexer.tokens == old(self).lexer.tokens,
            yields(
                constrained_type_spec(
                    old(self).tokens(),
                    old(self).position(),
                    ids_model(old(mapping)@),
                    depth as nat,
                ),
                final(self).position(),
                (ids_model(final(mapping)@), seq_view(res->Ok_0.0@), res->Ok_0.1@),
                res,
            ),
        decreases depth, 1nat, 0nat,
    {
        let mut taken: Vec<(String, i64)> = Vec::new();
        std::mem::swap(mapping, &mut taken);
        let mut vars = TypeVariables { next: 0, mapping: taken };
        let first = match self.parse_type(&mut vars, depth) {
            Ok(t) => t,
            Err(e) => {
                return Err(e);
            },
        };
        let token = self.lexer.next_();
        let arrow = token == TokenEnum::OPERATOR && crate::substitution::is_name(
            &self.lexer.value(),
            "=>",
        );
        if arrow {
            let t = match self.parse_type(&mut vars, depth) {
                Ok(t) => t,
                Err(e) => {
                    return Err(e);
                },
            };
            match create_type_constraints(&first) {
                Some(context) => {
                    *mapping = vars.mapping;
                    Ok((context, t))
                },
                None => Err(self.fail(ParseErrorKind::Constraint)),
            }
        } else {
            self.lexer.backtrack();
            *mapping = vars.mapping;
            let context: Vec<Constraint> = Vec::new();
            proof {
                assert(seq_view(context@) =~= Seq::<ConstraintModel>::empty());
            }
            Ok((context, first))
        }
    }

    /// The name on the left side of a binding or a type declaration, whose
    /// first token has been read.
    fn declared_name(&mut self) -> (res: Result<String, ParseError>)
        ensures
            final(self).lexer.tokens == old(self).lexer.tokens,
            yields(
                declared_name_spec(old(self).tokens(), old(self).position()),
                final(self).position(),
                res->Ok_0@,
                res,
            ),
    {
        match self.lexer.kind() {
            TokenEnum::LPARENS => {
                let token = self.lexer.next_();
                if token == TokenEnum::NAME || token == TokenEnum::OPERATOR {
                    let name = self.lexer.value();
                    if self.lexer.next_() == TokenEnum::RPARENS {
                        Ok(name)
                    } else {
                        Err(self.fail(ParseErrorKind::Expected(TokenEnum::RPARENS)))
                    }
                } else {
                    Err(self.fail(ParseErrorKind::BindingName))
                }
            },
            TokenEnum::NAME => Ok(self.lexer.value()),
            _ => Err(self.fail(ParseErrorKind::Expected(TokenEnum::NAME))),
        }
    }

    fn type_declaration_(&mut self, mapping: &mut Vec<(String, i64)>, depth: usize) -> (res: Result<
        TypeDeclaration,
        ParseError,
    >)
        ensures
            final(self).lexer.tokens == old(self).lexer.tokens,
            yields(
                type_declaration_spec(
                    old(self).tokens(),
                    old(self).position(),
                    ids_model(old(mapping)@),
                    depth as nat,
                ),
                final(self).position(),
                (ids_model(final(mapping)@), res->Ok_0@),
                res,
            ),
        decreases depth, 2nat, 0nat,
    {
        self.lexer.next_();
        let name = match self.declared_name() {
            Ok(name) => name,
            Err(e) => {
                return Err(e);
            },
        };
        match self.require_next(TokenEnum::TYPEDECL) {
            Ok(()) => {},
            Err(e) => {
                return Err(e);
            },
        }
        match self.constrained_type(mapping, depth) {
            Ok((context, typ)) => Ok(TypeDeclaration { name, typ, context }),
            Err(e) => Err(e),
        }
    }

    /// A type declaration: `name :: context => type`. Where the text is
    /// rejected, the cursor stands where it stood.
    pub fn type_declaration(&mut self) -> (res: Result<TypeDeclaration, ParseError>)
        ensures
            final(self).lexer.tokens == old(self).lexer.tokens,
            match type_declaration_spec(
                old(self).tokens(),
                old(self).position(),
                Seq::empty(),
                DEPTH_LIMIT as nat,
            ) {
                Ok((p, (_, d))) => res is Ok && final(self).position() == p && res->Ok_0@ == d,
                Err(e) => res is Err && res->Err_0@ == e,
            },
            res is Err ==> final(self).position() == old(self).position(),
    {
        let start = self.lexer.position;
        let mut mapping: Vec<(String, i64)> = Vec::new();
        proof {
            assert(ids_model(mapping@) =~= Seq::empty());
        }
        match self.type_declaration_(&mut mapping, DEPTH_LIMIT) {
            Ok(value) => Ok(value),
            Err(e) => {
                self.lexer.position = start;
                Err(e)
            },
        }
    }

    fn declaration_list(
        &mut self,
        mapping: &mut Vec<(String, i64)>,
        acc: Vec<TypeDeclaration>,
        i: usize,
        depth: usize,
    ) -> (res: Result<Vec<TypeDeclaration>, ParseError>)
        ensures
            final(self).lexer.tokens == old(self).lexer.tokens,
            yields(
                declaration_list_spec(
                    old(self).tokens(),
                    old(self).position(),
                    ids_model(old(mapping)@),
                    seq_view(acc@),
                    i as nat,
                    depth as nat,
                ),
                final(self).position(),
                seq_view(res->Ok_0@),
                res,
            ),
        decreases depth, 3nat, bound(old(self).tokens()) - i,
    {
        if self.over_bound(i) {
            return Err(self.fail(ParseErrorKind::TooDeep));
        }
        let d = match self.type_declaration_(mapping, depth) {
            Ok(d) => d,
            Err(e) => {
                return Err(e);
            },
        };
        let mut acc = acc;
        let ghost before = seq_view(acc@);
        acc.push(d);
        proof {
            assert(seq_view(acc@) =~= before.push(d@));
        }
        if self.lexer.next_() == TokenEnum::SEMICOLON {
            self.declaration_list(mapping, acc, i + 1, depth)
        } else {
            Ok(acc)
        }
    }
}

/// The type that the name `name` with the arguments `args` denotes, where
/// `upper` says whether the name begins with an upper case letter.
pub fn named_type(vars: &mut TypeVariables, name: String, upper: bool, args: Vec<Type>) -> (res: Type)
    ensures
        (final(vars)@, res@) == named_type_spec(old(vars)@, name@, upper, seq_view(args@)),
{
    if upper {
        Type::new_op(name, args)
    } else {
        let id = vars.variable(&name);
        let t = Type { typ: TypeHead::TypeVariable(TypeVariable { id }), types: args };
        proof {
            lemma_type_view(t);
        }
        t
    }
}

/// The type of the field of a constructor that the name `name` denotes,
/// where `lower` says whether the name begins with a lower case letter.
pub fn field_type(mapping: &Vec<(String, i64)>, name: String, lower: bool) -> (res: Option<Type>)
    ensures
        match field_type_spec(ids_model(mapping@), name@, lower) {
            Some(t) => res is Some && res->Some_0@ == t,
            None => res is None,
        },
{
    if lower {
        match lookup_id(mapping, &name) {
            Some(id) => Some(Type::new_var(id)),
            None => None,
        }
    } else {
        Some(Type::new_op(name, no_types()))
    }
}

/// The pattern that the name `name` before the patterns `patterns` makes,
/// where `upper` says whether the name begins with an upper case letter.
pub fn named_pattern(name: String, upper: bool, patterns: Vec<Pattern>) -> (res: Option<Pattern>)
    ensures
        match named_pattern_spec(name@, upper, seq_view(patterns@)) {
            Some(p) => res is Some && res->Some_0@ == p,
            None => res is None,
        },
{
    if upper || crate::substitution::is_name(&name, ":") {
        Some(constructor_pattern(name, patterns))
    } else if patterns.len() == 0 {
        Some(Pattern::IdentifierPattern(name))
    } else {
        None
    }
}

fn successor(n: i64) -> (res: i64)
    ensures
        res == succ(n),
{
    if n < i64::MAX {
        n + 1
    } else {
        n
    }
}

fn no_patterns() -> (res: Vec<Pattern>)
    ensures
        seq_view(res@) == Seq::<PatternModel>::empty(),
{
    let v: Vec<Pattern> = Vec::new();
    proof {
        assert(seq_view(v@) =~= Seq::<PatternModel>::empty());
    }
    v
}

fn constructor_pattern(name: String, patterns: Vec<Pattern>) -> (res: Pattern)
    ensures
        res@ == PatternModel::Constructor(name@, seq_view(patterns@)),
{
    let res = Pattern::ConstructorPattern(name, patterns);
    proof {
        lemma_pattern_view(res);
    }
    res
}

fn push_pattern(acc: Vec<Pattern>, p: Pattern) -> (res: Vec<Pattern>)
    ensures
        seq_view(res@) == seq_view(acc@).push(p@),
{
    let mut out = acc;
    out.push(p);
    proof {
        assert(seq_view(out@) =~= seq_view(acc@).push(p@));
    }
    out
}

fn push_expression(acc: Vec<TypedExpr>, e: TypedExpr) -> (res: Vec<TypedExpr>)
    ensures
        seq_view(res@) == seq_view(acc@).push(e@),
{
    let mut out = acc;
    out.push(e);
    proof {
        assert(seq_view(out@) =~= seq_view(acc@).push(e@));
    }
    out
}

fn no_expressions() -> (res: Vec<TypedExpr>)
    ensures
        seq_view(res@) == Seq::<TypedExprModel>::empty(),
{
    let v: Vec<TypedExpr> = Vec::new();
    proof {
        assert(seq_view(v@) =~= Seq::<TypedExprModel>::empty());
    }
    v
}

/// The model of an expression that may be missing.
pub open spec fn optional(e: Option<TypedExpr>) -> Option<TypedExprModel> {
    match e {
        Some(e) => Some(e@),
        None => None,
    }
}

/// The expression that the operator `op` makes of what stands on its two sides.
fn combine(lhs: Option<TypedExpr>, rhs: Option<TypedExpr>, op: &Token) -> (res: Option<TypedExpr>)
    ensures
        optional(res) == combine_spec(optional(lhs), optional(rhs), op@),
{
    let name = located(Expr::Identifier(op.value.clone()), op.location);
    match (lhs, rhs) {
        (Some(l), Some(r)) => Some(make_application(name, pair(l, r))),
        (Some(l), None) => {
            let location = l.location;
            Some(located(Expr::Apply(Box::new(name), Box::new(l)), location))
        },
        (None, Some(r)) => {
            if crate::substitution::is_name(&op.value, "-") {
                let mut args: Vec<TypedExpr> = Vec::new();
                args.push(r);
                proof {
                    assert(seq_view(args@) =~= seq![r@]);
                }
                Some(make_application(named("negate", op.location), args))
            } else {
                let mut apply = make_application(name, pair(named("#", op.location), r));
                apply.location = op.location;
                let mut params: Vec<String> = Vec::new();
                params.push(String::from_str("#"));
                proof {
                    assert(seq_view(params@) =~= seq!["#"@]);
                }
                Some(make_lambda(params, apply))
            }
        },
        (None, None) => None,
    }
}

impl Parser {
    fn constructor_type(
        &mut self,
        data: &Type,
        mapping: &mut Vec<(String, i64)>,
        arity: i64,
        depth: usize,
    ) -> (res: Result<(i64, Type), ParseError>)
        ensures
            final(self).lexer.tokens == old(self).lexer.tokens,
            yields(
                constructor_type_spec(
                    old(self).tokens(),
                    old(self).position(),
                    data@,
                    ids_model(old(mapping)@),
                    arity,
                    depth as nat,
                ),
                final(self).position(),
                (res->Ok_0.0, res->Ok_0.1@),
                res,
            ),
        decreases depth, 0nat, 0nat,
    {
        let token = self.lexer.next_();
        if depth == 0 {
            return Err(self.fail(ParseErrorKind::TooDeep));
        }
        match token {
            TokenEnum::NAME => {
                let name = self.lexer.value();
                let lower = begins_lowercase(&name);
                let arg = match field_type(mapping, name, lower) {
                    Some(arg) => arg,
                    None => {
                        return Err(self.fail(ParseErrorKind::TypeParameter));
                    },
                };
                match self.constructor_type(data, mapping, successor(arity), depth - 1) {
                    Ok((a, rest)) => Ok((a, function_type(&arg, &rest))),
                    Err(e) => Err(e),
                }
            },
            TokenEnum::LPARENS => {
                let mut taken: Vec<(String, i64)> = Vec::new();
                std::mem::swap(mapping, &mut taken);
                let mut vars = TypeVariables { next: 100000, mapping: taken };
                let arg = match self.parse_type(&mut vars, depth - 1) {
                    Ok(t) => t,
                    Err(e) => {
                        return Err(e);
                    },
                };
                match self.require_next(TokenEnum::RPARENS) {
                    Ok(()) => {},
                    Err(e) => {
                        return Err(e);
                    },
                }
                *mapping = vars.mapping;
                match self.constructor_type(data, mapping, successor(arity), depth - 1) {
                    Ok((a, rest)) => Ok((a, function_type(&arg, &rest))),
                    Err(e) => Err(e),
                }
            },
            _ => Ok((arity, data.clone())),
        }
    }

    fn constructor(&mut self, data: &Type, parameters: &Vec<(String, i64)>, depth: usize) -> (res:
        Result<Constructor, ParseError>)
        ensures
            final(self).lexer.tokens == old(self).lexer.tokens,
            yields(
                constructor_spec(
                    old(self).tokens(),
                    old(self).position(),
                    data@,
                    ids_model(parameters@),
                    depth as nat,
                ),
                final(self).position(),
                res->Ok_0@,
                res,
            ),
        decreases depth, 1nat, 0nat,
    {
        match self.require_next(TokenEnum::NAME) {
            Ok(()) => {},
            Err(e) => {
                return Err(e);
            },
        }
        let name = self.lexer.value();
        let mut mapping = copy_ids(parameters);
        match self.constructor_type(data, &mut mapping, 0, depth) {
            Ok((arity, typ)) => {
                self.lexer.backtrack();
                Ok(Constructor { name, typ, tag: 0, arity })
            },
            Err(e) => Err(e),
        }
    }

    fn constructor_list(
        &mut self,
        data: &Type,
        parameters: &Vec<(String, i64)>,
        acc: Vec<Constructor>,
        i: usize,
        depth: usize,
    ) -> (res: Result<Vec<Constructor>, ParseError>)
        ensures
            final(self).lexer.tokens == old(self).lexer.tokens,
            yields(
                constructor_list_spec(
                    old(self).tokens(),
                    old(self).position(),
                    data@,
                    ids_model(parameters@),
                    seq_view(acc@),
                    i as nat,
                    depth as nat,
                ),
                final(self).position(),
                seq_view(res->Ok_0@),
                res,
            ),
        decreases depth, 2nat, bound(old(self).tokens()) - i,
    {
        if self.over_bound(i) || acc.len() as u64 > 0x7fff_ffff_ffff_ffffu64 {
            return Err(self.fail(ParseErrorKind::TooDeep));
        }
        let c = match self.constructor(data, parameters, depth) {
            Ok(c) => c,
            Err(e) => {
                return Err(e);
            },
        };
        let mut acc = acc;
        let ghost before = seq_view(acc@);
        let tagged = Constructor { name: c.name, typ: c.typ, tag: acc.len() as i64, arity: c.arity };
        acc.push(tagged);
        proof {
            assert(seq_view(acc@) =~= before.push(tagged@));
        }
        let token = self.lexer.next_();
        if token == TokenEnum::OPERATOR && crate::substitution::is_name(&self.lexer.value(), "|") {
            self.constructor_list(data, parameters, acc, i + 1, depth)
        } else {
            Ok(acc)
        }
    }

    fn data_parameters(
        &mut self,
        args: Vec<Type>,
        parameters: Vec<(String, i64)>,
        i: usize,
    ) -> (res: Result<(Vec<Type>, Vec<(String, i64)>), ParseError>)
        ensures
            final(self).lexer.tokens == old(self).lexer.tokens,
            yields(
                data_parameters_spec(
                    old(self).tokens(),
                    old(self).position(),
                    seq_view(args@),
                    ids_model(parameters@),
                    i as nat,
                ),
                final(self).position(),
                (seq_view(res->Ok_0.0@), ids_model(res->Ok_0.1@)),
                res,
            ),
        decreases bound(old(self).tokens()) - i,
    {
        let token = self.lexer.next_();
        if self.over_bound(i) {
            return Err(self.fail(ParseErrorKind::TooDeep));
        }
        if token == TokenEnum::NAME {
            let mut args = args;
            let mut parameters = parameters;
            let ghost before = seq_view(args@);
            let t = Type::new_var(-1);
            args.push(t);
            proof {
                assert(seq_view(args@) =~= before.push(t@));
            }
            insert_id(&mut parameters, self.lexer.value(), -1);
            self.data_parameters(args, parameters, i + 1)
        } else {
            Ok((args, parameters))
        }
    }

    fn data_definition_(&mut self, depth: usize) -> (res: Result<DataDefinition, ParseError>)
        ensures
            final(self).lexer.tokens == old(self).lexer.tokens,
            yields(
                data_definition_spec(old(self).tokens(), old(self).position(), depth as nat),
                final(self).position(),
                res->Ok_0@,
                res,
            ),
        decreases depth, 3nat, 0nat,
    {
        proof {
            reveal(data_definition_spec);
        }
        match self.require_next(TokenEnum::DATA) {
            Ok(()) => {},
            Err(e) => {
                return Err(e);
            },
        }
        match self.require_next(TokenEnum::NAME) {
            Ok(()) => {},
            Err(e) => {
                return Err(e);
            },
        }
        let name = self.lexer.value();
        let empty: Vec<(String, i64)> = Vec::new();
        proof {
            assert(ids_model(empty@) =~= Seq::empty());
        }
        let (args, parameters) = match self.data_parameters(no_types(), empty, 0) {
            Ok(x) => x,
            Err(e) => {
                return Err(e);
            },
        };
        if self.lexer.kind() != TokenEnum::EQUALSSIGN {
            return Err(self.fail(ParseErrorKind::Expected(TokenEnum::EQUALSSIGN)));
        }
        let typ = Type::new_op(name, args);
        let none: Vec<Constructor> = Vec::new();
        proof {
            assert(seq_view(none@) =~= Seq::<ConstructorModel>::empty());
        }
        match self.constructor_list(&typ, &parameters, none, 0, depth) {
            Ok(constructors) => {
                self.lexer.backtrack();
                let res = DataDefinition { constructors, typ, parameters };
                proof {
                    assert(res@.parameters =~= ids_model(parameters@));
                }
                Ok(res)
            },
            Err(e) => Err(e),
        }
    }

    /// A data definition: `data Name parameters = constructor | ...`. Where the text is
    /// rejected, the cursor stands where it stood.
    pub fn data_definition(&mut self) -> (res: Result<DataDefinition, ParseError>)
        ensures
            final(self).lexer.tokens == old(self).lexer.tokens,
            yields(
                data_definition_spec(old(self).tokens(), old(self).position(), DEPTH_LIMIT as nat),
                final(self).position(),
                res->Ok_0@,
                res,
            ),
            res is Err ==> final(self).position() == old(self).position(),
    {
        let start = self.lexer.position;
        match self.data_definition_(DEPTH_LIMIT) {
            Ok(value) => Ok(value),
            Err(e) => {
                self.lexer.position = start;
                Err(e)
            },
        }
    }

    fn pattern_(&mut self, depth: usize) -> (res: Result<Pattern, ParseError>)
        ensures
            final(self).lexer.tokens == old(self).lexer.tokens,
            yields(
                pattern_spec(old(self).tokens(), old(self).position(), depth as nat),
                final(self).position(),
                res->Ok_0@,
                res,
            ),
        decreases depth, 0nat, 0nat,
    {
        let token = self.lexer.next_();
        if depth == 0 {
            return Err(self.fail(ParseErrorKind::TooDeep));
        }
        let name = self.lexer.value();
        match token {
            TokenEnum::LBRACKET => match self.require_next(TokenEnum::RBRACKET) {
                Ok(()) => Ok(constructor_pattern(String::from_str("[]"), no_patterns())),
                Err(e) => Err(e),
            },
            TokenEnum::NAME | TokenEnum::OPERATOR => {
                let patterns = match self.pattern_parameters(no_patterns(), 0, depth - 1) {
                    Ok(p) => p,
                    Err(e) => {
                        return Err(e);
                    },
                };
                let upper = begins_uppercase(&name);
                match named_pattern(name, upper, patterns) {
                    Some(pattern) => Ok(pattern),
                    None => Err(self.fail(ParseErrorKind::Pattern)),
                }
            },
            TokenEnum::NUMBER => match parse_number(&name) {
                Some(i) => Ok(Pattern::NumberPattern(i)),
                None => Err(self.fail(ParseErrorKind::Number)),
            },
            TokenEnum::LPARENS => {
                let args = match self.pattern_list(no_patterns(), 0, depth - 1) {
                    Ok(p) => p,
                    Err(e) => {
                        return Err(e);
                    },
                };
                if self.lexer.kind() == TokenEnum::RPARENS {
                    Ok(constructor_pattern(tuple_name(args.len()), args))
                } else {
                    Err(self.fail(ParseErrorKind::Expected(TokenEnum::RPARENS)))
                }
            },
            _ => Err(self.fail(ParseErrorKind::Pattern)),
        }
    }

    /// A pattern. Where the text is
    /// rejected, the cursor stands where it stood.
    pub fn pattern(&mut self) -> (res: Result<Pattern, ParseError>)
        ensures
            final(self).lexer.tokens == old(self).lexer.tokens,
            yields(
                pattern_spec(old(self).tokens(), old(self).position(), DEPTH_LIMIT as nat),
                final(self).position(),
                res->Ok_0@,
                res,
            ),
            res is Err ==> final(self).position() == old(self).position(),
    {
        let start = self.lexer.position;
        match self.pattern_(DEPTH_LIMIT) {
            Ok(value) => Ok(value),
            Err(e) => {
                self.lexer.position = start;
                Err(e)
            },
        }
    }

    fn pattern_list(&mut self, acc: Vec<Pattern>, i: usize, depth: usize) -> (res: Result<
        Vec<Pattern>,
        ParseError,
    >)
        ensures
            final(self).lexer.tokens == old(self).lexer.tokens,
            yields(
                pattern_list_spec(
                    old(self).tokens(),
                    old(self).position(),
                    seq_view(acc@),
                    i as nat,
                    depth as nat,
                ),
                final(self).position(),
                seq_view(res->Ok_0@),
                res,
            ),
        decreases depth, 1nat, bound(old(self).tokens()) - i,
    {
        if self.over_bound(i) {
            return Err(self.fail(ParseErrorKind::TooDeep));
        }
        let p = match self.pattern_(depth) {
            Ok(p) => p,
            Err(e) => {
                return Err(e);
            },
        };
        let acc = push_pattern(acc, p);
        if self.lexer.next_() == TokenEnum::COMMA {
            self.pattern_list(acc, i + 1, depth)
        } else {
            Ok(acc)
        }
    }

    fn pattern_parameters(&mut self, acc: Vec<Pattern>, i: usize, depth: usize) -> (res: Result<
        Vec<Pattern>,
        ParseError,
    >)
        ensures
            final(self).lexer.tokens == old(self).lexer.tokens,
            yields(
                pattern_parameters_spec(
                    old(self).tokens(),
                    old(self).position(),
                    seq_view(acc@),
                    i as nat,
                    depth as nat,
                ),
                final(self).position(),
                seq_view(res->Ok_0@),
                res,
            ),
        decreases depth, 2nat, bound(old(self).tokens()) - i,
    {
        let token = self.lexer.next_();
        if self.over_bound(i) {
            return Err(self.fail(ParseErrorKind::TooDeep));
        }
        match token {
            TokenEnum::NAME => {
                let acc = push_pattern(acc, Pattern::IdentifierPattern(self.lexer.value()));
                self.pattern_parameters(acc, i + 1, depth)
            },
            TokenEnum::NUMBER => match parse_number(&self.lexer.value()) {
                Some(n) => {
                    let acc = push_pattern(acc, Pattern::NumberPattern(n));
                    self.pattern_parameters(acc, i + 1, depth)
                },
                None => Err(self.fail(ParseErrorKind::Number)),
            },
            TokenEnum::LPARENS => {
                let first = match self.pattern_(depth) {
                    Ok(p) => p,
                    Err(e) => {
                        return Err(e);
                    },
                };
                if self.lexer.next_() == TokenEnum::COMMA {
                    let mut start: Vec<Pattern> = Vec::new();
                    start.push(first);
                    proof {
                        assert(seq_view(start@) =~= seq![first@]);
                    }
                    let args = match self.pattern_list(start, 0, depth) {
                        Ok(p) => p,
                        Err(e) => {
                            return Err(e);
                        },
                    };
                    if self.lexer.kind() == TokenEnum::RPARENS {
                        let acc = push_pattern(
                            acc,
                            constructor_pattern(tuple_name(args.len()), args),
                        );
                        self.pattern_parameters(acc, i + 1, depth)
                    } else {
                        Err(self.fail(ParseErrorKind::Expected(TokenEnum::RPARENS)))
                    }
                } else {
                    self.pattern_parameters(acc, i + 1, depth)
                }
            },
            TokenEnum::LBRACKET => match self.require_next(TokenEnum::RBRACKET) {
                Ok(()) => {
                    let acc = push_pattern(
                        acc,
                        constructor_pattern(String::from_str("[]"), no_patterns()),
                    );
                    self.pattern_parameters(acc, i + 1, depth)
                },
                Err(e) => Err(e),
            },
            _ => {
                self.lexer.backtrack();
                Ok(acc)
            },
        }
    }
}

fn push_binding(acc: Vec<Binding>, b: Binding) -> (res: Vec<Binding>)
    ensures
        seq_view(res@) == seq_view(acc@).push(b@),
{
    let mut out = acc;
    out.push(b);
    proof {
        assert(seq_view(out@) =~= seq_view(acc@).push(b@));
    }
    out
}

fn no_bindings() -> (res: Vec<Binding>)
    ensures
        seq_view(res@) == Seq::<BindingModel>::empty(),
{
    let v: Vec<Binding> = Vec::new();
    proof {
        assert(seq_view(v@) =~= Seq::<BindingModel>::empty());
    }
    v
}

fn push_alternative(acc: Vec<Alternative>, a: Alternative) -> (res: Vec<Alternative>)
    ensures
        seq_view(res@) == seq_view(acc@).push(a@),
{
    let mut out = acc;
    out.push(a);
    proof {
        assert(seq_view(out@) =~= seq_view(acc@).push(a@));
    }
    out
}

fn push_name(acc: Vec<String>, name: String) -> (res: Vec<String>)
    ensures
        seq_view(res@) == seq_view(acc@).push(name@),
{
    let mut out = acc;
    out.push(name);
    proof {
        assert(seq_view(out@) =~= seq_view(acc@).push(name@));
    }
    out
}

fn let_expression(bindings: Vec<Binding>, body: TypedExpr) -> (res: TypedExpr)
    ensures
        res@ == untyped(ExprModel::Let(seq_view(bindings@), Box::new(body@)), no_location()),
{
    let e = Expr::Let(bindings, Box::new(body));
    proof {
        lemma_expr_view(e);
    }
    located(e, Location::eof())
}

fn case_expression(scrutinee: TypedExpr, alternatives: Vec<Alternative>, location: Location) -> (res:
    TypedExpr)
    ensures
        res@ == untyped(ExprModel::Case(Box::new(scrutinee@), seq_view(alternatives@)), location),
{
    let e = Expr::Case(Box::new(scrutinee), alternatives);
    proof {
        lemma_expr_view(e);
    }
    located(e, location)
}

fn relocated(e: TypedExpr, location: Location) -> (res: TypedExpr)
    ensures
        res@ == (TypedExprModel { location, ..e@ }),
{
    TypedExpr { expr: e.expr, typ: e.typ, location }
}

impl Parser {
    fn expression_opt(&mut self, depth: usize) -> (res: Result<Option<TypedExpr>, ParseError>)
        ensures
            final(self).lexer.tokens == old(self).lexer.tokens,
            yields(
                expression_spec(old(self).tokens(), old(self).position(), depth as nat),
                final(self).position(),
                optional(res->Ok_0),
                res,
            ),
        decreases depth, 0nat, 0nat,
    {
        if depth == 0 {
            return Err(self.fail(ParseErrorKind::TooDeep));
        }
        let app = match self.application(depth - 1) {
            Ok(app) => app,
            Err(e) => {
                return Err(e);
            },
        };
        self.parse_operator_expression(app, 0, depth - 1)
    }

    fn required_expression(&mut self, depth: usize) -> (res: Result<TypedExpr, ParseError>)
        ensures
            final(self).lexer.tokens == old(self).lexer.tokens,
            yields(
                required_expression_spec(old(self).tokens(), old(self).position(), depth as nat),
                final(self).position(),
                res->Ok_0@,
                res,
            ),
        decreases depth, 1nat, 0nat,
    {
        match self.expression_opt(depth) {
            Ok(Some(e)) => Ok(e),
            Ok(None) => Err(self.fail(ParseErrorKind::NoExpression)),
            Err(e) => Err(e),
        }
    }

    /// An expression, where one stands here. Where the text is
    /// rejected, the cursor stands where it stood.
    pub fn expression(&mut self) -> (res: Result<Option<TypedExpr>, ParseError>)
        ensures
            final(self).lexer.tokens == old(self).lexer.tokens,
            yields(
                expression_spec(old(self).tokens(), old(self).position(), DEPTH_LIMIT as nat),
                final(self).position(),
                optional(res->Ok_0),
                res,
            ),
            res is Err ==> final(self).position() == old(self).position(),
    {
        let start = self.lexer.position;
        match self.expression_opt(DEPTH_LIMIT) {
            Ok(value) => Ok(value),
            Err(e) => {
                self.lexer.position = start;
                Err(e)
            },
        }
    }

    /// An expression, which must stand here. Where the text is
    /// rejected, the cursor stands where it stood.
    pub fn expression_(&mut self) -> (res: Result<TypedExpr, ParseError>)
        ensures
            final(self).lexer.tokens == old(self).lexer.tokens,
            yields(
                required_expression_spec(
                    old(self).tokens(),
                    old(self).position(),
                    DEPTH_LIMIT as nat,
                ),
                final(self).position(),
                res->Ok_0@,
                res,
            ),
            res is Err ==> final(self).position() == old(self).position(),
    {
        let start = self.lexer.position;
        match self.required_expression(DEPTH_LIMIT) {
            Ok(value) => Ok(value),
            Err(e) => {
                self.lexer.position = start;
                Err(e)
            },
        }
    }

    fn expression_list(&mut self, acc: Vec<TypedExpr>, i: usize, depth: usize) -> (res: Result<
        Vec<TypedExpr>,
        ParseError,
    >)
        ensures
            final(self).lexer.tokens == old(self).lexer.tokens,
            yields(
                expression_list_spec(
                    old(self).tokens(),
                    old(self).position(),
                    seq_view(acc@),
                    i as nat,
                    depth as nat,
                ),
                final(self).position(),
                seq_view(res->Ok_0@),
                res,
            ),
        decreases depth, 2nat, bound(old(self).tokens()) - i,
    {
        if self.over_bound(i) {
            return Err(self.fail(ParseErrorKind::TooDeep));
        }
        let e = match self.required_expression(depth) {
            Ok(e) => e,
            Err(e) => {
                return Err(e);
            },
        };
        let acc = push_expression(acc, e);
        if self.lexer.next_() == TokenEnum::COMMA {
            self.expression_list(acc, i + 1, depth)
        } else {
            Ok(acc)
        }
    }

    fn list_elements(&mut self, acc: Vec<TypedExpr>, i: usize, depth: usize) -> (res: Result<
        Vec<TypedExpr>,
        ParseError,
    >)
        ensures
            final(self).lexer.tokens == old(self).lexer.tokens,
            yields(
                list_elements_spec(
                    old(self).tokens(),
                    old(self).position(),
                    seq_view(acc@),
                    i as nat,
                    depth as nat,
                ),
                final(self).position(),
                seq_view(res->Ok_0@),
                res,
            ),
        decreases depth, 1nat, bound(old(self).tokens()) - i,
    {
        if self.over_bound(i) {
            return Err(self.fail(ParseErrorKind::TooDeep));
        }
        match self.expression_opt(depth) {
            Ok(Some(e)) => {
                let acc = push_expression(acc, e);
                if self.lexer.next_() == TokenEnum::COMMA {
                    self.list_elements(acc, i + 1, depth)
                } else {
                    self.lexer.backtrack();
                    Ok(acc)
                }
            },
            Ok(None) => Ok(acc),
            Err(e) => Err(e),
        }
    }

    fn parse_list(&mut self, depth: usize) -> (res: Result<TypedExpr, ParseError>)
        ensures
            final(self).lexer.tokens == old(self).lexer.tokens,
            yields(
                parse_list_spec(old(self).tokens(), old(self).position(), depth as nat),
                final(self).position(),
                res->Ok_0@,
                res,
            ),
        decreases depth, 2nat, 0nat,
    {
        let expressions = match self.list_elements(no_expressions(), 0, depth) {
            Ok(es) => es,
            Err(e) => {
                return Err(e);
            },
        };
        match self.require_next(TokenEnum::RBRACKET) {
            Ok(()) => {},
            Err(e) => {
                return Err(e);
            },
        }
        if expressions.len() == 0 {
            Ok(named("[]", Location::eof()))
        } else {
            Ok(make_list(expressions))
        }
    }

    fn parenthesized(&mut self, depth: usize) -> (res: Result<Option<TypedExpr>, ParseError>)
        ensures
            final(self).lexer.tokens == old(self).lexer.tokens,
            yields(
                parenthesized_spec(old(self).tokens(), old(self).position(), depth as nat),
                final(self).position(),
                optional(res->Ok_0),
                res,
            ),
        decreases depth, 4nat, 0nat,
    {
        let mut expressions = match self.expression_list(no_expressions(), 0, depth) {
            Ok(es) => es,
            Err(e) => {
                return Err(e);
            },
        };
        if self.lexer.kind() != TokenEnum::RPARENS {
            return Err(self.fail(ParseErrorKind::Expected(TokenEnum::RPARENS)));
        }
        if expressions.len() == 1 {
            let ghost all = seq_view(expressions@);
            let e = expressions.pop().unwrap();
            proof {
                assert(e@ == all[0]);
            }
            Ok(Some(e))
        } else {
            Ok(Some(new_tuple(expressions)))
        }
    }

    fn let_rule(&mut self, depth: usize) -> (res: Result<Option<TypedExpr>, ParseError>)
        ensures
            final(self).lexer.tokens == old(self).lexer.tokens,
            yields(
                let_spec(old(self).tokens(), old(self).position(), depth as nat),
                final(self).position(),
                optional(res->Ok_0),
                res,
            ),
        decreases depth, 4nat, 0nat,
    {
        match self.require_next(TokenEnum::LBRACE) {
            Ok(()) => {},
            Err(e) => {
                return Err(e);
            },
        }
        let binds = match self.binding_list(no_bindings(), 0, depth) {
            Ok(b) => b,
            Err(e) => {
                return Err(e);
            },
        };
        if self.lexer.kind() != TokenEnum::RBRACE {
            return Err(self.fail(ParseErrorKind::Expected(TokenEnum::RBRACE)));
        }
        match self.require_next(TokenEnum::IN) {
            Ok(()) => {},
            Err(e) => {
                return Err(e);
            },
        }
        match self.expression_opt(depth) {
            Ok(Some(e)) => Ok(Some(let_expression(binds, e))),
            Ok(None) => Ok(None),
            Err(e) => Err(e),
        }
    }

    fn case_rule(&mut self, location: Location, depth: usize) -> (res: Result<
        Option<TypedExpr>,
        ParseError,
    >)
        ensures
            final(self).lexer.tokens == old(self).lexer.tokens,
            yields(
                case_spec(old(self).tokens(), old(self).position(), location, depth as nat),
                final(self).position(),
                optional(res->Ok_0),
                res,
            ),
        decreases depth, 4nat, 0nat,
    {
        let scrutinee = match self.expression_opt(depth) {
            Ok(e) => e,
            Err(e) => {
                return Err(e);
            },
        };
        match self.require_next(TokenEnum::OF) {
            Ok(()) => {},
            Err(e) => {
                return Err(e);
            },
        }
        match self.require_next(TokenEnum::LBRACE) {
            Ok(()) => {},
            Err(e) => {
                return Err(e);
            },
        }
        let none: Vec<Alternative> = Vec::new();
        proof {
            assert(seq_view(none@) =~= Seq::<AlternativeModel>::empty());
        }
        let alts = match self.alternative_list(none, 0, depth) {
            Ok(a) => a,
            Err(e) => {
                return Err(e);
            },
        };
        if self.lexer.kind() != TokenEnum::RBRACE {
            return Err(self.fail(ParseErrorKind::Expected(TokenEnum::RBRACE)));
        }
        match scrutinee {
            Some(e) => Ok(Some(case_expression(e, alts, location))),
            None => Ok(None),
        }
    }

    fn atom(&mut self) -> (res: Result<Option<TypedExpr>, ParseError>)
        ensures
            final(self).lexer.tokens == old(self).lexer.tokens,
            yields(
                atom_spec(old(self).tokens(), old(self).position()),
                final(self).position(),
                optional(res->Ok_0),
                res,
            ),
    {
        let token = self.lexer.current();
        match token.token {
            TokenEnum::NAME => Ok(Some(located(Expr::Identifier(token.value), token.location))),
            TokenEnum::NUMBER => match parse_number(&token.value) {
                Some(n) => Ok(Some(located(Expr::Number(n), token.location))),
                None => Err(self.fail(ParseErrorKind::Number)),
            },
            TokenEnum::FLOAT => Ok(Some(located(Expr::Rational(token.bits), token.location))),
            TokenEnum::STRING => Ok(Some(located(Expr::String(token.value), token.location))),
            TokenEnum::CHAR => {
                if token.value.as_str().unicode_len() > 0 {
                    let c = token.value.as_str().get_char(0);
                    Ok(Some(located(Expr::Char(c), token.location)))
                } else {
                    Err(self.fail(ParseErrorKind::Character))
                }
            },
            _ => {
                self.lexer.backtrack();
                Ok(None)
            },
        }
    }

    fn sub_expression(&mut self, depth: usize) -> (res: Result<Option<TypedExpr>, ParseError>)
        ensures
            final(self).lexer.tokens == old(self).lexer.tokens,
            yields(
                sub_expression_spec(old(self).tokens(), old(self).position(), depth as nat),
                final(self).position(),
                optional(res->Ok_0),
                res,
            ),
        decreases depth, 0nat, 0nat,
    {
        let kind = self.lexer.next_();
        if depth == 0 {
            return Err(self.fail(ParseErrorKind::TooDeep));
        }
        match kind {
            TokenEnum::LPARENS => self.parenthesized(depth - 1),
            TokenEnum::LBRACKET => match self.parse_list(depth - 1) {
                Ok(e) => Ok(Some(e)),
                Err(e) => Err(e),
            },
            TokenEnum::LET => self.let_rule(depth - 1),
            TokenEnum::CASE => {
                let location = self.lexer.location();
                self.case_rule(location, depth - 1)
            },
            _ => self.atom(),
        }
    }

    fn arguments(&mut self, acc: Vec<TypedExpr>, i: usize, depth: usize) -> (res: Result<
        Vec<TypedExpr>,
        ParseError,
    >)
        ensures
            final(self).lexer.tokens == old(self).lexer.tokens,
            yields(
                arguments_spec(
                    old(self).tokens(),
                    old(self).position(),
                    seq_view(acc@),
                    i as nat,
                    depth as nat,
                ),
                final(self).position(),
                seq_view(res->Ok_0@),
                res,
            ),
        decreases depth, 1nat, bound(old(self).tokens()) - i,
    {
        if self.over_bound(i) {
            return Err(self.fail(ParseErrorKind::TooDeep));
        }
        match self.sub_expression(depth) {
            Ok(Some(e)) => {
                let acc = push_expression(acc, e);
                self.arguments(acc, i + 1, depth)
            },
            Ok(None) => Ok(acc),
            Err(e) => Err(e),
        }
    }

    fn application(&mut self, depth: usize) -> (res: Result<Option<TypedExpr>, ParseError>)
        ensures
            final(self).lexer.tokens == old(self).lexer.tokens,
            yields(
                application_spec(old(self).tokens(), old(self).position(), depth as nat),
                final(self).position(),
                optional(res->Ok_0),
                res,
            ),
        decreases depth, 2nat, 0nat,
    {
        match self.sub_expression(depth) {
            Ok(Some(lhs)) => {
                let expressions = match self.arguments(no_expressions(), 0, depth) {
                    Ok(es) => es,
                    Err(e) => {
                        return Err(e);
                    },
                };
                if expressions.len() > 0 {
                    let location = lhs.location;
                    Ok(Some(relocated(make_application(lhs, expressions), location)))
                } else {
                    Ok(Some(lhs))
                }
            },
            Ok(None) => Ok(None),
            Err(e) => Err(e),
        }
    }

    fn parse_operator_expression(&mut self, lhs: Option<TypedExpr>, min: i64, depth: usize) -> (res:
        Result<Option<TypedExpr>, ParseError>)
        ensures
            final(self).lexer.tokens == old(self).lexer.tokens,
            yields(
                operator_expression_spec(
                    old(self).tokens(),
                    old(self).position(),
                    optional(lhs),
                    min as int,
                    depth as nat,
                ),
                final(self).position(),
                optional(res->Ok_0),
                res,
            ),
        decreases depth, 0nat, 0nat,
    {
        self.lexer.next_();
        if depth == 0 {
            return Err(self.fail(ParseErrorKind::TooDeep));
        }
        self.operator_loop(lhs, min, 0, depth - 1)
    }

    fn operator_loop(&mut self, lhs: Option<TypedExpr>, min: i64, i: usize, depth: usize) -> (res:
        Result<Option<TypedExpr>, ParseError>)
        ensures
            final(self).lexer.tokens == old(self).lexer.tokens,
            yields(
                operator_loop_spec(
                    old(self).tokens(),
                    old(self).position(),
                    optional(lhs),
                    min as int,
                    i as nat,
                    depth as nat,
                ),
                final(self).position(),
                optional(res->Ok_0),
                res,
            ),
        decreases depth, 3nat, bound(old(self).tokens()) - i,
    {
        if self.over_bound(i) {
            return Err(self.fail(ParseErrorKind::TooDeep));
        }
        let op = self.lexer.current();
        if op.token == TokenEnum::OPERATOR && precedence(&op.value) >= min {
            let rhs = match self.application(depth) {
                Ok(rhs) => rhs,
                Err(e) => {
                    return Err(e);
                },
            };
            self.lexer.next_();
            let rhs = match self.operator_rhs(rhs, precedence(&op.value), 0, depth) {
                Ok(rhs) => rhs,
                Err(e) => {
                    return Err(e);
                },
            };
            match combine(lhs, rhs, &op) {
                Some(l) => self.operator_loop(Some(l), min, i + 1, depth),
                None => Ok(None),
            }
        } else {
            self.lexer.backtrack();
            Ok(lhs)
        }
    }

    fn operator_rhs(&mut self, rhs: Option<TypedExpr>, strength: i64, i: usize, depth: usize) -> (res:
        Result<Option<TypedExpr>, ParseError>)
        ensures
            final(self).lexer.tokens == old(self).lexer.tokens,
            yields(
                operator_rhs_spec(
                    old(self).tokens(),
                    old(self).position(),
                    optional(rhs),
                    strength as int,
                    i as nat,
                    depth as nat,
                ),
                final(self).position(),
                optional(res->Ok_0),
                res,
            ),
        decreases depth, 1nat, bound(old(self).tokens()) - i,
    {
        if self.over_bound(i) || depth == 0 {
            return Err(self.fail(ParseErrorKind::TooDeep));
        }
        let next = self.lexer.current();
        if next.token == TokenEnum::OPERATOR && precedence(&next.value) > strength {
            let lookahead = precedence(&next.value);
            self.lexer.backtrack();
            let r = match self.parse_operator_expression(rhs, lookahead, depth - 1) {
                Ok(r) => r,
                Err(e) => {
                    return Err(e);
                },
            };
            self.lexer.next_();
            self.operator_rhs(r, strength, i + 1, depth)
        } else {
            Ok(rhs)
        }
    }

    fn binding_arguments(&mut self, acc: Vec<String>, i: usize) -> (res: Result<
        Vec<String>,
        ParseError,
    >)
        ensures
            final(self).lexer.tokens == old(self).lexer.tokens,
            yields(
                binding_arguments_spec(
                    old(self).tokens(),
                    old(self).position(),
                    seq_view(acc@),
                    i as nat,
                ),
                final(self).position(),
                seq_view(res->Ok_0@),
                res,
            ),
        decreases bound(old(self).tokens()) - i,
    {
        let token = self.lexer.next_();
        if self.over_bound(i) {
            return Err(self.fail(ParseErrorKind::TooDeep));
        }
        if token == TokenEnum::NAME {
            let acc = push_name(acc, self.lexer.value());
            self.binding_arguments(acc, i + 1)
        } else {
            Ok(acc)
        }
    }

    fn binding_(&mut self, depth: usize) -> (res: Result<Binding, ParseError>)
        ensures
            final(self).lexer.tokens == old(self).lexer.tokens,
            yields(
                binding_spec(old(self).tokens(), old(self).position(), depth as nat),
                final(self).position(),
                res->Ok_0@,
                res,
            ),
        decreases depth, 2nat, 0nat,
    {
        self.lexer.next_();
        let name = match self.declared_name() {
            Ok(name) => name,
            Err(e) => {
                return Err(e);
            },
        };
        let none: Vec<String> = Vec::new();
        proof {
            assert(seq_view(none@) =~= Seq::<Seq<char>>::empty());
        }
        let arguments = match self.binding_arguments(none, 0) {
            Ok(a) => a,
            Err(e) => {
                return Err(e);
            },
        };
        if self.lexer.kind() != TokenEnum::EQUALSSIGN {
            return Err(self.fail(ParseErrorKind::Expected(TokenEnum::EQUALSSIGN)));
        }
        let arity = arguments.len();
        let body = match self.required_expression(depth) {
            Ok(e) => e,
            Err(e) => {
                return Err(e);
            },
        };
        let declaration = TypeDeclaration {
            context: Vec::new(),
            typ: Type::new_var(-1),
            name: String::new(),
        };
        proof {
            assert(declaration@.context =~= Seq::<ConstraintModel>::empty());
        }
        Ok(Binding { name, typeDecl: declaration, expression: make_lambda(arguments, body), arity })
    }

    /// A binding: `name parameters = expression`. Where the text is
    /// rejected, the cursor stands where it stood.
    pub fn binding(&mut self) -> (res: Result<Binding, ParseError>)
        ensures
            final(self).lexer.tokens == old(self).lexer.tokens,
            yields(
                binding_spec(old(self).tokens(), old(self).position(), DEPTH_LIMIT as nat),
                final(self).position(),
                res->Ok_0@,
                res,
            ),
            res is Err ==> final(self).position() == old(self).position(),
    {
        let start = self.lexer.position;
        match self.binding_(DEPTH_LIMIT) {
            Ok(value) => Ok(value),
            Err(e) => {
                self.lexer.position = start;
                Err(e)
            },
        }
    }

    fn binding_list(&mut self, acc: Vec<Binding>, i: usize, depth: usize) -> (res: Result<
        Vec<Binding>,
        ParseError,
    >)
        ensures
            final(self).lexer.tokens == old(self).lexer.tokens,
            yields(
                binding_list_spec(
                    old(self).tokens(),
                    old(self).position(),
                    seq_view(acc@),
                    i as nat,
                    depth as nat,
                ),
                final(self).position(),
                seq_view(res->Ok_0@),
                res,
            ),
        decreases depth, 3nat, bound(old(self).tokens()) - i,
    {
        if self.over_bound(i) {
            return Err(self.fail(ParseErrorKind::TooDeep));
        }
        let b = match self.binding_(depth) {
            Ok(b) => b,
            Err(e) => {
                return Err(e);
            },
        };
        let acc = push_binding(acc, b);
        if self.lexer.next_() == TokenEnum::SEMICOLON {
            self.binding_list(acc, i + 1, depth)
        } else {
            Ok(acc)
        }
    }

    fn alternative(&mut self, depth: usize) -> (res: Result<Alternative, ParseError>)
        ensures
            final(self).lexer.tokens == old(self).lexer.tokens,
            yields(
                alternative_spec(old(self).tokens(), old(self).position(), depth as nat),
                final(self).position(),
                res->Ok_0@,
                res,
            ),
        decreases depth, 2nat, 0nat,
    {
        self.lexer.next_();
        let location = self.lexer.location();
        self.lexer.backtrack();
        let node = match self.pattern_(depth) {
            Ok(p) => p,
            Err(e) => {
                return Err(e);
            },
        };
        match self.require_next(TokenEnum::ARROW) {
            Ok(()) => {},
            Err(e) => {
                return Err(e);
            },
        }
        match self.required_expression(depth) {
            Ok(expression) => Ok(Alternative { pattern: Located { location, node }, expression }),
            Err(e) => Err(e),
        }
    }

    fn alternative_list(&mut self, acc: Vec<Alternative>, i: usize, depth: usize) -> (res: Result<
        Vec<Alternative>,
        ParseError,
    >)
        ensures
            final(self).lexer.tokens == old(self).lexer.tokens,
            yields(
                alternative_list_spec(
                    old(self).tokens(),
                    old(self).position(),
                    seq_view(acc@),
                    i as nat,
                    depth as nat,
                ),
                final(self).position(),
                seq_view(res->Ok_0@),
                res,
            ),
        decreases depth, 3nat, bound(old(self).tokens()) - i,
    {
        if self.over_bound(i) {
            return Err(self.fail(ParseErrorKind::TooDeep));
        }
        let a = match self.alternative(depth) {
            Ok(a) => a,
            Err(e) => {
                return Err(e);
            },
        };
        let acc = push_alternative(acc, a);
        if self.lexer.next_() == TokenEnum::SEMICOLON {
            self.alternative_list(acc, i + 1, depth)
        } else {
            Ok(acc)
        }
    }
}

fn encode_all(bindings: &mut Vec<Binding>, instance: &String)
    ensures
        seq_view(final(bindings)@) == encode_bindings(seq_view(old(bindings)@), instance@),
{
    let ghost all = seq_view(bindings@);
    let mut i: usize = 0;
    while i < bindings.len()
        invariant
            i <= bindings@.len(),
            bindings@.len() == all.len(),
            forall|k: int|
                0 <= k < all.len() ==> (#[trigger] bindings@[k])@ == (if k < i {
                    BindingModel { name: encode_spec(instance@, all[k].name), ..all[k] }
                } else {
                    all[k]
                }),
        decreases bindings@.len() - i,
    {
        let ghost before = bindings@;
        let name = encode_binding_identifier(instance, &bindings[i].name);
        bindings[i].name = name;
        proof {
            assert forall|k: int| 0 <= k < all.len() implies (#[trigger] bindings@[k])@ == (if k < i
                + 1 {
                BindingModel { name: encode_spec(instance@, all[k].name), ..all[k] }
            } else {
                all[k]
            }) by {
                if k != i {
                    assert(bindings@[k] == before[k]);
                }
            }
        }
        i += 1;
    }
    proof {
        assert(seq_view(bindings@) =~= encode_bindings(all, instance@));
    }
}

fn attach(bindings: &mut Vec<Binding>, d: &TypeDeclaration)
    ensures
        seq_view(final(bindings)@) == attach_declaration(seq_view(old(bindings)@), d@),
{
    let ghost all = seq_view(bindings@);
    let mut i: usize = 0;
    while i < bindings.len()
        invariant
            i <= bindings@.len(),
            bindings@.len() == all.len(),
            forall|k: int|
                0 <= k < all.len() ==> (#[trigger] bindings@[k])@ == (if k < i && all[k].name
                    == d@.name {
                    BindingModel { decl: d@, ..all[k] }
                } else {
                    all[k]
                }),
        decreases bindings@.len() - i,
    {
        let ghost before = bindings@;
        if bindings[i].name == d.name {
            bindings[i].typeDecl = d.clone();
        }
        proof {
            assert forall|k: int| 0 <= k < all.len() implies (#[trigger] bindings@[k])@ == (if k < i
                + 1 && all[k].name == d@.name {
                BindingModel { decl: d@, ..all[k] }
            } else {
                all[k]
            }) by {
                if k != i {
                    assert(bindings@[k] == before[k]);
                }
            }
        }
        i += 1;
    }
    proof {
        assert(seq_view(bindings@) =~= attach_declaration(all, d@));
    }
}

fn attach_all(bindings: &mut Vec<Binding>, declarations: &Vec<TypeDeclaration>, i: usize)
    ensures
        seq_view(final(bindings)@) == attach_declarations(
            seq_view(old(bindings)@),
            seq_view(declarations@),
            i as nat,
        ),
    decreases declarations@.len() - i,
{
    if i >= declarations.len() {
        return ;
    }
    proof {
        assert(seq_view(declarations@)[i as int] == declarations@[i as int]@);
    }
    attach(bindings, &declarations[i]);
    attach_all(bindings, declarations, i + 1);
}

fn operator_name(t: &Type) -> (res: Option<String>)
    ensures
        match res {
            Some(name) => t@.head is Op && name@ == t@.op_name(),
            None => !(t@.head is Op),
        },
{
    proof {
        lemma_type_view(*t);
    }
    match &t.typ {
        TypeHead::TypeOperator(op) => Some(op.name.clone()),
        TypeHead::TypeVariable(_) => None,
    }
}

impl Parser {
    fn class(&mut self, depth: usize) -> (res: Result<Class, ParseError>)
        ensures
            final(self).lexer.tokens == old(self).lexer.tokens,
            yields(
                class_spec(old(self).tokens(), old(self).position(), depth as nat),
                final(self).position(),
                res->Ok_0@,
                res,
            ),
        decreases depth, 4nat, 0nat,
    {
        proof {
            reveal(class_spec);
        }
        match self.require_next(TokenEnum::CLASS) {
            Ok(()) => {},
            Err(e) => {
                return Err(e);
            },
        }
        match self.require_next(TokenEnum::NAME) {
            Ok(()) => {},
            Err(e) => {
                return Err(e);
            },
        }
        let name = self.lexer.value();
        match self.require_next(TokenEnum::NAME) {
            Ok(()) => {},
            Err(e) => {
                return Err(e);
            },
        }
        let variable = self.lexer.value();
        match self.require_next(TokenEnum::WHERE) {
            Ok(()) => {},
            Err(e) => {
                return Err(e);
            },
        }
        match self.require_next(TokenEnum::LBRACE) {
            Ok(()) => {},
            Err(e) => {
                return Err(e);
            },
        }
        let mut mapping: Vec<(String, i64)> = Vec::new();
        mapping.push((variable, 1000000));
        proof {
            assert(ids_model(mapping@) =~= seq![(variable@, 1000000i64)]);
        }
        let none: Vec<TypeDeclaration> = Vec::new();
        proof {
            assert(seq_view(none@) =~= Seq::<DeclarationModel>::empty());
        }
        let declarations = match self.declaration_list(&mut mapping, none, 0, depth) {
            Ok(d) => d,
            Err(e) => {
                return Err(e);
            },
        };
        self.lexer.backtrack();
        match self.require_next(TokenEnum::RBRACE) {
            Ok(()) => {},
            Err(e) => {
                return Err(e);
            },
        }
        Ok(Class { name, variable: TypeVariable { id: 1000000 }, declarations })
    }

    fn instance(&mut self, depth: usize) -> (res: Result<Instance, ParseError>)
        ensures
            final(self).lexer.tokens == old(self).lexer.tokens,
            yields(
                instance_spec(old(self).tokens(), old(self).position(), depth as nat),
                final(self).position(),
                res->Ok_0@,
                res,
            ),
        decreases depth, 4nat, 0nat,
    {
        proof {
            reveal(instance_spec);
        }
        match self.require_next(TokenEnum::INSTANCE) {
            Ok(()) => {},
            Err(e) => {
                return Err(e);
            },
        }
        let mut mapping: Vec<(String, i64)> = Vec::new();
        proof {
            assert(ids_model(mapping@) =~= Seq::empty());
        }
        let (constraints, head) = match self.constrained_type(&mut mapping, depth) {
            Ok(x) => x,
            Err(e) => {
                return Err(e);
            },
        };
        proof {
            lemma_type_view(head);
        }
        let classname = match operator_name(&head) {
            Some(name) => name,
            None => {
                return Err(self.fail(ParseErrorKind::InstanceHead));
            },
        };
        if head.types.len() == 0 {
            return Err(self.fail(ParseErrorKind::InstanceHead));
        }
        proof {
            assert(head@.args[0] == head.types@[0]@);
        }
        let instance_name = match operator_name(&head.types[0]) {
            Some(name) => name,
            None => {
                return Err(self.fail(ParseErrorKind::InstanceHead));
            },
        };
        match self.require_next(TokenEnum::WHERE) {
            Ok(()) => {},
            Err(e) => {
                return Err(e);
            },
        }
        match self.require_next(TokenEnum::LBRACE) {
            Ok(()) => {},
            Err(e) => {
                return Err(e);
            },
        }
        let mut bindings = match self.binding_list(no_bindings(), 0, depth) {
            Ok(b) => b,
            Err(e) => {
                return Err(e);
            },
        };
        encode_all(&mut bindings, &instance_name);
        self.lexer.backtrack();
        match self.require_next(TokenEnum::RBRACE) {
            Ok(()) => {},
            Err(e) => {
                return Err(e);
            },
        }
        Ok(Instance { typ: head.types[0].clone(), classname, bindings, constraints })
    }

    /// Whether a type declaration rather than a binding begins behind the position.
    fn declaration_follows(&self) -> (res: bool)
        ensures
            res == declares_type(self.tokens(), advance(self.tokens(), self.position()) + 1),
    {
        let mut index = if self.lexer.position <= self.lexer.tokens.len() && self.lexer.position
            < usize::MAX {
            self.lexer.position + 1
        } else {
            self.lexer.position
        };
        while index < self.lexer.tokens.len()
            invariant
                declares_type(self.tokens(), advance(self.tokens(), self.position()) + 1)
                    == declares_type(self.tokens(), (index + 1) as nat),
            decreases self.lexer.tokens.len() - index,
        {
            let token = self.lexer.tokens[index].token;
            proof {
                assert(token_at(self.tokens(), (index + 1) as nat) == self.lexer.tokens@[index as int]@);
            }
            if token == TokenEnum::TYPEDECL {
                return true;
            }
            if token == TokenEnum::EQUALSSIGN {
                return false;
            }
            index += 1;
        }
        false
    }

    fn named_item(&mut self, m: Module, depth: usize) -> (res: Result<Module, ParseError>)
        ensures
            final(self).lexer.tokens == old(self).lexer.tokens,
            yields(
                named_item_spec(old(self).tokens(), old(self).position(), m@, depth as nat),
                final(self).position(),
                res->Ok_0@,
                res,
            ),
        decreases depth, 4nat, 0nat,
    {
        proof {
            reveal(named_item_spec);
        }
        let mut m = m;
        let ghost before = m@;
        let declaration = self.declaration_follows();
        if declaration {
            let mut mapping: Vec<(String, i64)> = Vec::new();
            proof {
                assert(ids_model(mapping@) =~= Seq::empty());
            }
            let d = match self.type_declaration_(&mut mapping, depth) {
                Ok(d) => d,
                Err(e) => {
                    return Err(e);
                },
            };
            m.typeDeclarations.push(d);
            proof {
                assert(m@.declarations =~= before.declarations.push(d@));
            }
        } else {
            let b = match self.binding_(depth) {
                Ok(b) => b,
                Err(e) => {
                    return Err(e);
                },
            };
            m.bindings.push(b);
            proof {
                assert(m@.bindings =~= before.bindings.push(b@));
            }
        }
        Ok(m)
    }

    fn module_item(&mut self, m: Module, depth: usize) -> (res: Result<(Module, bool), ParseError>)
        ensures
            final(self).lexer.tokens == old(self).lexer.tokens,
            yields(
                module_item_spec(old(self).tokens(), old(self).position(), m@, depth as nat),
                final(self).position(),
                (res->Ok_0.0@, res->Ok_0.1),
                res,
            ),
        decreases depth, 5nat, 0nat,
    {
        let mut m = m;
        let ghost before = m@;
        match self.lexer.peek() {
            TokenEnum::NAME | TokenEnum::LPARENS => match self.named_item(m, depth) {
                Ok(m) => Ok((m, true)),
                Err(e) => Err(e),
            },
            TokenEnum::CLASS => {
                let c = match self.class(depth) {
                    Ok(c) => c,
                    Err(e) => {
                        return Err(e);
                    },
                };
                m.classes.push(c);
                proof {
                    assert(m@.classes =~= before.classes.push(c@));
                }
                Ok((m, true))
            },
            TokenEnum::INSTANCE => {
                let x = match self.instance(depth) {
                    Ok(x) => x,
                    Err(e) => {
                        return Err(e);
                    },
                };
                m.instances.push(x);
                proof {
                    assert(m@.instances =~= before.instances.push(x@));
                }
                Ok((m, true))
            },
            TokenEnum::DATA => {
                let d = match self.data_definition_(depth) {
                    Ok(d) => d,
                    Err(e) => {
                        return Err(e);
                    },
                };
                m.dataDefinitions.push(d);
                proof {
                    assert(m@.data =~= before.data.push(d@));
                }
                Ok((m, true))
            },
            _ => {
                self.lexer.next_();
                Ok((m, false))
            },
        }
    }

    fn module_items(&mut self, m: Module, i: usize, depth: usize) -> (res: Result<
        Module,
        ParseError,
    >)
        ensures
            final(self).lexer.tokens == old(self).lexer.tokens,
            yields(
                module_items_spec(
                    old(self).tokens(),
                    old(self).position(),
                    m@,
                    i as nat,
                    depth as nat,
                ),
                final(self).position(),
                res->Ok_0@,
                res,
            ),
        decreases depth, 6nat, bound(old(self).tokens()) - i,
    {
        if self.over_bound(i) {
            self.lexer.next_();
            return Err(self.fail(ParseErrorKind::TooDeep));
        }
        match self.module_item(m, depth) {
            Ok((m, true)) => {
                if self.lexer.next_() == TokenEnum::SEMICOLON {
                    self.module_items(m, i + 1, depth)
                } else {
                    Ok(m)
                }
            },
            Ok((m, false)) => Ok(m),
            Err(e) => Err(e),
        }
    }

    fn module_(&mut self) -> (res: Result<Module, ParseError>)
        ensures
            final(self).lexer.tokens == old(self).lexer.tokens,
            yields(
                module_spec(old(self).tokens(), old(self).position(), DEPTH_LIMIT as nat),
                final(self).position(),
                res->Ok_0@,
                res,
            ),
    {
        let name = match self.lexer.next_() {
            TokenEnum::MODULE => {
                match self.require_next(TokenEnum::NAME) {
                    Ok(()) => {},
                    Err(e) => {
                        return Err(e);
                    },
                }
                let name = self.lexer.value();
                match self.require_next(TokenEnum::WHERE) {
                    Ok(()) => {},
                    Err(e) => {
                        return Err(e);
                    },
                }
                match self.require_next(TokenEnum::LBRACE) {
                    Ok(()) => {},
                    Err(e) => {
                        return Err(e);
                    },
                }
                name
            },
            TokenEnum::LBRACE => String::from_str("Main"),
            _ => {
                return Err(self.fail(ParseErrorKind::Expected(TokenEnum::LBRACE)));
            },
        };
        let empty = Module {
            name,
            bindings: Vec::new(),
            typeDeclarations: Vec::new(),
            classes: Vec::new(),
            instances: Vec::new(),
            dataDefinitions: Vec::new(),
        };
        proof {
            assert(empty@.bindings =~= Seq::empty());
            assert(empty@.declarations =~= Seq::empty());
            assert(empty@.classes =~= Seq::empty());
            assert(empty@.instances =~= Seq::empty());
            assert(empty@.data =~= Seq::empty());
        }
        let mut m = match self.module_items(empty, 0, DEPTH_LIMIT) {
            Ok(m) => m,
            Err(e) => {
                return Err(e);
            },
        };
        if self.lexer.kind() != TokenEnum::RBRACE {
            return Err(self.fail(ParseErrorKind::Expected(TokenEnum::RBRACE)));
        }
        if self.lexer.next_() != TokenEnum::EOF {
            return Err(self.fail(ParseErrorKind::TrailingToken));
        }
        attach_all(&mut m.bindings, &m.typeDeclarations, 0);
        Ok(m)
    }

    /// A module: `module Name where { items }`, or only `{ items }`. Where the
    /// text is rejected, the cursor stands where it stood.
    pub fn module(&mut self) -> (res: Result<Module, ParseError>)
        ensures
            final(self).lexer.tokens == old(self).lexer.tokens,
            yields(
                module_spec(old(self).tokens(), old(self).position(), DEPTH_LIMIT as nat),
                final(self).position(),
                res->Ok_0@,
                res,
            ),
            res is Err ==> final(self).position() == old(self).position(),
    {
        let start = self.lexer.position;
        match self.module_() {
            Ok(value) => Ok(value),
            Err(e) => {
                self.lexer.position = start;
                Err(e)
            },
        }
    }
}

} // verus!
