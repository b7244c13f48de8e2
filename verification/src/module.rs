//! Abstract syntax shared by every stage, together with the mathematical model
//! (the view) of each syntax type that the contracts of the other modules speak of.
use crate::tables::{find_var, insert, lemma_position_absent, lemma_position_found, lookup};
use vstd::prelude::*;

verus! {

/// The view of a vector of values: the sequence of their views.
pub open spec fn seq_view<T: View>(s: Seq<T>) -> Seq<T::V> {
    Seq::new(s.len(), |i: int| s[i]@)
}

/// Model of the head of a type: a variable id or an operator name.
pub enum Head {
    Var(int),
    Op(Seq<char>),
}

/// Model of a type: a head applied to an ordered list of argument types.
pub struct Ty {
    pub head: Head,
    pub args: Seq<Ty>,
}

impl Ty {
    pub open spec fn var(id: int) -> Ty {
        Ty { head: Head::Var(id), args: Seq::empty() }
    }

    pub open spec fn op(name: Seq<char>, args: Seq<Ty>) -> Ty {
        Ty { head: Head::Op(name), args }
    }

    pub open spec fn is_var(self) -> bool {
        self.head is Var
    }

    pub open spec fn var_id(self) -> int {
        match self.head {
            Head::Var(id) => id,
            Head::Op(_) => 0,
        }
    }

    pub open spec fn op_name(self) -> Seq<char> {
        match self.head {
            Head::Var(_) => Seq::empty(),
            Head::Op(name) => name,
        }
    }

    /// The function type `arg -> result`.
    pub open spec fn function(arg: Ty, result: Ty) -> Ty {
        Ty::op("->"@, seq![arg, result])
    }
}

#[derive(Debug)]
pub struct TypeVariable {
    pub id: i64,
}

#[derive(Debug)]
pub struct TypeOperator {
    pub name: String,
}

#[derive(Debug)]
pub enum TypeHead {
    TypeVariable(TypeVariable),
    TypeOperator(TypeOperator),
}

/// A type: a type variable or a type operator, applied to argument types.
#[derive(Debug)]
pub struct Type {
    pub typ: TypeHead,
    pub types: Vec<Type>,
}

impl View for TypeVariable {
    type V = int;

    open spec fn view(&self) -> int {
        self.id as int
    }
}

impl View for TypeHead {
    type V = Head;

    open spec fn view(&self) -> Head {
        match self {
            TypeHead::TypeVariable(v) => Head::Var(v.id as int),
            TypeHead::TypeOperator(op) => Head::Op(op.name@),
        }
    }
}

/// The model of a type.
pub open spec fn type_model(t: Type) -> Ty
    decreases t,
{
    Ty {
        head: t.typ@,
        args: Seq::new(
            t.types@.len(),
            |i: int|
                if 0 <= i < t.types@.len() {
                    type_model(t.types@[i])
                } else {
                    Ty::var(0)
                },
        ),
    }
}

impl View for Type {
    type V = Ty;

    open spec fn view(&self) -> Ty {
        type_model(*self)
    }
}

/// The arguments of a type's view are the views of its arguments.
pub broadcast proof fn lemma_type_view(t: Type)
    ensures
        (#[trigger] t@).args == seq_view(t.types@),
        t@.head == t.typ@,
{
    assert(t@.args =~= seq_view(t.types@));
}

impl Clone for TypeVariable {
    fn clone(&self) -> (res: Self)
        ensures
            res == *self,
    {
        TypeVariable { id: self.id }
    }
}

impl Clone for TypeOperator {
    fn clone(&self) -> (res: Self)
        ensures
            res.name@ == self.name@,
    {
        TypeOperator { name: self.name.clone() }
    }
}

impl Clone for TypeHead {
    fn clone(&self) -> (res: Self)
        ensures
            res@ == self@,
    {
        match self {
            TypeHead::TypeVariable(v) => TypeHead::TypeVariable(TypeVariable { id: v.id }),
            TypeHead::TypeOperator(op) => TypeHead::TypeOperator(
                TypeOperator { name: op.name.clone() },
            ),
        }
    }
}

impl Clone for Type {
    fn clone(&self) -> (res: Self)
        ensures
            res@ == self@,
        decreases self,
    {
        let mut types: Vec<Type> = Vec::new();
        let mut i: usize = 0;
        while i < self.types.len()
            invariant
                i <= self.types.len(),
                types@.len() == i,
                forall|j: int| 0 <= j < i ==> (#[trigger] types@[j])@ == self.types@[j]@,
            decreases self.types.len() - i,
        {
            let t = self.types[i].clone();
            types.push(t);
            i += 1;
        }
        let res = Type { typ: self.typ.clone(), types };
        proof {
            assert(res@.args =~= self@.args);
        }
        res
    }
}

/// Copies a list of types.
pub fn clone_types(types: &Vec<Type>) -> (res: Vec<Type>)
    ensures
        seq_view(res@) == seq_view(types@),
{
    let mut out: Vec<Type> = Vec::new();
    let mut i: usize = 0;
    while i < types.len()
        invariant
            i <= types.len(),
            out@.len() == i,
            forall|j: int| 0 <= j < i ==> (#[trigger] out@[j])@ == types@[j]@,
        decreases types.len() - i,
    {
        out.push(types[i].clone());
        i += 1;
    }
    proof {
        assert(seq_view(out@) =~= seq_view(types@));
    }
    out
}

impl Type {
    /// A type variable without arguments.
    pub fn new_var(id: i64) -> (res: Type)
        ensures
            res@ == Ty::var(id as int),
    {
        let res = Type { typ: TypeHead::TypeVariable(TypeVariable { id }), types: Vec::new() };
        proof {
            assert(res@.args =~= Seq::<Ty>::empty());
        }
        res
    }

    /// The operator `name` applied to `types`.
    pub fn new_op(name: String, types: Vec<Type>) -> (res: Type)
        ensures
            res@ == Ty::op(name@, seq_view(types@)),
    {
        let res = Type { typ: TypeHead::TypeOperator(TypeOperator { name }), types };
        proof {
            assert(res@.args =~= seq_view(types@));
        }
        res
    }

    /// The variable at the head of this type.
    pub fn var(&self) -> (res: &TypeVariable)
        requires
            self@.is_var(),
        ensures
            res.id as int == self@.var_id(),
    {
        match &self.typ {
            TypeHead::TypeVariable(v) => v,
            TypeHead::TypeOperator(_) => {
                unreached()
            },
        }
    }

    /// The operator at the head of this type.
    pub fn op(&self) -> (res: &TypeOperator)
        requires
            !self@.is_var(),
        ensures
            res.name@ == self@.op_name(),
    {
        match &self.typ {
            TypeHead::TypeOperator(op) => op,
            TypeHead::TypeVariable(_) => {
                unreached()
            },
        }
    }

    pub fn is_variable(&self) -> (res: bool)
        ensures
            res == self@.is_var(),
    {
        match &self.typ {
            TypeHead::TypeVariable(_) => true,
            TypeHead::TypeOperator(_) => false,
        }
    }
}

impl Default for Type {
    fn default() -> (res: Type)
        ensures
            res@ == Ty::var(-1),
    {
        Type::new_var(-1)
    }
}

/// The statement that a type variable belongs to a class.
#[derive(Debug)]
pub struct Constraint {
    pub class: String,
    pub variables: Vec<TypeVariable>,
}

pub struct ConstraintModel {
    pub class: Seq<char>,
    pub variables: Seq<int>,
}

impl View for Constraint {
    type V = ConstraintModel;

    open spec fn view(&self) -> ConstraintModel {
        ConstraintModel { class: self.class@, variables: seq_view(self.variables@) }
    }
}

impl Clone for Constraint {
    fn clone(&self) -> (res: Self)
        ensures
            res@ == self@,
    {
        let mut variables: Vec<TypeVariable> = Vec::new();
        let mut i: usize = 0;
        while i < self.variables.len()
            invariant
                i <= self.variables.len(),
                variables@.len() == i,
                forall|j: int| 0 <= j < i ==> (#[trigger] variables@[j]).id == self.variables@[j].id,
            decreases self.variables.len() - i,
        {
            variables.push(TypeVariable { id: self.variables[i].id });
            i += 1;
        }
        let res = Constraint { class: self.class.clone(), variables };
        proof {
            assert(res@.variables =~= self@.variables);
        }
        res
    }
}

/// Copies a list of constraints.
pub fn clone_constraints(list: &Vec<Constraint>) -> (res: Vec<Constraint>)
    ensures
        seq_view(res@) == seq_view(list@),
{
    let mut out: Vec<Constraint> = Vec::new();
    let mut i: usize = 0;
    while i < list.len()
        invariant
            i <= list.len(),
            out@.len() == i,
            forall|j: int| 0 <= j < i ==> (#[trigger] out@[j])@ == list@[j]@,
        decreases list.len() - i,
    {
        out.push(list[i].clone());
        i += 1;
    }
    proof {
        assert(seq_view(out@) =~= seq_view(list@));
    }
    out
}

/// A declared type: `name :: context => typ`.
#[derive(Debug)]
pub struct TypeDeclaration {
    pub context: Vec<Constraint>,
    pub typ: Type,
    pub name: String,
}

pub struct DeclarationModel {
    pub context: Seq<ConstraintModel>,
    pub typ: Ty,
    pub name: Seq<char>,
}

impl View for TypeDeclaration {
    type V = DeclarationModel;

    open spec fn view(&self) -> DeclarationModel {
        DeclarationModel { context: seq_view(self.context@), typ: self.typ@, name: self.name@ }
    }
}

impl Clone for TypeDeclaration {
    fn clone(&self) -> (res: Self)
        ensures
            res@ == self@,
    {
        TypeDeclaration {
            context: clone_constraints(&self.context),
            typ: self.typ.clone(),
            name: self.name.clone(),
        }
    }
}

impl Default for TypeDeclaration {
    fn default() -> (res: TypeDeclaration)
        ensures
            res@ == (DeclarationModel {
                context: Seq::empty(),
                typ: Ty::var(-1),
                name: Seq::empty(),
            }),
    {
        let res = TypeDeclaration { context: Vec::new(), typ: Type::new_var(-1), name: String::new() };
        proof {
            assert(res@.context =~= Seq::<ConstraintModel>::empty());
        }
        res
    }
}

/// A place in the source text.
#[derive(Clone, Copy, Debug, PartialEq, Eq)]
pub struct Location {
    pub column: i64,
    pub row: i64,
    pub absolute: i64,
}

impl Location {
    /// The place of what has no place in the source text.
    pub fn eof() -> (res: Location)
        ensures
            res == (Location { column: -1i64, row: -1i64, absolute: -1i64 }),
    {
        Location { column: -1, row: -1, absolute: -1 }
    }
}

/// A value with its place in the source text.
#[derive(Debug)]
pub struct Located<T> {
    pub location: Location,
    pub node: T,
}

#[derive(Debug)]
pub enum Pattern {
    NumberPattern(i64),
    IdentifierPattern(String),
    ConstructorPattern(String, Vec<Pattern>),
}

pub enum PatternModel {
    Number(i64),
    Identifier(Seq<char>),
    Constructor(Seq<char>, Seq<PatternModel>),
}

pub open spec fn pattern_model(p: Pattern) -> PatternModel
    decreases p,
{
    match p {
        Pattern::NumberPattern(i) => PatternModel::Number(i),
        Pattern::IdentifierPattern(name) => PatternModel::Identifier(name@),
        Pattern::ConstructorPattern(name, patterns) => PatternModel::Constructor(
            name@,
            Seq::new(
                patterns@.len(),
                |i: int|
                    if 0 <= i < patterns@.len() {
                        pattern_model(patterns@[i])
                    } else {
                        PatternModel::Number(0)
                    },
            ),
        ),
    }
}

impl View for Pattern {
    type V = PatternModel;

    open spec fn view(&self) -> PatternModel {
        pattern_model(*self)
    }
}

/// The arguments of a constructor pattern's view are the views of its arguments.
pub proof fn lemma_pattern_view(p: Pattern)
    requires
        p is ConstructorPattern,
    ensures
        p@ == PatternModel::Constructor(
            p->ConstructorPattern_0@,
            seq_view(p->ConstructorPattern_1@),
        ),
{
    assert(p@->Constructor_1 =~= seq_view(p->ConstructorPattern_1@));
}

impl Clone for Pattern {
    fn clone(&self) -> (res: Self)
        ensures
            res@ == self@,
        decreases self,
    {
        match self {
            Pattern::NumberPattern(i) => Pattern::NumberPattern(*i),
            Pattern::IdentifierPattern(name) => Pattern::IdentifierPattern(name.clone()),
            Pattern::ConstructorPattern(name, patterns) => {
                let out = clone_patterns(patterns);
                let res = Pattern::ConstructorPattern(name.clone(), out);
                proof {
                    lemma_pattern_view(res);
                    lemma_pattern_view(*self);
                }
                res
            },
        }
    }
}

/// Copies a list of patterns.
pub fn clone_patterns(patterns: &Vec<Pattern>) -> (res: Vec<Pattern>)
    ensures
        seq_view(res@) == seq_view(patterns@),
    decreases patterns,
{
    let mut out: Vec<Pattern> = Vec::new();
    let mut i: usize = 0;
    while i < patterns.len()
        invariant
            i <= patterns.len(),
            out@.len() == i,
            forall|j: int| 0 <= j < i ==> (#[trigger] out@[j])@ == patterns@[j]@,
        decreases patterns.len() - i,
    {
        out.push(patterns[i].clone());
        i += 1;
    }
    proof {
        assert(seq_view(out@) =~= seq_view(patterns@));
    }
    out
}

/// An expression with its inferred type and its place in the source text.
#[derive(Debug)]
pub struct TypedExpr {
    pub expr: Expr,
    pub typ: Type,
    pub location: Location,
}

/// The forms of an expression. A rational literal is held as the bits of its
/// IEEE-754 binary64 representation.
#[derive(Debug)]
pub enum Expr {
    Identifier(String),
    Apply(Box<TypedExpr>, Box<TypedExpr>),
    Number(i64),
    Rational(u64),
    String(String),
    Char(char),
    Lambda(String, Box<TypedExpr>),
    Let(Vec<Binding>, Box<TypedExpr>),
    Case(Box<TypedExpr>, Vec<Alternative>),
}

#[derive(Debug)]
pub struct Alternative {
    pub pattern: Located<Pattern>,
    pub expression: TypedExpr,
}

/// A named expression with its number of parameters and its declared type.
#[derive(Debug)]
pub struct Binding {
    pub name: String,
    pub expression: TypedExpr,
    pub typeDecl: TypeDeclaration,
    pub arity: usize,
}

pub struct TypedExprModel {
    pub expr: ExprModel,
    pub typ: Ty,
    pub location: Location,
}

pub enum ExprModel {
    Identifier(Seq<char>),
    Apply(Box<TypedExprModel>, Box<TypedExprModel>),
    Number(i64),
    Rational(u64),
    String(Seq<char>),
    Char(char),
    Lambda(Seq<char>, Box<TypedExprModel>),
    Let(Seq<BindingModel>, Box<TypedExprModel>),
    Case(Box<TypedExprModel>, Seq<AlternativeModel>),
}

pub struct AlternativeModel {
    pub location: Location,
    pub pattern: PatternModel,
    pub expression: TypedExprModel,
}

pub struct BindingModel {
    pub name: Seq<char>,
    pub expression: TypedExprModel,
    pub decl: DeclarationModel,
    pub arity: usize,
}

pub open spec fn typed_expr_model(e: TypedExpr) -> TypedExprModel
    decreases e,
{
    TypedExprModel { expr: expr_model(e.expr), typ: e.typ@, location: e.location }
}

pub open spec fn expr_model(e: Expr) -> ExprModel
    decreases e,
{
    match e {
        Expr::Identifier(name) => ExprModel::Identifier(name@),
        Expr::Apply(func, arg) => ExprModel::Apply(
            Box::new(typed_expr_model(*func)),
            Box::new(typed_expr_model(*arg)),
        ),
        Expr::Number(i) => ExprModel::Number(i),
        Expr::Rational(d) => ExprModel::Rational(d),
        Expr::String(text) => ExprModel::String(text@),
        Expr::Char(c) => ExprModel::Char(c),
        Expr::Lambda(arg, body) => ExprModel::Lambda(arg@, Box::new(typed_expr_model(*body))),
        Expr::Let(bindings, body) => ExprModel::Let(
            Seq::new(
                bindings@.len(),
                |i: int|
                    if 0 <= i < bindings@.len() {
                        binding_model(bindings@[i])
                    } else {
                        arbitrary()
                    },
            ),
            Box::new(typed_expr_model(*body)),
        ),
        Expr::Case(scrutinee, alternatives) => ExprModel::Case(
            Box::new(typed_expr_model(*scrutinee)),
            Seq::new(
                alternatives@.len(),
                |i: int|
                    if 0 <= i < alternatives@.len() {
                        alternative_model(alternatives@[i])
                    } else {
                        arbitrary()
                    },
            ),
        ),
    }
}

pub open spec fn alternative_model(a: Alternative) -> AlternativeModel
    decreases a,
{
    AlternativeModel {
        location: a.pattern.location,
        pattern: a.pattern.node@,
        expression: typed_expr_model(a.expression),
    }
}

pub open spec fn binding_model(b: Binding) -> BindingModel
    decreases b,
{
    BindingModel {
        name: b.name@,
        expression: typed_expr_model(b.expression),
        decl: b.typeDecl@,
        arity: b.arity,
    }
}

impl View for TypedExpr {
    type V = TypedExprModel;

    open spec fn view(&self) -> TypedExprModel {
        typed_expr_model(*self)
    }
}

impl View for Alternative {
    type V = AlternativeModel;

    open spec fn view(&self) -> AlternativeModel {
        alternative_model(*self)
    }
}

impl View for Binding {
    type V = BindingModel;

    open spec fn view(&self) -> BindingModel {
        binding_model(*self)
    }
}

impl TypedExpr {
    /// An expression whose type is not known yet, without a place.
    pub fn new(expr: Expr) -> (res: TypedExpr)
        ensures
            res@ == (TypedExprModel {
                expr: expr_model(expr),
                typ: Ty::var(0),
                location: Location { column: -1i64, row: -1i64, absolute: -1i64 },
            }),
    {
        TypedExpr { expr, typ: Type::new_var(0), location: Location::eof() }
    }

    /// An expression whose type is not known yet, at `location`.
    pub fn with_location(expr: Expr, location: Location) -> (res: TypedExpr)
        ensures
            res@ == (TypedExprModel { expr: expr_model(expr), typ: Ty::var(0), location }),
    {
        TypedExpr { expr, typ: Type::new_var(0), location }
    }
}

/// Copies a list of type declarations.
pub fn clone_declarations(list: &Vec<TypeDeclaration>) -> (res: Vec<TypeDeclaration>)
    ensures
        seq_view(res@) == seq_view(list@),
{
    let mut out: Vec<TypeDeclaration> = Vec::new();
    let mut i: usize = 0;
    while i < list.len()
        invariant
            i <= list.len(),
            out@.len() == i,
            forall|j: int| 0 <= j < i ==> (#[trigger] out@[j])@ == list@[j]@,
        decreases list.len() - i,
    {
        out.push(list[i].clone());
        i += 1;
    }
    proof {
        assert(seq_view(out@) =~= seq_view(list@));
    }
    out
}

/// A constructor of a data type: its type, its tag and its number of fields.
#[derive(Debug)]
pub struct Constructor {
    pub name: String,
    pub typ: Type,
    pub tag: i64,
    pub arity: i64,
}

pub struct ConstructorModel {
    pub name: Seq<char>,
    pub typ: Ty,
    pub tag: i64,
    pub arity: i64,
}

impl View for Constructor {
    type V = ConstructorModel;

    open spec fn view(&self) -> ConstructorModel {
        ConstructorModel { name: self.name@, typ: self.typ@, tag: self.tag, arity: self.arity }
    }
}

/// A data type: its constructors, its type, and the ids of its parameters.
#[derive(Debug)]
pub struct DataDefinition {
    pub constructors: Vec<Constructor>,
    pub typ: Type,
    pub parameters: Vec<(String, i64)>,
}

pub struct DataModel {
    pub constructors: Seq<ConstructorModel>,
    pub typ: Ty,
    pub parameters: Seq<(Seq<char>, i64)>,
}

impl View for DataDefinition {
    type V = DataModel;

    open spec fn view(&self) -> DataModel {
        DataModel {
            constructors: seq_view(self.constructors@),
            typ: self.typ@,
            parameters: Seq::new(
                self.parameters@.len(),
                |i: int| (self.parameters@[i].0@, self.parameters@[i].1),
            ),
        }
    }
}

/// A type class: its name, its type variable and the declarations of its methods.
#[derive(Debug)]
pub struct Class {
    pub name: String,
    pub variable: TypeVariable,
    pub declarations: Vec<TypeDeclaration>,
}

pub struct ClassModel {
    pub name: Seq<char>,
    pub variable: int,
    pub declarations: Seq<DeclarationModel>,
}

impl View for Class {
    type V = ClassModel;

    open spec fn view(&self) -> ClassModel {
        ClassModel {
            name: self.name@,
            variable: self.variable.id as int,
            declarations: seq_view(self.declarations@),
        }
    }
}

/// An instance of a class at a type, with the bindings of its methods.
#[derive(Debug)]
pub struct Instance {
    pub bindings: Vec<Binding>,
    pub constraints: Vec<Constraint>,
    pub typ: Type,
    pub classname: String,
}

pub struct InstanceModel {
    pub bindings: Seq<BindingModel>,
    pub constraints: Seq<ConstraintModel>,
    pub typ: Ty,
    pub classname: Seq<char>,
}

impl View for Instance {
    type V = InstanceModel;

    open spec fn view(&self) -> InstanceModel {
        InstanceModel {
            bindings: seq_view(self.bindings@),
            constraints: seq_view(self.constraints@),
            typ: self.typ@,
            classname: self.classname@,
        }
    }
}

#[derive(Debug)]
pub struct Module {
    pub name: String,
    pub bindings: Vec<Binding>,
    pub typeDeclarations: Vec<TypeDeclaration>,
    pub classes: Vec<Class>,
    pub instances: Vec<Instance>,
    pub dataDefinitions: Vec<DataDefinition>,
}

pub struct ModuleModel {
    pub name: Seq<char>,
    pub bindings: Seq<BindingModel>,
    pub declarations: Seq<DeclarationModel>,
    pub classes: Seq<ClassModel>,
    pub instances: Seq<InstanceModel>,
    pub data: Seq<DataModel>,
}

impl View for Module {
    type V = ModuleModel;

    open spec fn view(&self) -> ModuleModel {
        ModuleModel {
            name: self.name@,
            bindings: seq_view(self.bindings@),
            declarations: seq_view(self.typeDeclarations@),
            classes: seq_view(self.classes@),
            instances: seq_view(self.instances@),
            data: seq_view(self.dataDefinitions@),
        }
    }
}

/// The bindings of a `let` are modelled by the views of its bindings, and the
/// alternatives of a `case` by the views of its alternatives.
pub proof fn lemma_expr_view(e: Expr)
    ensures
        e matches Expr::Let(bindings, body) ==> expr_model(e) == ExprModel::Let(
            seq_view(bindings@),
            Box::new(body@),
        ),
        e matches Expr::Case(scrutinee, alternatives) ==> expr_model(e) == ExprModel::Case(
            Box::new(scrutinee@),
            seq_view(alternatives@),
        ),
{
    match e {
        Expr::Let(bindings, body) => {
            assert(expr_model(e)->Let_0 =~= seq_view(bindings@));
        },
        Expr::Case(scrutinee, alternatives) => {
            assert(expr_model(e)->Case_1 =~= seq_view(alternatives@));
        },
        _ => {},
    }
}

impl Clone for TypedExpr {
    fn clone(&self) -> (res: Self)
        ensures
            res@ == self@,
        decreases self,
    {
        let expr = match &self.expr {
            Expr::Identifier(name) => Expr::Identifier(name.clone()),
            Expr::Apply(func, arg) => {
                let f: &TypedExpr = func;
                let a: &TypedExpr = arg;
                Expr::Apply(Box::new(f.clone()), Box::new(a.clone()))
            },
            Expr::Number(i) => Expr::Number(*i),
            Expr::Rational(d) => Expr::Rational(*d),
            Expr::String(text) => Expr::String(text.clone()),
            Expr::Char(c) => Expr::Char(*c),
            Expr::Lambda(arg, body) => {
                let b: &TypedExpr = body;
                Expr::Lambda(arg.clone(), Box::new(b.clone()))
            },
            Expr::Let(bindings, body) => {
                let b: &TypedExpr = body;
                let res = Expr::Let(clone_bindings(bindings), Box::new(b.clone()));
                proof {
                    lemma_expr_view(res);
                    lemma_expr_view(self.expr);
                }
                res
            },
            Expr::Case(scrutinee, alternatives) => {
                let s: &TypedExpr = scrutinee;
                let res = Expr::Case(Box::new(s.clone()), clone_alternatives(alternatives));
                proof {
                    lemma_expr_view(res);
                    lemma_expr_view(self.expr);
                }
                res
            },
        };
        TypedExpr { expr, typ: self.typ.clone(), location: self.location }
    }
}

impl Clone for Binding {
    fn clone(&self) -> (res: Self)
        ensures
            res@ == self@,
        decreases self,
    {
        Binding {
            name: self.name.clone(),
            expression: self.expression.clone(),
            typeDecl: self.typeDecl.clone(),
            arity: self.arity,
        }
    }
}

impl Clone for Alternative {
    fn clone(&self) -> (res: Self)
        ensures
            res@ == self@,
        decreases self,
    {
        Alternative {
            pattern: Located {
                location: self.pattern.location,
                node: self.pattern.node.clone(),
            },
            expression: self.expression.clone(),
        }
    }
}

/// Copies a list of bindings.
pub fn clone_bindings(bindings: &Vec<Binding>) -> (res: Vec<Binding>)
    ensures
        seq_view(res@) == seq_view(bindings@),
    decreases bindings,
{
    let mut out: Vec<Binding> = Vec::new();
    let mut i: usize = 0;
    while i < bindings.len()
        invariant
            i <= bindings.len(),
            out@.len() == i,
            forall|j: int| 0 <= j < i ==> (#[trigger] out@[j])@ == bindings@[j]@,
        decreases bindings.len() - i,
    {
        out.push(bindings[i].clone());
        i += 1;
    }
    proof {
        assert(seq_view(out@) =~= seq_view(bindings@));
    }
    out
}

/// Copies a list of alternatives.
pub fn clone_alternatives(alternatives: &Vec<Alternative>) -> (res: Vec<Alternative>)
    ensures
        seq_view(res@) == seq_view(alternatives@),
    decreases alternatives,
{
    let mut out: Vec<Alternative> = Vec::new();
    let mut i: usize = 0;
    while i < alternatives.len()
        invariant
            i <= alternatives.len(),
            out@.len() == i,
            forall|j: int| 0 <= j < i ==> (#[trigger] out@[j])@ == alternatives@[j]@,
        decreases alternatives.len() - i,
    {
        out.push(alternatives[i].clone());
        i += 1;
    }
    proof {
        assert(seq_view(out@) =~= seq_view(alternatives@));
    }
    out
}

/// Model of a correspondence between type variables.
pub open spec fn pairs_model(t: Seq<(i64, i64)>) -> Seq<(int, int)> {
    Seq::new(t.len(), |i: int| (t[i].0 as int, t[i].1 as int))
}

/// The correspondence between the variables of two types after their heads
/// have been compared: two operators must have the same name; two variables
/// must correspond to each other, or both to nothing yet, and from then on
/// to each other. None where the heads differ.
pub open spec fn alpha_head(fwd: Seq<(int, int)>, bwd: Seq<(int, int)>, l: Ty, r: Ty) -> Option<
    (Seq<(int, int)>, Seq<(int, int)>),
> {
    match (l.head, r.head) {
        (Head::Op(a), Head::Op(b)) => if a == b {
            Some((fwd, bwd))
        } else {
            None
        },
        (Head::Var(a), Head::Var(b)) => match (lookup(fwd, a), lookup(bwd, b)) {
            (Some(x), Some(y)) => if x == b && y == a {
                Some((fwd, bwd))
            } else {
                None
            },
            (None, None) => Some((fwd.push((a, b)), bwd.push((b, a)))),
            _ => None,
        },
        _ => None,
    }
}

/// The correspondence between the variables of `l` and `r` under which the
/// two types are the same, extending `fwd` and its inverse `bwd`; none where
/// there is no such correspondence.
pub open spec fn alpha_spec(fwd: Seq<(int, int)>, bwd: Seq<(int, int)>, l: Ty, r: Ty) -> Option<
    (Seq<(int, int)>, Seq<(int, int)>),
>
    decreases l, 1nat, 0nat,
{
    match alpha_head(fwd, bwd, l, r) {
        None => None,
        Some((f, b)) => if l.args.len() != r.args.len() {
            None
        } else {
            alpha_args(f, b, l, r, 0)
        },
    }
}

pub open spec fn alpha_args(
    fwd: Seq<(int, int)>,
    bwd: Seq<(int, int)>,
    l: Ty,
    r: Ty,
    i: nat,
) -> Option<(Seq<(int, int)>, Seq<(int, int)>)>
    decreases l, 0nat, l.args.len() - i,
{
    if i >= l.args.len() || i >= r.args.len() {
        Some((fwd, bwd))
    } else {
        match alpha_spec(fwd, bwd, l.args[i as int], r.args[i as int]) {
            None => None,
            Some((f, b)) => alpha_args(f, b, l, r, i + 1),
        }
    }
}

/// Two types are equivalent if they are the same up to the names of their
/// type variables: the variables of the one correspond one to one to those
/// of the other.
pub open spec fn equivalent(l: Ty, r: Ty) -> bool {
    alpha_spec(Seq::empty(), Seq::empty(), l, r) is Some
}

fn lookup_pair(table: &Vec<(i64, i64)>, key: i64) -> (res: Option<i64>)
    ensures
        match lookup(pairs_model(table@), key as int) {
            Some(v) => res is Some && res->Some_0 as int == v,
            None => res is None,
        },
{
    match find_var(table, key) {
        Some(i) => {
            proof {
                assert(pairs_model(table@)[i as int].0 == key);
                lemma_position_found(pairs_model(table@), key as int, i as int);
            }
            Some(table[i].1)
        },
        None => {
            proof {
                lemma_position_absent(pairs_model(table@), key as int);
            }
            None
        },
    }
}

/// Compares two types up to the names of their variables.
pub fn alpha(fwd: &mut Vec<(i64, i64)>, bwd: &mut Vec<(i64, i64)>, l: &Type, r: &Type) -> (res: bool)
    ensures
        match alpha_spec(pairs_model(old(fwd)@), pairs_model(old(bwd)@), l@, r@) {
            Some((f, b)) => res && pairs_model(final(fwd)@) == f && pairs_model(final(bwd)@) == b,
            None => !res,
        },
    decreases l,
{
    proof {
        lemma_type_view(*l);
        lemma_type_view(*r);
    }
    match (&l.typ, &r.typ) {
        (TypeHead::TypeOperator(a), TypeHead::TypeOperator(b)) => {
            if !(a.name == b.name) {
                return false;
            }
        },
        (TypeHead::TypeVariable(a), TypeHead::TypeVariable(b)) => {
            match (lookup_pair(fwd, a.id), lookup_pair(bwd, b.id)) {
                (Some(x), Some(y)) => {
                    if !(x == b.id && y == a.id) {
                        return false;
                    }
                },
                (None, None) => {
                    fwd.push((a.id, b.id));
                    bwd.push((b.id, a.id));
                    proof {
                        assert(pairs_model(fwd@) =~= pairs_model(old(fwd)@).push(
                            (a.id as int, b.id as int),
                        ));
                        assert(pairs_model(bwd@) =~= pairs_model(old(bwd)@).push(
                            (b.id as int, a.id as int),
                        ));
                    }
                },
                _ => {
                    return false;
                },
            }
        },
        _ => {
            return false;
        },
    }
    if l.types.len() != r.types.len() {
        return false;
    }
    let ghost f0 = pairs_model(fwd@);
    let ghost b0 = pairs_model(bwd@);
    let mut i: usize = 0;
    while i < l.types.len()
        invariant
            i <= l.types.len(),
            l.types@.len() == r.types@.len(),
            l@.args.len() == l.types@.len(),
            r@.args.len() == r.types@.len(),
            alpha_head(pairs_model(old(fwd)@), pairs_model(old(bwd)@), l@, r@) == Some((f0, b0)),
            alpha_args(f0, b0, l@, r@, 0) == alpha_args(
                pairs_model(fwd@),
                pairs_model(bwd@),
                l@,
                r@,
                i as nat,
            ),
        decreases l.types.len() - i,
    {
        proof {
            lemma_type_view(*l);
            lemma_type_view(*r);
            assert(l@.args[i as int] == l.types@[i as int]@);
            assert(r@.args[i as int] == r.types@[i as int]@);
        }
        if !alpha(fwd, bwd, &l.types[i], &r.types[i]) {
            return false;
        }
        i += 1;
    }
    true
}

/// Whether two types are the same up to the names of their type variables.
pub fn types_equivalent(l: &Type, r: &Type) -> (res: bool)
    ensures
        res == equivalent(l@, r@),
{
    let mut fwd: Vec<(i64, i64)> = Vec::new();
    let mut bwd: Vec<(i64, i64)> = Vec::new();
    proof {
        assert(pairs_model(fwd@) =~= Seq::empty());
        assert(pairs_model(bwd@) =~= Seq::empty());
    }
    alpha(&mut fwd, &mut bwd, l, r)
}

impl Clone for Constructor {
    fn clone(&self) -> (res: Self)
        ensures
            res@ == self@,
    {
        Constructor {
            name: self.name.clone(),
            typ: self.typ.clone(),
            tag: self.tag,
            arity: self.arity,
        }
    }
}

impl Clone for DataDefinition {
    fn clone(&self) -> (res: Self)
        ensures
            res@ == self@,
    {
        let mut constructors: Vec<Constructor> = Vec::new();
        let mut i: usize = 0;
        while i < self.constructors.len()
            invariant
                i <= self.constructors.len(),
                constructors@.len() == i,
                forall|j: int|
                    0 <= j < i ==> (#[trigger] constructors@[j])@ == self.constructors@[j]@,
            decreases self.constructors.len() - i,
        {
            constructors.push(self.constructors[i].clone());
            i += 1;
        }
        let mut parameters: Vec<(String, i64)> = Vec::new();
        let mut k: usize = 0;
        while k < self.parameters.len()
            invariant
                k <= self.parameters.len(),
                parameters@.len() == k,
                forall|j: int|
                    0 <= j < k ==> (#[trigger] parameters@[j]).0@ == self.parameters@[j].0@
                        && parameters@[j].1 == self.parameters@[j].1,
            decreases self.parameters.len() - k,
        {
            parameters.push((self.parameters[k].0.clone(), self.parameters[k].1));
            k += 1;
        }
        let res = DataDefinition { constructors, typ: self.typ.clone(), parameters };
        proof {
            assert(res@.constructors =~= self@.constructors);
            assert(res@.parameters =~= self@.parameters);
        }
        res
    }
}

impl Clone for Class {
    fn clone(&self) -> (res: Self)
        ensures
            res@ == self@,
    {
        Class {
            name: self.name.clone(),
            variable: TypeVariable { id: self.variable.id },
            declarations: clone_declarations(&self.declarations),
        }
    }
}

impl Clone for Instance {
    fn clone(&self) -> (res: Self)
        ensures
            res@ == self@,
    {
        Instance {
            bindings: clone_bindings(&self.bindings),
            constraints: clone_constraints(&self.constraints),
            typ: self.typ.clone(),
            classname: self.classname.clone(),
        }
    }
}

impl Clone for Module {
    fn clone(&self) -> (res: Self)
        ensures
            res@ == self@,
    {
        let mut classes: Vec<Class> = Vec::new();
        let mut i: usize = 0;
        while i < self.classes.len()
            invariant
                i <= self.classes.len(),
                classes@.len() == i,
                forall|j: int| 0 <= j < i ==> (#[trigger] classes@[j])@ == self.classes@[j]@,
            decreases self.classes.len() - i,
        {
            classes.push(self.classes[i].clone());
            i += 1;
        }
        let mut instances: Vec<Instance> = Vec::new();
        i = 0;
        while i < self.instances.len()
            invariant
                i <= self.instances.len(),
                instances@.len() == i,
                forall|j: int| 0 <= j < i ==> (#[trigger] instances@[j])@ == self.instances@[j]@,
            decreases self.instances.len() - i,
        {
            instances.push(self.instances[i].clone());
            i += 1;
        }
        let mut data: Vec<DataDefinition> = Vec::new();
        i = 0;
        while i < self.dataDefinitions.len()
            invariant
                i <= self.dataDefinitions.len(),
                data@.len() == i,
                forall|j: int| 0 <= j < i ==> (#[trigger] data@[j])@ == self.dataDefinitions@[j]@,
            decreases self.dataDefinitions.len() - i,
        {
            data.push(self.dataDefinitions[i].clone());
            i += 1;
        }
        let res = Module {
            name: self.name.clone(),
            bindings: clone_bindings(&self.bindings),
            typeDeclarations: clone_declarations(&self.typeDeclarations),
            classes,
            instances,
            dataDefinitions: data,
        };
        proof {
            assert(res@.classes =~= self@.classes);
            assert(res@.instances =~= self@.instances);
            assert(res@.data =~= self@.data);
        }
        res
    }
}

} // verus!
