//! Abstract syntax tree of SGA programs, and its mathematical view (the same
//! tree with names as character sequences), over which the contracts of the
//! parser, the analyzers and the code generator are stated.
use vstd::prelude::*;

verus! {

#[derive(Debug, Clone, Copy, PartialEq, Eq, Structural)]
pub enum BinOp {
    Add,
    Sub,
    Mul,
    Div,
    Mod,
    Eq,
    NotEq,
    Lt,
    Gt,
    LtEq,
    GtEq,
    And,
    Or,
}

#[derive(Debug, Clone, Copy, PartialEq, Eq, Structural)]
pub enum UnOp {
    Neg,
    Not,
}

/// A type annotation. Annotations are optional everywhere; a missing one
/// means `Any` (fully dynamic, gradual typing).
#[derive(Debug, Clone, Copy, PartialEq, Eq, Structural)]
pub enum TypeAnnotation {
    Int,
    Float,
    Bool,
    String,
    Array,
    /// The type of a closure value; its signature is not checked.
    Closure,
    Nil,
    Any,
}

/// A parameter of a named function. Without `MUT` it is an immutable borrow
/// (the body may neither reassign nor mutate it); with `MUT` a mutable one
/// (the caller must pass a `VAR`-bound argument).
#[derive(Debug, Clone, PartialEq)]
pub struct Param {
    pub name: String,
    pub ty: Option<TypeAnnotation>,
    pub mutable: bool,
}

#[derive(Debug, PartialEq)]
pub enum Expr {
    Int(i64),
    /// A float literal, kept as its source text.
    Float(String),
    Str(String),
    Bool(bool),
    Nil,
    Ident(String),
    Array(Vec<Expr>),
    Index(Box<Expr>, Box<Expr>),
    Unary(UnOp, Box<Expr>),
    Binary(BinOp, Box<Expr>, Box<Expr>),
    /// A call by name: a top-level function, a builtin, or a variable that
    /// holds a closure (told apart later, by the analyzers and the code
    /// generator).
    Call(String, Vec<Expr>),
    /// A call of any other expression: `(expr)(args)`, `f()()`, `fns[0]()`.
    CallExpr(Box<Expr>, Vec<Expr>),
    Assign(String, Box<Expr>),
    IndexAssign(Box<Expr>, Box<Expr>, Box<Expr>),
    /// `FN(a, b) { ... }` as an expression: an anonymous function that
    /// captures the visible environment by value.
    Lambda { params: Vec<String>, body: Vec<Stmt> },
    /// `TypeName { field: expr, ... }`.
    StructLit { struct_name: String, fields: Vec<(String, Expr)> },
    FieldAccess(Box<Expr>, String),
    FieldAssign(Box<Expr>, String, Box<Expr>),
    /// `obj.method(args)`: calls the top-level function `TypeName_method`
    /// with `obj` as its first argument.
    MethodCall(Box<Expr>, String, Vec<Expr>),
}

#[derive(Debug, PartialEq)]
pub enum Stmt {
    /// `LET`/`VAR`/`CONST name [: type] = expr`.
    VarDecl { name: String, value: Expr, mutable: bool, ty: Option<TypeAnnotation> },
    ExprStmt(Expr),
    Print(Vec<Expr>),
    If { cond: Expr, then_branch: Vec<Stmt>, else_branch: Option<Vec<Stmt>> },
    While { cond: Expr, body: Vec<Stmt> },
    ForIn { var: String, start: Expr, end: Expr, body: Vec<Stmt> },
    FnDecl { name: String, params: Vec<Param>, body: Vec<Stmt>, return_ty: Option<TypeAnnotation> },
    Return(Option<Expr>),
    Break,
    Continue,
    Block(Vec<Stmt>),
    /// `IMPORT "path";`, resolved before analysis.
    Import(String),
    /// `STRUCT TypeName { field1, field2, ... }`.
    StructDecl { name: String, fields: Vec<String> },
}

/// A program: its top-level statements.
pub type Program = Vec<Stmt>;

// ------------------------------------------------------------------ views

pub struct ParamV {
    pub name: Seq<char>,
    pub ty: Option<TypeAnnotation>,
    pub mutable: bool,
}

pub enum ExprV {
    Int(i64),
    Float(Seq<char>),
    Str(Seq<char>),
    Bool(bool),
    Nil,
    Ident(Seq<char>),
    Array(Seq<ExprV>),
    Index(Box<ExprV>, Box<ExprV>),
    Unary(UnOp, Box<ExprV>),
    Binary(BinOp, Box<ExprV>, Box<ExprV>),
    Call(Seq<char>, Seq<ExprV>),
    CallExpr(Box<ExprV>, Seq<ExprV>),
    Assign(Seq<char>, Box<ExprV>),
    IndexAssign(Box<ExprV>, Box<ExprV>, Box<ExprV>),
    Lambda { params: Seq<Seq<char>>, body: Seq<StmtV> },
    StructLit { struct_name: Seq<char>, fields: Seq<(Seq<char>, ExprV)> },
    FieldAccess(Box<ExprV>, Seq<char>),
    FieldAssign(Box<ExprV>, Seq<char>, Box<ExprV>),
    MethodCall(Box<ExprV>, Seq<char>, Seq<ExprV>),
}

pub enum StmtV {
    VarDecl { name: Seq<char>, value: ExprV, mutable: bool, ty: Option<TypeAnnotation> },
    ExprStmt(ExprV),
    Print(Seq<ExprV>),
    If { cond: ExprV, then_branch: Seq<StmtV>, else_branch: Option<Seq<StmtV>> },
    While { cond: ExprV, body: Seq<StmtV> },
    ForIn { var: Seq<char>, start: ExprV, end: ExprV, body: Seq<StmtV> },
    FnDecl { name: Seq<char>, params: Seq<ParamV>, body: Seq<StmtV>, return_ty: Option<TypeAnnotation> },
    Return(Option<ExprV>),
    Break,
    Continue,
    Block(Seq<StmtV>),
    Import(Seq<char>),
    StructDecl { name: Seq<char>, fields: Seq<Seq<char>> },
}

impl View for Param {
    type V = ParamV;

    open spec fn view(&self) -> ParamV {
        ParamV { name: self.name@, ty: self.ty, mutable: self.mutable }
    }
}

/// The views of a sequence of names.
pub open spec fn names_view(v: Seq<String>) -> Seq<Seq<char>> {
    v.map_values(|s: String| s@)
}

/// The views of a sequence of parameters.
pub open spec fn params_view(v: Seq<Param>) -> Seq<ParamV> {
    v.map_values(|p: Param| p@)
}

/// The view of an expression.
pub open spec fn expr_view(e: Expr) -> ExprV
    decreases e, 0nat,
{
    match e {
        Expr::Int(v) => ExprV::Int(v),
        Expr::Float(s) => ExprV::Float(s@),
        Expr::Str(s) => ExprV::Str(s@),
        Expr::Bool(b) => ExprV::Bool(b),
        Expr::Nil => ExprV::Nil,
        Expr::Ident(s) => ExprV::Ident(s@),
        Expr::Array(items) => ExprV::Array(exprs_view(items@)),
        Expr::Index(a, b) => ExprV::Index(Box::new(expr_view(*a)), Box::new(expr_view(*b))),
        Expr::Unary(op, a) => ExprV::Unary(op, Box::new(expr_view(*a))),
        Expr::Binary(op, a, b) => ExprV::Binary(op, Box::new(expr_view(*a)), Box::new(expr_view(*b))),
        Expr::Call(n, args) => ExprV::Call(n@, exprs_view(args@)),
        Expr::CallExpr(c, args) => ExprV::CallExpr(Box::new(expr_view(*c)), exprs_view(args@)),
        Expr::Assign(n, v) => ExprV::Assign(n@, Box::new(expr_view(*v))),
        Expr::IndexAssign(a, b, c) => ExprV::IndexAssign(
            Box::new(expr_view(*a)),
            Box::new(expr_view(*b)),
            Box::new(expr_view(*c)),
        ),
        Expr::Lambda { params, body } => ExprV::Lambda { params: names_view(params@), body: stmts_view(body@) },
        Expr::StructLit { struct_name, fields } => ExprV::StructLit {
            struct_name: struct_name@,
            fields: fields_view(fields@),
        },
        Expr::FieldAccess(o, f) => ExprV::FieldAccess(Box::new(expr_view(*o)), f@),
        Expr::FieldAssign(o, f, v) => ExprV::FieldAssign(Box::new(expr_view(*o)), f@, Box::new(expr_view(*v))),
        Expr::MethodCall(o, m, args) => ExprV::MethodCall(Box::new(expr_view(*o)), m@, exprs_view(args@)),
    }
}

/// The views of a sequence of expressions.
pub open spec fn exprs_view(es: Seq<Expr>) -> Seq<ExprV>
    decreases es, 0nat,
{
    if es.len() == 0 {
        Seq::empty()
    } else {
        exprs_view(es.drop_last()).push(expr_view(es.last()))
    }
}

/// The views of the fields of a struct literal.
pub open spec fn fields_view(fs: Seq<(String, Expr)>) -> Seq<(Seq<char>, ExprV)>
    decreases fs, 0nat,
{
    if fs.len() == 0 {
        Seq::empty()
    } else {
        fields_view(fs.drop_last()).push((fs.last().0@, expr_view(fs.last().1)))
    }
}

/// The view of a statement.
pub open spec fn stmt_view(s: Stmt) -> StmtV
    decreases s, 0nat,
{
    match s {
        Stmt::VarDecl { name, value, mutable, ty } => StmtV::VarDecl {
            name: name@,
            value: expr_view(value),
            mutable,
            ty,
        },
        Stmt::ExprStmt(e) => StmtV::ExprStmt(expr_view(e)),
        Stmt::Print(args) => StmtV::Print(exprs_view(args@)),
        Stmt::If { cond, then_branch, else_branch } => StmtV::If {
            cond: expr_view(cond),
            then_branch: stmts_view(then_branch@),
            else_branch: match else_branch {
                Some(b) => Some(stmts_view(b@)),
                None => None,
            },
        },
        Stmt::While { cond, body } => StmtV::While { cond: expr_view(cond), body: stmts_view(body@) },
        Stmt::ForIn { var, start, end, body } => StmtV::ForIn {
            var: var@,
            start: expr_view(start),
            end: expr_view(end),
            body: stmts_view(body@),
        },
        Stmt::FnDecl { name, params, body, return_ty } => StmtV::FnDecl {
            name: name@,
            params: params_view(params@),
            body: stmts_view(body@),
            return_ty,
        },
        Stmt::Return(e) => StmtV::Return(
            match e {
                Some(x) => Some(expr_view(x)),
                None => None,
            },
        ),
        Stmt::Break => StmtV::Break,
        Stmt::Continue => StmtV::Continue,
        Stmt::Block(b) => StmtV::Block(stmts_view(b@)),
        Stmt::Import(p) => StmtV::Import(p@),
        Stmt::StructDecl { name, fields } => StmtV::StructDecl { name: name@, fields: names_view(fields@) },
    }
}

/// The views of a sequence of statements.
pub open spec fn stmts_view(ss: Seq<Stmt>) -> Seq<StmtV>
    decreases ss, 0nat,
{
    if ss.len() == 0 {
        Seq::empty()
    } else {
        stmts_view(ss.drop_last()).push(stmt_view(ss.last()))
    }
}


/// Appending an expression appends its view.
pub proof fn lemma_exprs_view_push(es: Seq<Expr>, e: Expr)
    ensures
        exprs_view(es.push(e)) == exprs_view(es).push(expr_view(e)),
        exprs_view(Seq::<Expr>::empty()) == Seq::<ExprV>::empty(),
{
    assert(es.push(e).drop_last() =~= es);
}

/// Appending a statement appends its view.
pub proof fn lemma_stmts_view_push(ss: Seq<Stmt>, s: Stmt)
    ensures
        stmts_view(ss.push(s)) == stmts_view(ss).push(stmt_view(s)),
        stmts_view(Seq::<Stmt>::empty()) == Seq::<StmtV>::empty(),
{
    assert(ss.push(s).drop_last() =~= ss);
}

/// Appending a struct-literal field appends its view.
pub proof fn lemma_fields_view_push(fs: Seq<(String, Expr)>, f: (String, Expr))
    ensures
        fields_view(fs.push(f)) == fields_view(fs).push((f.0@, expr_view(f.1))),
        fields_view(Seq::<(String, Expr)>::empty()) == Seq::<(Seq<char>, ExprV)>::empty(),
{
    assert(fs.push(f).drop_last() =~= fs);
}

/// The view of a sequence of expressions has the same length and holds the
/// view of each one.
pub proof fn lemma_exprs_view_index(es: Seq<Expr>)
    ensures
        exprs_view(es).len() == es.len(),
        forall|i: int| 0 <= i < es.len() ==> #[trigger] exprs_view(es)[i] == expr_view(es[i]),
    decreases es.len(),
{
    if es.len() > 0 {
        lemma_exprs_view_index(es.drop_last());
    }
}

/// The view of a sequence of statements has the same length and holds the
/// view of each one.
pub proof fn lemma_stmts_view_index(ss: Seq<Stmt>)
    ensures
        stmts_view(ss).len() == ss.len(),
        forall|i: int| 0 <= i < ss.len() ==> #[trigger] stmts_view(ss)[i] == stmt_view(ss[i]),
    decreases ss.len(),
{
    if ss.len() > 0 {
        lemma_stmts_view_index(ss.drop_last());
    }
}

/// The view of the fields of a struct literal has the same length and holds
/// the view of each one.
pub proof fn lemma_fields_view_index(fs: Seq<(String, Expr)>)
    ensures
        fields_view(fs).len() == fs.len(),
        forall|i: int| 0 <= i < fs.len() ==> #[trigger] fields_view(fs)[i] == (fs[i].0@, expr_view(fs[i].1)),
    decreases fs.len(),
{
    if fs.len() > 0 {
        lemma_fields_view_index(fs.drop_last());
    }
}
} // verus!
