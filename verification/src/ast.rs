//! The abstract syntax tree of a C* module.

use vstd::prelude::*;
use crate::diagnostics::Span;

verus! {

#[derive(Debug, PartialEq)]
pub enum TypeKind {
    /// e.g. `std::Result<T, E>`: path components and generic arguments.
    Path(Vec<String>, Vec<Type>),
    /// `&T`
    Ref(Box<Type>),
    /// `[]T`
    Slice(Box<Type>),
    /// `raw *T`
    RawPtr(Box<Type>),
}

#[derive(Debug, PartialEq)]
pub struct Type {
    pub kind: TypeKind,
    pub span: Span,
}

/// A literal.  A float literal keeps its source text (digits, one `.`,
/// optional exponent), which always parses as an `f64`.
#[derive(Debug, Clone, PartialEq)]
pub enum Lit {
    Int(i64, Option<String>),
    Float(String, Option<String>),
    Str(String),
    Bool(bool),
}

#[derive(Debug, PartialEq)]
pub enum ExprKind {
    Lit(Lit),
    Ident(String),
    Path(Vec<String>),
    Binary(BinOp, Box<Expr>, Box<Expr>),
    Unary(UnOp, Box<Expr>),
    FieldAccess(Box<Expr>, String),
    MethodCall(Box<Expr>, String, Vec<Expr>),
    Call(Box<Expr>, Vec<Expr>),
    /// Path, fields (name, value)
    StructInit(Vec<String>, Vec<(String, Expr)>),
    Block(Block),
    If(Box<Expr>, Block, Option<BlockOrIf>),
    Match(Box<Expr>, Vec<MatchArm>),
    /// `expr?`
    Try(Box<Expr>),
    Index(Box<Expr>, Box<Expr>),
}

#[derive(Debug, PartialEq)]
pub struct Expr {
    pub kind: ExprKind,
    pub span: Span,
}

#[derive(Debug, Clone, Copy, PartialEq, Eq, Structural)]
pub enum BinOp {
    Add,
    Sub,
    Mul,
    Div,
    Eq,
    Ne,
    Lt,
    Gt,
    Le,
    Ge,
    And,
    Or,
}

#[derive(Debug, Clone, Copy, PartialEq, Eq, Structural)]
pub enum UnOp {
    /// `&`
    AddrOf,
    /// `*`
    Deref,
    /// `!`
    Not,
}

#[derive(Debug, PartialEq)]
pub enum BlockOrIf {
    Block(Block),
    If(Box<Expr>, Block, Option<Box<BlockOrIf>>),
}

#[derive(Debug, PartialEq)]
pub struct MatchArm {
    pub pattern: Pattern,
    pub body: Expr,
    pub span: Span,
}

#[derive(Debug, PartialEq)]
pub enum Pattern {
    Ident(String),
    /// Path, fields
    Struct(Vec<String>, Vec<(String, Pattern)>),
    /// `Path::Variant(args)`
    EnumVariant(Vec<String>, Vec<Pattern>),
    Lit(Lit),
    Underscore,
}

#[derive(Debug, PartialEq)]
pub struct Block {
    pub stmts: Vec<Stmt>,
    pub span: Span,
}

#[derive(Debug, PartialEq)]
pub enum StmtKind {
    Let { is_mut: bool, name: String, ty: Option<Type>, value: Expr },
    /// dest = src
    Assign(Expr, Expr),
    Expr(Expr),
    Return(Option<Expr>),
    While(Expr, Block),
    /// for name in iter block
    For(String, Expr, Block),
    /// raw { ... }
    Raw(Block),
}

#[derive(Debug, PartialEq)]
pub struct Stmt {
    pub kind: StmtKind,
    pub span: Span,
}

#[derive(Debug, PartialEq)]
pub struct Param {
    pub name: String,
    pub ty: Type,
    pub span: Span,
}

#[derive(Debug, PartialEq)]
pub struct FnDecl {
    pub is_pub: bool,
    pub name: String,
    pub generic_params: Vec<String>,
    pub params: Vec<Param>,
    pub ret_ty: Option<Type>,
    pub body: Block,
    pub span: Span,
}

#[derive(Debug, PartialEq)]
pub struct StructField {
    pub is_pub: bool,
    pub name: String,
    pub ty: Type,
    pub span: Span,
}

#[derive(Debug, PartialEq)]
pub struct StructDecl {
    pub is_pub: bool,
    pub name: String,
    pub generic_params: Vec<String>,
    pub fields: Vec<StructField>,
    pub span: Span,
}

#[derive(Debug, PartialEq)]
pub struct EnumVariant {
    pub name: String,
    pub types: Vec<Type>,
    pub span: Span,
}

#[derive(Debug, PartialEq)]
pub struct EnumDecl {
    pub is_pub: bool,
    pub name: String,
    pub generic_params: Vec<String>,
    pub variants: Vec<EnumVariant>,
    pub span: Span,
}

#[derive(Debug, PartialEq)]
pub struct ImplBlock {
    pub target_ty: Type,
    pub methods: Vec<FnDecl>,
    pub span: Span,
}

#[derive(Debug, PartialEq)]
pub enum Item {
    Fn(FnDecl),
    Struct(StructDecl),
    Enum(EnumDecl),
    Impl(ImplBlock),
}

#[derive(Debug, PartialEq)]
pub struct Module {
    /// Declared module name
    pub name: Option<String>,
    pub imports: Vec<Import>,
    pub items: Vec<Item>,
}

#[derive(Debug, Clone, PartialEq)]
pub struct Import {
    pub path: Vec<String>,
    pub alias: Option<String>,
    pub span: Span,
}


// ---------------------------------------------------------------------------
// Mathematical views of the syntax tree: strings become character sequences
// and vectors become sequences.
// ---------------------------------------------------------------------------

pub enum TypeKindV {
    Path(Seq<Seq<char>>, Seq<TypeV>),
    Ref(Box<TypeV>),
    Slice(Box<TypeV>),
    RawPtr(Box<TypeV>),
}

pub struct TypeV {
    pub kind: TypeKindV,
    pub span: Span,
}

pub enum LitV {
    Int(i64, Option<Seq<char>>),
    Float(Seq<char>, Option<Seq<char>>),
    Str(Seq<char>),
    Bool(bool),
}

pub enum ExprKindV {
    Lit(LitV),
    Ident(Seq<char>),
    Path(Seq<Seq<char>>),
    Binary(BinOp, Box<ExprV>, Box<ExprV>),
    Unary(UnOp, Box<ExprV>),
    FieldAccess(Box<ExprV>, Seq<char>),
    MethodCall(Box<ExprV>, Seq<char>, Seq<ExprV>),
    Call(Box<ExprV>, Seq<ExprV>),
    StructInit(Seq<Seq<char>>, Seq<(Seq<char>, ExprV)>),
    Block(BlockV),
    If(Box<ExprV>, BlockV, Option<BlockOrIfV>),
    Match(Box<ExprV>, Seq<MatchArmV>),
    Try(Box<ExprV>),
    Index(Box<ExprV>, Box<ExprV>),
}

pub struct ExprV {
    pub kind: ExprKindV,
    pub span: Span,
}

pub enum BlockOrIfV {
    Block(BlockV),
    If(Box<ExprV>, BlockV, Option<Box<BlockOrIfV>>),
}

pub struct MatchArmV {
    pub pattern: PatternV,
    pub body: ExprV,
    pub span: Span,
}

pub enum PatternV {
    Ident(Seq<char>),
    Struct(Seq<Seq<char>>, Seq<(Seq<char>, PatternV)>),
    EnumVariant(Seq<Seq<char>>, Seq<PatternV>),
    Lit(LitV),
    Underscore,
}

pub struct BlockV {
    pub stmts: Seq<StmtV>,
    pub span: Span,
}

pub enum StmtKindV {
    Let { is_mut: bool, name: Seq<char>, ty: Option<TypeV>, value: ExprV },
    Assign(ExprV, ExprV),
    Expr(ExprV),
    Return(Option<ExprV>),
    While(ExprV, BlockV),
    For(Seq<char>, ExprV, BlockV),
    Raw(BlockV),
}

pub struct StmtV {
    pub kind: StmtKindV,
    pub span: Span,
}

/// The character sequences of a sequence of strings.
pub open spec fn strs_view(s: Seq<String>) -> Seq<Seq<char>> {
    s.map_values(|x: String| x@)
}

pub open spec fn opt_str_view(o: Option<String>) -> Option<Seq<char>> {
    match o {
        Some(x) => Some(x@),
        None => None,
    }
}

pub open spec fn lit_view(l: Lit) -> LitV {
    match l {
        Lit::Int(v, suf) => LitV::Int(v, opt_str_view(suf)),
        Lit::Float(t, suf) => LitV::Float(t@, opt_str_view(suf)),
        Lit::Str(t) => LitV::Str(t@),
        Lit::Bool(b) => LitV::Bool(b),
    }
}

pub open spec fn ty_view(t: Type) -> TypeV
    decreases t,
{
    TypeV { kind: ty_kind_view(t.kind), span: t.span }
}

pub open spec fn ty_kind_view(k: TypeKind) -> TypeKindV
    decreases k,
{
    match k {
        TypeKind::Path(p, args) => {
            proof {
                broadcast use vstd::std_specs::vec::axiom_vec_decreases_to_view;
            }
            TypeKindV::Path(strs_view(p@), tys_view(args@))
        },
        TypeKind::Ref(b) => TypeKindV::Ref(Box::new(ty_view(*b))),
        TypeKind::Slice(b) => TypeKindV::Slice(Box::new(ty_view(*b))),
        TypeKind::RawPtr(b) => TypeKindV::RawPtr(Box::new(ty_view(*b))),
    }
}

pub open spec fn tys_view(s: Seq<Type>) -> Seq<TypeV>
    decreases s,
{
    if s.len() == 0 {
        Seq::empty()
    } else {
        proof {
            broadcast use vstd::seq::axiom_seq_index_decreases, vstd::seq::axiom_seq_subrange_decreases;
        }
        seq![ty_view(s[0])] + tys_view(s.subrange(1, s.len() as int))
    }
}

pub open spec fn opt_ty_view(o: Option<Type>) -> Option<TypeV> {
    match o {
        Some(t) => Some(ty_view(t)),
        None => None,
    }
}

pub open spec fn expr_view(e: Expr) -> ExprV
    decreases e,
{
    ExprV { kind: expr_kind_view(e.kind), span: e.span }
}

pub open spec fn expr_kind_view(k: ExprKind) -> ExprKindV
    decreases k,
{
    proof {
        broadcast use vstd::std_specs::vec::axiom_vec_decreases_to_view;
    }
    match k {
        ExprKind::Lit(l) => ExprKindV::Lit(lit_view(l)),
        ExprKind::Ident(n) => ExprKindV::Ident(n@),
        ExprKind::Path(p) => ExprKindV::Path(strs_view(p@)),
        ExprKind::Binary(op, l, r) => ExprKindV::Binary(op, Box::new(expr_view(*l)), Box::new(expr_view(*r))),
        ExprKind::Unary(op, e) => ExprKindV::Unary(op, Box::new(expr_view(*e))),
        ExprKind::FieldAccess(e, f) => ExprKindV::FieldAccess(Box::new(expr_view(*e)), f@),
        ExprKind::MethodCall(e, m, args) => ExprKindV::MethodCall(Box::new(expr_view(*e)), m@, exprs_view(args@)),
        ExprKind::Call(e, args) => ExprKindV::Call(Box::new(expr_view(*e)), exprs_view(args@)),
        ExprKind::StructInit(p, fields) => ExprKindV::StructInit(strs_view(p@), field_inits_view(fields@)),
        ExprKind::Block(b) => ExprKindV::Block(block_view(b)),
        ExprKind::If(c, t, e) => ExprKindV::If(
            Box::new(expr_view(*c)),
            block_view(t),
            match e {
                Some(x) => Some(else_view(x)),
                None => None,
            },
        ),
        ExprKind::Match(c, arms) => ExprKindV::Match(Box::new(expr_view(*c)), arms_view(arms@)),
        ExprKind::Try(e) => ExprKindV::Try(Box::new(expr_view(*e))),
        ExprKind::Index(a, b) => ExprKindV::Index(Box::new(expr_view(*a)), Box::new(expr_view(*b))),
    }
}

pub open spec fn exprs_view(s: Seq<Expr>) -> Seq<ExprV>
    decreases s,
{
    if s.len() == 0 {
        Seq::empty()
    } else {
        proof {
            broadcast use vstd::seq::axiom_seq_index_decreases, vstd::seq::axiom_seq_subrange_decreases;
        }
        seq![expr_view(s[0])] + exprs_view(s.subrange(1, s.len() as int))
    }
}

pub open spec fn field_inits_view(s: Seq<(String, Expr)>) -> Seq<(Seq<char>, ExprV)>
    decreases s,
{
    if s.len() == 0 {
        Seq::empty()
    } else {
        proof {
            broadcast use vstd::seq::axiom_seq_index_decreases, vstd::seq::axiom_seq_subrange_decreases;
        }
        seq![(s[0].0@, expr_view(s[0].1))] + field_inits_view(s.subrange(1, s.len() as int))
    }
}

pub open spec fn else_view(e: BlockOrIf) -> BlockOrIfV
    decreases e,
{
    match e {
        BlockOrIf::Block(b) => BlockOrIfV::Block(block_view(b)),
        BlockOrIf::If(c, t, rest) => BlockOrIfV::If(
            Box::new(expr_view(*c)),
            block_view(t),
            match rest {
                Some(x) => Some(Box::new(else_view(*x))),
                None => None,
            },
        ),
    }
}

pub open spec fn arms_view(s: Seq<MatchArm>) -> Seq<MatchArmV>
    decreases s,
{
    if s.len() == 0 {
        Seq::empty()
    } else {
        proof {
            broadcast use vstd::seq::axiom_seq_index_decreases, vstd::seq::axiom_seq_subrange_decreases;
        }
        seq![MatchArmV { pattern: pattern_view(s[0].pattern), body: expr_view(s[0].body), span: s[0].span }]
            + arms_view(s.subrange(1, s.len() as int))
    }
}

pub open spec fn pattern_view(p: Pattern) -> PatternV
    decreases p,
{
    proof {
        broadcast use vstd::std_specs::vec::axiom_vec_decreases_to_view;
    }
    match p {
        Pattern::Ident(n) => PatternV::Ident(n@),
        Pattern::Struct(path, fields) => PatternV::Struct(strs_view(path@), field_pats_view(fields@)),
        Pattern::EnumVariant(path, args) => PatternV::EnumVariant(strs_view(path@), patterns_view(args@)),
        Pattern::Lit(l) => PatternV::Lit(lit_view(l)),
        Pattern::Underscore => PatternV::Underscore,
    }
}

pub open spec fn patterns_view(s: Seq<Pattern>) -> Seq<PatternV>
    decreases s,
{
    if s.len() == 0 {
        Seq::empty()
    } else {
        proof {
            broadcast use vstd::seq::axiom_seq_index_decreases, vstd::seq::axiom_seq_subrange_decreases;
        }
        seq![pattern_view(s[0])] + patterns_view(s.subrange(1, s.len() as int))
    }
}

pub open spec fn field_pats_view(s: Seq<(String, Pattern)>) -> Seq<(Seq<char>, PatternV)>
    decreases s,
{
    if s.len() == 0 {
        Seq::empty()
    } else {
        proof {
            broadcast use vstd::seq::axiom_seq_index_decreases, vstd::seq::axiom_seq_subrange_decreases;
        }
        seq![(s[0].0@, pattern_view(s[0].1))] + field_pats_view(s.subrange(1, s.len() as int))
    }
}

pub open spec fn block_view(b: Block) -> BlockV
    decreases b,
{
    proof {
        broadcast use vstd::std_specs::vec::axiom_vec_decreases_to_view;
    }
    BlockV { stmts: stmts_view(b.stmts@), span: b.span }
}

pub open spec fn stmts_view(s: Seq<Stmt>) -> Seq<StmtV>
    decreases s,
{
    if s.len() == 0 {
        Seq::empty()
    } else {
        proof {
            broadcast use vstd::seq::axiom_seq_index_decreases, vstd::seq::axiom_seq_subrange_decreases;
        }
        seq![stmt_view(s[0])] + stmts_view(s.subrange(1, s.len() as int))
    }
}

pub open spec fn stmt_view(s: Stmt) -> StmtV
    decreases s,
{
    StmtV { kind: stmt_kind_view(s.kind), span: s.span }
}

pub open spec fn stmt_kind_view(k: StmtKind) -> StmtKindV
    decreases k,
{
    match k {
        StmtKind::Let { is_mut, name, ty, value } => StmtKindV::Let {
            is_mut,
            name: name@,
            ty: match ty {
                Some(t) => Some(ty_view(t)),
                None => None,
            },
            value: expr_view(value),
        },
        StmtKind::Assign(l, r) => StmtKindV::Assign(expr_view(l), expr_view(r)),
        StmtKind::Expr(e) => StmtKindV::Expr(expr_view(e)),
        StmtKind::Return(v) => StmtKindV::Return(
            match v {
                Some(e) => Some(expr_view(e)),
                None => None,
            },
        ),
        StmtKind::While(c, b) => StmtKindV::While(expr_view(c), block_view(b)),
        StmtKind::For(n, it, b) => StmtKindV::For(n@, expr_view(it), block_view(b)),
        StmtKind::Raw(b) => StmtKindV::Raw(block_view(b)),
    }
}

impl View for Type {
    type V = TypeV;

    open spec fn view(&self) -> TypeV {
        ty_view(*self)
    }
}

impl View for Expr {
    type V = ExprV;

    open spec fn view(&self) -> ExprV {
        expr_view(*self)
    }
}

impl View for Block {
    type V = BlockV;

    open spec fn view(&self) -> BlockV {
        block_view(*self)
    }
}

impl View for Pattern {
    type V = PatternV;

    open spec fn view(&self) -> PatternV {
        pattern_view(*self)
    }
}

pub struct ParamV {
    pub name: Seq<char>,
    pub ty: TypeV,
    pub span: Span,
}

pub struct FnDeclV {
    pub is_pub: bool,
    pub name: Seq<char>,
    pub generic_params: Seq<Seq<char>>,
    pub params: Seq<ParamV>,
    pub ret_ty: Option<TypeV>,
    pub body: BlockV,
    pub span: Span,
}

pub open spec fn params_view(s: Seq<Param>) -> Seq<ParamV> {
    s.map_values(|p: Param| ParamV { name: p.name@, ty: ty_view(p.ty), span: p.span })
}

impl View for FnDecl {
    type V = FnDeclV;

    open spec fn view(&self) -> FnDeclV {
        FnDeclV {
            is_pub: self.is_pub,
            name: self.name@,
            generic_params: strs_view(self.generic_params@),
            params: params_view(self.params@),
            ret_ty: opt_ty_view(self.ret_ty),
            body: block_view(self.body),
            span: self.span,
        }
    }
}

} // verus!
