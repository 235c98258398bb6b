//! A recursive-descent parser with Pratt-style expressions and statement-level
//! error recovery.
//!
//! Every parsing function leaves the parser's potential (a measure of the
//! input not yet consumed) no larger than before, and strictly smaller when it
//! succeeds; this is what makes parsing terminate.  Where a syntax error would
//! leave the error-recovery loop at the same place forever (a lexer error that
//! repeats at a keyword), parsing stops with an error instead.

use vstd::prelude::*;
use crate::ast::{BinOp, Block, BlockOrIf, EnumDecl, EnumVariant, Expr, ExprKind, FnDecl, ImplBlock, Import, Item, Lit, MatchArm, Module, Param, Pattern, Stmt, StmtKind, StructDecl, StructField, Type, TypeKind, UnOp, LitV, PatternV, TypeKindV, ExprKindV, ExprV, strs_view, tys_view};
use crate::diagnostics::{Diagnostic, Span};
use crate::lexer::{debug_kind, disc, next_token_spec, potential as lex_potential, copy_opt, result_is, KindV, Lexer, Token, TokenKind, lex_all_spec, lemma_lex_ok_step, NextOutcome, LexState};
use crate::text::{append_chars, append_str, owned, string_of};

verus! {

pub struct Parser {
    lexer: Lexer,
    current_token: Token,
    peek_token: Token,
    pub diagnostics: Vec<Diagnostic>,
    filename: String,
    line: usize,
    col: usize,
}

pub open spec fn not_eof(t: Token) -> int {
    if t.kind@ is EOF { 0 } else { 1 }
}

/// The tokens that can begin an expression.
pub open spec fn starts_expr(k: KindV) -> bool {
    k is Ident || k is ColonColon || k is Int || k is Float || k is Str || k is Bool || k is LParen || k is LBrace
        || k is If || k is Match || k is Amp || k is Star || k is Bang
}

/// The tokens that continue an expression to their left: binary operators,
/// `?`, calls, field and method access, and indexing.
pub open spec fn binds(k: KindV) -> bool {
    k is Plus || k is Minus || k is Star || k is Slash || k is EqEq || k is Ne || k is Lt || k is Gt || k is Le
        || k is Ge || k is AmpAmp || k is PipePipe || k is TryOp || k is LParen || k is Dot || k is LBracket
}

/// The token kinds of a lexed stream.
pub open spec fn kinds(x: Seq<(KindV, int, int)>) -> Seq<KindV> {
    x.map_values(|e: (KindV, int, int)| e.0)
}

/// A token stream up to and including its first `EOF`.
#[verifier::opaque]
pub open spec fn trunc(t: Seq<KindV>) -> Seq<KindV>
    decreases t.len(),
{
    if t.len() == 0 {
        t
    } else if t[0] is EOF {
        seq![t[0]]
    } else {
        seq![t[0]] + trunc(t.skip(1))
    }
}

pub proof fn lemma_trunc_cons(a: KindV, x: Seq<KindV>)
    ensures
        trunc(seq![a] + x) == if a is EOF { seq![a] } else { seq![a] + trunc(x) },
{
    reveal(trunc);
    assert((seq![a] + x).skip(1) =~= x);
    assert((seq![a] + x)[0] == a);
}

/// One lexer step moves the token stream on by one.
pub proof fn lemma_toks_step(s: Seq<char>, st: LexState, cur: KindV, peek: KindV)
    requires
        lex_all_spec(s, st) is Ok,
        !(cur is EOF),
    ensures
        next_token_spec(s, st).0 is Tok,
        lex_all_spec(s, next_token_spec(s, st).1) is Ok,
        trunc(seq![cur, peek] + kinds(lex_all_spec(s, st)->Ok_0)).drop_first() == trunc(
            seq![peek, next_token_spec(s, st).0->Tok_0] + kinds(lex_all_spec(s, next_token_spec(s, st).1)->Ok_0),
        ),
{
    lemma_lex_ok_step(s, st);
    let (o, st2) = next_token_spec(s, st);
    let k = o->Tok_0;
    let x = kinds(lex_all_spec(s, st)->Ok_0);
    let y = kinds(lex_all_spec(s, st2)->Ok_0);
    assert(seq![cur, peek] + x =~= seq![cur] + (seq![peek] + x));
    lemma_trunc_cons(cur, seq![peek] + x);
    assert((seq![cur] + trunc(seq![peek] + x)).drop_first() =~= trunc(seq![peek] + x));
    assert(seq![peek, k] + y =~= seq![peek] + (seq![k] + y));
    lemma_trunc_cons(peek, x);
    lemma_trunc_cons(peek, seq![k] + y);
    lemma_trunc_cons(k, y);
    if k is EOF {
        assert(x =~= seq![k]);
        assert(seq![k] =~= seq![k] + Seq::<KindV>::empty());
        lemma_trunc_cons(k, Seq::<KindV>::empty());
    } else {
        assert(x =~= seq![k] + y);
    }
}

/// An expression of literals, variables and binary operators, spans left
/// out.
pub enum Tree {
    Leaf(LitV),
    Var(Seq<char>),
    Bin(BinOp, Box<Tree>, Box<Tree>),
}

/// The tree of an expression built of literals, variables and binary
/// operators.
pub open spec fn shape(e: ExprV) -> Option<Tree>
    decreases e,
{
    match e.kind {
        ExprKindV::Lit(l) => Some(Tree::Leaf(l)),
        ExprKindV::Ident(n) => Some(Tree::Var(n)),
        ExprKindV::Binary(op, a, b) => match (shape(*a), shape(*b)) {
            (Some(x), Some(y)) => Some(Tree::Bin(op, Box::new(x), Box::new(y))),
            _ => None,
        },
        _ => None,
    }
}

/// An operand: a literal, or a name that is not followed by `::` or `{`.
pub open spec fn atom(k: KindV, next: KindV) -> Option<Tree> {
    match k {
        KindV::Int(v, suf) => Some(Tree::Leaf(LitV::Int(v, suf))),
        KindV::Float(t, suf) => Some(Tree::Leaf(LitV::Float(t, suf))),
        KindV::Str(t) => Some(Tree::Leaf(LitV::Str(t))),
        KindV::Bool(b) => Some(Tree::Leaf(LitV::Bool(b))),
        KindV::Ident(n) => if next is ColonColon || next is LBrace {
            None
        } else {
            Some(Tree::Var(n))
        },
        _ => None,
    }
}

/// A binary operator with its left and right binding powers.
pub open spec fn binop_bp(k: KindV) -> Option<(BinOp, int, int)> {
    match k {
        KindV::Plus => Some((BinOp::Add, 50, 51)),
        KindV::Minus => Some((BinOp::Sub, 50, 51)),
        KindV::Star => Some((BinOp::Mul, 60, 61)),
        KindV::Slash => Some((BinOp::Div, 60, 61)),
        KindV::EqEq => Some((BinOp::Eq, 40, 41)),
        KindV::Ne => Some((BinOp::Ne, 40, 41)),
        KindV::Lt => Some((BinOp::Lt, 40, 41)),
        KindV::Gt => Some((BinOp::Gt, 40, 41)),
        KindV::Le => Some((BinOp::Le, 40, 41)),
        KindV::Ge => Some((BinOp::Ge, 40, 41)),
        KindV::AmpAmp => Some((BinOp::And, 30, 31)),
        KindV::PipePipe => Some((BinOp::Or, 20, 21)),
        _ => None,
    }
}

/// Precedence climbing over a token stream: the expression of operands and
/// binary operators at its start whose operators bind at least `min_bp`,
/// and the number of tokens it takes; `None` where the stream does not
/// start with such an expression followed by a token that ends it.
pub open spec fn pexpr(t: Seq<KindV>, min_bp: int) -> Option<(Tree, int)>
    decreases t.len(), 1int,
{
    if t.len() < 2 {
        None
    } else {
        match atom(t[0], t[1]) {
            None => None,
            Some(a) => match ploop(t.skip(1), min_bp, a) {
                Some((e, n)) => Some((e, n + 1)),
                None => None,
            },
        }
    }
}

/// The operators that follow the operand `lhs` in `t`.
pub open spec fn ploop(t: Seq<KindV>, min_bp: int, lhs: Tree) -> Option<(Tree, int)>
    decreases t.len(), 0int,
{
    if t.len() == 0 {
        None
    } else if !binds(t[0]) {
        Some((lhs, 0))
    } else {
        match binop_bp(t[0]) {
            None => None,
            Some((op, l, r)) => if l < min_bp {
                Some((lhs, 0))
            } else {
                match pexpr(t.skip(1), r) {
                    Some((rhs, n)) => if 0 < n < t.len() {
                        match ploop(t.skip(1 + n), min_bp, Tree::Bin(op, Box::new(lhs), Box::new(rhs))) {
                            Some((e, m)) => Some((e, 1 + n + m)),
                            None => None,
                        }
                    } else {
                        None
                    },
                    None => None,
                }
            },
        }
    }
}

/// One step of `ploop`: an operand ends the expression before a token that
/// does not bind or binds too weakly; a binary operator that binds takes the
/// expression after it as its right operand.
pub proof fn lemma_ploop_step(u: Seq<KindV>, min_bp: int, cur: Tree, res: (Tree, int))
    requires
        ploop(u, min_bp, cur) == Some(res),
    ensures
        u.len() > 0,
        !binds(u[0]) ==> res == (cur, 0int),
        binds(u[0]) ==> binop_bp(u[0]) is Some,
        binop_bp(u[0]) matches Some((op, l, rb)) && l < min_bp ==> res == (cur, 0int),
        match binop_bp(u[0]) {
            Some((op, l, rb)) => l >= min_bp ==> match pexpr(u.skip(1), rb) {
                Some((rt, n)) => 0 < n < u.len() && ploop(u.skip(1 + n), min_bp, Tree::Bin(op, Box::new(cur), Box::new(rt)))
                    == Some((res.0, res.1 - 1 - n)),
                None => false,
            },
            None => true,
        },
{
    if binds(u[0]) && binop_bp(u[0]) is Some {
        let (op, l, rb) = binop_bp(u[0])->0;
        {
            if l >= min_bp {
                assert(ploop(u, min_bp, cur) == match pexpr(u.skip(1), rb) {
                    Some((rhs, n)) => if 0 < n < u.len() {
                        match ploop(u.skip(1 + n), min_bp, Tree::Bin(op, Box::new(cur), Box::new(rhs))) {
                            Some((e, m)) => Some((e, 1 + n + m)),
                            None => None,
                        }
                    } else {
                        None
                    },
                    None => None,
                });
                let p = pexpr(u.skip(1), rb);
                assert(p is Some);
                let (rt, n) = p->0;
                assert(0 < n < u.len());
                let q = ploop(u.skip(1 + n), min_bp, Tree::Bin(op, Box::new(cur), Box::new(rt)));
                assert(q is Some);
                let (e, m) = q->0;
                assert(res == (e, 1 + n + m));
            }
        }
    }
}

/// An expression takes at least one token and stops before a token that
/// ends it.
pub proof fn lemma_pexpr_len(t: Seq<KindV>, m: int)
    ensures
        pexpr(t, m) matches Some((e, n)) ==> 0 < n < t.len(),
    decreases t.len(), 1int,
{
    if t.len() >= 2 {
        if let Some(a) = atom(t[0], t[1]) {
            lemma_ploop_len(t.skip(1), m, a);
        }
    }
}

/// The operators after an operand stop before a token that ends them.
pub proof fn lemma_ploop_len(t: Seq<KindV>, m: int, lhs: Tree)
    ensures
        ploop(t, m, lhs) matches Some((e, k)) ==> 0 <= k < t.len(),
    decreases t.len(), 0int,
{
    if t.len() > 0 && binds(t[0]) {
        if let Some((op, l, r)) = binop_bp(t[0]) {
            if l >= m {
                lemma_pexpr_len(t.skip(1), r);
                if let Some((rhs, n)) = pexpr(t.skip(1), r) {
                    if 0 < n < t.len() {
                        lemma_ploop_len(t.skip(1 + n), m, Tree::Bin(op, Box::new(lhs), Box::new(rhs)));
                    }
                }
            }
        }
    }
}

/// The precedence level of a binary operator token, from `||` (loosest)
/// through `&&`, the comparisons and `+ -`, to `* /` (tightest).
pub open spec fn prec_level(k: KindV) -> Option<int> {
    match k {
        KindV::PipePipe => Some(0),
        KindV::AmpAmp => Some(1),
        KindV::EqEq | KindV::Ne | KindV::Lt | KindV::Gt | KindV::Le | KindV::Ge => Some(2),
        KindV::Plus | KindV::Minus => Some(3),
        KindV::Star | KindV::Slash => Some(4),
        _ => None,
    }
}

/// The operator a binary operator token stands for.
pub open spec fn token_op(k: KindV) -> BinOp {
    match k {
        KindV::Plus => BinOp::Add,
        KindV::Minus => BinOp::Sub,
        KindV::Star => BinOp::Mul,
        KindV::Slash => BinOp::Div,
        KindV::EqEq => BinOp::Eq,
        KindV::Ne => BinOp::Ne,
        KindV::Lt => BinOp::Lt,
        KindV::Gt => BinOp::Gt,
        KindV::Le => BinOp::Le,
        KindV::Ge => BinOp::Ge,
        KindV::AmpAmp => BinOp::And,
        _ => BinOp::Or,
    }
}

proof fn lemma_binop_levels(k: KindV)
    requires
        prec_level(k) is Some,
    ensures
        binds(k),
        binop_bp(k) == Some((token_op(k), 20 + 10 * prec_level(k)->0, 21 + 10 * prec_level(k)->0)),
{
}

/// Binary operators group by precedence, and operators of one level group
/// to the left: for any operands `x`, `y`, `z`, binary operators `o1`,
/// `o2` and a token `end` that ends an expression, in `x o1 y o2 z` the
/// operand `y` goes to `o2` when `o2` binds tighter than `o1`, and to `o1`
/// otherwise.
pub proof fn law_precedence(x: KindV, o1: KindV, y: KindV, o2: KindV, z: KindV, end: KindV)
    requires
        prec_level(o1) is Some,
        prec_level(o2) is Some,
        atom(x, o1) is Some,
        atom(y, o2) is Some,
        atom(z, end) is Some,
        !binds(end),
    ensures
        prec_level(o2)->0 > prec_level(o1)->0 ==> pexpr(seq![x, o1, y, o2, z, end], 0) == Some((
            Tree::Bin(
                token_op(o1),
                Box::new(atom(x, o1)->0),
                Box::new(Tree::Bin(token_op(o2), Box::new(atom(y, o2)->0), Box::new(atom(z, end)->0))),
            ),
            5int,
        )),
        prec_level(o2)->0 <= prec_level(o1)->0 ==> pexpr(seq![x, o1, y, o2, z, end], 0) == Some((
            Tree::Bin(
                token_op(o2),
                Box::new(Tree::Bin(token_op(o1), Box::new(atom(x, o1)->0), Box::new(atom(y, o2)->0))),
                Box::new(atom(z, end)->0),
            ),
            5int,
        )),
{
    lemma_binop_levels(o1);
    lemma_binop_levels(o2);
    let r1 = 21 + 10 * prec_level(o1)->0;
    let r2 = 21 + 10 * prec_level(o2)->0;
    let xt = atom(x, o1)->0;
    let yt = atom(y, o2)->0;
    let zt = atom(z, end)->0;
    let ze = seq![z, end];
    assert(ze.skip(1) =~= seq![end]);
    assert(ploop(seq![end], r2, zt) == Some((zt, 0int)));
    assert(pexpr(ze, r2) == Some((zt, 1int)));
    let u3 = seq![o2, z, end];
    assert(u3.skip(1) =~= ze);
    assert(u3.skip(2) =~= seq![end]);
    let u2 = seq![y, o2, z, end];
    assert(u2.skip(1) =~= u3);
    let u1 = seq![o1, y, o2, z, end];
    assert(u1.skip(1) =~= u2);
    assert(u1.skip(2) =~= u3);
    assert(u1.skip(4) =~= seq![end]);
    let t = seq![x, o1, y, o2, z, end];
    assert(t.skip(1) =~= u1);
    if prec_level(o2)->0 > prec_level(o1)->0 {
        let b2 = Tree::Bin(token_op(o2), Box::new(yt), Box::new(zt));
        assert(ploop(seq![end], r1, b2) == Some((b2, 0int)));
        assert(ploop(u3, r1, yt) == Some((b2, 2int)));
        assert(pexpr(u2, r1) == Some((b2, 3int)));
        let w = Tree::Bin(token_op(o1), Box::new(xt), Box::new(b2));
        assert(ploop(seq![end], 0, w) == Some((w, 0int)));
        assert(ploop(u1, 0, xt) == Some((w, 4int)));
    } else {
        assert(ploop(u3, r1, yt) == Some((yt, 0int)));
        assert(pexpr(u2, r1) == Some((yt, 1int)));
        let b1 = Tree::Bin(token_op(o1), Box::new(xt), Box::new(yt));
        let w = Tree::Bin(token_op(o2), Box::new(b1), Box::new(zt));
        assert(ploop(seq![end], 0, w) == Some((w, 0int)));
        assert(ploop(u3, 0, b1) == Some((w, 2int)));
        assert(ploop(u1, 0, xt) == Some((w, 4int)));
    }
}

/// `&&` binds tighter than `||`: for any operands `x`, `y`, `z` and any
/// token `end` that ends an expression, `x || y && z` parses as
/// `x || (y && z)` and `x && y || z` as `(x && y) || z`, each taking the
/// five tokens before `end`.
pub proof fn law_and_binds_tighter_than_or(x: KindV, y: KindV, z: KindV, end: KindV)
    requires
        atom(x, KindV::PipePipe) is Some,
        atom(x, KindV::AmpAmp) is Some,
        atom(y, KindV::AmpAmp) is Some,
        atom(y, KindV::PipePipe) is Some,
        atom(z, end) is Some,
        !binds(end),
    ensures
        pexpr(seq![x, KindV::PipePipe, y, KindV::AmpAmp, z, end], 0) == Some((
            Tree::Bin(
                BinOp::Or,
                Box::new(atom(x, KindV::PipePipe)->0),
                Box::new(Tree::Bin(BinOp::And, Box::new(atom(y, KindV::AmpAmp)->0), Box::new(atom(z, end)->0))),
            ),
            5int,
        )),
        pexpr(seq![x, KindV::AmpAmp, y, KindV::PipePipe, z, end], 0) == Some((
            Tree::Bin(
                BinOp::Or,
                Box::new(Tree::Bin(BinOp::And, Box::new(atom(x, KindV::AmpAmp)->0), Box::new(atom(y, KindV::PipePipe)->0))),
                Box::new(atom(z, end)->0),
            ),
            5int,
        )),
{
    let zt = atom(z, end)->0;
    let ze = seq![z, end];
    assert(ze.skip(1) =~= seq![end]);
    assert(ploop(seq![end], 31, zt) == Some((zt, 0int)));
    assert(ploop(seq![end], 21, zt) == Some((zt, 0int)));
    assert(ploop(seq![end], 0, zt) == Some((zt, 0int)));
    assert(pexpr(ze, 31) == Some((zt, 1int)));
    assert(pexpr(ze, 21) == Some((zt, 1int)));

    // x || y && z
    let xo = atom(x, KindV::PipePipe)->0;
    let ya = atom(y, KindV::AmpAmp)->0;
    let and_yz = Tree::Bin(BinOp::And, Box::new(ya), Box::new(zt));
    let u3 = seq![KindV::AmpAmp, z, end];
    assert(u3.skip(1) =~= ze);
    assert(u3.skip(2) =~= seq![end]);
    assert(ploop(seq![end], 21, and_yz) == Some((and_yz, 0int)));
    assert(ploop(u3, 21, ya) == Some((and_yz, 2int)));
    let u2 = seq![y, KindV::AmpAmp, z, end];
    assert(u2.skip(1) =~= u3);
    assert(pexpr(u2, 21) == Some((and_yz, 3int)));
    let u1 = seq![KindV::PipePipe, y, KindV::AmpAmp, z, end];
    assert(u1.skip(1) =~= u2);
    assert(u1.skip(4) =~= seq![end]);
    let whole1 = Tree::Bin(BinOp::Or, Box::new(xo), Box::new(and_yz));
    assert(ploop(seq![end], 0, whole1) == Some((whole1, 0int)));
    assert(ploop(u1, 0, xo) == Some((whole1, 4int)));
    let t1 = seq![x, KindV::PipePipe, y, KindV::AmpAmp, z, end];
    assert(t1.skip(1) =~= u1);

    // x && y || z
    let xa = atom(x, KindV::AmpAmp)->0;
    let yo = atom(y, KindV::PipePipe)->0;
    let v3 = seq![KindV::PipePipe, z, end];
    assert(v3.skip(1) =~= ze);
    assert(v3.skip(2) =~= seq![end]);
    assert(ploop(v3, 31, yo) == Some((yo, 0int)));
    let v2 = seq![y, KindV::PipePipe, z, end];
    assert(v2.skip(1) =~= v3);
    assert(pexpr(v2, 31) == Some((yo, 1int)));
    let and_xy = Tree::Bin(BinOp::And, Box::new(xa), Box::new(yo));
    let whole2 = Tree::Bin(BinOp::Or, Box::new(and_xy), Box::new(zt));
    assert(ploop(seq![end], 0, whole2) == Some((whole2, 0int)));
    assert(ploop(v3, 0, and_xy) == Some((whole2, 2int)));
    let v1 = seq![KindV::AmpAmp, y, KindV::PipePipe, z, end];
    assert(v1.skip(1) =~= v2);
    assert(v1.skip(2) =~= v3);
    assert(ploop(v1, 0, xa) == Some((whole2, 4int)));
    let t2 = seq![x, KindV::AmpAmp, y, KindV::PipePipe, z, end];
    assert(t2.skip(1) =~= v1);
}

/// A statement of the simple forms, spans left out.
pub enum StmtShape {
    Let(Seq<char>, Tree),
    Return(Option<Tree>),
    Expr(Tree),
}

/// The statement at the start of a token stream when it has one of the
/// forms `let x = e;`, `return;`, `return e;` or `e;`, with `e` built of
/// operands and binary operators, and the number of tokens it takes.
pub open spec fn simple_stmt(t: Seq<KindV>) -> Option<(StmtShape, int)> {
    if t.len() >= 3 && t[0] is Let && t[1] is Ident && t[2] is Eq {
        match pexpr(t.skip(3), 0) {
            Some((e, n)) => if 3 + n < t.len() && t[3 + n] is Semicolon {
                Some((StmtShape::Let(t[1]->Ident_0, e), 4 + n))
            } else {
                None
            },
            None => None,
        }
    } else if t.len() >= 2 && t[0] is Return && t[1] is Semicolon {
        Some((StmtShape::Return(None), 2))
    } else if t.len() >= 1 && t[0] is Return {
        match pexpr(t.skip(1), 0) {
            Some((e, n)) => if 1 + n < t.len() && t[1 + n] is Semicolon {
                Some((StmtShape::Return(Some(e)), 2 + n))
            } else {
                None
            },
            None => None,
        }
    } else {
        match pexpr(t, 0) {
            Some((e, n)) => if n < t.len() && t[n] is Semicolon {
                Some((StmtShape::Expr(e), n + 1))
            } else {
                None
            },
            None => None,
        }
    }
}

/// The simple statements at the start of a token stream up to a `}`, and
/// the number of tokens they take.
pub open spec fn simple_stmts(t: Seq<KindV>) -> Option<(Seq<StmtShape>, int)>
    decreases t.len(),
{
    if t.len() == 0 {
        None
    } else if t[0] is RBrace {
        Some((Seq::empty(), 0))
    } else {
        match simple_stmt(t) {
            Some((sh, n)) => if 0 < n <= t.len() {
                match simple_stmts(t.skip(n)) {
                    Some((rest, m)) => Some((seq![sh] + rest, n + m)),
                    None => None,
                }
            } else {
                None
            },
            None => None,
        }
    }
}

/// The shape of a statement of the simple forms.
pub open spec fn stmt_shape(st: Stmt) -> Option<StmtShape> {
    match st.kind {
        StmtKind::Let { is_mut, name, ty, value } => if !is_mut && ty is None {
            match shape(value@) {
                Some(e) => Some(StmtShape::Let(name@, e)),
                None => None,
            }
        } else {
            None
        },
        StmtKind::Return(v) => match v {
            None => Some(StmtShape::Return(None)),
            Some(e) => match shape(e@) {
                Some(x) => Some(StmtShape::Return(Some(x))),
                None => None,
            },
        },
        StmtKind::Expr(e) => match shape(e@) {
            Some(x) => Some(StmtShape::Expr(x)),
            None => None,
        },
        _ => None,
    }
}

/// The names of a list `a, b, ...` closed by `close` at the start of a
/// token stream, and the number of tokens it takes with the closing one.
pub open spec fn ident_list(t: Seq<KindV>, close: KindV) -> Option<(Seq<Seq<char>>, int)>
    decreases t.len(),
{
    if t.len() >= 2 && t[0] is Ident && t[1] == close {
        Some((seq![t[0]->Ident_0], 2))
    } else if t.len() >= 2 && t[0] is Ident && t[1] is Comma {
        match ident_list(t.skip(2), close) {
            Some((rest, n)) => Some((seq![t[0]->Ident_0] + rest, n + 2)),
            None => None,
        }
    } else {
        None
    }
}

/// Parameters `x: T, ...` with single-name types, up to and with the
/// closing `)`, and the number of tokens they take.
pub open spec fn param_list(t: Seq<KindV>) -> Option<(Seq<(Seq<char>, Seq<char>)>, int)>
    decreases t.len(),
{
    if t.len() >= 4 && t[0] is Ident && t[1] is Colon && t[2] is Ident {
        let p = (t[0]->Ident_0, t[2]->Ident_0);
        if t[3] is RParen {
            Some((seq![p], 4))
        } else if t[3] is Comma {
            match param_list(t.skip(4)) {
                Some((rest, n)) => Some((seq![p] + rest, n + 4)),
                None => None,
            }
        } else {
            None
        }
    } else {
        None
    }
}

/// What follows an opening `(`: no parameters or a parameter list, with
/// the closing `)`.
pub open spec fn params_after_paren(t: Seq<KindV>) -> Option<(Seq<(Seq<char>, Seq<char>)>, int)> {
    if t.len() >= 1 && t[0] is RParen {
        Some((Seq::empty(), 1))
    } else {
        param_list(t)
    }
}

/// A type written as a single name.
pub open spec fn named_type(ty: crate::ast::TypeV, n: Seq<char>) -> bool {
    ty.kind matches TypeKindV::Path(parts, args) && parts == seq![n] && args.len() == 0
}

/// Parameters with the given names and single-name types.
pub open spec fn params_match(v: Seq<Param>, ps: Seq<(Seq<char>, Seq<char>)>) -> bool {
    &&& v.len() == ps.len()
    &&& forall|i: int|
        0 <= i < ps.len() ==> (#[trigger] v[i]).name@ == ps[i].0 && named_type(v[i].ty@, ps[i].1)
}

/// A function declaration of the simple forms, spans left out.
pub struct FnShape {
    pub name: Seq<char>,
    pub generics: Seq<Seq<char>>,
    pub params: Seq<(Seq<char>, Seq<char>)>,
    pub ret: Option<Seq<char>>,
    pub body: Seq<StmtShape>,
}

/// The generic parameters after a declaration's keyword and name, and where
/// the token after them stands.
pub open spec fn decl_generics(t: Seq<KindV>) -> Option<(Seq<Seq<char>>, int)> {
    if t.len() > 3 && t[2] is Lt {
        match ident_list(t.skip(3), KindV::Gt) {
            Some((g, n)) => Some((g, 3 + n)),
            None => None,
        }
    } else {
        Some((Seq::empty(), 2))
    }
}

/// The return type after the parameters at `q`, and where the body's `{`
/// stands.
pub open spec fn fn_ret(t: Seq<KindV>, q: int) -> Option<(Option<Seq<char>>, int)> {
    if 0 <= q && q + 2 < t.len() && t[q] is Arrow && t[q + 1] is Ident && t[q + 2] is LBrace {
        Some((Some(t[q + 1]->Ident_0), q + 2))
    } else if 0 <= q < t.len() && t[q] is LBrace {
        Some((None, q))
    } else {
        None
    }
}

/// `fn name<A, ...>(x: T, ...) -> R { ... }` at the start of a token
/// stream, generics and return type optional, each type a single name and
/// each statement of the simple forms; and the number of tokens it takes.
pub open spec fn simple_fn(t: Seq<KindV>) -> Option<(FnShape, int)> {
    if t.len() >= 3 && t[0] is Fn && t[1] is Ident {
        match decl_generics(t) {
            Some((gs, p)) => if p < t.len() && t[p] is LParen {
                match params_after_paren(t.skip(p + 1)) {
                    Some((ps, m)) => match fn_ret(t, p + 1 + m) {
                        Some((ret, b)) => match simple_stmts(t.skip(b + 1)) {
                            Some((body, n)) => Some((
                                FnShape { name: t[1]->Ident_0, generics: gs, params: ps, ret, body },
                                b + n + 2,
                            )),
                            None => None,
                        },
                        None => None,
                    },
                    None => None,
                }
            } else {
                None
            },
            None => None,
        }
    } else {
        None
    }
}

/// A parsed function declaration has the given shape.
pub open spec fn fn_matches(f: FnDecl, sh: FnShape) -> bool {
    &&& f.name@ == sh.name
    &&& strs_view(f.generic_params@) == sh.generics
    &&& params_match(f.params@, sh.params)
    &&& match sh.ret {
        Some(n) => f.ret_ty matches Some(ty) && named_type(ty@, n),
        None => f.ret_ty is None,
    }
    &&& f.body.stmts@.len() == sh.body.len()
    &&& forall|i: int| 0 <= i < sh.body.len() ==> stmt_shape(#[trigger] f.body.stmts@[i]) == Some(sh.body[i])
}

/// Struct fields `[pub] x: T` with single-name types, each followed by an
/// optional `,` or `;`, up to and with the closing `}`; and the number of
/// tokens they take.
pub open spec fn field_list(t: Seq<KindV>) -> Option<(Seq<(bool, Seq<char>, Seq<char>)>, int)>
    decreases t.len(),
{
    if t.len() >= 1 && t[0] is RBrace {
        Some((Seq::empty(), 1))
    } else {
        let o: int = if t.len() >= 1 && t[0] is Pub { 1 } else { 0 };
        if o + 3 < t.len() && t[o] is Ident && t[o + 1] is Colon && t[o + 2] is Ident && !(t[o + 3] is ColonColon)
            && !(t[o + 3] is Lt) {
            let f = (o == 1, t[o]->Ident_0, t[o + 2]->Ident_0);
            let next: int = if t[o + 3] is Comma || t[o + 3] is Semicolon { o + 4 } else { o + 3 };
            match field_list(t.skip(next)) {
                Some((rest, n)) => Some((seq![f] + rest, next + n)),
                None => None,
            }
        } else {
            None
        }
    }
}

/// A struct declaration of the simple forms, spans left out.
pub struct StructShape {
    pub name: Seq<char>,
    pub generics: Seq<Seq<char>>,
    pub fields: Seq<(bool, Seq<char>, Seq<char>)>,
}

/// `struct Name<A, ...> { [pub] x: T, ... }` at the start of a token
/// stream, generics optional and each type a single name; and the number
/// of tokens it takes.
pub open spec fn simple_struct(t: Seq<KindV>) -> Option<(StructShape, int)> {
    if t.len() >= 3 && t[0] is Struct && t[1] is Ident {
        match decl_generics(t) {
            Some((gs, p)) => if p < t.len() && t[p] is LBrace {
                match field_list(t.skip(p + 1)) {
                    Some((fs, m)) => Some((StructShape { name: t[1]->Ident_0, generics: gs, fields: fs }, p + 1 + m)),
                    None => None,
                }
            } else {
                None
            },
            None => None,
        }
    } else {
        None
    }
}

/// Fields with the given visibility, names and single-name types.
pub open spec fn fields_match(v: Seq<StructField>, fs: Seq<(bool, Seq<char>, Seq<char>)>) -> bool {
    &&& v.len() == fs.len()
    &&& forall|i: int|
        0 <= i < fs.len() ==> (#[trigger] v[i]).is_pub == fs[i].0 && v[i].name@ == fs[i].1 && named_type(
            v[i].ty@,
            fs[i].2,
        )
}

/// A parsed struct declaration has the given shape.
pub open spec fn struct_matches(d: StructDecl, sh: StructShape) -> bool {
    &&& d.name@ == sh.name
    &&& strs_view(d.generic_params@) == sh.generics
    &&& fields_match(d.fields@, sh.fields)
}

proof fn lemma_field_list_len(t: Seq<KindV>)
    ensures
        field_list(t) matches Some((fs, n)) ==> 1 <= n <= t.len() && t[n - 1] is RBrace,
    decreases t.len(),
{
    if !(t.len() >= 1 && t[0] is RBrace) {
        let o: int = if t.len() >= 1 && t[0] is Pub { 1 } else { 0 };
        if o + 3 < t.len() {
            lemma_field_list_len(t.skip(o + 3));
            lemma_field_list_len(t.skip(o + 4));
        }
    }
}

/// A top-level item of the simple forms, with whether it is `pub`.
pub enum ItemShape {
    Fn(bool, FnShape),
    Struct(bool, StructShape),
}

/// A function or struct declaration of the simple forms, with an optional
/// `pub`, at the start of a token stream; and the number of tokens it takes.
pub open spec fn simple_item(t: Seq<KindV>) -> Option<(ItemShape, int)> {
    let o: int = if t.len() > 0 && t[0] is Pub { 1 } else { 0 };
    match simple_fn(t.skip(o)) {
        Some((f, n)) => Some((ItemShape::Fn(o == 1, f), o + n)),
        None => match simple_struct(t.skip(o)) {
            Some((d, n)) => Some((ItemShape::Struct(o == 1, d), o + n)),
            None => None,
        },
    }
}

/// A parsed item has the given shape.
pub open spec fn item_matches(it: Item, sh: ItemShape) -> bool {
    match sh {
        ItemShape::Fn(p, f) => it matches Item::Fn(d) && d.is_pub == p && fn_matches(d, f),
        ItemShape::Struct(p, s) => it matches Item::Struct(d) && d.is_pub == p && struct_matches(d, s),
    }
}

/// Items of the simple forms up to `EOF`.
pub open spec fn simple_items(t: Seq<KindV>) -> Option<Seq<ItemShape>>
    decreases t.len(),
{
    if t.len() >= 1 && t[0] is EOF {
        Some(Seq::empty())
    } else {
        match simple_item(t) {
            Some((it, n)) => if 0 < n <= t.len() {
                match simple_items(t.skip(n)) {
                    Some(rest) => Some(seq![it] + rest),
                    None => None,
                }
            } else {
                None
            },
            None => None,
        }
    }
}

/// A module without imports whose items all have the simple forms, with an
/// optional `module name;` header: its items.
pub open spec fn simple_module(t: Seq<KindV>) -> Option<Seq<ItemShape>> {
    if t.len() >= 3 && t[0] is Module && t[1] is Ident && t[2] is Semicolon {
        simple_items(t.skip(3))
    } else {
        simple_items(t)
    }
}

proof fn lemma_ident_list_len(t: Seq<KindV>, close: KindV)
    ensures
        ident_list(t, close) matches Some((g, n)) ==> 2 <= n <= t.len() && g.len() >= 1 && t[n - 1] == close,
    decreases t.len(),
{
    if t.len() >= 2 {
        lemma_ident_list_len(t.skip(2), close);
    }
}

proof fn lemma_param_list_len(t: Seq<KindV>)
    ensures
        param_list(t) matches Some((ps, n)) ==> 4 <= n <= t.len() && ps.len() >= 1 && t[n - 1] is RParen,
    decreases t.len(),
{
    if t.len() >= 4 {
        lemma_param_list_len(t.skip(4));
    }
}

proof fn lemma_simple_stmts_len(t: Seq<KindV>)
    ensures
        simple_stmts(t) matches Some((s, n)) ==> 0 <= n < t.len() && t[n] is RBrace,
    decreases t.len(),
{
    if t.len() > 0 && !(t[0] is RBrace) {
        if let Some((sh, n)) = simple_stmt(t) {
            if 0 < n <= t.len() {
                lemma_simple_stmts_len(t.skip(n));
            }
        }
    }
}

proof fn lemma_simple_fn_len(t: Seq<KindV>)
    ensures
        simple_fn(t) matches Some((sh, n)) ==> 3 <= n <= t.len(),
{
    if simple_fn(t) is Some {
        lemma_ident_list_len(t.skip(3), KindV::Gt);
        let p = (decl_generics(t)->0).1;
        lemma_param_list_len(t.skip(p + 1));
        let m = (params_after_paren(t.skip(p + 1))->0).1;
        let b = (fn_ret(t, p + 1 + m)->0).1;
        lemma_simple_stmts_len(t.skip(b + 1));
    }
}

proof fn lemma_simple_struct_len(t: Seq<KindV>)
    ensures
        simple_struct(t) matches Some((sh, n)) ==> 3 <= n <= t.len(),
{
    if simple_struct(t) is Some {
        lemma_ident_list_len(t.skip(3), KindV::Gt);
        let p = (decl_generics(t)->0).1;
        lemma_field_list_len(t.skip(p + 1));
    }
}

proof fn lemma_simple_item_len(t: Seq<KindV>)
    ensures
        simple_item(t) matches Some((it, n)) ==> 3 <= n <= t.len(),
{
    let o: int = if t.len() > 0 && t[0] is Pub { 1 } else { 0 };
    lemma_simple_fn_len(t.skip(o));
    lemma_simple_struct_len(t.skip(o));
}

proof fn lemma_skip_skip(t: Seq<KindV>, a: int, b: int)
    requires
        0 <= a,
        0 <= b,
        a + b <= t.len(),
    ensures
        t.skip(a).skip(b) == t.skip(a + b),
{
    assert(t.skip(a).skip(b) =~= t.skip(a + b));
}

proof fn lemma_skip_drop(t: Seq<KindV>, a: int)
    requires
        0 <= a < t.len(),
    ensures
        t.skip(a).drop_first() == t.skip(a + 1),
        t.skip(a)[0] == t[a],
{
    assert(t.skip(a).drop_first() =~= t.skip(a + 1));
}

/// A module header, where there is one, is `module <name>;`: given the
/// current token, the one after it, and what the lexer reads next.
pub open spec fn header_ok(current: KindV, peek: KindV, next: NextOutcome) -> bool {
    current is Module ==> peek is Ident && next matches NextOutcome::Tok(KindV::Semicolon, _, _)
}

/// The codes of syntax errors: unexpected token, `pub` on an impl block,
/// no item where one is expected, no expression where one is expected, and
/// no pattern where one is expected.
pub open spec fn is_parse_code(c: Seq<char>) -> bool {
    c == "E0001"@ || c == "E0002"@ || c == "E0003"@ || c == "E0004"@ || c == "E0005"@
}

/// The diagnostic the parser records for an unexpected token.
pub open spec fn is_error_diag(d: Diagnostic, code: Seq<char>, file: Seq<char>) -> bool {
    &&& d.code@ == code
    &&& d.severity@ == "error"@
    &&& d.file@ == file
    &&& d.notes@.len() == 0
    &&& d.suggested_fix is None
}

fn make_span(start: Span, line: usize, col: usize) -> (s: Span)
    ensures
        s.start_line == start.start_line,
        s.start_col == start.start_col,
        s.end_line == line,
        s.end_col == col,
{
    Span::new(start.start_line, start.start_col, line, col)
}

fn ident_kind() -> (k: TokenKind)
    ensures
        k@ is Ident,
{
    TokenKind::Ident(String::new())
}

impl Parser {
    pub closed spec fn wf(&self) -> bool {
        self.lexer.wf()
    }

    /// The input not yet consumed: the lexer's potential plus the two
    /// buffered tokens that are not `EOF`.
    pub closed spec fn potential(&self) -> int {
        lex_potential(self.lexer.source(), self.lexer.state()) + not_eof(self.current_token)
            + not_eof(self.peek_token)
    }

    /// The diagnostics recorded so far.
    pub closed spec fn diags(&self) -> Seq<Diagnostic> {
        self.diagnostics@
    }

    pub closed spec fn file(&self) -> Seq<char> {
        self.filename@
    }

    /// The token under the cursor.
    pub closed spec fn current(&self) -> Token {
        self.current_token
    }

    /// The token after it.
    pub closed spec fn peeked(&self) -> Token {
        self.peek_token
    }

    /// The text being parsed.
    pub closed spec fn source(&self) -> Seq<char> {
        self.lexer.source()
    }

    /// `self` is a later state of `old`: no more input, the same file, and the
    /// diagnostics of `old` followed by new errors of this file.
    pub closed spec fn steps_from(&self, old: &Parser) -> bool {
        &&& self.wf()
        &&& 0 <= self.potential() <= old.potential()
        &&& self.file() == old.file()
        &&& old.diagnostics@.len() <= self.diagnostics@.len()
        &&& self.diagnostics@.subrange(0, old.diagnostics@.len() as int) == old.diagnostics@
        &&& forall|i: int|
            old.diagnostics@.len() <= i < self.diagnostics@.len() ==> (#[trigger] self.diagnostics@[i]).severity@
                == "error"@ && self.diagnostics@[i].file@ == self.file() && is_parse_code(self.diagnostics@[i].code@)
        &&& old.lexes_ok() ==> self.lexes_ok()
    }

    /// The rest of the input lexes without error.
    pub closed spec fn lexes_ok(&self) -> bool {
        lex_all_spec(self.lexer.source(), self.lexer.state()) is Ok
    }

    /// The tokens ahead, from the current one up to the first `EOF`, where
    /// the rest of the input lexes.
    #[verifier::opaque]
    pub closed spec fn toks(&self) -> Seq<KindV> {
        trunc(
            seq![self.current_token.kind@, self.peek_token.kind@] + kinds(
                lex_all_spec(self.lexer.source(), self.lexer.state())->Ok_0,
            ),
        )
    }

    /// The stream starts with the current token, then the one after it.
    pub proof fn lemma_toks_head(&self)
        requires
            self.lexes_ok(),
        ensures
            self.toks().len() >= 1,
            self.toks()[0] == self.current().kind@,
            !(self.current().kind@ is EOF) ==> self.toks().len() >= 2 && self.toks()[1] == self.peeked().kind@,
    {
        reveal(Parser::toks);
        let x = kinds(lex_all_spec(self.lexer.source(), self.lexer.state())->Ok_0);
        let c = self.current_token.kind@;
        let p = self.peek_token.kind@;
        assert(seq![c, p] + x =~= seq![c] + (seq![p] + x));
        lemma_trunc_cons(c, seq![p] + x);
        lemma_trunc_cons(p, x);
    }

    /// What the lexer reads next: the token after the two buffered ones.
    pub closed spec fn upcoming(&self) -> NextOutcome {
        next_token_spec(self.lexer.source(), self.lexer.state()).0
    }

    pub broadcast proof fn lemma_steps_trans(a: &Parser, b: &Parser, c: &Parser)
        requires
            #[trigger] b.steps_from(a),
            #[trigger] c.steps_from(b),
        ensures
            c.steps_from(a),
    {
        assert forall|i: int| a.diagnostics@.len() <= i < c.diagnostics@.len() implies
            (#[trigger] c.diagnostics@[i]).severity@ == "error"@ && c.diagnostics@[i].file@ == c.file()
                && is_parse_code(c.diagnostics@[i].code@) by {
            if i < b.diagnostics@.len() {
                assert(c.diagnostics@[i] == c.diagnostics@.subrange(0, b.diagnostics@.len() as int)[i]);
            }
        }
        assert(c.diagnostics@.subrange(0, a.diagnostics@.len() as int) =~= b.diagnostics@.subrange(
            0,
            a.diagnostics@.len() as int,
        ));
    }

    proof fn lemma_steps_refl(a: &Parser)
        requires
            a.wf(),
        ensures
            a.steps_from(a),
    {
        a.lexer.lemma_wf_state();
        assert(a.diagnostics@.subrange(0, a.diagnostics@.len() as int) =~= a.diagnostics@);
    }

    pub fn new(mut lexer: Lexer, filename: &str) -> (r: Result<Self, String>)
        requires
            lexer.wf(),
        ensures
            r matches Ok(p) ==> p.wf() && p.diags().len() == 0 && p.file() == filename@,
            ({
                let src = lexer.source();
                let (first, st) = next_token_spec(src, lexer.state());
                let second = next_token_spec(src, st).0;
                &&& r is Ok <==> (first is Tok && second is Tok)
                &&& r matches Ok(p) ==> result_is(Ok(p.current()), src, first) && result_is(Ok(p.peeked()), src, second)
                    && p.source() == src
                &&& r matches Err(m) ==> (if first is Fail { m@ == first->Fail_0 } else { m@ == second->Fail_0 })
            }),
            lex_all_spec(lexer.source(), lexer.state()) is Ok ==> (r matches Ok(p) && p.lexes_ok()),
    {
        proof {
            if lex_all_spec(lexer.source(), lexer.state()) is Ok {
                let st1 = next_token_spec(lexer.source(), lexer.state()).1;
                lemma_lex_ok_step(lexer.source(), lexer.state());
                lemma_lex_ok_step(lexer.source(), st1);
            }
        }
        let current_token = lexer.next_token()?;
        let peek_token = lexer.next_token()?;
        let line = lexer.line();
        let col = lexer.col();
        Ok(Parser {
            lexer,
            current_token,
            peek_token,
            diagnostics: Vec::new(),
            filename: owned(filename),
            line,
            col,
        })
    }

    /// The potential, computed.
    fn measure(&self) -> (r: u128)
        requires
            self.wf(),
        ensures
            r as int == self.potential(),
    {
        let l = self.lexer.measure();
        let a: u128 = match self.current_token.kind {
            TokenKind::EOF => 0,
            _ => 1,
        };
        let b: u128 = match self.peek_token.kind {
            TokenKind::EOF => 0,
            _ => 1,
        };
        assert(l <= 3 * (usize::MAX as int) + 1) by {
            self.lexer.lemma_wf_state();
        }
        l + a + b
    }

    fn advance(&mut self) -> (r: Result<(), String>)
        requires
            old(self).wf(),
        ensures
            final(self).steps_from(old(self)),
            final(self).diagnostics@ == old(self).diagnostics@,
            r is Ok ==> final(self).current_token == old(self).peek_token,
            r is Ok && !(old(self).current_token.kind@ is EOF) ==> final(self).potential() < old(self).potential(),
            r is Err ==> final(self).current_token == old(self).current_token && final(self).peek_token
                == old(self).peek_token,
            old(self).lexes_ok() ==> r is Ok,
            r is Ok ==> result_is(Ok(final(self).peek_token), old(self).lexer.source(), old(self).upcoming()),
            old(self).lexes_ok() && !(old(self).current_token.kind@ is EOF) ==> final(self).toks() == old(self).toks().drop_first(),
    {
        broadcast use Parser::lemma_steps_trans;
        proof {
            self.lexer.lemma_wf_state();
            crate::lexer::lemma_next_token(self.lexer.source(), self.lexer.state());
            if self.lexes_ok() {
                lemma_lex_ok_step(self.lexer.source(), self.lexer.state());
                reveal(Parser::toks);
                if !(self.current_token.kind@ is EOF) {
                    lemma_toks_step(
                        self.lexer.source(),
                        self.lexer.state(),
                        self.current_token.kind@,
                        self.peek_token.kind@,
                    );
                }
            }
        }
        let mut next = match self.lexer.next_token() {
            Ok(t) => t,
            Err(e) => {
                proof {
                    Self::lemma_steps_refl(self);
                }
                return Err(e);
            }
        };
        std::mem::swap(&mut self.peek_token, &mut next);
        self.current_token = next;
        self.line = self.lexer.line();
        self.col = self.lexer.col();
        proof {
            Self::lemma_steps_refl(self);
            reveal(Parser::toks);
        }
        Ok(())
    }

    fn check(&self, kind: &TokenKind) -> (r: bool)
        ensures
            r == (disc(self.current_token.kind@) == disc(kind@)),
    {
        self.current_token.kind.variant() == kind.variant()
    }

    fn check_peek(&self, kind: &TokenKind) -> (r: bool)
        ensures
            r == (disc(self.peek_token.kind@) == disc(kind@)),
    {
        self.peek_token.kind.variant() == kind.variant()
    }

    fn error(&mut self, code: &str, message: String, span: Span)
        requires
            old(self).wf(),
            is_parse_code(code@),
        ensures
            final(self).wf(),
            final(self).potential() == old(self).potential(),
            final(self).file() == old(self).file(),
            final(self).current_token == old(self).current_token,
            final(self).peek_token == old(self).peek_token,
            final(self).diagnostics@.len() == old(self).diagnostics@.len() + 1,
            final(self).diagnostics@.subrange(0, old(self).diagnostics@.len() as int) == old(self).diagnostics@,
            is_error_diag(final(self).diagnostics@.last(), code@, old(self).file()),
            final(self).diagnostics@.last().message == message,
            final(self).diagnostics@.last().span == span,
            final(self).steps_from(old(self)),
    {
        broadcast use Parser::lemma_steps_trans;
        proof {
            self.lexer.lemma_wf_state();
        }
        self.diagnostics.push(Diagnostic {
            code: owned(code),
            severity: owned("error"),
            message,
            file: self.filename.clone(),
            span,
            notes: Vec::new(),
            suggested_fix: None,
        });
        assert(self.diagnostics@.subrange(0, old(self).diagnostics@.len() as int) =~= old(self).diagnostics@);
    }

    /// Consumes the current token when it has the variant of `kind`;
    /// otherwise records `E0001` and fails.
    fn expect(&mut self, kind: TokenKind) -> (r: Result<Token, String>)
        requires
            old(self).wf(),
            !(kind@ is EOF),
        ensures
            final(self).steps_from(old(self)),
            disc(old(self).current_token.kind@) == disc(kind@) && old(self).lexes_ok() ==> r is Ok,
            disc(old(self).current_token.kind@) == disc(kind@) && old(self).lexes_ok() && !(kind@ is EOF) ==> final(self).toks() == old(self).toks().drop_first(),
            disc(old(self).current_token.kind@) == disc(kind@) ==> {
                &&& final(self).diagnostics@ == old(self).diagnostics@
                &&& r matches Ok(t) ==> t == old(self).current_token && final(self).potential() < old(self).potential()
                    && final(self).current_token == old(self).peek_token
            },
            disc(old(self).current_token.kind@) != disc(kind@) ==> {
                &&& r is Err
                &&& final(self).current_token == old(self).current_token
                &&& final(self).potential() == old(self).potential()
                &&& final(self).diagnostics@.len() == old(self).diagnostics@.len() + 1
                &&& is_error_diag(final(self).diagnostics@.last(), "E0001"@, old(self).file())
                &&& final(self).diagnostics@.last().span == old(self).current_token.span
                &&& final(self).diagnostics@.last().message@ == "Expected token "@ + debug_kind(kind@)
                    + ", found "@ + debug_kind(old(self).current_token.kind@)
            },
    {
        broadcast use Parser::lemma_steps_trans;
        if self.check(&kind) {
            let tok = self.current_token.copy();
            self.advance()?;
            Ok(tok)
        } else {
            let span = self.current_token.span;
            let mut m: Vec<char> = Vec::new();
            append_str(&mut m, "Expected token ");
            let a = kind.debug_text();
            append_chars(&mut m, &a);
            append_str(&mut m, ", found ");
            let b = self.current_token.kind.debug_text();
            append_chars(&mut m, &b);
            let msg = string_of(&m);
            self.error("E0001", msg, span);
            Err(owned("Parsing error"))
        }
    }

    /// Expects an identifier and returns its name.
    fn expect_ident(&mut self) -> (r: Result<String, String>)
        requires
            old(self).wf(),
        ensures
            final(self).steps_from(old(self)),
            r is Ok ==> final(self).potential() < old(self).potential() && old(self).current_token.kind@ is Ident,
            r matches Ok(n) ==> old(self).current_token.kind@ == KindV::Ident(n@),
            r is Ok ==> final(self).current_token == old(self).peek_token,
            old(self).lexes_ok() && old(self).current_token.kind@ is Ident ==> r is Ok && final(self).toks() == old(self).toks().drop_first() && final(self).diagnostics@ == old(self).diagnostics@,
    {
        broadcast use Parser::lemma_steps_trans;
        let tok = self.expect(ident_kind())?;
        match tok.kind {
            TokenKind::Ident(n) => Ok(n),
            _ => {
                proof {
                    assert(false);
                }
                Err(owned("Parsing error"))
            }
        }
    }

    fn recover_to_stmt_boundary(&mut self) -> (r: Result<(), String>)
        requires
            old(self).wf(),
        ensures
            old(self).lexes_ok() ==> r is Ok,
            final(self).steps_from(old(self)),
            final(self).diagnostics@ == old(self).diagnostics@,
    {
        broadcast use Parser::lemma_steps_trans;
        proof {
            Self::lemma_steps_refl(self);
        }
        loop
            invariant
                self.steps_from(old(self)),
                self.diagnostics@ == old(self).diagnostics@,
            decreases self.potential(),
        {
            broadcast use Parser::lemma_steps_trans;
            let ghost before = *self;
            match self.current_token.kind {
                TokenKind::Semicolon | TokenKind::EOF => {
                    self.advance()?;
                    proof {
                        Self::lemma_steps_trans(old(self), &before, self);
                    }
                    break;
                }
                TokenKind::Let | TokenKind::Return | TokenKind::If | TokenKind::While | TokenKind::For
                | TokenKind::Pub | TokenKind::Fn | TokenKind::Struct | TokenKind::Enum
                | TokenKind::Impl => {
                    break;
                }
                _ => {
                    assert(!(before.current_token.kind@ is EOF));
                    self.advance()?;
                    assert(self.potential() < before.potential());
                    proof {
                        Self::lemma_steps_trans(old(self), &before, self);
                    }
                }
            }
        }
        Ok(())
    }
}


impl Parser {
    /// Parses a whole module: an optional `module` declaration, imports and
    /// items.  Items and imports with syntax errors are recorded as
    /// diagnostics and skipped up to the next statement boundary.
    pub fn parse_module(&mut self) -> (r: Result<Module, String>)
        requires
            old(self).wf(),
        ensures
            final(self).wf(),
            final(self).file() == old(self).file(),
            old(self).diags().len() <= final(self).diags().len(),
            final(self).diags().subrange(0, old(self).diags().len() as int) == old(self).diags(),
            forall|i: int|
                old(self).diags().len() <= i < final(self).diags().len() ==> (#[trigger] final(self).diags()[i]).severity@
                    == "error"@ && final(self).diags()[i].file@ == old(self).file() && is_parse_code(
                    final(self).diags()[i].code@,
                ),
            r matches Ok(m) ==> final(self).current().kind@ is EOF,
            r matches Ok(m) ==> (m.name is Some <==> old(self).current().kind@ is Module),
            r matches Ok(m) ==> (m.name matches Some(n) ==> old(self).peeked().kind@ == KindV::Ident(n@)),
            old(self).lexes_ok() && header_ok(old(self).current().kind@, old(self).peeked().kind@, old(self).upcoming())
                ==> r is Ok,
            old(self).lexes_ok() ==> match simple_module(old(self).toks()) {
                Some(its) => r matches Ok(m) && m.imports@.len() == 0 && m.items@.len() == its.len() && (forall|i: int|
                    0 <= i < its.len() ==> item_matches(#[trigger] m.items@[i], its[i])) && final(self).diags()
                    == old(self).diags(),
                None => true,
            },
    {
        proof {
            Self::lemma_steps_refl(self);
        }
        let r = self.parse_module_inner();
        r
    }

    #[verifier::rlimit(80)]
    #[verifier::spinoff_prover]
    fn parse_module_inner(&mut self) -> (r: Result<Module, String>)
        requires
            old(self).wf(),
        ensures
            final(self).steps_from(old(self)),
            r matches Ok(m) ==> final(self).current_token.kind@ is EOF,
            r matches Ok(m) ==> (m.name is Some <==> old(self).current_token.kind@ is Module),
            r matches Ok(m) ==> (m.name matches Some(n) ==> old(self).peek_token.kind@ == KindV::Ident(n@)),
            old(self).lexes_ok() && header_ok(old(self).current_token.kind@, old(self).peek_token.kind@, old(self).upcoming()) ==> r is Ok,
            old(self).lexes_ok() ==> match simple_module(old(self).toks()) {
                Some(its) => r matches Ok(m) && m.imports@.len() == 0 && m.items@.len() == its.len() && (forall|i: int|
                    0 <= i < its.len() ==> item_matches(#[trigger] m.items@[i], its[i]))
                    && final(self).diagnostics@ == old(self).diagnostics@,
                None => true,
            },
    {
        broadcast use Parser::lemma_steps_trans;
        proof {
            Self::lemma_steps_refl(self);
        }
        let ghost t = self.toks();
        let ghost h: int = if t.len() >= 3 && t[0] is Module && t[1] is Ident && t[2] is Semicolon { 3 } else { 0 };
        let ghost good = self.lexes_ok() && simple_module(t) is Some;
        let ghost all = simple_module(t)->0;
        proof {
            if good {
                self.lemma_toks_head();
                lemma_skip_drop(t, 0);
                assert(t.skip(0) =~= t);
            }
        }
        let mut name = None;
        if self.check(&TokenKind::Module) {
            self.advance()?;
            proof {
                if good {
                    self.lemma_toks_head();
                    lemma_skip_drop(t, 1);
                }
            }
            let n = self.expect_ident()?;
            proof {
                if good {
                    self.lemma_toks_head();
                    lemma_skip_drop(t, 2);
                }
            }
            name = Some(n);
            self.expect(TokenKind::Semicolon)?;
        }
        let mut imports: Vec<Import> = Vec::new();
        while self.check(&TokenKind::Use)
            invariant
                self.steps_from(old(self)),
                t == old(self).toks(),
                good == (old(self).lexes_ok() && simple_module(t) is Some),
                h == (if t.len() >= 3 && t[0] is Module && t[1] is Ident && t[2] is Semicolon { 3int } else { 0int }),
                good ==> {
                    &&& self.lexes_ok()
                    &&& h < t.len()
                    &&& self.toks() == t.skip(h)
                    &&& self.diagnostics@ == old(self).diagnostics@
                    &&& imports@.len() == 0
                },
                name is Some <==> old(self).current_token.kind@ is Module,
                name matches Some(n) ==> old(self).peek_token.kind@ == KindV::Ident(n@),
            decreases self.potential(),
        {
            broadcast use Parser::lemma_steps_trans;
            proof {
                if good {
                    self.lemma_toks_head();
                    lemma_skip_drop(t, h);
                    assert(false);
                }
            }
            let before = self.measure();
            match self.parse_import() {
                Ok(imp) => imports.push(imp),
                Err(_) => {
                    self.recover_to_stmt_boundary()?;
                    if self.measure() >= before {
                        return Err(owned("Parsing error"));
                    }
                }
            }
        }
        let mut items: Vec<Item> = Vec::new();
        let ghost mut pos: int = h;
        proof {
            if good {
                assert(all.skip(0) =~= all);
            }
        }
        while !self.check(&TokenKind::EOF)
            invariant
                self.steps_from(old(self)),
                t == old(self).toks(),
                good == (old(self).lexes_ok() && simple_module(t) is Some),
                all == simple_module(t)->0,
                good ==> {
                    &&& self.lexes_ok()
                    &&& 0 <= pos < t.len()
                    &&& self.toks() == t.skip(pos)
                    &&& self.diagnostics@ == old(self).diagnostics@
                    &&& imports@.len() == 0
                    &&& items@.len() <= all.len()
                    &&& simple_items(t.skip(pos)) == Some(all.skip(items@.len() as int))
                    &&& forall|i: int| 0 <= i < items@.len() ==> item_matches(#[trigger] items@[i], all[i])
                },
                name is Some <==> old(self).current_token.kind@ is Module,
                name matches Some(n) ==> old(self).peek_token.kind@ == KindV::Ident(n@),
            decreases self.potential(),
        {
            broadcast use Parser::lemma_steps_trans;
            let ghost k = items@.len() as int;
            let ghost u = t.skip(pos);
            proof {
                if good {
                    self.lemma_toks_head();
                    lemma_skip_drop(t, pos);
                    lemma_simple_item_len(u);
                }
            }
            if self.check(&TokenKind::Semicolon) {
                proof {
                    if good {
                        assert(false);
                    }
                }
                self.advance()?;
                continue;
            }
            let before = self.measure();
            match self.parse_item() {
                Ok(item) => {
                    let ghost prev = items@;
                    items.push(item);
                    proof {
                        if good {
                            let (it, n) = simple_item(u)->0;
                            let rest = simple_items(u.skip(n))->0;
                            assert(all.skip(k) == seq![it] + rest);
                            assert(all.skip(k).len() == rest.len() + 1);
                            assert(all[k] == all.skip(k)[0]);
                            assert forall|i: int| 0 <= i < k + 1 implies item_matches(#[trigger] items@[i], all[i]) by {
                                if i < k {
                                    assert(items@[i] == prev[i]);
                                }
                            }
                            assert forall|i: int| 0 <= i < rest.len() implies all.skip(k + 1)[i] == rest[i] by {
                                assert(all.skip(k)[i + 1] == rest[i]);
                            }
                            assert(all.skip(k + 1) =~= rest);
                            lemma_skip_skip(t, pos, n);
                            pos = pos + n;
                            self.lemma_toks_head();
                        }
                    }
                },
                Err(_) => {
                    proof {
                        if good {
                            assert(false);
                        }
                    }
                    self.recover_to_stmt_boundary()?;
                    if self.measure() >= before {
                        return Err(owned("Parsing error"));
                    }
                },
            }
        }
        proof {
            if good {
                self.lemma_toks_head();
                lemma_skip_drop(t, pos);
                assert(all.skip(items@.len() as int).len() == 0);
            }
        }
        Ok(Module { name, imports, items })
    }

    fn parse_import(&mut self) -> (r: Result<Import, String>)
        requires
            old(self).wf(),
        ensures
            final(self).steps_from(old(self)),
            old(self).lexes_ok() && old(self).current_token.kind@ is Use ==> final(self).potential() < old(self).potential(),
            r is Ok ==> final(self).potential() < old(self).potential(),
    {
        broadcast use Parser::lemma_steps_trans;
        let start_span = self.current_token.span;
        self.expect(TokenKind::Use)?;
        let mut path: Vec<String> = Vec::new();
        let first = self.expect_ident()?;
        path.push(first);
        while self.check(&TokenKind::Dot) || self.check(&TokenKind::ColonColon)
            invariant
                self.steps_from(old(self)),
                self.potential() < old(self).potential(),
            decreases self.potential(),
        {
            broadcast use Parser::lemma_steps_trans;
            self.advance()?;
            let id = self.expect_ident()?;
            path.push(id);
        }
        let mut alias = None;
        if self.check(&TokenKind::As) {
            self.advance()?;
            let a = self.expect_ident()?;
            alias = Some(a);
        }
        self.expect(TokenKind::Semicolon)?;
        Ok(Import { path, alias, span: make_span(start_span, self.line, self.col) })
    }

    #[verifier::rlimit(60)]
    #[verifier::spinoff_prover]
    fn parse_item(&mut self) -> (r: Result<Item, String>)
        requires
            old(self).wf(),
        ensures
            final(self).steps_from(old(self)),
            old(self).lexes_ok() && !(old(self).current_token.kind@ is EOF) ==> final(self).potential() < old(self).potential(),
            r is Ok ==> final(self).potential() < old(self).potential(),
            ({
                let is_pub = old(self).current_token.kind@ is Pub;
                let kw = if is_pub { old(self).peek_token.kind@ } else { old(self).current_token.kind@ };
                r matches Ok(item) ==> match item {
                    Item::Fn(f) => kw is Fn && f.is_pub == is_pub && (!is_pub ==> old(self).peek_token.kind@
                        == KindV::Ident(f.name@)),
                    Item::Struct(d) => kw is Struct && d.is_pub == is_pub && (!is_pub ==> old(self).peek_token.kind@
                        == KindV::Ident(d.name@)),
                    Item::Enum(d) => kw is Enum && d.is_pub == is_pub && (!is_pub ==> old(self).peek_token.kind@
                        == KindV::Ident(d.name@)),
                    Item::Impl(_) => kw is Impl,
                }
            }),
            old(self).current_token.kind@ is Pub && old(self).peek_token.kind@ is Impl && r is Ok ==> {
                let before = old(self).diagnostics@;
                let d = final(self).diagnostics@[before.len() as int];
                &&& final(self).diagnostics@.len() > before.len()
                &&& is_error_diag(d, "E0002"@, old(self).file())
                &&& d.message@ == "impl blocks cannot be declared public"@
            },
            ({
                let k = old(self).current_token.kind@;
                !(k is Pub || k is Fn || k is Struct || k is Enum || k is Impl)
            }) ==> {
                let before = old(self).diagnostics@;
                let d = final(self).diagnostics@[before.len() as int];
                &&& r is Err
                &&& final(self).diagnostics@.len() == before.len() + 1
                &&& is_error_diag(d, "E0003"@, old(self).file())
                &&& d.message@ == "Expected fn, struct, enum, or impl, found "@ + debug_kind(old(self).current_token.kind@)
                &&& d.span == old(self).current_token.span
            },
            old(self).lexes_ok() ==> match simple_item(old(self).toks()) {
                Some((sh, n)) => r matches Ok(it) && item_matches(it, sh) && final(self).toks() == old(self).toks().skip(
                    n,
                ) && final(self).diagnostics@ == old(self).diagnostics@,
                None => true,
            },
    {
        broadcast use Parser::lemma_steps_trans;
        proof {
            Self::lemma_steps_refl(self);
        }
        let ghost t = self.toks();
        let ghost good = self.lexes_ok() && simple_item(t) is Some;
        let ghost o: int = if t.len() > 0 && t[0] is Pub { 1 } else { 0 };
        proof {
            if good {
                lemma_simple_fn_len(t.skip(o));
                lemma_simple_struct_len(t.skip(o));
                self.lemma_toks_head();
                lemma_skip_drop(t, 0);
                assert(t.skip(0) =~= t);
            }
        }
        let is_pub = if self.check(&TokenKind::Pub) {
            self.advance()?;
            true
        } else {
            false
        };
        proof {
            if good {
                self.lemma_toks_head();
                assert(self.toks() == t.skip(o));
                assert(o < t.len());
                lemma_skip_drop(t, o);
            }
        }
        if self.check(&TokenKind::Fn) {
            let f = self.parse_fn_decl(is_pub)?;
            proof {
                if good {
                    if simple_fn(t.skip(o)) is Some {
                        lemma_skip_skip(t, o, (simple_fn(t.skip(o))->0).1);
                    } else {
                        assert(false);
                    }
                }
            }
            Ok(Item::Fn(f))
        } else if self.check(&TokenKind::Struct) {
            let s = self.parse_struct_decl(is_pub)?;
            proof {
                if good {
                    assert(simple_fn(t.skip(o)) is None);
                    lemma_skip_skip(t, o, (simple_struct(t.skip(o))->0).1);
                }
            }
            Ok(Item::Struct(s))
        } else if self.check(&TokenKind::Enum) {
            let e = self.parse_enum_decl(is_pub)?;
            Ok(Item::Enum(e))
        } else if self.check(&TokenKind::Impl) {
            if is_pub {
                let span = self.current_token.span;
                self.error("E0002", owned("impl blocks cannot be declared public"), span);
            }
            let imp = self.parse_impl_block()?;
            Ok(Item::Impl(imp))
        } else {
            let span = self.current_token.span;
            let mut m: Vec<char> = Vec::new();
            append_str(&mut m, "Expected fn, struct, enum, or impl, found ");
            let d = self.current_token.kind.debug_text();
            append_chars(&mut m, &d);
            self.error("E0003", string_of(&m), span);
            self.advance()?;
            Err(owned("Invalid item"))
        }
    }

    /// `<A, B, ...>` after a declaration's name, if present.
    #[verifier::rlimit(40)]
    fn parse_generic_params(&mut self) -> (r: Result<Vec<String>, String>)
        requires
            old(self).wf(),
        ensures
            final(self).steps_from(old(self)),
            !(old(self).current_token.kind@ is Lt) ==> (r matches Ok(g) && g@.len() == 0 && *final(self) == *old(self)),
            old(self).lexes_ok() && old(self).current_token.kind@ is Lt ==> match ident_list(
                old(self).toks().skip(1),
                KindV::Gt,
            ) {
                Some((names, n)) => r matches Ok(g) && strs_view(g@) == names && final(self).toks() == old(
                    self,
                ).toks().skip(n + 1) && final(self).diagnostics@ == old(self).diagnostics@,
                None => true,
            },
    {
        broadcast use Parser::lemma_steps_trans;
        proof {
            Self::lemma_steps_refl(self);
        }
        let ghost t = self.toks();
        let ghost good = self.lexes_ok() && self.current_token.kind@ is Lt && ident_list(t.skip(1), KindV::Gt) is Some;
        let ghost all = ident_list(t.skip(1), KindV::Gt)->0;
        proof {
            if t.len() >= 1 {
                lemma_ident_list_len(t.skip(1), KindV::Gt);
            }
        }
        let mut generic_params: Vec<String> = Vec::new();
        if self.check(&TokenKind::Lt) {
            proof {
                if good {
                    self.lemma_toks_head();
                    lemma_skip_drop(t, 0);
                    assert(t.skip(0) =~= t);
                }
            }
            self.advance()?;
            let ghost mut pos: int = 1;
            proof {
                if good {
                    assert(all.0.skip(0) =~= all.0);
                    assert(strs_view(generic_params@) =~= all.0.take(0));
                }
            }
            loop
                invariant_except_break
                    good ==> {
                        &&& self.lexes_ok()
                        &&& 1 <= pos < t.len()
                        &&& self.toks() == t.skip(pos)
                        &&& self.diagnostics@ == old(self).diagnostics@
                        &&& generic_params@.len() < all.0.len()
                        &&& strs_view(generic_params@) == all.0.take(generic_params@.len() as int)
                        &&& ident_list(t.skip(pos), KindV::Gt) == Some(
                            (all.0.skip(generic_params@.len() as int), all.1 + 1 - pos),
                        )
                    },
                invariant
                    self.steps_from(old(self)),
                    t == old(self).toks(),
                    old(self).current_token.kind@ is Lt,
                    good == (old(self).lexes_ok() && old(self).current_token.kind@ is Lt && ident_list(
                        t.skip(1),
                        KindV::Gt,
                    ) is Some),
                    all == ident_list(t.skip(1), KindV::Gt)->0,
                ensures
                    self.steps_from(old(self)),
                    good ==> {
                        &&& self.lexes_ok()
                        &&& 0 < all.1 < t.len()
                        &&& self.toks() == t.skip(all.1)
                        &&& t[all.1] is Gt
                        &&& self.diagnostics@ == old(self).diagnostics@
                        &&& strs_view(generic_params@) == all.0
                    },
                decreases self.potential(),
            {
                broadcast use Parser::lemma_steps_trans;
                let ghost k = generic_params@.len() as int;
                let ghost u = t.skip(pos);
                proof {
                    if good {
                        self.lemma_toks_head();
                        lemma_skip_drop(t, pos);
                        lemma_ident_list_len(u, KindV::Gt);
                        lemma_ident_list_len(u.skip(2), KindV::Gt);
                    }
                }
                let n = self.expect_ident()?;
                let ghost prev = generic_params@;
                generic_params.push(n);
                proof {
                    if good {
                        assert(strs_view(generic_params@) =~= strs_view(prev).push(n@));
                        assert(all.0.skip(k)[0] == u[0]->Ident_0);
                        assert(all.0.take(k + 1) =~= all.0.take(k).push(all.0[k]));
                        self.lemma_toks_head();
                        lemma_skip_drop(t, pos + 1);
                    }
                }
                if self.check(&TokenKind::Comma) {
                    self.advance()?;
                    proof {
                        if good {
                            lemma_skip_skip(t, pos, 2);
                            let rest = ident_list(u.skip(2), KindV::Gt)->0;
                            assert(u[1] is Comma);
                            assert(all.0.skip(k) == seq![u[0]->Ident_0] + rest.0);
                            assert forall|i: int| 0 <= i < rest.0.len() implies all.0.skip(k + 1)[i] == rest.0[i] by {
                                assert(all.0.skip(k)[i + 1] == rest.0[i]);
                            }
                            assert(all.0.skip(k + 1) =~= rest.0);
                            pos = pos + 2;
                            lemma_skip_drop(t, pos - 1);
                        }
                    }
                } else {
                    proof {
                        if good {
                            assert(all.0.skip(k) =~= seq![u[0]->Ident_0]);
                            assert(all.0.len() == k + 1);
                            assert(all.0.take(k + 1) =~= all.0);
                        }
                    }
                    break;
                }
            }
            proof {
                if good {
                    self.lemma_toks_head();
                    lemma_skip_drop(t, all.1);
                }
            }
            self.expect(TokenKind::Gt)?;
        } else {
            proof {
                assert(strs_view(generic_params@) =~= Seq::<Seq<char>>::empty());
            }
        }
        Ok(generic_params)
    }

    /// The parameters after `(`, up to and with the closing `)`.
    #[verifier::rlimit(60)]
    fn parse_params(&mut self) -> (r: Result<Vec<Param>, String>)
        requires
            old(self).wf(),
        ensures
            final(self).steps_from(old(self)),
            r is Ok ==> final(self).potential() < old(self).potential(),
            old(self).lexes_ok() ==> match params_after_paren(old(self).toks()) {
                Some((ps, m)) => r matches Ok(v) && params_match(v@, ps) && final(self).toks() == old(
                    self,
                ).toks().skip(m) && final(self).diagnostics@ == old(self).diagnostics@,
                None => true,
            },
    {
        broadcast use Parser::lemma_steps_trans;
        proof {
            Self::lemma_steps_refl(self);
        }
        let ghost t = self.toks();
        let ghost good = self.lexes_ok() && params_after_paren(t) is Some;
        let ghost all = params_after_paren(t)->0;
        proof {
            lemma_param_list_len(t);
        }
        let mut params: Vec<Param> = Vec::new();
        let ghost mut pos: int = 0;
        proof {
            if good {
                self.lemma_toks_head();
                lemma_skip_drop(t, 0);
                assert(t.skip(0) =~= t);
            }
        }
        if !self.check(&TokenKind::RParen) {
            proof {
                if good {
                    assert(all.0.skip(0) =~= all.0);
                    assert(all.0.take(0) =~= Seq::<(Seq<char>, Seq<char>)>::empty());
                }
            }
            loop
                invariant_except_break
                    good ==> {
                        &&& self.lexes_ok()
                        &&& 0 <= pos < t.len()
                        &&& self.toks() == t.skip(pos)
                        &&& self.diagnostics@ == old(self).diagnostics@
                        &&& params@.len() < all.0.len()
                        &&& params_match(params@, all.0.take(params@.len() as int))
                        &&& param_list(t.skip(pos)) == Some((all.0.skip(params@.len() as int), all.1 - pos))
                    },
                invariant
                    self.steps_from(old(self)),
                    t == old(self).toks(),
                    good == (old(self).lexes_ok() && params_after_paren(t) is Some),
                    all == params_after_paren(t)->0,
                    good ==> !(t[0] is RParen),
                ensures
                    self.steps_from(old(self)),
                    good ==> {
                        &&& self.lexes_ok()
                        &&& 0 < all.1 <= t.len()
                        &&& self.toks() == t.skip(all.1 - 1)
                        &&& t[all.1 - 1] is RParen
                        &&& self.diagnostics@ == old(self).diagnostics@
                        &&& params_match(params@, all.0)
                    },
                decreases self.potential(),
            {
                broadcast use Parser::lemma_steps_trans;
                let ghost k = params@.len() as int;
                let ghost u = t.skip(pos);
                proof {
                    if good {
                        self.lemma_toks_head();
                        lemma_skip_drop(t, pos);
                        lemma_param_list_len(u);
                        lemma_param_list_len(u.skip(4));
                    }
                }
                let p_span = self.current_token.span;
                let is_self = match &self.current_token.kind {
                    TokenKind::Ident(n) => crate::text::str_eq(n.as_str(), "self"),
                    _ => false,
                };
                let p_name = if is_self {
                    self.advance()?;
                    owned("self")
                } else {
                    self.expect_ident()?
                };
                proof {
                    if good {
                        assert(p_name@ == u[0]->Ident_0);
                        self.lemma_toks_head();
                        lemma_skip_drop(t, pos + 1);
                    }
                }
                let p_ty = if is_self && !self.check(&TokenKind::Colon) {
                    Type { kind: TypeKind::Path(vec![owned("Self")], Vec::new()), span: p_span }
                } else {
                    self.expect(TokenKind::Colon)?;
                    proof {
                        if good {
                            self.lemma_toks_head();
                            lemma_skip_drop(t, pos + 2);
                        }
                    }
                    self.parse_type()?
                };
                let ghost prev = params@;
                params.push(Param { name: p_name, ty: p_ty, span: p_span });
                proof {
                    if good {
                        let p = (u[0]->Ident_0, u[2]->Ident_0);
                        assert(named_type(p_ty@, p.1));
                        assert(all.0.skip(k)[0] == p);
                        assert(all.0[k] == p);
                        assert forall|i: int| 0 <= i < k + 1 implies (#[trigger] params@[i]).name@ == all.0.take(
                            k + 1,
                        )[i].0 && named_type(params@[i].ty@, all.0.take(k + 1)[i].1) by {
                            if i < k {
                                assert(params@[i] == prev[i]);
                                assert(all.0.take(k + 1)[i] == all.0.take(k)[i]);
                            }
                        }
                        self.lemma_toks_head();
                        lemma_skip_drop(t, pos + 3);
                    }
                }
                if self.check(&TokenKind::Comma) {
                    self.advance()?;
                    proof {
                        if good {
                            lemma_skip_skip(t, pos, 4);
                            let rest = param_list(u.skip(4))->0;
                            assert(u[3] is Comma);
                            assert(all.0.skip(k) == seq![(u[0]->Ident_0, u[2]->Ident_0)] + rest.0);
                            assert forall|i: int| 0 <= i < rest.0.len() implies all.0.skip(k + 1)[i] == rest.0[i] by {
                                assert(all.0.skip(k)[i + 1] == rest.0[i]);
                            }
                            assert(all.0.skip(k + 1) =~= rest.0);
                            pos = pos + 4;
                            lemma_skip_drop(t, pos - 1);
                        }
                    }
                } else {
                    proof {
                        if good {
                            assert(all.0.len() == k + 1);
                            assert(all.0.take(k + 1) =~= all.0);
                        }
                    }
                    break;
                }
            }
            proof {
                if good {
                    self.lemma_toks_head();
                    lemma_skip_drop(t, all.1 - 1);
                }
            }
        } else {
            proof {
                if good {
                    assert(all.0 =~= Seq::<(Seq<char>, Seq<char>)>::empty());
                }
            }
        }
        self.expect(TokenKind::RParen)?;
        Ok(params)
    }

    #[verifier::rlimit(100)]
    #[verifier::spinoff_prover]
    fn parse_fn_decl(&mut self, is_pub: bool) -> (r: Result<FnDecl, String>)
        requires
            old(self).wf(),
        ensures
            final(self).steps_from(old(self)),
            old(self).lexes_ok() && old(self).current_token.kind@ is Fn ==> final(self).potential() < old(self).potential(),
            r is Ok ==> final(self).potential() < old(self).potential(),
            r matches Ok(d) ==> d.is_pub == is_pub && old(self).peek_token.kind@ == KindV::Ident(d.name@),
            old(self).lexes_ok() ==> match simple_fn(old(self).toks()) {
                Some((sh, n)) => r matches Ok(f) && fn_matches(f, sh) && final(self).toks() == old(self).toks().skip(n)
                    && final(self).diagnostics@ == old(self).diagnostics@,
                None => true,
            },
    {
        broadcast use Parser::lemma_steps_trans;
        let ghost t = self.toks();
        let ghost good = self.lexes_ok() && simple_fn(t) is Some;
        let ghost shn = simple_fn(t)->0;
        let ghost g = decl_generics(t)->0;
        let ghost pa = params_after_paren(t.skip(g.1 + 1))->0;
        let ghost q = g.1 + 1 + pa.1;
        let ghost rt = fn_ret(t, q)->0;
        let ghost bd = simple_stmts(t.skip(rt.1 + 1))->0;
        proof {
            if good {
                if t[2] is Lt {
                    lemma_ident_list_len(t.skip(3), KindV::Gt);
                }
                lemma_param_list_len(t.skip(g.1 + 1));
                lemma_simple_stmts_len(t.skip(rt.1 + 1));
                self.lemma_toks_head();
                lemma_skip_drop(t, 0);
                assert(t.skip(0) =~= t);
            }
        }
        let start_span = self.current_token.span;
        self.expect(TokenKind::Fn)?;
        proof {
            if good {
                self.lemma_toks_head();
                lemma_skip_drop(t, 1);
            }
        }
        let name = self.expect_ident()?;
        proof {
            if good {
                self.lemma_toks_head();
                lemma_skip_drop(t, 2);
                lemma_skip_skip(t, 2, 1);
            }
        }
        let generic_params = self.parse_generic_params()?;
        proof {
            if good {
                if t[2] is Lt {
                    lemma_skip_skip(t, 2, g.1 - 2);
                }
                self.lemma_toks_head();
                lemma_skip_drop(t, g.1);
            }
        }
        self.expect(TokenKind::LParen)?;
        let params = self.parse_params()?;
        proof {
            if good {
                lemma_skip_skip(t, g.1 + 1, pa.1);
                self.lemma_toks_head();
                lemma_skip_drop(t, q);
            }
        }
        let mut ret_ty = None;
        if self.check(&TokenKind::Arrow) {
            self.advance()?;
            proof {
                if good {
                    self.lemma_toks_head();
                    lemma_skip_drop(t, q + 1);
                }
            }
            let ty = self.parse_type()?;
            ret_ty = Some(ty);
        }
        proof {
            if good {
                self.lemma_toks_head();
                lemma_skip_drop(t, rt.1);
                lemma_skip_skip(t, rt.1, 1);
            }
        }
        let body = self.parse_block()?;
        proof {
            if good {
                lemma_skip_skip(t, rt.1, bd.1 + 2);
                assert(name@ == shn.0.name);
                assert(strs_view(generic_params@) == shn.0.generics);
                assert(params_match(params@, shn.0.params));
                assert(body.stmts@.len() == shn.0.body.len());
                assert(shn.1 == rt.1 + bd.1 + 2);
                assert(self.toks() == t.skip(shn.1));
                assert(self.diagnostics@ == old(self).diagnostics@);
            }
        }
        Ok(FnDecl {
            is_pub,
            name,
            generic_params,
            params,
            ret_ty,
            body,
            span: make_span(start_span, self.line, self.col),
        })
    }

    #[verifier::rlimit(100)]
    #[verifier::spinoff_prover]
    fn parse_struct_decl(&mut self, is_pub: bool) -> (r: Result<StructDecl, String>)
        requires
            old(self).wf(),
        ensures
            final(self).steps_from(old(self)),
            old(self).lexes_ok() && old(self).current_token.kind@ is Struct ==> final(self).potential() < old(self).potential(),
            r is Ok ==> final(self).potential() < old(self).potential(),
            r matches Ok(d) ==> d.is_pub == is_pub && old(self).peek_token.kind@ == KindV::Ident(d.name@),
            old(self).lexes_ok() ==> match simple_struct(old(self).toks()) {
                Some((sh, n)) => r matches Ok(d) && struct_matches(d, sh) && final(self).toks() == old(
                    self,
                ).toks().skip(n) && final(self).diagnostics@ == old(self).diagnostics@,
                None => true,
            },
    {
        broadcast use Parser::lemma_steps_trans;
        let ghost t = self.toks();
        let ghost good = self.lexes_ok() && simple_struct(t) is Some;
        let ghost g = decl_generics(t)->0;
        let ghost fl = field_list(t.skip(g.1 + 1))->0;
        proof {
            if good {
                if t[2] is Lt {
                    lemma_ident_list_len(t.skip(3), KindV::Gt);
                }
                lemma_field_list_len(t.skip(g.1 + 1));
                self.lemma_toks_head();
                lemma_skip_drop(t, 0);
                assert(t.skip(0) =~= t);
            }
        }
        let start_span = self.current_token.span;
        self.expect(TokenKind::Struct)?;
        proof {
            if good {
                self.lemma_toks_head();
                lemma_skip_drop(t, 1);
            }
        }
        let name = self.expect_ident()?;
        proof {
            if good {
                self.lemma_toks_head();
                lemma_skip_drop(t, 2);
                lemma_skip_skip(t, 2, 1);
            }
        }
        let generic_params = self.parse_generic_params()?;
        proof {
            if good {
                if t[2] is Lt {
                    lemma_skip_skip(t, 2, g.1 - 2);
                }
                self.lemma_toks_head();
                lemma_skip_drop(t, g.1);
            }
        }
        self.expect(TokenKind::LBrace)?;
        let ghost mut pos: int = g.1 + 1;
        let mut fields: Vec<StructField> = Vec::new();
        proof {
            if good {
                assert(fl.0.skip(0) =~= fl.0);
                assert(fl.0.take(0) =~= Seq::<(bool, Seq<char>, Seq<char>)>::empty());
            }
        }
        while !self.check(&TokenKind::RBrace) && !self.check(&TokenKind::EOF)
            invariant
                self.steps_from(old(self)),
                self.potential() < old(self).potential(),
                t == old(self).toks(),
                good == (old(self).lexes_ok() && simple_struct(t) is Some),
                g == decl_generics(t)->0,
                fl == field_list(t.skip(g.1 + 1))->0,
                good ==> {
                    &&& self.lexes_ok()
                    &&& 0 <= g.1 + 1 <= pos < t.len()
                    &&& self.toks() == t.skip(pos)
                    &&& self.diagnostics@ == old(self).diagnostics@
                    &&& fields@.len() <= fl.0.len()
                    &&& fields_match(fields@, fl.0.take(fields@.len() as int))
                    &&& field_list(t.skip(pos)) == Some((fl.0.skip(fields@.len() as int), g.1 + 1 + fl.1 - pos))
                },
            decreases self.potential(),
        {
            broadcast use Parser::lemma_steps_trans;
            let ghost k = fields@.len() as int;
            let ghost u = t.skip(pos);
            let ghost o: int = if u[0] is Pub { 1 } else { 0 };
            proof {
                if good {
                    self.lemma_toks_head();
                    lemma_skip_drop(t, pos);
                    lemma_field_list_len(u);
                }
            }
            let f_span = self.current_token.span;
            let f_pub = if self.check(&TokenKind::Pub) {
                self.advance()?;
                true
            } else {
                false
            };
            proof {
                if good {
                    self.lemma_toks_head();
                    lemma_skip_drop(t, pos + o);
                }
            }
            let f_name = self.expect_ident()?;
            proof {
                if good {
                    self.lemma_toks_head();
                    lemma_skip_drop(t, pos + o + 1);
                }
            }
            self.expect(TokenKind::Colon)?;
            proof {
                if good {
                    self.lemma_toks_head();
                    lemma_skip_drop(t, pos + o + 2);
                }
            }
            let f_ty = self.parse_type()?;
            let ghost prev = fields@;
            fields.push(StructField { is_pub: f_pub, name: f_name, ty: f_ty, span: f_span });
            let ghost f = (o == 1, u[o]->Ident_0, u[o + 2]->Ident_0);
            let ghost next: int = if u[o + 3] is Comma || u[o + 3] is Semicolon { o + 4 } else { o + 3 };
            proof {
                if good {
                    let rest = field_list(u.skip(next))->0;
                    assert(fl.0.skip(k) == seq![f] + rest.0);
                    assert(fl.0.skip(k).len() == rest.0.len() + 1);
                    assert(k < fl.0.len());
                    assert(fl.0[k] == fl.0.skip(k)[0]);
                    assert(fl.0[k] == f);
                    assert forall|i: int| 0 <= i < k + 1 implies (#[trigger] fields@[i]).is_pub == fl.0.take(
                        k + 1,
                    )[i].0 && fields@[i].name@ == fl.0.take(k + 1)[i].1 && named_type(
                        fields@[i].ty@,
                        fl.0.take(k + 1)[i].2,
                    ) by {
                        if i < k {
                            assert(fields@[i] == prev[i]);
                            assert(fl.0.take(k + 1)[i] == fl.0.take(k)[i]);
                        }
                    }
                    self.lemma_toks_head();
                    lemma_skip_drop(t, pos + o + 3);
                }
            }
            if self.check(&TokenKind::Comma) {
                self.advance()?;
            } else if self.check(&TokenKind::Semicolon) {
                self.advance()?;
            }
            proof {
                if good {
                    lemma_skip_skip(t, pos, next);
                    let rest = field_list(u.skip(next))->0;
                    assert(fl.0.skip(k) == seq![f] + rest.0);
                    assert forall|i: int| 0 <= i < rest.0.len() implies fl.0.skip(k + 1)[i] == rest.0[i] by {
                        assert(fl.0.skip(k)[i + 1] == rest.0[i]);
                    }
                    assert(fl.0.skip(k + 1) =~= rest.0);
                    lemma_field_list_len(u.skip(next));
                    pos = pos + next;
                }
            }
        }
        proof {
            if good {
                self.lemma_toks_head();
                lemma_skip_drop(t, pos);
                let k = fields@.len() as int;
                assert(t[pos] is RBrace);
                assert(fl.0.skip(k).len() == 0);
                assert(fl.0.take(k) =~= fl.0);
            }
        }
        self.expect(TokenKind::RBrace)?;
        proof {
            if good {
                let shn = simple_struct(t)->0;
                assert(name@ == shn.0.name);
                assert(strs_view(generic_params@) == shn.0.generics);
                assert(fields_match(fields@, shn.0.fields));
                assert(shn.1 == pos + 1);
                assert(self.toks() == t.skip(shn.1));
            }
        }
        Ok(StructDecl {
            is_pub,
            name,
            generic_params,
            fields,
            span: make_span(start_span, self.line, self.col),
        })
    }

    fn parse_enum_decl(&mut self, is_pub: bool) -> (r: Result<EnumDecl, String>)
        requires
            old(self).wf(),
        ensures
            final(self).steps_from(old(self)),
            old(self).lexes_ok() && old(self).current_token.kind@ is Enum ==> final(self).potential() < old(self).potential(),
            r is Ok ==> final(self).potential() < old(self).potential(),
            r matches Ok(d) ==> d.is_pub == is_pub && old(self).peek_token.kind@ == KindV::Ident(d.name@),
    {
        broadcast use Parser::lemma_steps_trans;
        let start_span = self.current_token.span;
        self.expect(TokenKind::Enum)?;
        let name = self.expect_ident()?;
        let generic_params = self.parse_generic_params()?;
        self.expect(TokenKind::LBrace)?;
        let mut variants: Vec<EnumVariant> = Vec::new();
        while !self.check(&TokenKind::RBrace) && !self.check(&TokenKind::EOF)
            invariant
                self.steps_from(old(self)),
                self.potential() < old(self).potential(),
            decreases self.potential(),
        {
            broadcast use Parser::lemma_steps_trans;
            let v_span = self.current_token.span;
            let ghost iter_start = self.potential();
            let v_name = self.expect_ident()?;
            let mut types: Vec<Type> = Vec::new();
            if self.check(&TokenKind::LParen) {
                self.advance()?;
                loop
                    invariant
                        self.steps_from(old(self)),
                        self.potential() < old(self).potential(),
                        self.potential() < iter_start,
                    decreases self.potential(),
                {
                    broadcast use Parser::lemma_steps_trans;
                    let t = self.parse_type()?;
                    types.push(t);
                    if self.check(&TokenKind::Comma) {
                        self.advance()?;
                    } else {
                        break;
                    }
                }
                self.expect(TokenKind::RParen)?;
            }
            variants.push(EnumVariant { name: v_name, types, span: v_span });
            if self.check(&TokenKind::Comma) {
                self.advance()?;
            } else if self.check(&TokenKind::Semicolon) {
                self.advance()?;
            }
        }
        self.expect(TokenKind::RBrace)?;
        Ok(EnumDecl {
            is_pub,
            name,
            generic_params,
            variants,
            span: make_span(start_span, self.line, self.col),
        })
    }

    fn parse_impl_block(&mut self) -> (r: Result<ImplBlock, String>)
        requires
            old(self).wf(),
        ensures
            final(self).steps_from(old(self)),
            old(self).lexes_ok() && old(self).current_token.kind@ is Impl ==> final(self).potential() < old(self).potential(),
            r is Ok ==> final(self).potential() < old(self).potential(),
    {
        broadcast use Parser::lemma_steps_trans;
        let start_span = self.current_token.span;
        self.expect(TokenKind::Impl)?;
        let target_ty = self.parse_type()?;
        self.expect(TokenKind::LBrace)?;
        let mut methods: Vec<FnDecl> = Vec::new();
        while !self.check(&TokenKind::RBrace) && !self.check(&TokenKind::EOF)
            invariant
                self.steps_from(old(self)),
                self.potential() < old(self).potential(),
            decreases self.potential(),
        {
            broadcast use Parser::lemma_steps_trans;
            if self.check(&TokenKind::Semicolon) {
                self.advance()?;
                continue;
            }
            let is_m_pub = if self.check(&TokenKind::Pub) {
                self.advance()?;
                true
            } else {
                false
            };
            let m = self.parse_fn_decl(is_m_pub)?;
            methods.push(m);
        }
        self.expect(TokenKind::RBrace)?;
        Ok(ImplBlock { target_ty, methods, span: make_span(start_span, self.line, self.col) })
    }

    #[verifier::rlimit(50)]
    fn parse_type(&mut self) -> (r: Result<Type, String>)
        requires
            old(self).wf(),
        ensures
            final(self).steps_from(old(self)),
            r is Ok ==> final(self).potential() < old(self).potential(),
            r matches Ok(t) ==> t.span.start_line == old(self).current_token.span.start_line
                && t.span.start_col == old(self).current_token.span.start_col,
            r matches Ok(t) ==> (old(self).current_token.kind@ is Amp ==> t@.kind is Ref),
            r matches Ok(t) ==> (old(self).current_token.kind@ is LBracket ==> t@.kind is Slice),
            r matches Ok(t) ==> (old(self).current_token.kind@ is Raw ==> t@.kind is RawPtr),
            r matches Ok(t) ==> (old(self).current_token.kind@ matches KindV::Ident(n) ==> (t@.kind matches
                TypeKindV::Path(parts, args) && parts.len() >= 1 && parts[0] == n)),
            r matches Ok(t) ==> (old(self).current_token.kind@ matches KindV::Ident(n) ==> (!(
                old(self).peek_token.kind@ is ColonColon) && !(old(self).peek_token.kind@ is Lt) ==> (t@.kind matches
                TypeKindV::Path(parts, args) && parts == seq![n] && args.len() == 0))),
            r is Ok ==> (old(self).current_token.kind@ is Amp || old(self).current_token.kind@ is LBracket
                || old(self).current_token.kind@ is Raw || old(self).current_token.kind@ is Ident),
            old(self).lexes_ok() && old(self).current_token.kind@ is Ident && !(old(self).peek_token.kind@ is ColonColon)
                && !(old(self).peek_token.kind@ is Lt) ==> r is Ok && final(self).toks() == old(self).toks().drop_first()
                && final(self).diagnostics@ == old(self).diagnostics@,
        decreases old(self).potential(),
    {
        broadcast use Parser::lemma_steps_trans;
        proof {
            Self::lemma_steps_refl(self);
        }
        let start_span = self.current_token.span;
        if self.check(&TokenKind::Amp) {
            self.advance()?;
            let inner = self.parse_type()?;
            Ok(Type { kind: TypeKind::Ref(Box::new(inner)), span: make_span(start_span, self.line, self.col) })
        } else if self.check(&TokenKind::LBracket) {
            self.advance()?;
            self.expect(TokenKind::RBracket)?;
            let inner = self.parse_type()?;
            Ok(Type { kind: TypeKind::Slice(Box::new(inner)), span: make_span(start_span, self.line, self.col) })
        } else if self.check(&TokenKind::Raw) {
            self.advance()?;
            self.expect(TokenKind::Star)?;
            let inner = self.parse_type()?;
            Ok(Type { kind: TypeKind::RawPtr(Box::new(inner)), span: make_span(start_span, self.line, self.col) })
        } else {
            let mut path_parts: Vec<String> = Vec::new();
            let first = self.expect_ident()?;
            path_parts.push(first);
            let ghost first_name = path_parts@[0]@;
            proof {
                assert(self.current_token == old(self).peek_token);
            }
            while self.check(&TokenKind::ColonColon)
                invariant
                    self.steps_from(old(self)),
                    self.potential() < old(self).potential(),
                    path_parts@.len() >= 1,
                    path_parts@[0]@ == first_name,
                    path_parts@.len() == 1 ==> self.current_token == old(self).peek_token,
                    path_parts@.len() == 1 && old(self).lexes_ok() ==> self.toks() == old(self).toks().drop_first()
                        && self.diagnostics@ == old(self).diagnostics@ && self.lexes_ok(),
                    path_parts@.len() > 1 ==> old(self).peek_token.kind@ is ColonColon,
                decreases self.potential(),
            {
                broadcast use Parser::lemma_steps_trans;
                self.advance()?;
                let id = self.expect_ident()?;
                path_parts.push(id);
            }
            let mut gen_args: Vec<Type> = Vec::new();
            if self.check(&TokenKind::Lt) {
                proof {
                    if !(old(self).peek_token.kind@ is ColonColon) {
                        assert(path_parts@.len() == 1);
                        assert(self.current_token == old(self).peek_token);
                    }
                }
                self.advance()?;
                loop
                    invariant
                        self.steps_from(old(self)),
                        self.potential() < old(self).potential(),
                        old(self).peek_token.kind@ is ColonColon || old(self).peek_token.kind@ is Lt,
                    decreases self.potential(),
                {
                    broadcast use Parser::lemma_steps_trans;
                    let t = self.parse_type()?;
                    gen_args.push(t);
                    if self.check(&TokenKind::Comma) {
                        self.advance()?;
                    } else {
                        break;
                    }
                }
                self.expect(TokenKind::Gt)?;
            }
            proof {
                if !(old(self).peek_token.kind@ is ColonColon) && !(old(self).peek_token.kind@ is Lt) {
                    assert(path_parts@.len() == 1);
                    assert(gen_args@.len() == 0);
                    assert(tys_view(gen_args@).len() == 0);
                }
                assert(strs_view(path_parts@)[0] == first_name);
                if path_parts@.len() == 1 {
                    assert(strs_view(path_parts@) =~= seq![first_name]);
                }
            }
            Ok(Type {
                kind: TypeKind::Path(path_parts, gen_args),
                span: make_span(start_span, self.line, self.col),
            })
        }
    }

    #[verifier::rlimit(80)]
    #[verifier::spinoff_prover]
    fn parse_block(&mut self) -> (r: Result<Block, String>)
        requires
            old(self).wf(),
        ensures
            final(self).steps_from(old(self)),
            r is Ok ==> final(self).potential() < old(self).potential(),
            old(self).lexes_ok() && old(self).toks().len() > 0 && old(self).toks()[0] is LBrace ==> match simple_stmts(
                old(self).toks().skip(1),
            ) {
                Some((shs, n)) => r matches Ok(b) && b.stmts@.len() == shs.len() && (forall|i: int|
                    0 <= i < shs.len() ==> stmt_shape(#[trigger] b.stmts@[i]) == Some(shs[i])) && final(self).toks()
                    == old(self).toks().skip(n + 2) && final(self).diagnostics@ == old(self).diagnostics@,
                None => true,
            },
        decreases old(self).potential(), 0int,
    {
        broadcast use Parser::lemma_steps_trans;
        let ghost t = self.toks();
        let ghost good = self.lexes_ok() && t.len() > 0 && t[0] is LBrace && simple_stmts(t.skip(1)) is Some;
        let ghost all = simple_stmts(t.skip(1))->0;
        let start_span = self.current_token.span;
        proof {
            if self.lexes_ok() {
                self.lemma_toks_head();
            }
        }
        self.expect(TokenKind::LBrace)?;
        let mut stmts: Vec<Stmt> = Vec::new();
        let ghost mut pos: int = 1;
        proof {
            if good {
                assert(t.drop_first() =~= t.skip(1));
            }
        }
        while !self.check(&TokenKind::RBrace) && !self.check(&TokenKind::EOF)
            invariant
                self.steps_from(old(self)),
                self.potential() < old(self).potential(),
                t == old(self).toks(),
                good == (old(self).lexes_ok() && t.len() > 0 && t[0] is LBrace && simple_stmts(t.skip(1)) is Some),
                all == simple_stmts(t.skip(1))->0,
                good ==> {
                    &&& self.lexes_ok()
                    &&& 1 <= pos <= t.len()
                    &&& self.toks() == t.skip(pos)
                    &&& simple_stmts(t.skip(pos)) == Some((all.0.skip(stmts@.len() as int), all.1 + 1 - pos))
                    &&& stmts@.len() <= all.0.len()
                    &&& forall|i: int| 0 <= i < stmts@.len() ==> stmt_shape(#[trigger] stmts@[i]) == Some(all.0[i])
                    &&& self.diagnostics@ == old(self).diagnostics@
                },
            decreases self.potential(),
        {
            broadcast use Parser::lemma_steps_trans;
            let ghost u = t.skip(pos);
            let ghost sn = simple_stmt(u)->0;
            proof {
                if good {
                    self.lemma_toks_head();
                    assert(!(u[0] is RBrace));
                    assert(simple_stmt(u) is Some);
                    assert(0 < sn.1 <= u.len());
                    let rest = simple_stmts(u.skip(sn.1))->0;
                    assert(simple_stmts(u.skip(sn.1)) is Some);
                    assert(all.0.skip(stmts@.len() as int) == seq![sn.0] + rest.0);
                    assert(all.0[stmts@.len() as int] == all.0.skip(stmts@.len() as int)[0]);
                    assert(all.0.skip(stmts@.len() as int).skip(1) =~= rest.0);
                    assert(simple_stmts(u.skip(sn.1)) == Some((all.0.skip(stmts@.len() as int).skip(1), all.1 + 1 - pos - sn.1)));
                }
            }
            let before = self.measure();
            match self.parse_stmt() {
                Ok(stmt) => {
                    stmts.push(stmt);
                    proof {
                        if good {
                            assert(u.skip(sn.1) =~= t.skip(pos + sn.1));
                            assert(all.0.skip(stmts@.len() - 1).skip(1) =~= all.0.skip(stmts@.len() as int));
                            assert(stmt_shape(stmts@[stmts@.len() - 1]) == Some(all.0[stmts@.len() - 1]));
                            pos = pos + sn.1;
                        }
                    }
                },
                Err(_) => {
                    proof {
                        assert(!good);
                    }
                    self.recover_to_stmt_boundary()?;
                    if self.measure() >= before {
                        return Err(owned("Parsing error"));
                    }
                }
            }
        }
        proof {
            if good {
                self.lemma_toks_head();
            }
        }
        self.expect(TokenKind::RBrace)?;
        proof {
            if good {
                assert(t.skip(pos).drop_first() =~= t.skip(pos + 1));
            }
        }
        Ok(Block { stmts, span: make_span(start_span, self.line, self.col) })
    }

    #[verifier::rlimit(100)]
    #[verifier::spinoff_prover]
    fn parse_stmt(&mut self) -> (r: Result<Stmt, String>)
        requires
            old(self).wf(),
        ensures
            final(self).steps_from(old(self)),
            r is Ok ==> final(self).potential() < old(self).potential(),
            r matches Ok(st) ==> st.span.start_line == old(self).current_token.span.start_line
                && st.span.start_col == old(self).current_token.span.start_col,
            old(self).lexes_ok() ==> match simple_stmt(old(self).toks()) {
                Some((sh, n)) => r matches Ok(st) && stmt_shape(st) == Some(sh) && final(self).toks() == old(self).toks().skip(n) && final(self).diagnostics@ == old(self).diagnostics@,
                None => true,
            },
            r matches Ok(st) ==> {
                let k = old(self).current_token.kind@;
                if k is Semicolon {
                    st.kind matches StmtKind::Expr(e) && (e.kind matches ExprKind::Block(b) && b.stmts@.len() == 0)
                } else if k is Let {
                    st.kind matches StmtKind::Let { is_mut, .. } && is_mut == (old(self).peek_token.kind@ is Mut)
                } else if k is Return {
                    st.kind is Return
                } else if k is While {
                    st.kind is While
                } else if k is For {
                    st.kind matches StmtKind::For(v, _, _) && old(self).peek_token.kind@ == KindV::Ident(v@)
                } else if k is Raw && old(self).peek_token.kind@ is LBrace {
                    st.kind is Raw
                } else {
                    st.kind is Assign || st.kind is Expr
                }
            },
        decreases old(self).potential(), 3int,
    {
        broadcast use Parser::lemma_steps_trans;
        proof {
            Self::lemma_steps_refl(self);
        }
        let ghost t = self.toks();
        let ghost lx = self.lexes_ok();
        proof {
            if lx {
                self.lemma_toks_head();
            }
        }
        let start_span = self.current_token.span;
        if self.check(&TokenKind::Semicolon) {
            self.advance()?;
            return Ok(Stmt {
                kind: StmtKind::Expr(Expr {
                    kind: ExprKind::Block(Block { stmts: Vec::new(), span: start_span }),
                    span: start_span,
                }),
                span: start_span,
            });
        }
        if self.check(&TokenKind::Let) {
            self.advance()?;
            proof {
                if lx {
                    assert(t.drop_first() =~= t.skip(1));
                    self.lemma_toks_head();
                }
            }
            let is_mut = if self.check(&TokenKind::Mut) {
                self.advance()?;
                true
            } else {
                false
            };
            let name = self.expect_ident()?;
            proof {
                if lx && !is_mut {
                    assert(t.skip(1).drop_first() =~= t.skip(2));
                    self.lemma_toks_head();
                }
            }
            let mut ty = None;
            if self.check(&TokenKind::Colon) {
                self.advance()?;
                let t = self.parse_type()?;
                ty = Some(t);
            }
            self.expect(TokenKind::Eq)?;
            proof {
                if lx && !is_mut && ty is None {
                    assert(t.skip(2).drop_first() =~= t.skip(3));
                }
            }
            let ghost pe = pexpr(t.skip(3), 0)->0;
            proof {
                lemma_pexpr_len(t.skip(3), 0);
            }
            let value = self.parse_expr()?;
            proof {
                if lx && !is_mut && ty is None && pexpr(t.skip(3), 0) is Some {
                    assert(t.skip(3).skip(pe.1) =~= t.skip(3 + pe.1));
                    self.lemma_toks_head();
                }
            }
            self.expect(TokenKind::Semicolon)?;
            proof {
                if lx && !is_mut && ty is None && pexpr(t.skip(3), 0) is Some && 3 + pe.1 < t.len() {
                    assert(t.skip(3 + pe.1).drop_first() =~= t.skip(4 + pe.1));
                }
            }
            Ok(Stmt {
                kind: StmtKind::Let { is_mut, name, ty, value },
                span: make_span(start_span, self.line, self.col),
            })
        } else if self.check(&TokenKind::Return) {
            self.advance()?;
            proof {
                if lx {
                    assert(t.drop_first() =~= t.skip(1));
                    self.lemma_toks_head();
                }
            }
            let ghost pe = pexpr(t.skip(1), 0)->0;
            proof {
                lemma_pexpr_len(t.skip(1), 0);
            }
            let mut value = None;
            if !self.check(&TokenKind::Semicolon) {
                let v = self.parse_expr()?;
                value = Some(v);
                proof {
                    if lx && pexpr(t.skip(1), 0) is Some {
                        assert(t.skip(1).skip(pe.1) =~= t.skip(1 + pe.1));
                        self.lemma_toks_head();
                    }
                }
            }
            self.expect(TokenKind::Semicolon)?;
            proof {
                if lx {
                    assert(t.skip(1).drop_first() =~= t.skip(2));
                    if pexpr(t.skip(1), 0) is Some && 1 + pe.1 < t.len() {
                        assert(t.skip(1 + pe.1).drop_first() =~= t.skip(2 + pe.1));
                    }
                }
            }
            Ok(Stmt { kind: StmtKind::Return(value), span: make_span(start_span, self.line, self.col) })
        } else if self.check(&TokenKind::While) {
            self.advance()?;
            let cond = self.parse_expr()?;
            let body = self.parse_block()?;
            Ok(Stmt { kind: StmtKind::While(cond, body), span: make_span(start_span, self.line, self.col) })
        } else if self.check(&TokenKind::For) {
            self.advance()?;
            let var_name = self.expect_ident()?;
            self.expect(TokenKind::In)?;
            let iter = self.parse_expr()?;
            let body = self.parse_block()?;
            Ok(Stmt {
                kind: StmtKind::For(var_name, iter, body),
                span: make_span(start_span, self.line, self.col),
            })
        } else if self.check(&TokenKind::Raw) && self.check_peek(&TokenKind::LBrace) {
            self.advance()?;
            let body = self.parse_block()?;
            Ok(Stmt { kind: StmtKind::Raw(body), span: make_span(start_span, self.line, self.col) })
        } else {
            let ghost pe = pexpr(t, 0)->0;
            proof {
                lemma_pexpr_len(t, 0);
            }
            let expr = self.parse_expr()?;
            proof {
                if lx && pexpr(t, 0) is Some {
                    assert(t.skip(pe.1) == t.skip(pe.1));
                    self.lemma_toks_head();
                }
            }
            if self.check(&TokenKind::Eq) {
                self.advance()?;
                let rhs = self.parse_expr()?;
                self.expect(TokenKind::Semicolon)?;
                Ok(Stmt { kind: StmtKind::Assign(expr, rhs), span: make_span(start_span, self.line, self.col) })
            } else {
                self.expect(TokenKind::Semicolon)?;
                proof {
                    if lx && pexpr(t, 0) is Some && pe.1 < t.len() {
                        assert(t.skip(pe.1).drop_first() =~= t.skip(pe.1 + 1));
                    }
                }
                Ok(Stmt { kind: StmtKind::Expr(expr), span: make_span(start_span, self.line, self.col) })
            }
        }
    }

    fn parse_expr(&mut self) -> (r: Result<Expr, String>)
        requires
            old(self).wf(),
        ensures
            final(self).steps_from(old(self)),
            r is Ok ==> final(self).potential() < old(self).potential(),
            old(self).lexes_ok() && pexpr(old(self).toks(), 0) is Some ==> {
                let (tree, n) = pexpr(old(self).toks(), 0)->0;
                &&& r matches Ok(e) && shape(e@) == Some(tree)
                &&& final(self).toks() == old(self).toks().skip(n)
                &&& final(self).diagnostics@ == old(self).diagnostics@
            },
        decreases old(self).potential(), 2int,
    {
        broadcast use Parser::lemma_steps_trans;
        self.parse_expr_bp(0)
    }

    /// Comma-separated expressions up to the closing token, which the caller
    /// consumes.
    fn parse_args(&mut self, close: &TokenKind) -> (r: Result<Vec<Expr>, String>)
        requires
            old(self).wf(),
        ensures
            final(self).steps_from(old(self)),
        decreases old(self).potential(), 3int,
    {
        broadcast use Parser::lemma_steps_trans;
        proof {
            Self::lemma_steps_refl(self);
        }
        let mut args: Vec<Expr> = Vec::new();
        if !self.check(close) {
            loop
                invariant
                    self.steps_from(old(self)),
                decreases self.potential(),
            {
                broadcast use Parser::lemma_steps_trans;
                let a = self.parse_expr()?;
                args.push(a);
                if self.check(&TokenKind::Comma) {
                    self.advance()?;
                } else {
                    break;
                }
            }
        }
        Ok(args)
    }

    #[verifier::rlimit(60)]
    fn parse_expr_bp(&mut self, min_bp: u8) -> (r: Result<Expr, String>)
        requires
            old(self).wf(),
        ensures
            final(self).steps_from(old(self)),
            r is Ok ==> final(self).potential() < old(self).potential(),
            !starts_expr(old(self).current_token.kind@) ==> {
                let before = old(self).diagnostics@;
                let d = final(self).diagnostics@[before.len() as int];
                &&& r is Err
                &&& final(self).diagnostics@.len() == before.len() + 1
                &&& is_error_diag(d, "E0004"@, old(self).file())
                &&& d.message@ == "Unexpected expression prefix "@ + debug_kind(old(self).current_token.kind@)
                &&& d.span == old(self).current_token.span
            },
            r matches Ok(e) ==> !binds(old(self).peek_token.kind@) ==> match old(self).current_token.kind@ {
                KindV::Int(v, suf) => e@.kind == ExprKindV::Lit(LitV::Int(v, suf)),
                KindV::Float(t, suf) => e@.kind == ExprKindV::Lit(LitV::Float(t, suf)),
                KindV::Str(t) => e@.kind == ExprKindV::Lit(LitV::Str(t)),
                KindV::Bool(b) => e@.kind == ExprKindV::Lit(LitV::Bool(b)),
                KindV::Ident(n) => !(old(self).peek_token.kind@ is ColonColon) && !(old(self).peek_token.kind@ is LBrace)
                    ==> e@.kind == ExprKindV::Ident(n),
                _ => true,
            },
            old(self).lexes_ok() && pexpr(old(self).toks(), min_bp as int) is Some ==> {
                let (tree, n) = pexpr(old(self).toks(), min_bp as int)->0;
                &&& r matches Ok(e) && shape(e@) == Some(tree)
                &&& final(self).toks() == old(self).toks().skip(n)
                &&& final(self).diagnostics@ == old(self).diagnostics@
            },
        decreases old(self).potential(), 1int,
    {
        broadcast use Parser::lemma_steps_trans;
        proof {
            Self::lemma_steps_refl(self);
        }
        let ghost t = old(self).toks();
        let ghost good = old(self).lexes_ok() && pexpr(t, min_bp as int) is Some;
        proof {
            if self.lexes_ok() {
                self.lemma_toks_head();
            }
            if good {
                assert(atom(t[0], t[1]) is Some);
            }
        }
        let start_span = self.current_token.span;
        let mut lhs = match &self.current_token.kind {
            TokenKind::Ident(_) | TokenKind::ColonColon => {
                let mut path: Vec<String> = Vec::new();
                if let TokenKind::Ident(n) = &self.current_token.kind {
                    path.push(n.clone());
                    self.advance()?;
                }
                proof {
                    if good {
                        assert(t.drop_first() =~= t.skip(1));
                    }
                }
                let ghost first = if path@.len() > 0 { path@[0]@ } else { Seq::empty() };
                while self.check(&TokenKind::ColonColon)
                    invariant
                        self.steps_from(old(self)),
                        starts_expr(old(self).current_token.kind@),
                        t == old(self).toks(),
                        good == (old(self).lexes_ok() && pexpr(t, min_bp as int) is Some),
                        path@.len() > 0 ==> self.potential() < old(self).potential(),
                        old(self).current_token.kind@ is Ident ==> path@.len() >= 1 && path@[0]@ == first,
                        old(self).current_token.kind@ is Ident && path@.len() == 1 ==> self.current_token
                            == old(self).peek_token,
                        old(self).current_token.kind@ is Ident && path@.len() > 1 ==> old(self).peek_token.kind@ is ColonColon,
                        good ==> old(self).lexes_ok() && t.len() >= 2 && t[0] == old(self).current_token.kind@ && t[1]
                            == old(self).peek_token.kind@ && atom(t[0], t[1]) is Some
                            && old(self).current_token.kind@ is Ident,
                        good ==> path@.len() == 1 && self.toks() == t.skip(1) && self.diagnostics@ == old(self).diagnostics@
                            && self.lexes_ok(),
                    decreases self.potential(),
                {
                    broadcast use Parser::lemma_steps_trans;
                    proof {
                        if good {
                            assert(self.current_token == old(self).peek_token);
                            assert(t[1] is ColonColon);
                        }
                    }
                    self.advance()?;
                    let id = self.expect_ident()?;
                    path.push(id);
                }
                assert(path@.len() > 0 ==> self.potential() < old(self).potential());
                let span = make_span(start_span, self.line, self.col);
                if self.check(&TokenKind::LBrace) {
                    proof {
                        if good {
                            assert(self.current_token == old(self).peek_token);
                            assert(t[1] is LBrace);
                        }
                    }
                    self.advance()?;
                    let mut fields: Vec<(String, Expr)> = Vec::new();
                    while !self.check(&TokenKind::RBrace) && !self.check(&TokenKind::EOF)
                        invariant
                            !good,
                            self.steps_from(old(self)),
                            starts_expr(old(self).current_token.kind@),
                            t == old(self).toks(),
                            good == (old(self).lexes_ok() && pexpr(t, min_bp as int) is Some),
                            self.potential() < old(self).potential(),
                        decreases self.potential(),
                    {
                        broadcast use Parser::lemma_steps_trans;
                        let f_name = self.expect_ident()?;
                        self.expect(TokenKind::Colon)?;
                        let f_val = self.parse_expr()?;
                        fields.push((f_name, f_val));
                        if self.check(&TokenKind::Comma) {
                            self.advance()?;
                        } else {
                            break;
                        }
                    }
                    self.expect(TokenKind::RBrace)?;
                    Expr { kind: ExprKind::StructInit(path, fields), span: make_span(start_span, self.line, self.col) }
                } else if path.len() == 1 {
                    let p0 = path[0].clone();
                    Expr { kind: ExprKind::Ident(p0), span }
                } else {
                    if path.len() == 0 {
                        // A lone `::` with no identifier after it has been reported.
                        return Err(owned("Parsing error"));
                    }
                    Expr { kind: ExprKind::Path(path), span }
                }
            }
            TokenKind::Int(val, suffix) => {
                let v = *val;
                let sfx = copy_opt(suffix);
                self.advance()?;
                Expr { kind: ExprKind::Lit(Lit::Int(v, sfx)), span: make_span(start_span, self.line, self.col) }
            }
            TokenKind::Float(val, suffix) => {
                let v = val.clone();
                let sfx = copy_opt(suffix);
                self.advance()?;
                Expr { kind: ExprKind::Lit(Lit::Float(v, sfx)), span: make_span(start_span, self.line, self.col) }
            }
            TokenKind::Str(val) => {
                let v = val.clone();
                self.advance()?;
                Expr { kind: ExprKind::Lit(Lit::Str(v)), span: make_span(start_span, self.line, self.col) }
            }
            TokenKind::Bool(val) => {
                let v = *val;
                self.advance()?;
                Expr { kind: ExprKind::Lit(Lit::Bool(v)), span: make_span(start_span, self.line, self.col) }
            }
            TokenKind::LParen => {
                proof {
                    assert(!good);
                }
                self.advance()?;
                let inner = self.parse_expr()?;
                self.expect(TokenKind::RParen)?;
                inner
            }
            TokenKind::LBrace => {
                proof {
                    assert(!good);
                }
                let block = self.parse_block()?;
                let span = block.span;
                Expr { kind: ExprKind::Block(block), span }
            }
            TokenKind::If => {
                proof {
                    assert(!good);
                }
                self.advance()?;
                let cond = self.parse_expr()?;
                let then_branch = self.parse_block()?;
                let mut else_branch = None;
                if self.check(&TokenKind::Else) {
                    self.advance()?;
                    if self.check(&TokenKind::If) {
                        let else_if = self.parse_expr()?;
                        match else_if.kind {
                            ExprKind::If(c, t, e) => {
                                let boxed = match e {
                                    Some(x) => Some(Box::new(x)),
                                    None => None,
                                };
                                else_branch = Some(BlockOrIf::If(c, t, boxed));
                            }
                            _ => {
                                return Err(owned("Expected if expression after else"));
                            }
                        }
                    } else {
                        let b = self.parse_block()?;
                        else_branch = Some(BlockOrIf::Block(b));
                    }
                }
                Expr {
                    kind: ExprKind::If(Box::new(cond), then_branch, else_branch),
                    span: make_span(start_span, self.line, self.col),
                }
            }
            TokenKind::Match => {
                proof {
                    assert(!good);
                }
                self.advance()?;
                let cond = self.parse_expr()?;
                self.expect(TokenKind::LBrace)?;
                let mut arms: Vec<MatchArm> = Vec::new();
                while !self.check(&TokenKind::RBrace) && !self.check(&TokenKind::EOF)
                    invariant
                        !good,
                        self.steps_from(old(self)),
                        starts_expr(old(self).current_token.kind@),
                        t == old(self).toks(),
                        good == (old(self).lexes_ok() && pexpr(t, min_bp as int) is Some),
                        self.potential() < old(self).potential(),
                    decreases self.potential(),
                {
                    broadcast use Parser::lemma_steps_trans;
                    let arm_span = self.current_token.span;
                    let pattern = self.parse_pattern()?;
                    self.expect(TokenKind::FatArrow)?;
                    let body = self.parse_expr()?;
                    if self.check(&TokenKind::Comma) {
                        self.advance()?;
                    }
                    arms.push(MatchArm { pattern, body, span: arm_span });
                }
                self.expect(TokenKind::RBrace)?;
                Expr {
                    kind: ExprKind::Match(Box::new(cond), arms),
                    span: make_span(start_span, self.line, self.col),
                }
            }
            TokenKind::Amp | TokenKind::Star | TokenKind::Bang => {
                proof {
                    assert(!good);
                }
                let op = match self.current_token.kind {
                    TokenKind::Amp => UnOp::AddrOf,
                    TokenKind::Star => UnOp::Deref,
                    _ => UnOp::Not,
                };
                self.advance()?;
                let operand = self.parse_expr_bp(70)?;
                Expr {
                    kind: ExprKind::Unary(op, Box::new(operand)),
                    span: make_span(start_span, self.line, self.col),
                }
            }
            _ => {
                proof {
                    assert(!good);
                }
                let span = self.current_token.span;
                let mut m: Vec<char> = Vec::new();
                append_str(&mut m, "Unexpected expression prefix ");
                let d = self.current_token.kind.debug_text();
                append_chars(&mut m, &d);
                self.error("E0004", string_of(&m), span);
                return Err(owned("Expression parsing error"));
            }
        };
        let ghost lhs0 = lhs@;
        let ghost tok0 = self.current_token;
        let ghost mut extended = false;
        let ghost whole = pexpr(t, min_bp as int)->0;
        let ghost mut pos: int = 1;
        let ghost mut cur: Tree = if good { atom(t[0], t[1])->0 } else { Tree::Var(Seq::empty()) };
        proof {
            if good {
                assert(shape(lhs@) == Some(cur));
                assert(self.toks() == t.skip(1));
                let a = atom(t[0], t[1])->0;
                assert(cur == a);
                let pl = ploop(t.skip(1), min_bp as int, a);
                assert(pl is Some);
                let (e, n) = pl->0;
                assert(whole == (e, n + 1));
            }
        }
        loop
            invariant
                self.steps_from(old(self)),
                starts_expr(old(self).current_token.kind@),
                t == old(self).toks(),
                good == (old(self).lexes_ok() && pexpr(t, min_bp as int) is Some),
                whole == pexpr(t, min_bp as int)->0,
                self.potential() < old(self).potential(),
                !extended ==> lhs@ == lhs0 && self.current_token == tok0,
                extended ==> binds(tok0.kind@),
                good ==> {
                    &&& self.lexes_ok()
                    &&& 1 <= pos <= t.len()
                    &&& self.toks() == t.skip(pos)
                    &&& shape(lhs@) == Some(cur)
                    &&& ploop(t.skip(pos), min_bp as int, cur) == Some((whole.0, whole.1 - pos))
                    &&& self.diagnostics@ == old(self).diagnostics@
                },
            ensures
                good ==> {
                    &&& self.toks() == t.skip(whole.1)
                    &&& shape(lhs@) == Some(whole.0)
                    &&& self.diagnostics@ == old(self).diagnostics@
                },
            decreases self.potential(),
        {
            broadcast use Parser::lemma_steps_trans;
            proof {
                if good {
                    self.lemma_toks_head();
                    let u = t.skip(pos);
                    assert(u.len() > 0);
                    assert(u[0] == self.current_token.kind@);
                    lemma_ploop_step(u, min_bp as int, cur, (whole.0, whole.1 - pos));
                }
            }
            let bp: (u8, u8) = match self.current_token.kind {
                TokenKind::Plus | TokenKind::Minus => (50, 51),
                TokenKind::Star | TokenKind::Slash => (60, 61),
                TokenKind::EqEq | TokenKind::Ne | TokenKind::Lt | TokenKind::Gt | TokenKind::Le
                | TokenKind::Ge => (40, 41),
                TokenKind::AmpAmp => (30, 31),
                TokenKind::PipePipe => (20, 21),
                TokenKind::TryOp => (80, 0),
                TokenKind::LParen => (90, 0),
                TokenKind::Dot => (100, 0),
                TokenKind::LBracket => (100, 0),
                _ => {
                    break;
                }
            };
            let (l_bp, r_bp) = bp;
            if l_bp < min_bp {
                break;
            }
            proof {
                extended = true;
            }
            let binop = match self.current_token.kind {
                TokenKind::Plus => Some(BinOp::Add),
                TokenKind::Minus => Some(BinOp::Sub),
                TokenKind::Star => Some(BinOp::Mul),
                TokenKind::Slash => Some(BinOp::Div),
                TokenKind::EqEq => Some(BinOp::Eq),
                TokenKind::Ne => Some(BinOp::Ne),
                TokenKind::Lt => Some(BinOp::Lt),
                TokenKind::Gt => Some(BinOp::Gt),
                TokenKind::Le => Some(BinOp::Le),
                TokenKind::Ge => Some(BinOp::Ge),
                TokenKind::AmpAmp => Some(BinOp::And),
                TokenKind::PipePipe => Some(BinOp::Or),
                _ => None,
            };
            if let Some(op) = binop {
                let ghost u = t.skip(pos);
                self.advance()?;
                proof {
                    if good {
                        assert(u.drop_first() =~= t.skip(pos + 1));
                        assert(u.skip(1) =~= t.skip(pos + 1));
                    }
                }
                let ghost rt = pexpr(t.skip(pos + 1), r_bp as int)->0;
                let rhs = self.parse_expr_bp(r_bp)?;
                let ghost prev = cur;
                lhs = Expr {
                    kind: ExprKind::Binary(op, Box::new(lhs), Box::new(rhs)),
                    span: make_span(start_span, self.line, self.col),
                };
                proof {
                    if good {
                        assert(t.skip(pos + 1).skip(rt.1) =~= t.skip(pos + 1 + rt.1));
                        assert(u.skip(1 + rt.1) =~= t.skip(pos + 1 + rt.1));
                        cur = Tree::Bin(op, Box::new(prev), Box::new(rt.0));
                        pos = pos + 1 + rt.1;
                    }
                }
            } else if self.check(&TokenKind::TryOp) {
                self.advance()?;
                lhs = Expr { kind: ExprKind::Try(Box::new(lhs)), span: make_span(start_span, self.line, self.col) };
            } else if self.check(&TokenKind::LParen) {
                self.advance()?;
                let args = self.parse_args(&TokenKind::RParen)?;
                self.expect(TokenKind::RParen)?;
                lhs = Expr {
                    kind: ExprKind::Call(Box::new(lhs), args),
                    span: make_span(start_span, self.line, self.col),
                };
            } else if self.check(&TokenKind::Dot) {
                self.advance()?;
                let field_name = self.expect_ident()?;
                if self.check(&TokenKind::LParen) {
                    self.advance()?;
                    let args = self.parse_args(&TokenKind::RParen)?;
                    self.expect(TokenKind::RParen)?;
                    lhs = Expr {
                        kind: ExprKind::MethodCall(Box::new(lhs), field_name, args),
                        span: make_span(start_span, self.line, self.col),
                    };
                } else {
                    lhs = Expr {
                        kind: ExprKind::FieldAccess(Box::new(lhs), field_name),
                        span: make_span(start_span, self.line, self.col),
                    };
                }
            } else {
                self.advance()?;
                let index_expr = self.parse_expr()?;
                self.expect(TokenKind::RBracket)?;
                lhs = Expr {
                    kind: ExprKind::Index(Box::new(lhs), Box::new(index_expr)),
                    span: make_span(start_span, self.line, self.col),
                };
            }
        }
        Ok(lhs)
    }

    fn parse_pattern(&mut self) -> (r: Result<Pattern, String>)
        requires
            old(self).wf(),
        ensures
            final(self).steps_from(old(self)),
            r is Ok ==> final(self).potential() < old(self).potential(),
            r matches Ok(p) ==> match old(self).current_token.kind@ {
                KindV::Int(v, suf) => p@ == PatternV::Lit(LitV::Int(v, suf)),
                KindV::Str(t) => p@ == PatternV::Lit(LitV::Str(t)),
                KindV::Bool(b) => p@ == PatternV::Lit(LitV::Bool(b)),
                KindV::Ident(n) => if old(self).peek_token.kind@ is LParen {
                    p@ matches PatternV::EnumVariant(path, _) && path == seq![n]
                } else {
                    p@ == PatternV::Ident(n)
                },
                _ => false,
            },
            !(old(self).current_token.kind@ is Int || old(self).current_token.kind@ is Str
                || old(self).current_token.kind@ is Bool || old(self).current_token.kind@ is Ident) ==> {
                let before = old(self).diagnostics@;
                let d = final(self).diagnostics@[before.len() as int];
                &&& r is Err
                &&& final(self).diagnostics@.len() == before.len() + 1
                &&& is_error_diag(d, "E0005"@, old(self).file())
                &&& d.message@ == "Unexpected pattern "@ + debug_kind(old(self).current_token.kind@)
                &&& d.span == old(self).current_token.span
            },
        decreases old(self).potential(),
    {
        broadcast use Parser::lemma_steps_trans;
        proof {
            Self::lemma_steps_refl(self);
        }
        match &self.current_token.kind {
            TokenKind::Ident(n) => {
                let name = n.clone();
                self.advance()?;
                if self.check(&TokenKind::LParen) {
                    self.advance()?;
                    let mut args: Vec<Pattern> = Vec::new();
                    loop
                        invariant
                            self.steps_from(old(self)),
                            self.potential() < old(self).potential(),
                            old(self).current_token.kind@ is Ident,
                        decreases self.potential(),
                    {
                        broadcast use Parser::lemma_steps_trans;
                        let p = self.parse_pattern()?;
                        args.push(p);
                        if self.check(&TokenKind::Comma) {
                            self.advance()?;
                        } else {
                            break;
                        }
                    }
                    self.expect(TokenKind::RParen)?;
                    Ok(Pattern::EnumVariant(vec![name], args))
                } else {
                    Ok(Pattern::Ident(name))
                }
            }
            TokenKind::Int(v, s) => {
                let val = *v;
                let suf = copy_opt(s);
                self.advance()?;
                Ok(Pattern::Lit(Lit::Int(val, suf)))
            }
            TokenKind::Str(v) => {
                let val = v.clone();
                self.advance()?;
                Ok(Pattern::Lit(Lit::Str(val)))
            }
            TokenKind::Bool(v) => {
                let val = *v;
                self.advance()?;
                Ok(Pattern::Lit(Lit::Bool(val)))
            }
            _ => {
                let span = self.current_token.span;
                let mut m: Vec<char> = Vec::new();
                append_str(&mut m, "Unexpected pattern ");
                let d = self.current_token.kind.debug_text();
                append_chars(&mut m, &d);
                self.error("E0005", string_of(&m), span);
                self.advance()?;
                Err(owned("Pattern parsing error"))
            }
        }
    }
}

} // verus!
