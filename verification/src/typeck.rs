//! The type checker: scopes, moves, borrows, raw blocks and the
//! specialisation of generic functions.

use vstd::prelude::*;
use crate::ast::{
    lit_view, opt_ty_view, params_view, strs_view, ty_view, tys_view, expr_view, exprs_view, field_inits_view,
    arms_view, pattern_view, patterns_view, field_pats_view, block_view, stmts_view, stmt_view,
    Block, BlockOrIf, BlockOrIfV, BlockV, Expr, ExprKind, ExprKindV, ExprV, FnDecl, ImplBlock, Item, Lit,
    LitV, MatchArm, MatchArmV, Module, Param, ParamV, FnDeclV, Pattern, StructDecl, StructField, PatternV, Stmt, StmtKind, StmtKindV, StmtV,
    Type, TypeKind, TypeKindV, TypeV, BinOp, UnOp,
};
use crate::diagnostics::{Diagnostic, Note, Span};
use crate::text::{append_chars, append_str, chars_of, debug_str, decimal_usize, owned, spec_debug_str, spec_decimal, str_eq, string_of};

verus! {

// ---------------------------------------------------------------------------
// Generic substitution
// ---------------------------------------------------------------------------

/// The first index at which `x` occurs in `ps`, or -1.
pub open spec fn position_of(ps: Seq<Seq<char>>, x: Seq<char>) -> int
    decreases ps.len(),
{
    if ps.len() == 0 {
        -1
    } else if ps[0] == x {
        0
    } else {
        let r = position_of(ps.subrange(1, ps.len() as int), x);
        if r < 0 { -1 } else { r + 1 }
    }
}

pub proof fn lemma_position_of(ps: Seq<Seq<char>>, x: Seq<char>)
    ensures
        -1 <= position_of(ps, x) < ps.len(),
        position_of(ps, x) >= 0 ==> ps[position_of(ps, x)] == x,
        position_of(ps, x) < 0 ==> !ps.contains(x),
        forall|j: int| 0 <= j < position_of(ps, x) ==> ps[j] != x,
    decreases ps.len(),
{
    if ps.len() > 0 {
        lemma_position_of(ps.subrange(1, ps.len() as int), x);
        let rest = ps.subrange(1, ps.len() as int);
        assert forall|j: int| 1 <= j < ps.len() implies #[trigger] ps[j] == rest[j - 1] by {}
        if position_of(ps, x) < 0 {
            assert forall|j: int| 0 <= j < ps.len() implies ps[j] != x by {
                if j > 0 {
                    assert(rest[j - 1] == ps[j]);
                }
            }
        }
    }
}

/// A type with each one-segment path that names a generic parameter replaced
/// by the corresponding argument.
pub open spec fn subst_type(t: TypeV, ps: Seq<Seq<char>>, args: Seq<TypeV>) -> TypeV
    decreases t,
{
    match t.kind {
        TypeKindV::Path(p, a) => {
            if p.len() == 1 && position_of(ps, p[0]) >= 0 {
                args[position_of(ps, p[0])]
            } else {
                TypeV { kind: TypeKindV::Path(p, subst_types(a, ps, args)), span: t.span }
            }
        },
        TypeKindV::Ref(b) => TypeV { kind: TypeKindV::Ref(Box::new(subst_type(*b, ps, args))), span: t.span },
        TypeKindV::Slice(b) => TypeV { kind: TypeKindV::Slice(Box::new(subst_type(*b, ps, args))), span: t.span },
        TypeKindV::RawPtr(b) => TypeV { kind: TypeKindV::RawPtr(Box::new(subst_type(*b, ps, args))), span: t.span },
    }
}

pub open spec fn subst_types(s: Seq<TypeV>, ps: Seq<Seq<char>>, args: Seq<TypeV>) -> Seq<TypeV>
    decreases s,
{
    if s.len() == 0 {
        Seq::empty()
    } else {
        proof {
            broadcast use vstd::seq::axiom_seq_index_decreases, vstd::seq::axiom_seq_subrange_decreases;
        }
        seq![subst_type(s[0], ps, args)] + subst_types(s.subrange(1, s.len() as int), ps, args)
    }
}

pub open spec fn subst_opt_type(o: Option<TypeV>, ps: Seq<Seq<char>>, args: Seq<TypeV>) -> Option<TypeV> {
    match o {
        Some(t) => Some(subst_type(t, ps, args)),
        None => None,
    }
}

/// An expression with the declared types of its `let` statements substituted.
pub open spec fn subst_expr(e: ExprV, ps: Seq<Seq<char>>, args: Seq<TypeV>) -> ExprV
    decreases e,
{
    let kind = match e.kind {
        ExprKindV::Binary(op, l, r) => ExprKindV::Binary(op, Box::new(subst_expr(*l, ps, args)), Box::new(subst_expr(*r, ps, args))),
        ExprKindV::Unary(op, x) => ExprKindV::Unary(op, Box::new(subst_expr(*x, ps, args))),
        ExprKindV::FieldAccess(x, f) => ExprKindV::FieldAccess(Box::new(subst_expr(*x, ps, args)), f),
        ExprKindV::MethodCall(x, m, a) => ExprKindV::MethodCall(Box::new(subst_expr(*x, ps, args)), m, subst_exprs(a, ps, args)),
        ExprKindV::Call(x, a) => ExprKindV::Call(Box::new(subst_expr(*x, ps, args)), subst_exprs(a, ps, args)),
        ExprKindV::StructInit(p, fs) => ExprKindV::StructInit(p, subst_field_inits(fs, ps, args)),
        ExprKindV::Block(b) => ExprKindV::Block(subst_block(b, ps, args)),
        ExprKindV::If(c, t, el) => ExprKindV::If(
            Box::new(subst_expr(*c, ps, args)),
            subst_block(t, ps, args),
            match el {
                Some(x) => Some(subst_else(x, ps, args)),
                None => None,
            },
        ),
        ExprKindV::Match(c, arms) => ExprKindV::Match(Box::new(subst_expr(*c, ps, args)), subst_arms(arms, ps, args)),
        ExprKindV::Try(x) => ExprKindV::Try(Box::new(subst_expr(*x, ps, args))),
        ExprKindV::Index(a, b) => ExprKindV::Index(Box::new(subst_expr(*a, ps, args)), Box::new(subst_expr(*b, ps, args))),
        other => other,
    };
    ExprV { kind, span: e.span }
}

pub open spec fn subst_exprs(s: Seq<ExprV>, ps: Seq<Seq<char>>, args: Seq<TypeV>) -> Seq<ExprV>
    decreases s,
{
    if s.len() == 0 {
        Seq::empty()
    } else {
        proof {
            broadcast use vstd::seq::axiom_seq_index_decreases, vstd::seq::axiom_seq_subrange_decreases;
        }
        seq![subst_expr(s[0], ps, args)] + subst_exprs(s.subrange(1, s.len() as int), ps, args)
    }
}

pub open spec fn subst_field_inits(s: Seq<(Seq<char>, ExprV)>, ps: Seq<Seq<char>>, args: Seq<TypeV>) -> Seq<(Seq<char>, ExprV)>
    decreases s,
{
    if s.len() == 0 {
        Seq::empty()
    } else {
        proof {
            broadcast use vstd::seq::axiom_seq_index_decreases, vstd::seq::axiom_seq_subrange_decreases;
        }
        seq![(s[0].0, subst_expr(s[0].1, ps, args))] + subst_field_inits(s.subrange(1, s.len() as int), ps, args)
    }
}

pub open spec fn subst_else(e: BlockOrIfV, ps: Seq<Seq<char>>, args: Seq<TypeV>) -> BlockOrIfV
    decreases e,
{
    match e {
        BlockOrIfV::Block(b) => BlockOrIfV::Block(subst_block(b, ps, args)),
        BlockOrIfV::If(c, t, rest) => BlockOrIfV::If(
            Box::new(subst_expr(*c, ps, args)),
            subst_block(t, ps, args),
            match rest {
                Some(x) => Some(Box::new(subst_else(*x, ps, args))),
                None => None,
            },
        ),
    }
}

pub open spec fn subst_arms(s: Seq<MatchArmV>, ps: Seq<Seq<char>>, args: Seq<TypeV>) -> Seq<MatchArmV>
    decreases s,
{
    if s.len() == 0 {
        Seq::empty()
    } else {
        proof {
            broadcast use vstd::seq::axiom_seq_index_decreases, vstd::seq::axiom_seq_subrange_decreases;
        }
        seq![MatchArmV { pattern: s[0].pattern, body: subst_expr(s[0].body, ps, args), span: s[0].span }]
            + subst_arms(s.subrange(1, s.len() as int), ps, args)
    }
}

pub open spec fn subst_block(b: BlockV, ps: Seq<Seq<char>>, args: Seq<TypeV>) -> BlockV
    decreases b,
{
    BlockV { stmts: subst_stmts(b.stmts, ps, args), span: b.span }
}

pub open spec fn subst_stmts(s: Seq<StmtV>, ps: Seq<Seq<char>>, args: Seq<TypeV>) -> Seq<StmtV>
    decreases s,
{
    if s.len() == 0 {
        Seq::empty()
    } else {
        proof {
            broadcast use vstd::seq::axiom_seq_index_decreases, vstd::seq::axiom_seq_subrange_decreases;
        }
        seq![subst_stmt(s[0], ps, args)] + subst_stmts(s.subrange(1, s.len() as int), ps, args)
    }
}

pub open spec fn subst_stmt(s: StmtV, ps: Seq<Seq<char>>, args: Seq<TypeV>) -> StmtV
    decreases s,
{
    let kind = match s.kind {
        StmtKindV::Let { is_mut, name, ty, value } => StmtKindV::Let {
            is_mut,
            name,
            ty: match ty {
                Some(t) => Some(subst_type(t, ps, args)),
                None => None,
            },
            value: subst_expr(value, ps, args),
        },
        StmtKindV::Assign(l, r) => StmtKindV::Assign(subst_expr(l, ps, args), subst_expr(r, ps, args)),
        StmtKindV::Expr(e) => StmtKindV::Expr(subst_expr(e, ps, args)),
        StmtKindV::Return(v) => StmtKindV::Return(
            match v {
                Some(e) => Some(subst_expr(e, ps, args)),
                None => None,
            },
        ),
        StmtKindV::While(c, b) => StmtKindV::While(subst_expr(c, ps, args), subst_block(b, ps, args)),
        StmtKindV::For(n, it, b) => StmtKindV::For(n, subst_expr(it, ps, args), subst_block(b, ps, args)),
        StmtKindV::Raw(b) => StmtKindV::Raw(subst_block(b, ps, args)),
    };
    StmtV { kind, span: s.span }
}
// ---------------------------------------------------------------------------
// Element-wise facts about the sequence views
// ---------------------------------------------------------------------------

pub proof fn lemma_tys_view(s: Seq<Type>)
    ensures
        tys_view(s).len() == s.len(),
        forall|i: int| 0 <= i < s.len() ==> #[trigger] tys_view(s)[i] == ty_view(s[i]),
    decreases s.len(),
{
    if s.len() > 0 {
        lemma_tys_view(s.subrange(1, s.len() as int));
    }
}

pub proof fn lemma_exprs_view(s: Seq<Expr>)
    ensures
        exprs_view(s).len() == s.len(),
        forall|i: int| 0 <= i < s.len() ==> #[trigger] exprs_view(s)[i] == expr_view(s[i]),
    decreases s.len(),
{
    if s.len() > 0 {
        lemma_exprs_view(s.subrange(1, s.len() as int));
    }
}

pub proof fn lemma_field_inits_view(s: Seq<(String, Expr)>)
    ensures
        field_inits_view(s).len() == s.len(),
        forall|i: int| 0 <= i < s.len() ==> #[trigger] field_inits_view(s)[i] == (s[i].0@, expr_view(s[i].1)),
    decreases s.len(),
{
    if s.len() > 0 {
        lemma_field_inits_view(s.subrange(1, s.len() as int));
    }
}

pub proof fn lemma_arms_view(s: Seq<MatchArm>)
    ensures
        arms_view(s).len() == s.len(),
        forall|i: int| 0 <= i < s.len() ==> #[trigger] arms_view(s)[i] == (MatchArmV { pattern: pattern_view(s[i].pattern), body: expr_view(s[i].body), span: s[i].span }),
    decreases s.len(),
{
    if s.len() > 0 {
        lemma_arms_view(s.subrange(1, s.len() as int));
    }
}

pub proof fn lemma_patterns_view(s: Seq<Pattern>)
    ensures
        patterns_view(s).len() == s.len(),
        forall|i: int| 0 <= i < s.len() ==> #[trigger] patterns_view(s)[i] == pattern_view(s[i]),
    decreases s.len(),
{
    if s.len() > 0 {
        lemma_patterns_view(s.subrange(1, s.len() as int));
    }
}

pub proof fn lemma_field_pats_view(s: Seq<(String, Pattern)>)
    ensures
        field_pats_view(s).len() == s.len(),
        forall|i: int| 0 <= i < s.len() ==> #[trigger] field_pats_view(s)[i] == (s[i].0@, pattern_view(s[i].1)),
    decreases s.len(),
{
    if s.len() > 0 {
        lemma_field_pats_view(s.subrange(1, s.len() as int));
    }
}

pub proof fn lemma_stmts_view(s: Seq<Stmt>)
    ensures
        stmts_view(s).len() == s.len(),
        forall|i: int| 0 <= i < s.len() ==> #[trigger] stmts_view(s)[i] == stmt_view(s[i]),
    decreases s.len(),
{
    if s.len() > 0 {
        lemma_stmts_view(s.subrange(1, s.len() as int));
    }
}

pub proof fn lemma_subst_types(s: Seq<TypeV>, ps: Seq<Seq<char>>, args: Seq<TypeV>)
    ensures
        subst_types(s, ps, args).len() == s.len(),
        forall|i: int| 0 <= i < s.len() ==> #[trigger] subst_types(s, ps, args)[i] == subst_type(s[i], ps, args),
    decreases s.len(),
{
    if s.len() > 0 {
        lemma_subst_types(s.subrange(1, s.len() as int), ps, args);
    }
}

pub proof fn lemma_subst_exprs(s: Seq<ExprV>, ps: Seq<Seq<char>>, args: Seq<TypeV>)
    ensures
        subst_exprs(s, ps, args).len() == s.len(),
        forall|i: int| 0 <= i < s.len() ==> #[trigger] subst_exprs(s, ps, args)[i] == subst_expr(s[i], ps, args),
    decreases s.len(),
{
    if s.len() > 0 {
        lemma_subst_exprs(s.subrange(1, s.len() as int), ps, args);
    }
}

pub proof fn lemma_subst_field_inits(s: Seq<(Seq<char>, ExprV)>, ps: Seq<Seq<char>>, args: Seq<TypeV>)
    ensures
        subst_field_inits(s, ps, args).len() == s.len(),
        forall|i: int| 0 <= i < s.len() ==> #[trigger] subst_field_inits(s, ps, args)[i] == (s[i].0, subst_expr(s[i].1, ps, args)),
    decreases s.len(),
{
    if s.len() > 0 {
        lemma_subst_field_inits(s.subrange(1, s.len() as int), ps, args);
    }
}

pub proof fn lemma_subst_arms(s: Seq<MatchArmV>, ps: Seq<Seq<char>>, args: Seq<TypeV>)
    ensures
        subst_arms(s, ps, args).len() == s.len(),
        forall|i: int| 0 <= i < s.len() ==> #[trigger] subst_arms(s, ps, args)[i] == (MatchArmV { pattern: s[i].pattern, body: subst_expr(s[i].body, ps, args), span: s[i].span }),
    decreases s.len(),
{
    if s.len() > 0 {
        lemma_subst_arms(s.subrange(1, s.len() as int), ps, args);
    }
}

pub proof fn lemma_subst_stmts(s: Seq<StmtV>, ps: Seq<Seq<char>>, args: Seq<TypeV>)
    ensures
        subst_stmts(s, ps, args).len() == s.len(),
        forall|i: int| 0 <= i < s.len() ==> #[trigger] subst_stmts(s, ps, args)[i] == subst_stmt(s[i], ps, args),
    decreases s.len(),
{
    if s.len() > 0 {
        lemma_subst_stmts(s.subrange(1, s.len() as int), ps, args);
    }
}

// ---------------------------------------------------------------------------
// Copies and substitution
// ---------------------------------------------------------------------------

fn copy_strings(v: &Vec<String>) -> (r: Vec<String>)
    ensures
        r@ == v@,
{
    let mut out: Vec<String> = Vec::new();
    let mut i: usize = 0;
    while i < v.len()
        invariant
            i <= v.len(),
            out@ == v@.subrange(0, i as int),
        decreases v.len() - i,
    {
        out.push(v[i].clone());
        i = i + 1;
    }
    out
}

fn copy_opt_string(o: &Option<String>) -> (r: Option<String>)
    ensures
        r == *o,
{
    match o {
        Some(s) => Some(s.clone()),
        None => None,
    }
}

fn copy_lit(l: &Lit) -> (r: Lit)
    ensures
        lit_view(r) == lit_view(*l),
{
    match l {
        Lit::Int(v, suf) => Lit::Int(*v, copy_opt_string(suf)),
        Lit::Float(t, suf) => Lit::Float(t.clone(), copy_opt_string(suf)),
        Lit::Str(t) => Lit::Str(t.clone()),
        Lit::Bool(b) => Lit::Bool(*b),
    }
}

/// A deep copy of a type.
pub fn copy_type(t: &Type) -> (r: Type)
    ensures
        r@ == t@,
    decreases t,
{
    let kind = match &t.kind {
        TypeKind::Path(p, args) => {
            let mut out: Vec<Type> = Vec::new();
            let mut i: usize = 0;
            while i < args.len()
                invariant
                    i <= args.len(),
                    t.kind == TypeKind::Path(*p, *args),
                    out.len() == i,
                    forall|j: int| 0 <= j < i ==> ty_view(#[trigger] out@[j]) == ty_view(args@[j]),
                decreases args.len() - i,
            {
                proof {
                    broadcast use vstd::std_specs::vec::axiom_vec_index_decreases;
                    assert(decreases_to!(*t => t.kind));
                    assert(t.kind->Path_1 == *args);
                    assert(decreases_to!(t.kind => t.kind->Path_1));
                    assert(decreases_to!(*args => args[i as int]));
                }
                out.push(copy_type(&args[i]));
                i = i + 1;
            }
            proof {
                lemma_tys_view(out@);
                lemma_tys_view(args@);
                assert(tys_view(out@) =~= tys_view(args@));
            }
            TypeKind::Path(copy_strings(p), out)
        },
        TypeKind::Ref(b) => TypeKind::Ref(Box::new(copy_type(b))),
        TypeKind::Slice(b) => TypeKind::Slice(Box::new(copy_type(b))),
        TypeKind::RawPtr(b) => TypeKind::RawPtr(Box::new(copy_type(b))),
    };
    Type { kind, span: t.span }
}

fn copy_opt_type(o: &Option<Type>) -> (r: Option<Type>)
    ensures
        opt_ty_view(r) == opt_ty_view(*o),
{
    match o {
        Some(t) => Some(copy_type(t)),
        None => None,
    }
}

/// The first position of `name` among the generic parameters.
fn position(ps: &[String], name: &String) -> (r: Option<usize>)
    ensures
        match r {
            Some(i) => position_of(strs_view(ps@), name@) == i,
            None => position_of(strs_view(ps@), name@) < 0,
        },
{
    let ghost pv = strs_view(ps@);
    proof { lemma_position_of(pv, name@); }
    let mut i: usize = 0;
    while i < ps.len()
        invariant
            i <= ps.len(),
            pv == strs_view(ps@),
            pv.len() == ps@.len(),
            forall|j: int| 0 <= j < i ==> pv[j] != name@,
            -1 <= position_of(pv, name@) < pv.len(),
            position_of(pv, name@) >= 0 ==> pv[position_of(pv, name@)] == name@,
            position_of(pv, name@) < 0 ==> !pv.contains(name@),
            forall|j: int| 0 <= j < position_of(pv, name@) ==> pv[j] != name@,
        decreases ps.len() - i,
    {
        if ps[i] == *name {
            assert(pv[i as int] == name@);
            return Some(i);
        }
        i = i + 1;
    }
    proof {
        if position_of(pv, name@) >= 0 {
            assert(pv[position_of(pv, name@)] == name@);
        }
    }
    None
}

/// `ty` with every one-segment path that names a parameter in `generic_params`
/// replaced by the argument at the same position.
fn substitute_type(ty: &Type, generic_params: &[String], generic_args: &[Type]) -> (r: Type)
    requires
        generic_params@.len() <= generic_args@.len(),
    ensures
        r@ == subst_type(ty@, strs_view(generic_params@), tys_view(generic_args@)),
    decreases ty,
{
    let ghost pv = strs_view(generic_params@);
    let ghost av = tys_view(generic_args@);
    proof { lemma_tys_view(generic_args@); }
    let kind = match &ty.kind {
        TypeKind::Path(path, args) => {
            if path.len() == 1 {
                match position(generic_params, &path[0]) {
                    Some(idx) => {
                        proof { lemma_position_of(pv, path@[0]@); }
                        assert(strs_view(path@)[0] == path@[0]@);
                        return copy_type(&generic_args[idx]);
                    },
                    None => {
                        assert(strs_view(path@)[0] == path@[0]@);
                    },
                }
            }
            let mut out: Vec<Type> = Vec::new();
            let mut i: usize = 0;
            while i < args.len()
                invariant
                    i <= args.len(),
                    ty.kind == TypeKind::Path(*path, *args),
                    generic_params@.len() <= generic_args@.len(),
                    pv == strs_view(generic_params@),
                    av == tys_view(generic_args@),
                    out.len() == i,
                    forall|j: int| 0 <= j < i ==> ty_view(#[trigger] out@[j]) == subst_type(ty_view(args@[j]), pv, av),
                decreases args.len() - i,
            {
                proof {
                    broadcast use vstd::std_specs::vec::axiom_vec_index_decreases;
                    assert(decreases_to!(*ty => ty.kind));
                    assert(ty.kind->Path_1 == *args);
                    assert(decreases_to!(ty.kind => ty.kind->Path_1));
                    assert(decreases_to!(*args => args[i as int]));
                }
                out.push(substitute_type(&args[i], generic_params, generic_args));
                i = i + 1;
            }
            proof {
                lemma_tys_view(out@);
                lemma_tys_view(args@);
                lemma_subst_types(tys_view(args@), pv, av);
                assert(tys_view(out@) =~= subst_types(tys_view(args@), pv, av));
            }
            TypeKind::Path(copy_strings(path), out)
        },
        TypeKind::Ref(b) => TypeKind::Ref(Box::new(substitute_type(b, generic_params, generic_args))),
        TypeKind::Slice(b) => TypeKind::Slice(Box::new(substitute_type(b, generic_params, generic_args))),
        TypeKind::RawPtr(b) => TypeKind::RawPtr(Box::new(substitute_type(b, generic_params, generic_args))),
    };
    Type { kind, span: ty.span }
}

/// A deep copy of a pattern (patterns hold no types).
fn copy_pattern(p: &Pattern) -> (r: Pattern)
    ensures
        r@ == p@,
    decreases p,
{
    match p {
        Pattern::Ident(n) => Pattern::Ident(n.clone()),
        Pattern::Struct(path, fields) => {
            let mut out: Vec<(String, Pattern)> = Vec::new();
            let mut i: usize = 0;
            while i < fields.len()
                invariant
                    i <= fields.len(),
                    *p == Pattern::Struct(*path, *fields),
                    out.len() == i,
                    forall|j: int| 0 <= j < i ==> (#[trigger] out@[j]).0@ == fields@[j].0@ && pattern_view(out@[j].1) == pattern_view(fields@[j].1),
                decreases fields.len() - i,
            {
                proof {
                    broadcast use vstd::std_specs::vec::axiom_vec_index_decreases;
                    assert(p->Struct_1 == *fields);
                    assert(decreases_to!(*p => p->Struct_1));
                    assert(decreases_to!(*fields => fields[i as int]));
                    assert(decreases_to!(fields[i as int] => fields[i as int].1));
                }
                let sub = copy_pattern(&fields[i].1);
                out.push((fields[i].0.clone(), sub));
                i = i + 1;
            }
            proof {
                lemma_field_pats_view(out@);
                lemma_field_pats_view(fields@);
                assert(field_pats_view(out@) =~= field_pats_view(fields@));
            }
            Pattern::Struct(copy_strings(path), out)
        },
        Pattern::EnumVariant(path, args) => {
            let mut out: Vec<Pattern> = Vec::new();
            let mut i: usize = 0;
            while i < args.len()
                invariant
                    i <= args.len(),
                    *p == Pattern::EnumVariant(*path, *args),
                    out.len() == i,
                    forall|j: int| 0 <= j < i ==> pattern_view(#[trigger] out@[j]) == pattern_view(args@[j]),
                decreases args.len() - i,
            {
                proof {
                    broadcast use vstd::std_specs::vec::axiom_vec_index_decreases;
                    assert(p->EnumVariant_1 == *args);
                    assert(decreases_to!(*p => p->EnumVariant_1));
                    assert(decreases_to!(*args => args[i as int]));
                }
                out.push(copy_pattern(&args[i]));
                i = i + 1;
            }
            proof {
                lemma_patterns_view(out@);
                lemma_patterns_view(args@);
                assert(patterns_view(out@) =~= patterns_view(args@));
            }
            Pattern::EnumVariant(copy_strings(path), out)
        },
        Pattern::Lit(l) => Pattern::Lit(copy_lit(l)),
        Pattern::Underscore => Pattern::Underscore,
    }
}

/// Substitutes inside each expression of a vector.
fn substitute_exprs(v: &Vec<Expr>, generic_params: &[String], generic_args: &[Type]) -> (r: Vec<Expr>)
    requires
        generic_params@.len() <= generic_args@.len(),
    ensures
        exprs_view(r@) == subst_exprs(exprs_view(v@), strs_view(generic_params@), tys_view(generic_args@)),
    decreases v, 0int,
{
    let ghost pv = strs_view(generic_params@);
    let ghost av = tys_view(generic_args@);
    let mut out: Vec<Expr> = Vec::new();
    let mut i: usize = 0;
    while i < v.len()
        invariant
            i <= v.len(),
            generic_params@.len() <= generic_args@.len(),
            pv == strs_view(generic_params@),
            av == tys_view(generic_args@),
            out.len() == i,
            forall|j: int| 0 <= j < i ==> expr_view(#[trigger] out@[j]) == subst_expr(expr_view(v@[j]), pv, av),
        decreases v.len() - i,
    {
        proof {
            broadcast use vstd::std_specs::vec::axiom_vec_index_decreases;
            assert(decreases_to!(*v => v[i as int]));
        }
        out.push(substitute_expr(&v[i], generic_params, generic_args));
        i = i + 1;
    }
    proof {
        lemma_exprs_view(out@);
        lemma_exprs_view(v@);
        lemma_subst_exprs(exprs_view(v@), pv, av);
        assert(exprs_view(out@) =~= subst_exprs(exprs_view(v@), pv, av));
    }
    out
}

fn substitute_expr(expr: &Expr, generic_params: &[String], generic_args: &[Type]) -> (r: Expr)
    requires
        generic_params@.len() <= generic_args@.len(),
    ensures
        r@ == subst_expr(expr@, strs_view(generic_params@), tys_view(generic_args@)),
    decreases expr, 1int,
{
    let ghost pv = strs_view(generic_params@);
    let ghost av = tys_view(generic_args@);
    let kind = match &expr.kind {
        ExprKind::Lit(l) => ExprKind::Lit(copy_lit(l)),
        ExprKind::Ident(n) => ExprKind::Ident(n.clone()),
        ExprKind::Path(p) => ExprKind::Path(copy_strings(p)),
        ExprKind::Binary(op, l, r) => ExprKind::Binary(
            *op,
            Box::new(substitute_expr(l, generic_params, generic_args)),
            Box::new(substitute_expr(r, generic_params, generic_args)),
        ),
        ExprKind::Unary(op, x) => ExprKind::Unary(*op, Box::new(substitute_expr(x, generic_params, generic_args))),
        ExprKind::FieldAccess(x, f) => ExprKind::FieldAccess(Box::new(substitute_expr(x, generic_params, generic_args)), f.clone()),
        ExprKind::MethodCall(x, m, a) => {
            let rx = substitute_expr(x, generic_params, generic_args);
            let ra = substitute_exprs(a, generic_params, generic_args);
            ExprKind::MethodCall(Box::new(rx), m.clone(), ra)
        },
        ExprKind::Call(x, a) => {
            let rx = substitute_expr(x, generic_params, generic_args);
            let ra = substitute_exprs(a, generic_params, generic_args);
            ExprKind::Call(Box::new(rx), ra)
        },
        ExprKind::StructInit(p, fields) => {
            let mut out: Vec<(String, Expr)> = Vec::new();
            let mut i: usize = 0;
            while i < fields.len()
                invariant
                    i <= fields.len(),
                    expr.kind == ExprKind::StructInit(*p, *fields),
                    generic_params@.len() <= generic_args@.len(),
                    pv == strs_view(generic_params@),
                    av == tys_view(generic_args@),
                    out.len() == i,
                    forall|j: int| 0 <= j < i ==> (#[trigger] out@[j]).0@ == fields@[j].0@
                        && expr_view(out@[j].1) == subst_expr(expr_view(fields@[j].1), pv, av),
                decreases fields.len() - i,
            {
                proof {
                    broadcast use vstd::std_specs::vec::axiom_vec_index_decreases;
                    assert(decreases_to!(*expr => expr.kind));
                    assert(expr.kind->StructInit_1 == *fields);
                    assert(decreases_to!(expr.kind => expr.kind->StructInit_1));
                    assert(decreases_to!(*fields => fields[i as int]));
                    assert(decreases_to!(fields[i as int] => fields[i as int].1));
                }
                let sub = substitute_expr(&fields[i].1, generic_params, generic_args);
                out.push((fields[i].0.clone(), sub));
                i = i + 1;
            }
            proof {
                lemma_field_inits_view(out@);
                lemma_field_inits_view(fields@);
                lemma_subst_field_inits(field_inits_view(fields@), pv, av);
                assert(field_inits_view(out@) =~= subst_field_inits(field_inits_view(fields@), pv, av));
            }
            ExprKind::StructInit(copy_strings(p), out)
        },
        ExprKind::Block(b) => ExprKind::Block(substitute_block(b, generic_params, generic_args)),
        ExprKind::If(c, t, el) => {
            let rc = substitute_expr(c, generic_params, generic_args);
            let rt = substitute_block(t, generic_params, generic_args);
            let re = match el {
                Some(x) => Some(substitute_else(x, generic_params, generic_args)),
                None => None,
            };
            ExprKind::If(Box::new(rc), rt, re)
        },
        ExprKind::Match(c, arms) => {
            let rc = substitute_expr(c, generic_params, generic_args);
            let mut out: Vec<MatchArm> = Vec::new();
            let mut i: usize = 0;
            while i < arms.len()
                invariant
                    i <= arms.len(),
                    expr.kind == ExprKind::Match(*c, *arms),
                    generic_params@.len() <= generic_args@.len(),
                    pv == strs_view(generic_params@),
                    av == tys_view(generic_args@),
                    out.len() == i,
                    forall|j: int| 0 <= j < i ==> pattern_view((#[trigger] out@[j]).pattern) == pattern_view(arms@[j].pattern)
                        && expr_view(out@[j].body) == subst_expr(expr_view(arms@[j].body), pv, av)
                        && out@[j].span == arms@[j].span,
                decreases arms.len() - i,
            {
                proof {
                    broadcast use vstd::std_specs::vec::axiom_vec_index_decreases;
                    assert(decreases_to!(*expr => expr.kind));
                    assert(expr.kind->Match_1 == *arms);
                    assert(decreases_to!(expr.kind => expr.kind->Match_1));
                    assert(decreases_to!(*arms => arms[i as int]));
                    assert(decreases_to!(arms[i as int] => arms[i as int].body));
                }
                let body = substitute_expr(&arms[i].body, generic_params, generic_args);
                let pattern = copy_pattern(&arms[i].pattern);
                out.push(MatchArm { pattern, body, span: arms[i].span });
                i = i + 1;
            }
            proof {
                lemma_arms_view(out@);
                lemma_arms_view(arms@);
                lemma_subst_arms(arms_view(arms@), pv, av);
                assert(arms_view(out@) =~= subst_arms(arms_view(arms@), pv, av));
            }
            ExprKind::Match(Box::new(rc), out)
        },
        ExprKind::Try(x) => ExprKind::Try(Box::new(substitute_expr(x, generic_params, generic_args))),
        ExprKind::Index(a, b) => {
            let ra = substitute_expr(a, generic_params, generic_args);
            let rb = substitute_expr(b, generic_params, generic_args);
            ExprKind::Index(Box::new(ra), Box::new(rb))
        },
    };
    Expr { kind, span: expr.span }
}

fn substitute_else(e: &BlockOrIf, generic_params: &[String], generic_args: &[Type]) -> (r: BlockOrIf)
    requires
        generic_params@.len() <= generic_args@.len(),
    ensures
        crate::ast::else_view(r) == subst_else(crate::ast::else_view(*e), strs_view(generic_params@), tys_view(generic_args@)),
    decreases e, 1int,
{
    match e {
        BlockOrIf::Block(b) => BlockOrIf::Block(substitute_block(b, generic_params, generic_args)),
        BlockOrIf::If(c, t, rest) => {
            let rc = substitute_expr(c, generic_params, generic_args);
            let rt = substitute_block(t, generic_params, generic_args);
            let rr = match rest {
                Some(x) => Some(Box::new(substitute_else(x, generic_params, generic_args))),
                None => None,
            };
            BlockOrIf::If(Box::new(rc), rt, rr)
        },
    }
}

fn substitute_block(block: &Block, generic_params: &[String], generic_args: &[Type]) -> (r: Block)
    requires
        generic_params@.len() <= generic_args@.len(),
    ensures
        r@ == subst_block(block@, strs_view(generic_params@), tys_view(generic_args@)),
    decreases block, 1int,
{
    let ghost pv = strs_view(generic_params@);
    let ghost av = tys_view(generic_args@);
    let mut out: Vec<Stmt> = Vec::new();
    let mut i: usize = 0;
    while i < block.stmts.len()
        invariant
            i <= block.stmts.len(),
            generic_params@.len() <= generic_args@.len(),
            pv == strs_view(generic_params@),
            av == tys_view(generic_args@),
            out.len() == i,
            forall|j: int| 0 <= j < i ==> stmt_view(#[trigger] out@[j]) == subst_stmt(stmt_view(block.stmts@[j]), pv, av),
        decreases block.stmts.len() - i,
    {
        proof {
            broadcast use vstd::std_specs::vec::axiom_vec_index_decreases;
            assert(decreases_to!(*block => block.stmts));
            assert(decreases_to!(block.stmts => block.stmts[i as int]));
        }
        out.push(substitute_stmt(&block.stmts[i], generic_params, generic_args));
        i = i + 1;
    }
    proof {
        lemma_stmts_view(out@);
        lemma_stmts_view(block.stmts@);
        lemma_subst_stmts(stmts_view(block.stmts@), pv, av);
        assert(stmts_view(out@) =~= subst_stmts(stmts_view(block.stmts@), pv, av));
    }
    Block { stmts: out, span: block.span }
}

fn substitute_stmt(stmt: &Stmt, generic_params: &[String], generic_args: &[Type]) -> (r: Stmt)
    requires
        generic_params@.len() <= generic_args@.len(),
    ensures
        stmt_view(r) == subst_stmt(stmt_view(*stmt), strs_view(generic_params@), tys_view(generic_args@)),
    decreases stmt, 1int,
{
    let kind = match &stmt.kind {
        StmtKind::Let { is_mut, name, ty, value } => {
            let sub_ty = match ty {
                Some(t) => Some(substitute_type(t, generic_params, generic_args)),
                None => None,
            };
            let sub_val = substitute_expr(value, generic_params, generic_args);
            StmtKind::Let { is_mut: *is_mut, name: name.clone(), ty: sub_ty, value: sub_val }
        },
        StmtKind::Assign(l, r) => {
            let rl = substitute_expr(l, generic_params, generic_args);
            let rr = substitute_expr(r, generic_params, generic_args);
            StmtKind::Assign(rl, rr)
        },
        StmtKind::Expr(e) => StmtKind::Expr(substitute_expr(e, generic_params, generic_args)),
        StmtKind::Return(v) => StmtKind::Return(
            match v {
                Some(e) => Some(substitute_expr(e, generic_params, generic_args)),
                None => None,
            },
        ),
        StmtKind::While(c, b) => {
            let rc = substitute_expr(c, generic_params, generic_args);
            let rb = substitute_block(b, generic_params, generic_args);
            StmtKind::While(rc, rb)
        },
        StmtKind::For(n, it, b) => {
            let ri = substitute_expr(it, generic_params, generic_args);
            let rb = substitute_block(b, generic_params, generic_args);
            StmtKind::For(n.clone(), ri, rb)
        },
        StmtKind::Raw(b) => StmtKind::Raw(substitute_block(b, generic_params, generic_args)),
    };
    Stmt { kind, span: stmt.span }
}

// ---------------------------------------------------------------------------
// Substituting no parameters changes nothing
// ---------------------------------------------------------------------------

/// With no generic parameters, type substitution is the identity.
pub proof fn lemma_subst_type_empty(t: TypeV, args: Seq<TypeV>)
    ensures
        subst_type(t, Seq::empty(), args) == t,
    decreases t,
{
    match t.kind {
        TypeKindV::Path(p, a) => {
            lemma_subst_types_empty(a, args);
        },
        TypeKindV::Ref(b) => lemma_subst_type_empty(*b, args),
        TypeKindV::Slice(b) => lemma_subst_type_empty(*b, args),
        TypeKindV::RawPtr(b) => lemma_subst_type_empty(*b, args),
    }
}

pub proof fn lemma_subst_types_empty(s: Seq<TypeV>, args: Seq<TypeV>)
    ensures
        subst_types(s, Seq::empty(), args) == s,
    decreases s,
{
    if s.len() == 0 {
        assert(s =~= Seq::empty());
    } else {
        broadcast use vstd::seq::axiom_seq_index_decreases, vstd::seq::axiom_seq_subrange_decreases;
        lemma_subst_type_empty(s[0], args);
        lemma_subst_types_empty(s.subrange(1, s.len() as int), args);
        assert(s =~= seq![s[0]] + s.subrange(1, s.len() as int));
    }
}

/// With no generic parameters, expression substitution is the identity.
pub proof fn lemma_subst_expr_empty(e: ExprV, args: Seq<TypeV>)
    ensures
        subst_expr(e, Seq::empty(), args) == e,
    decreases e,
{
    match e.kind {
        ExprKindV::Binary(op, l, r) => {
            lemma_subst_expr_empty(*l, args);
            lemma_subst_expr_empty(*r, args);
        },
        ExprKindV::Unary(op, x) => lemma_subst_expr_empty(*x, args),
        ExprKindV::FieldAccess(x, f) => lemma_subst_expr_empty(*x, args),
        ExprKindV::MethodCall(x, m, a) => {
            lemma_subst_expr_empty(*x, args);
            lemma_subst_exprs_empty(a, args);
        },
        ExprKindV::Call(x, a) => {
            lemma_subst_expr_empty(*x, args);
            lemma_subst_exprs_empty(a, args);
        },
        ExprKindV::StructInit(p, fs) => lemma_subst_field_inits_empty(fs, args),
        ExprKindV::Block(b) => lemma_subst_block_empty(b, args),
        ExprKindV::If(c, t, el) => {
            lemma_subst_expr_empty(*c, args);
            lemma_subst_block_empty(t, args);
            match el {
                Some(x) => lemma_subst_else_empty(x, args),
                None => {},
            }
        },
        ExprKindV::Match(c, arms) => {
            lemma_subst_expr_empty(*c, args);
            lemma_subst_arms_empty(arms, args);
        },
        ExprKindV::Try(x) => lemma_subst_expr_empty(*x, args),
        ExprKindV::Index(a, b) => {
            lemma_subst_expr_empty(*a, args);
            lemma_subst_expr_empty(*b, args);
        },
        _ => {},
    }
}

pub proof fn lemma_subst_exprs_empty(s: Seq<ExprV>, args: Seq<TypeV>)
    ensures
        subst_exprs(s, Seq::empty(), args) == s,
    decreases s,
{
    if s.len() == 0 {
        assert(s =~= Seq::empty());
    } else {
        broadcast use vstd::seq::axiom_seq_index_decreases, vstd::seq::axiom_seq_subrange_decreases;
        lemma_subst_expr_empty(s[0], args);
        lemma_subst_exprs_empty(s.subrange(1, s.len() as int), args);
        assert(s =~= seq![s[0]] + s.subrange(1, s.len() as int));
    }
}

pub proof fn lemma_subst_field_inits_empty(s: Seq<(Seq<char>, ExprV)>, args: Seq<TypeV>)
    ensures
        subst_field_inits(s, Seq::empty(), args) == s,
    decreases s,
{
    if s.len() == 0 {
        assert(s =~= Seq::empty());
    } else {
        broadcast use vstd::seq::axiom_seq_index_decreases, vstd::seq::axiom_seq_subrange_decreases;
        assert(decreases_to!(s[0] => s[0].1));
        lemma_subst_expr_empty(s[0].1, args);
        lemma_subst_field_inits_empty(s.subrange(1, s.len() as int), args);
        assert(s =~= seq![s[0]] + s.subrange(1, s.len() as int));
    }
}

pub proof fn lemma_subst_else_empty(e: BlockOrIfV, args: Seq<TypeV>)
    ensures
        subst_else(e, Seq::empty(), args) == e,
    decreases e,
{
    match e {
        BlockOrIfV::Block(b) => lemma_subst_block_empty(b, args),
        BlockOrIfV::If(c, t, rest) => {
            lemma_subst_expr_empty(*c, args);
            lemma_subst_block_empty(t, args);
            match rest {
                Some(x) => lemma_subst_else_empty(*x, args),
                None => {},
            }
        },
    }
}

pub proof fn lemma_subst_arms_empty(s: Seq<MatchArmV>, args: Seq<TypeV>)
    ensures
        subst_arms(s, Seq::empty(), args) == s,
    decreases s,
{
    if s.len() == 0 {
        assert(s =~= Seq::empty());
    } else {
        broadcast use vstd::seq::axiom_seq_index_decreases, vstd::seq::axiom_seq_subrange_decreases;
        assert(decreases_to!(s[0] => s[0].body));
        lemma_subst_expr_empty(s[0].body, args);
        lemma_subst_arms_empty(s.subrange(1, s.len() as int), args);
        assert(s =~= seq![s[0]] + s.subrange(1, s.len() as int));
    }
}

pub proof fn lemma_subst_block_empty(b: BlockV, args: Seq<TypeV>)
    ensures
        subst_block(b, Seq::empty(), args) == b,
    decreases b,
{
    lemma_subst_stmts_empty(b.stmts, args);
}

pub proof fn lemma_subst_stmts_empty(s: Seq<StmtV>, args: Seq<TypeV>)
    ensures
        subst_stmts(s, Seq::empty(), args) == s,
    decreases s,
{
    if s.len() == 0 {
        assert(s =~= Seq::empty());
    } else {
        broadcast use vstd::seq::axiom_seq_index_decreases, vstd::seq::axiom_seq_subrange_decreases;
        lemma_subst_stmt_empty(s[0], args);
        lemma_subst_stmts_empty(s.subrange(1, s.len() as int), args);
        assert(s =~= seq![s[0]] + s.subrange(1, s.len() as int));
    }
}

pub proof fn lemma_subst_stmt_empty(s: StmtV, args: Seq<TypeV>)
    ensures
        subst_stmt(s, Seq::empty(), args) == s,
    decreases s,
{
    match s.kind {
        StmtKindV::Let { is_mut, name, ty, value } => {
            match ty {
                Some(t) => lemma_subst_type_empty(t, args),
                None => {},
            }
            lemma_subst_expr_empty(value, args);
        },
        StmtKindV::Assign(l, r) => {
            lemma_subst_expr_empty(l, args);
            lemma_subst_expr_empty(r, args);
        },
        StmtKindV::Expr(e) => lemma_subst_expr_empty(e, args),
        StmtKindV::Return(v) => {
            match v {
                Some(e) => lemma_subst_expr_empty(e, args),
                None => {},
            }
        },
        StmtKindV::While(c, b) => {
            lemma_subst_expr_empty(c, args);
            lemma_subst_block_empty(b, args);
        },
        StmtKindV::For(n, it, b) => {
            lemma_subst_expr_empty(it, args);
            lemma_subst_block_empty(b, args);
        },
        StmtKindV::Raw(b) => lemma_subst_block_empty(b, args),
    }
}

// ---------------------------------------------------------------------------
// `{:?}` text of types, as the derived `Debug` writes it
// ---------------------------------------------------------------------------

pub open spec fn join_debug_strs(s: Seq<Seq<char>>) -> Seq<char>
    decreases s.len(),
{
    if s.len() == 0 {
        Seq::empty()
    } else if s.len() == 1 {
        spec_debug_str(s[0])
    } else {
        join_debug_strs(s.subrange(0, s.len() - 1)) + ", "@ + spec_debug_str(s[s.len() - 1])
    }
}

/// `{:?}` of a vector of strings.
pub open spec fn debug_strings(s: Seq<Seq<char>>) -> Seq<char> {
    "["@ + join_debug_strs(s) + "]"@
}

/// `{:?}` of a span.
pub open spec fn debug_span(sp: Span) -> Seq<char> {
    "Span { start_line: "@ + spec_decimal(sp.start_line as nat) + ", start_col: "@ + spec_decimal(sp.start_col as nat)
        + ", end_line: "@ + spec_decimal(sp.end_line as nat) + ", end_col: "@ + spec_decimal(sp.end_col as nat) + " }"@
}

/// `{:?}` of a type.
pub open spec fn debug_type(t: TypeV) -> Seq<char>
    decreases t,
{
    "Type { kind: "@ + debug_type_kind(t.kind) + ", span: "@ + debug_span(t.span) + " }"@
}

/// `{:?}` of a type's kind.
pub open spec fn debug_type_kind(k: TypeKindV) -> Seq<char>
    decreases k,
{
    match k {
        TypeKindV::Path(p, a) => "Path("@ + debug_strings(p) + ", "@ + "["@ + join_debug_types(a) + "]"@ + ")"@,
        TypeKindV::Ref(b) => "Ref("@ + debug_type(*b) + ")"@,
        TypeKindV::Slice(b) => "Slice("@ + debug_type(*b) + ")"@,
        TypeKindV::RawPtr(b) => "RawPtr("@ + debug_type(*b) + ")"@,
    }
}

pub open spec fn join_debug_types(s: Seq<TypeV>) -> Seq<char>
    decreases s,
{
    if s.len() == 0 {
        Seq::empty()
    } else {
        proof {
            broadcast use vstd::seq::axiom_seq_index_decreases, vstd::seq::axiom_seq_subrange_decreases;
        }
        if s.len() == 1 {
            debug_type(s[0])
        } else {
            join_debug_types(s.subrange(0, s.len() - 1)) + ", "@ + debug_type(s[s.len() - 1])
        }
    }
}

fn push_debug_strings(out: &mut Vec<char>, s: &Vec<String>)
    ensures
        final(out)@ == old(out)@ + debug_strings(strs_view(s@)),
{
    let ghost sv = strs_view(s@);
    let ghost start = out@;
    append_str(out, "[");
    let mut i: usize = 0;
    while i < s.len()
        invariant
            i <= s.len(),
            sv == strs_view(s@),
            out@ == start + "["@ + join_debug_strs(sv.subrange(0, i as int)),
        decreases s.len() - i,
    {
        if i > 0 {
            append_str(out, ", ");
        }
        let d = debug_str(s[i].as_str());
        let dv = chars_of(d.as_str());
        append_chars(out, &dv);
        proof {
            let pre = sv.subrange(0, i + 1);
            assert(pre.subrange(0, i as int) =~= sv.subrange(0, i as int));
            assert(pre[i as int] == s@[i as int]@);
            if i == 0 {
                assert(sv.subrange(0, 0) =~= Seq::<Seq<char>>::empty());
            }
        }
        i = i + 1;
    }
    append_str(out, "]");
    assert(sv.subrange(0, s.len() as int) =~= sv);
}

fn push_debug_span(out: &mut Vec<char>, sp: Span)
    ensures
        final(out)@ == old(out)@ + debug_span(sp),
{
    append_str(out, "Span { start_line: ");
    append_chars(out, &decimal_usize(sp.start_line));
    append_str(out, ", start_col: ");
    append_chars(out, &decimal_usize(sp.start_col));
    append_str(out, ", end_line: ");
    append_chars(out, &decimal_usize(sp.end_line));
    append_str(out, ", end_col: ");
    append_chars(out, &decimal_usize(sp.end_col));
    append_str(out, " }");
}

fn push_debug_type(out: &mut Vec<char>, t: &Type)
    ensures
        final(out)@ == old(out)@ + debug_type(t@),
    decreases t, 1int,
{
    append_str(out, "Type { kind: ");
    push_debug_kind(out, &t.kind);
    append_str(out, ", span: ");
    push_debug_span(out, t.span);
    append_str(out, " }");
}

/// Appends the `{:?}` text of a type kind.
fn push_debug_kind(out: &mut Vec<char>, k: &TypeKind)
    ensures
        final(out)@ == old(out)@ + debug_type_kind(crate::ast::ty_kind_view(*k)),
    decreases k, 0int,
{
    match k {
        TypeKind::Path(p, args) => {
            let ghost begin = out@;
            append_str(out, "Path(");
            push_debug_strings(out, p);
            append_str(out, ", ");
            append_str(out, "[");
            let ghost av = tys_view(args@);
            let ghost start = out@;
            proof { lemma_tys_view(args@); }
            let mut i: usize = 0;
            while i < args.len()
                invariant
                    i <= args.len(),
                    *k == TypeKind::Path(*p, *args),
                    av == tys_view(args@),
                    av.len() == args@.len(),
                    forall|j: int| 0 <= j < args@.len() ==> #[trigger] av[j] == ty_view(args@[j]),
                    out@ == start + join_debug_types(av.subrange(0, i as int)),
                decreases args.len() - i,
            {
                proof {
                    broadcast use vstd::std_specs::vec::axiom_vec_index_decreases;
                    assert(k->Path_1 == *args);
                    assert(decreases_to!(*k => k->Path_1));
                    assert(decreases_to!(*args => args[i as int]));
                }
                if i > 0 {
                    append_str(out, ", ");
                }
                push_debug_type(out, &args[i]);
                proof {
                    let pre = av.subrange(0, i + 1);
                    assert(pre.subrange(0, i as int) =~= av.subrange(0, i as int));
                    assert(pre[i as int] == av[i as int]);
                    if i == 0 {
                        assert(av.subrange(0, 0) =~= Seq::<TypeV>::empty());
                    }
                }
                i = i + 1;
            }
            assert(av.subrange(0, args.len() as int) =~= av);
            append_str(out, "]");
            append_str(out, ")");
            assert(out@ =~= begin + debug_type_kind(crate::ast::ty_kind_view(*k)));
        },
        TypeKind::Ref(b) => {
            append_str(out, "Ref(");
            push_debug_type(out, b);
            append_str(out, ")");
        },
        TypeKind::Slice(b) => {
            append_str(out, "Slice(");
            push_debug_type(out, b);
            append_str(out, ")");
        },
        TypeKind::RawPtr(b) => {
            append_str(out, "RawPtr(");
            push_debug_type(out, b);
            append_str(out, ")");
        },
    }
}

// ---------------------------------------------------------------------------
// Type equality, copy types, `Self` resolution
// ---------------------------------------------------------------------------

/// A one-segment type path of the given name.
pub open spec fn named_type(name: Seq<char>, span: Span) -> TypeV {
    TypeV { kind: TypeKindV::Path(seq![name], Seq::empty()), span }
}

fn make_named_type(name: &str, span: Span) -> (r: Type)
    ensures
        r@ == named_type(name@, span),
{
    let mut path: Vec<String> = Vec::new();
    path.push(owned(name));
    let args: Vec<Type> = Vec::new();
    let r = Type { kind: TypeKind::Path(path, args), span };
    proof {
        lemma_tys_view(args@);
        assert(strs_view(path@) =~= seq![name@]);
        assert(tys_view(args@) =~= Seq::<TypeV>::empty());
    }
    r
}

/// The names that a raw pointer compares equal to in any context.
pub open spec fn is_pointer_sized_name(p: Seq<Seq<char>>) -> bool {
    p.len() > 0 && {
        let n = p[p.len() - 1];
        n == "i32"@ || n == "i64"@ || n == "u8"@ || n == "usize"@ || n == "any"@
    }
}

/// When two types count as equal; `raw` is whether the check is inside a
/// `raw` block, where pointers and references are interchangeable.
pub open spec fn types_eq(raw: bool, a: TypeV, b: TypeV) -> bool
    decreases a,
{
    if raw && ((a.kind is RawPtr && b.kind is RawPtr) || (a.kind is RawPtr && b.kind is Ref) || (a.kind is Ref
        && b.kind is RawPtr)) {
        true
    } else if a.kind is RawPtr && b.kind is Path && is_pointer_sized_name(b.kind->Path_0) {
        true
    } else if a.kind is Path && b.kind is RawPtr && is_pointer_sized_name(a.kind->Path_0) {
        true
    } else {
        match a.kind {
            TypeKindV::Path(p1, a1) => match b.kind {
                TypeKindV::Path(p2, a2) => p1 == p2 && types_eq_all(raw, a1, a2),
                _ => false,
            },
            TypeKindV::Ref(x) => match b.kind {
                TypeKindV::Ref(y) => types_eq(raw, *x, *y),
                _ => false,
            },
            TypeKindV::Slice(x) => match b.kind {
                TypeKindV::Slice(y) => types_eq(raw, *x, *y),
                _ => false,
            },
            TypeKindV::RawPtr(x) => match b.kind {
                TypeKindV::RawPtr(y) => types_eq(raw, *x, *y),
                _ => false,
            },
        }
    }
}

/// Two argument lists of equal length whose arguments are pairwise equal.
pub open spec fn types_eq_all(raw: bool, s1: Seq<TypeV>, s2: Seq<TypeV>) -> bool
    decreases s1,
{
    s1.len() == s2.len() && (s1.len() == 0 || {
        proof {
            broadcast use vstd::seq::axiom_seq_index_decreases, vstd::seq::axiom_seq_subrange_decreases;
        }
        types_eq(raw, s1[0], s2[0]) && types_eq_all(raw, s1.subrange(1, s1.len() as int), s2.subrange(1, s2.len() as int))
    })
}

pub proof fn lemma_types_eq_all(raw: bool, s1: Seq<TypeV>, s2: Seq<TypeV>)
    ensures
        types_eq_all(raw, s1, s2) <==> (s1.len() == s2.len() && forall|i: int| 0 <= i < s1.len() ==> #[trigger] types_eq(raw, s1[i], s2[i])),
    decreases s1.len(),
{
    if s1.len() > 0 && s1.len() == s2.len() {
        let r1 = s1.subrange(1, s1.len() as int);
        let r2 = s2.subrange(1, s2.len() as int);
        lemma_types_eq_all(raw, r1, r2);
        assert(types_eq_all(raw, s1, s2) == (types_eq(raw, s1[0], s2[0]) && types_eq_all(raw, r1, r2)));
        if forall|i: int| 0 <= i < s1.len() ==> #[trigger] types_eq(raw, s1[i], s2[i]) {
            assert forall|i: int| 0 <= i < r1.len() implies #[trigger] types_eq(raw, r1[i], r2[i]) by {
                assert(r1[i] == s1[i + 1] && r2[i] == s2[i + 1]);
                assert(types_eq(raw, s1[i + 1], s2[i + 1]));
            }
            assert(types_eq(raw, s1[0], s2[0]));
            assert(types_eq_all(raw, s1, s2));
        }
        if types_eq_all(raw, s1, s2) {
            assert forall|i: int| 0 <= i < s1.len() implies #[trigger] types_eq(raw, s1[i], s2[i]) by {
                if i > 0 {
                    assert(r1[i - 1] == s1[i] && r2[i - 1] == s2[i]);
                    assert(types_eq(raw, r1[i - 1], r2[i - 1]));
                }
            }
        }
    }
}

/// Every type equals itself, inside or outside a `raw` block.
pub proof fn lemma_types_eq_reflexive(raw: bool, t: TypeV)
    ensures
        types_eq(raw, t, t),
    decreases t,
{
    match t.kind {
        TypeKindV::Path(p, a) => {
            assert forall|i: int| 0 <= i < a.len() implies #[trigger] types_eq(raw, a[i], a[i]) by {
                broadcast use vstd::seq::axiom_seq_index_decreases;
                lemma_types_eq_reflexive(raw, a[i]);
            }
            lemma_types_eq_all(raw, a, a);
        },
        TypeKindV::Ref(b) => lemma_types_eq_reflexive(raw, *b),
        TypeKindV::Slice(b) => lemma_types_eq_reflexive(raw, *b),
        TypeKindV::RawPtr(b) => lemma_types_eq_reflexive(raw, *b),
    }
}

/// Type equality does not depend on the order of its operands.
pub proof fn lemma_types_eq_symmetric(raw: bool, a: TypeV, b: TypeV)
    ensures
        types_eq(raw, a, b) == types_eq(raw, b, a),
    decreases a,
{
    match a.kind {
        TypeKindV::Path(p1, a1) => {
            match b.kind {
                TypeKindV::Path(p2, a2) => {
                    if a1.len() == a2.len() {
                        assert forall|i: int|
                            #![trigger types_eq(raw, a1[i], a2[i])]
                            #![trigger types_eq(raw, a2[i], a1[i])]
                            0 <= i < a1.len() implies types_eq(raw, a1[i], a2[i]) == types_eq(raw, a2[i], a1[i]) by {
                            broadcast use vstd::seq::axiom_seq_index_decreases;
                            lemma_types_eq_symmetric(raw, a1[i], a2[i]);
                        }
                    }
                    lemma_types_eq_all(raw, a1, a2);
                    lemma_types_eq_all(raw, a2, a1);
                    assert(types_eq_all(raw, a1, a2) == types_eq_all(raw, a2, a1));
                },
                _ => {},
            }
        },
        TypeKindV::Ref(x) => {
            match b.kind {
                TypeKindV::Ref(y) => lemma_types_eq_symmetric(raw, *x, *y),
                _ => {},
            }
        },
        TypeKindV::Slice(x) => {
            match b.kind {
                TypeKindV::Slice(y) => lemma_types_eq_symmetric(raw, *x, *y),
                _ => {},
            }
        },
        TypeKindV::RawPtr(x) => {
            match b.kind {
                TypeKindV::RawPtr(y) => lemma_types_eq_symmetric(raw, *x, *y),
                _ => {},
            }
        },
    }
}

fn strings_eq(a: &Vec<String>, b: &Vec<String>) -> (r: bool)
    ensures
        r == (strs_view(a@) == strs_view(b@)),
{
    if a.len() != b.len() {
        assert(strs_view(a@).len() != strs_view(b@).len());
        return false;
    }
    let mut i: usize = 0;
    while i < a.len()
        invariant
            i <= a.len(),
            a.len() == b.len(),
            forall|j: int| 0 <= j < i ==> a@[j]@ == b@[j]@,
        decreases a.len() - i,
    {
        if a[i] != b[i] {
            assert(strs_view(a@)[i as int] != strs_view(b@)[i as int]);
            return false;
        }
        i = i + 1;
    }
    assert(strs_view(a@) =~= strs_view(b@));
    true
}

fn is_pointer_sized(path: &Vec<String>) -> (r: bool)
    ensures
        r == is_pointer_sized_name(strs_view(path@)),
{
    if path.len() == 0 {
        return false;
    }
    let name = path[path.len() - 1].as_str();
    assert(strs_view(path@)[path.len() - 1] == name@);
    str_eq(name, "i32") || str_eq(name, "i64") || str_eq(name, "u8") || str_eq(name, "usize") || str_eq(name, "any")
}

/// The names of the types that are copied rather than moved.
pub open spec fn is_copy_name(n: Seq<char>) -> bool {
    n == "i8"@ || n == "i16"@ || n == "i32"@ || n == "i64"@ || n == "u8"@ || n == "u16"@ || n == "u32"@ || n == "u64"@
        || n == "f32"@ || n == "f64"@ || n == "bool"@ || n == "char"@ || n == "usize"@ || n == "string"@
}

/// Whether values of a type are copied rather than moved.
pub open spec fn is_copy(t: TypeV) -> bool {
    match t.kind {
        TypeKindV::Ref(_) => true,
        TypeKindV::RawPtr(_) => true,
        TypeKindV::Path(p, _) => p.len() == 1 && is_copy_name(p[0]),
        TypeKindV::Slice(_) => false,
    }
}

/// A type with each one-segment path `Self` or `self` replaced by `s`.
pub open spec fn resolve_self(t: TypeV, s: TypeV) -> TypeV
    decreases t,
{
    match t.kind {
        TypeKindV::Path(p, a) => {
            if p.len() == 1 && (p[0] == "Self"@ || p[0] == "self"@) {
                s
            } else {
                TypeV { kind: TypeKindV::Path(p, resolve_self_all(a, s)), span: t.span }
            }
        },
        TypeKindV::Ref(b) => TypeV { kind: TypeKindV::Ref(Box::new(resolve_self(*b, s))), span: t.span },
        TypeKindV::Slice(b) => TypeV { kind: TypeKindV::Slice(Box::new(resolve_self(*b, s))), span: t.span },
        TypeKindV::RawPtr(b) => TypeV { kind: TypeKindV::RawPtr(Box::new(resolve_self(*b, s))), span: t.span },
    }
}

pub open spec fn resolve_self_all(v: Seq<TypeV>, s: TypeV) -> Seq<TypeV>
    decreases v,
{
    if v.len() == 0 {
        Seq::empty()
    } else {
        proof {
            broadcast use vstd::seq::axiom_seq_index_decreases, vstd::seq::axiom_seq_subrange_decreases;
        }
        seq![resolve_self(v[0], s)] + resolve_self_all(v.subrange(1, v.len() as int), s)
    }
}

pub proof fn lemma_resolve_self_all(v: Seq<TypeV>, s: TypeV)
    ensures
        resolve_self_all(v, s).len() == v.len(),
        forall|i: int| 0 <= i < v.len() ==> #[trigger] resolve_self_all(v, s)[i] == resolve_self(v[i], s),
    decreases v.len(),
{
    if v.len() > 0 {
        lemma_resolve_self_all(v.subrange(1, v.len() as int), s);
    }
}

// ---------------------------------------------------------------------------
// Argument inference and specialisation
// ---------------------------------------------------------------------------

/// What matching a parameter type against an argument type infers, starting
/// from `inf` (one optional type per generic parameter; the first binding of
/// a parameter is kept).
pub open spec fn match_types(ps: Seq<Seq<char>>, p: TypeV, a: TypeV, inf: Seq<Option<TypeV>>) -> Seq<Option<TypeV>>
    decreases p,
{
    match p.kind {
        TypeKindV::Path(path, pargs) => match a.kind {
            TypeKindV::Path(_, aargs) => {
                if path.len() == 1 && position_of(ps, path[0]) >= 0 {
                    let idx = position_of(ps, path[0]);
                    if inf[idx] is None { inf.update(idx, Some(a)) } else { inf }
                } else {
                    match_types_all(ps, pargs, aargs, inf)
                }
            },
            _ => inf,
        },
        TypeKindV::Ref(x) => match a.kind {
            TypeKindV::Ref(y) => match_types(ps, *x, *y, inf),
            _ => inf,
        },
        TypeKindV::Slice(x) => match a.kind {
            TypeKindV::Slice(y) => match_types(ps, *x, *y, inf),
            _ => inf,
        },
        TypeKindV::RawPtr(x) => match a.kind {
            TypeKindV::RawPtr(y) => match_types(ps, *x, *y, inf),
            _ => inf,
        },
    }
}

/// Matching two lists pairwise, as far as the shorter one goes.
pub open spec fn match_types_all(ps: Seq<Seq<char>>, s1: Seq<TypeV>, s2: Seq<TypeV>, inf: Seq<Option<TypeV>>) -> Seq<Option<TypeV>>
    decreases s1,
{
    if s1.len() == 0 || s2.len() == 0 {
        inf
    } else {
        proof {
            broadcast use vstd::seq::axiom_seq_index_decreases, vstd::seq::axiom_seq_subrange_decreases;
        }
        match_types_all(ps, s1.subrange(1, s1.len() as int), s2.subrange(1, s2.len() as int), match_types(ps, s1[0], s2[0], inf))
    }
}

pub proof fn lemma_match_types_len(ps: Seq<Seq<char>>, p: TypeV, a: TypeV, inf: Seq<Option<TypeV>>)
    requires
        inf.len() == ps.len(),
    ensures
        match_types(ps, p, a, inf).len() == inf.len(),
    decreases p,
{
    match p.kind {
        TypeKindV::Path(path, pargs) => match a.kind {
            TypeKindV::Path(_, aargs) => {
                if path.len() == 1 {
                    lemma_position_of(ps, path[0]);
                }
                if !(path.len() == 1 && position_of(ps, path[0]) >= 0) {
                    lemma_match_types_all_len(ps, pargs, aargs, inf);
                }
            },
            _ => {},
        },
        TypeKindV::Ref(x) => match a.kind {
            TypeKindV::Ref(y) => lemma_match_types_len(ps, *x, *y, inf),
            _ => {},
        },
        TypeKindV::Slice(x) => match a.kind {
            TypeKindV::Slice(y) => lemma_match_types_len(ps, *x, *y, inf),
            _ => {},
        },
        TypeKindV::RawPtr(x) => match a.kind {
            TypeKindV::RawPtr(y) => lemma_match_types_len(ps, *x, *y, inf),
            _ => {},
        },
    }
}

pub proof fn lemma_match_types_all_len(ps: Seq<Seq<char>>, s1: Seq<TypeV>, s2: Seq<TypeV>, inf: Seq<Option<TypeV>>)
    requires
        inf.len() == ps.len(),
    ensures
        match_types_all(ps, s1, s2, inf).len() == inf.len(),
    decreases s1,
{
    if s1.len() > 0 && s2.len() > 0 {
        broadcast use vstd::seq::axiom_seq_index_decreases, vstd::seq::axiom_seq_subrange_decreases;
        lemma_match_types_len(ps, s1[0], s2[0], inf);
        lemma_match_types_all_len(ps, s1.subrange(1, s1.len() as int), s2.subrange(1, s2.len() as int), match_types(ps, s1[0], s2[0], inf));
    }
}

/// The inferred generic arguments: what matching the parameter types against
/// the argument types bound, or none where some parameter is bound by
/// nothing (which is reported as `E0122`).
pub open spec fn inferred_args(ps: Seq<Seq<char>>, param_tys: Seq<TypeV>, arg_tys: Seq<TypeV>) -> Option<Seq<TypeV>> {
    let inf = match_types_all(ps, param_tys, arg_tys, Seq::new(ps.len(), |i: int| None::<TypeV>));
    if forall|i: int| 0 <= i < ps.len() ==> (#[trigger] inf[i]) is Some {
        Some(Seq::new(ps.len(), |i: int| inf[i]->0))
    } else {
        None
    }
}

/// The name a type contributes to a specialised function's name: the last
/// segment of a path, `ptr` for anything else.
pub open spec fn type_arg_name(t: TypeV) -> Seq<char> {
    match t.kind {
        TypeKindV::Path(p, _) => p[p.len() - 1],
        _ => "ptr"@,
    }
}

/// Parts joined by `_`.
pub open spec fn join_underscore(parts: Seq<Seq<char>>) -> Seq<char>
    decreases parts.len(),
{
    if parts.len() == 0 {
        Seq::empty()
    } else if parts.len() == 1 {
        parts[0]
    } else {
        join_underscore(parts.subrange(0, parts.len() - 1)) + "_"@ + parts[parts.len() - 1]
    }
}

/// The name of `f` specialised to `args`: `f_A_B` for arguments named `A`, `B`.
pub open spec fn specialized_name(f: Seq<char>, args: Seq<TypeV>) -> Seq<char> {
    f + "_"@ + join_underscore(args.map_values(|t: TypeV| type_arg_name(t)))
}

/// Whether every path type among `args` has at least one segment.
pub open spec fn paths_nonempty(args: Seq<TypeV>) -> bool {
    forall|i: int| 0 <= i < args.len() ==> (#[trigger] args[i]).kind is Path ==> args[i].kind->Path_0.len() > 0
}

/// `f` specialised to concrete generic arguments.
pub open spec fn specialized(f: FnDeclV, args: Seq<TypeV>) -> FnDeclV {
    FnDeclV {
        is_pub: f.is_pub,
        name: specialized_name(f.name, args),
        generic_params: Seq::empty(),
        params: f.params.map_values(|p: ParamV| ParamV {
            name: p.name,
            ty: subst_type(p.ty, f.generic_params, args),
            span: p.span,
        }),
        ret_ty: subst_opt_type(f.ret_ty, f.generic_params, args),
        body: subst_block(f.body, f.generic_params, args),
        span: f.span,
    }
}

fn type_arg_name_of(t: &Type) -> (r: String)
    requires
        paths_nonempty(seq![t@]),
    ensures
        r@ == type_arg_name(t@),
{
    assert(seq![t@][0] == t@);
    match &t.kind {
        TypeKind::Path(p, _) => {
            assert(strs_view(p@)[p.len() - 1] == p@[p.len() - 1]@);
            p[p.len() - 1].clone()
        },
        _ => owned("ptr"),
    }
}

/// A deep copy of a function declaration.
pub fn copy_fn(f: &FnDecl) -> (r: FnDecl)
    ensures
        r@ == f@,
{
    let no_params: Vec<String> = Vec::new();
    let no_args: Vec<Type> = Vec::new();
    let mut params: Vec<Param> = Vec::new();
    let mut i: usize = 0;
    while i < f.params.len()
        invariant
            i <= f.params.len(),
            params.len() == i,
            forall|j: int| 0 <= j < i ==> (#[trigger] params@[j]).name@ == f.params@[j].name@
                && ty_view(params@[j].ty) == ty_view(f.params@[j].ty) && params@[j].span == f.params@[j].span,
        decreases f.params.len() - i,
    {
        let p = &f.params[i];
        params.push(Param { name: p.name.clone(), ty: copy_type(&p.ty), span: p.span });
        i = i + 1;
    }
    let body = substitute_block(&f.body, no_params.as_slice(), no_args.as_slice());
    proof {
        assert(strs_view(no_params@) =~= Seq::<Seq<char>>::empty());
        lemma_subst_block_empty(block_view(f.body), tys_view(no_args@));
        assert(params_view(params@) =~= params_view(f.params@));
    }
    FnDecl {
        is_pub: f.is_pub,
        name: f.name.clone(),
        generic_params: copy_strings(&f.generic_params),
        params,
        ret_ty: copy_opt_type(&f.ret_ty),
        body,
        span: f.span,
    }
}

fn copy_struct(s: &StructDecl) -> (r: StructDecl)
    ensures
        r.name@ == s.name@,
        r.fields@.len() == s.fields@.len(),
        forall|j: int| 0 <= j < s.fields@.len() ==> (#[trigger] r.fields@[j]).name@ == s.fields@[j].name@
            && ty_view(r.fields@[j].ty) == ty_view(s.fields@[j].ty),
{
    let mut fields: Vec<StructField> = Vec::new();
    let mut i: usize = 0;
    while i < s.fields.len()
        invariant
            i <= s.fields.len(),
            fields.len() == i,
            forall|j: int| 0 <= j < i ==> (#[trigger] fields@[j]).name@ == s.fields@[j].name@
                && ty_view(fields@[j].ty) == ty_view(s.fields@[j].ty),
        decreases s.fields.len() - i,
    {
        let f = &s.fields[i];
        fields.push(StructField { is_pub: f.is_pub, name: f.name.clone(), ty: copy_type(&f.ty), span: f.span });
        i = i + 1;
    }
    StructDecl {
        is_pub: s.is_pub,
        name: s.name.clone(),
        generic_params: copy_strings(&s.generic_params),
        fields,
        span: s.span,
    }
}

// ---------------------------------------------------------------------------
// The type checker's state
// ---------------------------------------------------------------------------

/// The state of a local variable.
#[derive(Debug, Clone, Copy, PartialEq, Eq, Structural)]
pub enum VarState {
    Uninitialized,
    Initialized,
    /// Moved out at the given place.
    Moved(Span),
}

/// An active borrow of a variable.
#[derive(Debug, Clone, Copy, PartialEq, Eq, Structural)]
pub struct BorrowInfo {
    pub is_mut: bool,
    pub span: Span,
}

/// A local variable of a scope.
pub struct Binding {
    pub name: String,
    pub ty: Type,
    pub state: VarState,
    pub is_mut: bool,
}

/// The borrows of one variable within a scope.
pub struct BorrowSet {
    pub name: String,
    pub borrows: Vec<BorrowInfo>,
}

/// The borrows of one scope as (variable, borrows) pairs.
pub open spec fn borrow_sets_view(v: Seq<BorrowSet>) -> Seq<(Seq<char>, Seq<BorrowInfo>)> {
    v.map_values(|b: BorrowSet| (b.name@, b.borrows@))
}

/// The borrows of every scope, innermost last.
pub open spec fn borrows_view(v: Seq<Vec<BorrowSet>>) -> Seq<Seq<(Seq<char>, Seq<BorrowInfo>)>> {
    v.map_values(|sc: Vec<BorrowSet>| borrow_sets_view(sc@))
}

/// The index of the first entry for `name` at or after `e`, or -1.
pub open spec fn entry_of(sc: Seq<(Seq<char>, Seq<BorrowInfo>)>, name: Seq<char>, e: int) -> int
    decreases sc.len() - e,
{
    if e >= sc.len() {
        -1
    } else if sc[e].0 == name {
        e
    } else {
        entry_of(sc, name, e + 1)
    }
}

/// The path of the struct a receiver type names: `S` or `&S`.
pub open spec fn receiver_path(t: TypeV) -> Option<Seq<Seq<char>>> {
    match t.kind {
        TypeKindV::Path(p, _) => Some(p),
        TypeKindV::Ref(inner) => match inner.kind {
            TypeKindV::Path(p, _) => Some(p),
            _ => None,
        },
        _ => None,
    }
}

/// `new` differs from `old` only by bindings added at the end of the
/// innermost scope.
pub open spec fn binds_only_innermost(old: Seq<Vec<Binding>>, new: Seq<Vec<Binding>>) -> bool {
    &&& new.len() == old.len()
    &&& old.len() > 0 ==> {
        &&& new.drop_last() == old.drop_last()
        &&& old.last()@.len() <= new.last()@.len()
        &&& new.last()@.subrange(0, old.last()@.len() as int) == old.last()@
    }
}

proof fn lemma_binds_only_innermost_trans(a: Seq<Vec<Binding>>, b: Seq<Vec<Binding>>, c: Seq<Vec<Binding>>)
    requires
        binds_only_innermost(a, b),
        binds_only_innermost(b, c),
    ensures
        binds_only_innermost(a, c),
{
    if a.len() > 0 {
        assert(c.last()@.subrange(0, a.last()@.len() as int) =~= c.last()@.subrange(0, b.last()@.len() as int).subrange(
            0,
            a.last()@.len() as int,
        ));
    }
}

/// The index of the first struct named `name` at or after `e`, or -1.
pub open spec fn struct_from(structs: Seq<StructDecl>, name: Seq<char>, e: int) -> int
    decreases structs.len() - e,
{
    if e >= structs.len() {
        -1
    } else if structs[e].name@ == name {
        e
    } else {
        struct_from(structs, name, e + 1)
    }
}

/// The index of the first struct named `name`, or -1.
pub open spec fn struct_index(structs: Seq<StructDecl>, name: Seq<char>) -> int {
    struct_from(structs, name, 0)
}

proof fn lemma_struct_from(structs: Seq<StructDecl>, name: Seq<char>, e: int, j: int)
    requires
        0 <= j <= e <= structs.len(),
        forall|t: int| 0 <= t < e ==> (#[trigger] structs[t]).name@ != name,
        e < structs.len() ==> structs[e].name@ == name,
    ensures
        struct_from(structs, name, j) == (if e < structs.len() { e } else { -1 }),
    decreases e - j,
{
    if j < e {
        assert(structs[j].name@ != name);
        lemma_struct_from(structs, name, e, j + 1);
    }
}

/// The first entry for `name` is at `e` when no entry before `e` is for
/// `name` and `e` is (or no entry is, when `e` is the length).
pub proof fn lemma_entry_of(sc: Seq<(Seq<char>, Seq<BorrowInfo>)>, name: Seq<char>, e: int)
    requires
        0 <= e <= sc.len(),
        forall|j: int| 0 <= j < e ==> (#[trigger] sc[j]).0 != name,
        e < sc.len() ==> sc[e].0 == name,
    ensures
        entry_of(sc, name, 0) == (if e < sc.len() { e } else { -1 }),
{
    lemma_entry_of_from(sc, name, e, 0);
}

proof fn lemma_entry_of_from(sc: Seq<(Seq<char>, Seq<BorrowInfo>)>, name: Seq<char>, e: int, j: int)
    requires
        0 <= j <= e <= sc.len(),
        forall|t: int| 0 <= t < e ==> (#[trigger] sc[t]).0 != name,
        e < sc.len() ==> sc[e].0 == name,
    ensures
        entry_of(sc, name, j) == (if e < sc.len() { e } else { -1 }),
    decreases e - j,
{
    if j < e {
        assert(sc[j].0 != name);
        lemma_entry_of_from(sc, name, e, j + 1);
    }
}

/// A new borrow (`is_mut`) of `name` conflicts with the entry for `name` in
/// this scope: the variable is borrowed, and either the new borrow or an
/// existing one is mutable.
pub open spec fn scope_conflicts(sc: Seq<(Seq<char>, Seq<BorrowInfo>)>, name: Seq<char>, is_mut: bool) -> bool {
    let e = entry_of(sc, name, 0);
    &&& e >= 0
    &&& sc[e].1.len() > 0
    &&& (is_mut || exists|b: int| 0 <= b < sc[e].1.len() && (#[trigger] sc[e].1[b]).is_mut)
}

/// A new borrow of `name` conflicts with a borrow in some scope.
pub open spec fn borrow_conflict(v: Seq<Seq<(Seq<char>, Seq<BorrowInfo>)>>, name: Seq<char>, is_mut: bool) -> bool {
    exists|t: int| 0 <= t < v.len() && scope_conflicts(#[trigger] v[t], name, is_mut)
}

/// The message of a conflicting borrow.
pub open spec fn borrow_message(name: Seq<char>, is_mut: bool) -> Seq<char> {
    if is_mut {
        "cannot borrow `"@ + name + "` mutably because it is already borrowed"@
    } else {
        "cannot borrow `"@ + name + "` immutably because it is already borrowed mutably"@
    }
}

/// The borrows after recording `info` for `name` in the innermost scope.
pub open spec fn record_borrow(
    v: Seq<Seq<(Seq<char>, Seq<BorrowInfo>)>>,
    name: Seq<char>,
    info: BorrowInfo,
) -> Seq<Seq<(Seq<char>, Seq<BorrowInfo>)>> {
    if v.len() == 0 {
        v
    } else {
        let sc = v.last();
        let e = entry_of(sc, name, 0);
        v.update(
            v.len() - 1,
            if e >= 0 {
                sc.update(e, (sc[e].0, sc[e].1.push(info)))
            } else {
                sc.push((name, seq![info]))
            },
        )
    }
}

/// Once a borrow of `name` is recorded, a further borrow of `name` conflicts
/// when either of the two is mutable.
pub proof fn lemma_borrow_then_conflict(
    v: Seq<Seq<(Seq<char>, Seq<BorrowInfo>)>>,
    name: Seq<char>,
    info: BorrowInfo,
    is_mut: bool,
)
    requires
        v.len() > 0,
        info.is_mut || is_mut,
    ensures
        borrow_conflict(record_borrow(v, name, info), name, is_mut),
{
    let w = record_borrow(v, name, info);
    let last = v.len() - 1;
    let sc = v.last();
    let e = entry_of(sc, name, 0);
    lemma_entry_of_bounds(sc, name, 0);
    if e >= 0 {
        let nsc = sc.update(e, (sc[e].0, sc[e].1.push(info)));
        lemma_entry_of_same_names(sc, nsc, name, 0);
        assert(nsc[e].1[sc[e].1.len() as int] == info);
        assert(scope_conflicts(w[last], name, is_mut));
    } else {
        let nsc = sc.push((name, seq![info]));
        lemma_entry_of_push(sc, name, info);
        assert(nsc[sc.len() as int].1[0] == info);
        assert(scope_conflicts(w[last], name, is_mut));
    }
}

/// Shared borrows of a variable that is not mutable never conflict: recording
/// one keeps every later shared borrow free of conflict.
pub proof fn lemma_shared_borrows_coexist(
    v: Seq<Seq<(Seq<char>, Seq<BorrowInfo>)>>,
    name: Seq<char>,
    info: BorrowInfo,
)
    requires
        !borrow_conflict(v, name, false),
        !info.is_mut,
    ensures
        !borrow_conflict(record_borrow(v, name, info), name, false),
{
    let w = record_borrow(v, name, info);
    if v.len() > 0 {
        let last = v.len() - 1;
        let sc = v.last();
        let e = entry_of(sc, name, 0);
        lemma_entry_of_bounds(sc, name, 0);
        assert forall|t: int| 0 <= t < w.len() implies !scope_conflicts(#[trigger] w[t], name, false) by {
            assert(!scope_conflicts(v[t], name, false));
            if t == last {
                if e >= 0 {
                    let nsc = sc.update(e, (sc[e].0, sc[e].1.push(info)));
                    lemma_entry_of_same_names(sc, nsc, name, 0);
                    assert forall|b: int| 0 <= b < nsc[e].1.len() implies !(#[trigger] nsc[e].1[b]).is_mut by {
                        if b < sc[e].1.len() {
                            assert(nsc[e].1[b] == sc[e].1[b]);
                        }
                    }
                } else {
                    lemma_entry_of_push(sc, name, info);
                    let nsc = sc.push((name, seq![info]));
                    assert forall|b: int| 0 <= b < nsc[sc.len() as int].1.len() implies !(#[trigger] nsc[sc.len() as int].1[b]).is_mut by {
                        assert(nsc[sc.len() as int].1 == seq![info]);
                    }
                }
            }
        }
    }
}

/// A borrow recorded in a scope opened on top of `v` is gone once that scope
/// is closed: the borrows are those of `v` again.
pub proof fn lemma_borrow_ends_with_scope(
    v: Seq<Seq<(Seq<char>, Seq<BorrowInfo>)>>,
    name: Seq<char>,
    info: BorrowInfo,
)
    ensures
        record_borrow(v.push(Seq::empty()), name, info).drop_last() == v,
{
    assert(record_borrow(v.push(Seq::empty()), name, info).drop_last() =~= v);
}

proof fn lemma_entry_of_bounds(sc: Seq<(Seq<char>, Seq<BorrowInfo>)>, name: Seq<char>, e: int)
    requires
        0 <= e,
    ensures
        -1 <= entry_of(sc, name, e) < sc.len(),
        entry_of(sc, name, e) >= 0 ==> e <= entry_of(sc, name, e) && sc[entry_of(sc, name, e)].0 == name,
        entry_of(sc, name, e) < 0 ==> forall|j: int| e <= j < sc.len() ==> (#[trigger] sc[j]).0 != name,
    decreases sc.len() - e,
{
    if e < sc.len() && sc[e].0 != name {
        lemma_entry_of_bounds(sc, name, e + 1);
    }
}

proof fn lemma_entry_of_same_names(
    a: Seq<(Seq<char>, Seq<BorrowInfo>)>,
    b: Seq<(Seq<char>, Seq<BorrowInfo>)>,
    name: Seq<char>,
    e: int,
)
    requires
        0 <= e,
        a.len() == b.len(),
        forall|j: int| 0 <= j < a.len() ==> (#[trigger] a[j]).0 == b[j].0,
    ensures
        entry_of(a, name, e) == entry_of(b, name, e),
    decreases a.len() - e,
{
    if e < a.len() {
        assert(a[e].0 == b[e].0);
        lemma_entry_of_same_names(a, b, name, e + 1);
    }
}

proof fn lemma_entry_of_push(sc: Seq<(Seq<char>, Seq<BorrowInfo>)>, name: Seq<char>, info: BorrowInfo)
    requires
        entry_of(sc, name, 0) < 0,
    ensures
        entry_of(sc.push((name, seq![info])), name, 0) == sc.len(),
{
    let n = sc.push((name, seq![info]));
    lemma_entry_of_bounds(sc, name, 0);
    assert forall|j: int| 0 <= j < sc.len() implies (#[trigger] n[j]).0 != name by {
        assert(n[j] == sc[j]);
    }
    lemma_entry_of(n, name, sc.len() as int);
}

/// The number of generic specialisations one type checker performs at most.
pub const SPECIALIZATION_LIMIT: u64 = 0xffff_ffff_ffff_ffff;

pub struct TypeChecker {
    /// Struct declarations; a later declaration of a name replaces an earlier one.
    structs: Vec<StructDecl>,
    /// Functions by name (`name` or `Type::method`); a later entry of a name
    /// replaces an earlier one.
    functions: Vec<(String, FnDecl)>,
    /// The stack of scopes, innermost last.
    scopes: Vec<Vec<Binding>>,
    /// The borrows taken in each scope, parallel to `scopes`.
    active_borrows: Vec<Vec<BorrowSet>>,
    pub diagnostics: Vec<Diagnostic>,
    in_raw_block: bool,
    current_ret_ty: Option<Type>,
    filename: String,
    pub specialized_items: Vec<Item>,
    /// For each call of a generic function, by the call's span, the name of
    /// the specialisation it calls; a later entry of a span replaces an
    /// earlier one.
    pub specialized_calls: Vec<(Span, String)>,
    /// How many more specialisations may be made.
    specializations_left: u64,
}

/// `d` is an error of `file` with the given code, message and place, and no
/// notes or fix.
pub open spec fn is_error(d: Diagnostic, file: Seq<char>, code: Seq<char>, message: Seq<char>, span: Span) -> bool {
    &&& d.code@ == code
    &&& d.severity@ == "error"@
    &&& d.message@ == message
    &&& d.file@ == file
    &&& d.span == span
    &&& d.notes@.len() == 0
    &&& d.suggested_fix is None
}

/// The codes of type, ownership and borrow errors: `E0101` to `E0131`,
/// `E0203`, `E0204` and `E0205`.
pub open spec fn is_type_code(c: Seq<char>) -> bool {
    c == "E0101"@ || c == "E0102"@ || c == "E0103"@ || c == "E0104"@ || c == "E0105"@ || c == "E0106"@ ||
        c == "E0107"@ || c == "E0108"@ || c == "E0109"@ || c == "E0110"@ || c == "E0111"@ || c == "E0112"@ ||
        c == "E0113"@ || c == "E0114"@ || c == "E0115"@ || c == "E0116"@ || c == "E0117"@ || c == "E0118"@ ||
        c == "E0119"@ || c == "E0120"@ || c == "E0121"@ || c == "E0122"@ || c == "E0123"@ || c == "E0124"@ ||
        c == "E0125"@ || c == "E0126"@ || c == "E0127"@ || c == "E0128"@ || c == "E0129"@ || c == "E0130"@ ||
        c == "E0131"@ || c == "E0203"@ || c == "E0204"@ || c == "E0205"@
}

/// `new` keeps `old` as a prefix and adds only type errors of `file`.
pub open spec fn extends(old: Seq<Diagnostic>, new: Seq<Diagnostic>, file: Seq<char>) -> bool {
    &&& old.len() <= new.len()
    &&& forall|i: int| 0 <= i < old.len() ==> new[i] == old[i]
    &&& forall|i: int| old.len() <= i < new.len() ==> (#[trigger] new[i]).severity@ == "error"@ && new[i].file@ == file
        && is_type_code(new[i].code@)
}

/// The first binding of `name` in a scope, or -1.
pub open spec fn find_binding(scope: Seq<Binding>, name: Seq<char>) -> int
    decreases scope.len(),
{
    if scope.len() == 0 {
        -1
    } else if scope[scope.len() - 1].name@ == name && find_binding(scope.subrange(0, scope.len() - 1), name) < 0 {
        scope.len() - 1
    } else {
        find_binding(scope.subrange(0, scope.len() - 1), name)
    }
}

/// The innermost scope that binds `name`, with the binding's index there.
pub open spec fn lookup(scopes: Seq<Vec<Binding>>, name: Seq<char>) -> Option<(int, int)>
    decreases scopes.len(),
{
    if scopes.len() == 0 {
        None
    } else {
        let k = find_binding(scopes[scopes.len() - 1]@, name);
        if k >= 0 {
            Some(((scopes.len() - 1) as int, k))
        } else {
            lookup(scopes.subrange(0, scopes.len() - 1), name)
        }
    }
}

pub proof fn lemma_find_binding(scope: Seq<Binding>, name: Seq<char>)
    ensures
        -1 <= find_binding(scope, name) < scope.len(),
        find_binding(scope, name) >= 0 ==> scope[find_binding(scope, name)].name@ == name,
        forall|j: int| 0 <= j < scope.len() && (find_binding(scope, name) < 0 || j < find_binding(scope, name)) ==> (#[trigger] scope[j]).name@ != name,
    decreases scope.len(),
{
    if scope.len() > 0 {
        let pre = scope.subrange(0, scope.len() - 1);
        lemma_find_binding(pre, name);
        assert forall|j: int| 0 <= j < scope.len() && (find_binding(scope, name) < 0 || j < find_binding(scope, name)) implies (#[trigger] scope[j]).name@ != name by {
            if j < pre.len() {
                assert(pre[j] == scope[j]);
            }
        }
    }
}

pub proof fn lemma_lookup(scopes: Seq<Vec<Binding>>, name: Seq<char>)
    ensures
        match lookup(scopes, name) {
            Some((i, k)) => 0 <= i < scopes.len() && 0 <= k < scopes[i]@.len() && scopes[i]@[k].name@ == name,
            None => true,
        },
    decreases scopes.len(),
{
    if scopes.len() > 0 {
        lemma_find_binding(scopes[scopes.len() - 1]@, name);
        lemma_lookup(scopes.subrange(0, scopes.len() - 1), name);
    }
}

/// The index of the entry for `name` in the function table, or -1.
pub open spec fn find_fn(fns: Seq<(String, FnDecl)>, name: Seq<char>) -> int
    decreases fns.len(),
{
    if fns.len() == 0 {
        -1
    } else if fns[fns.len() - 1].0@ == name {
        fns.len() - 1
    } else {
        find_fn(fns.subrange(0, fns.len() - 1), name)
    }
}

pub proof fn lemma_find_fn(fns: Seq<(String, FnDecl)>, name: Seq<char>)
    ensures
        -1 <= find_fn(fns, name) < fns.len(),
        find_fn(fns, name) >= 0 ==> fns[find_fn(fns, name)].0@ == name,
        find_fn(fns, name) < 0 ==> forall|j: int| 0 <= j < fns.len() ==> (#[trigger] fns[j]).0@ != name,
        forall|j: int| find_fn(fns, name) < j < fns.len() ==> (#[trigger] fns[j]).0@ != name,
    decreases fns.len(),
{
    if fns.len() > 0 {
        let pre = fns.subrange(0, fns.len() - 1);
        lemma_find_fn(pre, name);
        assert forall|j: int| find_fn(fns, name) < j < fns.len() implies (#[trigger] fns[j]).0@ != name by {
            if j < pre.len() {
                assert(pre[j] == fns[j]);
            }
        }
        if find_fn(fns, name) < 0 {
            assert forall|j: int| 0 <= j < fns.len() implies (#[trigger] fns[j]).0@ != name by {
                if j < pre.len() {
                    assert(pre[j] == fns[j]);
                }
            }
        }
    }
}

impl TypeChecker {
    /// The stacks of scopes and of borrows have the same depth.
    pub closed spec fn wf(&self) -> bool {
        self.scopes.len() == self.active_borrows.len()
    }

    pub closed spec fn diags(&self) -> Seq<Diagnostic> {
        self.diagnostics@
    }

    pub closed spec fn items(&self) -> Seq<Item> {
        self.specialized_items@
    }

    pub closed spec fn calls(&self) -> Seq<(Span, String)> {
        self.specialized_calls@
    }

    pub closed spec fn file(&self) -> Seq<char> {
        self.filename@
    }

    pub closed spec fn raw(&self) -> bool {
        self.in_raw_block
    }

    pub closed spec fn depth(&self) -> nat {
        self.scopes@.len()
    }

    pub closed spec fn fuel(&self) -> nat {
        self.specializations_left as nat
    }

    pub closed spec fn ret_ty(&self) -> Option<TypeV> {
        opt_ty_view(self.current_ret_ty)
    }

    /// What every step of the type checker keeps: the file, the `raw` flag, the
    /// depth of the scope stacks, the borrows of every scope but the innermost
    /// and the return type are as before; the
    /// diagnostics are extended by errors of the file only; the
    /// specialisation budget does not grow.
    pub closed spec fn keeps(&self, old: &Self) -> bool {
        &&& self.file() == old.file()
        &&& self.raw() == old.raw()
        &&& self.depth() == old.depth()
        &&& self.active_borrows@.len() == old.active_borrows@.len()
        &&& self.active_borrows@.drop_last() == old.active_borrows@.drop_last()
        &&& self.ret_ty() == old.ret_ty()
        &&& self.fuel() <= old.fuel()
        &&& extends(old.diagnostics@, self.diagnostics@, self.file())
    }

    /// A type checker for the given file, with no declarations, no scopes and no
    /// diagnostics.
    pub fn new(filename: &str) -> (r: Self)
        ensures
            r.wf(),
            r.file() == filename@,
            r.diags().len() == 0,
            r.items().len() == 0,
            r.calls().len() == 0,
            !r.raw(),
            r.depth() == 0,
            r.ret_ty() is None,
    {
        TypeChecker {
            structs: Vec::new(),
            functions: Vec::new(),
            scopes: Vec::new(),
            active_borrows: Vec::new(),
            diagnostics: Vec::new(),
            in_raw_block: false,
            current_ret_ty: None,
            filename: owned(filename),
            specialized_items: Vec::new(),
            specialized_calls: Vec::new(),
            specializations_left: SPECIALIZATION_LIMIT,
        }
    }

    /// Records an error.
    fn error(&mut self, code: &str, message: Vec<char>, span: Span)
        requires
            is_type_code(code@),
        ensures
            final(self).diagnostics@.len() == old(self).diagnostics@.len() + 1,
            final(self).diagnostics@.subrange(0, old(self).diagnostics@.len() as int) == old(self).diagnostics@,
            is_error(final(self).diagnostics@.last(), old(self).filename@, code@, message@, span),
            final(self).structs == old(self).structs,
            final(self).functions == old(self).functions,
            final(self).scopes == old(self).scopes,
            final(self).active_borrows == old(self).active_borrows,
            final(self).in_raw_block == old(self).in_raw_block,
            final(self).current_ret_ty == old(self).current_ret_ty,
            final(self).filename == old(self).filename,
            final(self).specialized_items == old(self).specialized_items,
            final(self).specialized_calls == old(self).specialized_calls,
            final(self).specializations_left == old(self).specializations_left,
            final(self).keeps(old(self)),
    {
        let d = Diagnostic {
            code: owned(code),
            severity: owned("error"),
            message: string_of(&message),
            file: self.filename.clone(),
            span,
            notes: Vec::new(),
            suggested_fix: None,
        };
        self.diagnostics.push(d);
        assert(self.diagnostics@.subrange(0, old(self).diagnostics@.len() as int) =~= old(self).diagnostics@);
    }

    /// Whether two types count as equal here.
    fn types_equal(&self, a: &Type, b: &Type) -> (r: bool)
        ensures
            r == types_eq(self.in_raw_block, a@, b@),
        decreases a,
    {
        if self.in_raw_block {
            match (&a.kind, &b.kind) {
                (TypeKind::RawPtr(_), TypeKind::RawPtr(_)) => return true,
                (TypeKind::RawPtr(_), TypeKind::Ref(_)) => return true,
                (TypeKind::Ref(_), TypeKind::RawPtr(_)) => return true,
                _ => {},
            }
        }
        match (&a.kind, &b.kind) {
            (TypeKind::RawPtr(_), TypeKind::Path(path, _)) => {
                if is_pointer_sized(path) {
                    return true;
                }
            },
            (TypeKind::Path(path, _), TypeKind::RawPtr(_)) => {
                if is_pointer_sized(path) {
                    return true;
                }
            },
            _ => {},
        }
        match (&a.kind, &b.kind) {
            (TypeKind::Path(p1, args1), TypeKind::Path(p2, args2)) => {
                if !strings_eq(p1, p2) || args1.len() != args2.len() {
                    proof { lemma_tys_view(args1@); lemma_tys_view(args2@); lemma_types_eq_all(self.in_raw_block, tys_view(args1@), tys_view(args2@)); }
                    return false;
                }
                let ghost v1 = tys_view(args1@);
                let ghost v2 = tys_view(args2@);
                proof {
                    lemma_tys_view(args1@);
                    lemma_tys_view(args2@);
                    lemma_types_eq_all(self.in_raw_block, v1, v2);
                }
                let mut i: usize = 0;
                while i < args1.len()
                    invariant
                        i <= args1.len(),
                        args1.len() == args2.len(),
                        a.kind == TypeKind::Path(*p1, *args1),
                        v1 == tys_view(args1@),
                        v2 == tys_view(args2@),
                        v1.len() == args1.len(),
                        v2.len() == args2.len(),
                        forall|j: int| 0 <= j < args1.len() ==> #[trigger] v1[j] == ty_view(args1@[j]),
                        forall|j: int| 0 <= j < args2.len() ==> #[trigger] v2[j] == ty_view(args2@[j]),
                        forall|j: int| 0 <= j < i ==> #[trigger] types_eq(self.in_raw_block, v1[j], v2[j]),
                        types_eq(self.in_raw_block, a@, b@) <==> (forall|j: int| 0 <= j < v1.len() ==> #[trigger] types_eq(self.in_raw_block, v1[j], v2[j])),
                    decreases args1.len() - i,
                {
                    proof {
                        broadcast use vstd::std_specs::vec::axiom_vec_index_decreases;
                        assert(decreases_to!(*a => a.kind));
                        assert(a.kind->Path_1 == *args1);
                        assert(decreases_to!(a.kind => a.kind->Path_1));
                        assert(decreases_to!(*args1 => args1[i as int]));
                    }
                    if !self.types_equal(&args1[i], &args2[i]) {
                        assert(!types_eq(self.in_raw_block, v1[i as int], v2[i as int]));
                        return false;
                    }
                    i = i + 1;
                }
                true
            },
            (TypeKind::Ref(r1), TypeKind::Ref(r2)) => self.types_equal(r1, r2),
            (TypeKind::Slice(s1), TypeKind::Slice(s2)) => self.types_equal(s1, s2),
            (TypeKind::RawPtr(q1), TypeKind::RawPtr(q2)) => self.types_equal(q1, q2),
            _ => false,
        }
    }

    /// Whether values of the type are copied rather than moved.
    fn is_copy_type(&self, ty: &Type) -> (r: bool)
        ensures
            r == is_copy(ty@),
    {
        match &ty.kind {
            TypeKind::Ref(_) => true,
            TypeKind::RawPtr(_) => true,
            TypeKind::Path(path, _) => {
                if path.len() == 1 {
                    let name = path[0].as_str();
                    assert(strs_view(path@)[0] == name@);
                    str_eq(name, "i8") || str_eq(name, "i16") || str_eq(name, "i32") || str_eq(name, "i64")
                        || str_eq(name, "u8") || str_eq(name, "u16") || str_eq(name, "u32") || str_eq(name, "u64")
                        || str_eq(name, "f32") || str_eq(name, "f64") || str_eq(name, "bool") || str_eq(name, "char")
                        || str_eq(name, "usize") || str_eq(name, "string")
                } else {
                    false
                }
            },
            TypeKind::Slice(_) => false,
        }
    }

    /// `ty` with `Self` resolved to `self_ty`.
    fn resolve_self_type(&self, ty: &Type, self_ty: &Type) -> (r: Type)
        ensures
            r@ == resolve_self(ty@, self_ty@),
        decreases ty,
    {
        match &ty.kind {
            TypeKind::Path(path, args) => {
                if path.len() == 1 && (str_eq(path[0].as_str(), "Self") || str_eq(path[0].as_str(), "self")) {
                    assert(strs_view(path@)[0] == path@[0]@);
                    copy_type(self_ty)
                } else {
                    proof {
                        if path.len() == 1 {
                            assert(strs_view(path@)[0] == path@[0]@);
                        }
                    }
                    let mut out: Vec<Type> = Vec::new();
                    let mut i: usize = 0;
                    while i < args.len()
                        invariant
                            i <= args.len(),
                            ty.kind == TypeKind::Path(*path, *args),
                            out.len() == i,
                            forall|j: int| 0 <= j < i ==> ty_view(#[trigger] out@[j]) == resolve_self(ty_view(args@[j]), self_ty@),
                        decreases args.len() - i,
                    {
                        proof {
                            broadcast use vstd::std_specs::vec::axiom_vec_index_decreases;
                            assert(decreases_to!(*ty => ty.kind));
                            assert(ty.kind->Path_1 == *args);
                            assert(decreases_to!(ty.kind => ty.kind->Path_1));
                            assert(decreases_to!(*args => args[i as int]));
                        }
                        out.push(self.resolve_self_type(&args[i], self_ty));
                        i = i + 1;
                    }
                    proof {
                        lemma_tys_view(out@);
                        lemma_tys_view(args@);
                        lemma_resolve_self_all(tys_view(args@), self_ty@);
                        assert(tys_view(out@) =~= resolve_self_all(tys_view(args@), self_ty@));
                    }
                    Type { kind: TypeKind::Path(copy_strings(path), out), span: ty.span }
                }
            },
            TypeKind::Ref(inner) => Type { kind: TypeKind::Ref(Box::new(self.resolve_self_type(inner, self_ty))), span: ty.span },
            TypeKind::Slice(inner) => Type { kind: TypeKind::Slice(Box::new(self.resolve_self_type(inner, self_ty))), span: ty.span },
            TypeKind::RawPtr(inner) => Type { kind: TypeKind::RawPtr(Box::new(self.resolve_self_type(inner, self_ty))), span: ty.span },
        }
    }

    /// `f` specialised to concrete generic arguments: its generic parameters
    /// replaced in the parameter, return and `let` types, no generic
    /// parameters left, and the name `f_A_B` for arguments named `A`, `B`.
    pub fn specialize_fn(&self, f: &FnDecl, generic_args: &[Type]) -> (r: FnDecl)
        requires
            f.generic_params@.len() <= generic_args@.len(),
            paths_nonempty(tys_view(generic_args@)),
        ensures
            r@ == specialized(f@, tys_view(generic_args@)),
    {
        let ghost pv = strs_view(f.generic_params@);
        let ghost av = tys_view(generic_args@);
        proof { lemma_tys_view(generic_args@); }
        let generic_params = f.generic_params.as_slice();
        let mut params: Vec<Param> = Vec::new();
        let mut i: usize = 0;
        while i < f.params.len()
            invariant
                i <= f.params.len(),
                generic_params@ == f.generic_params@,
                f.generic_params@.len() <= generic_args@.len(),
                pv == strs_view(f.generic_params@),
                av == tys_view(generic_args@),
                params.len() == i,
                forall|j: int| 0 <= j < i ==> (#[trigger] params@[j]).name@ == f.params@[j].name@
                    && ty_view(params@[j].ty) == subst_type(ty_view(f.params@[j].ty), pv, av)
                    && params@[j].span == f.params@[j].span,
            decreases f.params.len() - i,
        {
            let p = &f.params[i];
            params.push(Param { name: p.name.clone(), ty: substitute_type(&p.ty, generic_params, generic_args), span: p.span });
            i = i + 1;
        }
        let ret_ty = match &f.ret_ty {
            Some(t) => Some(substitute_type(t, generic_params, generic_args)),
            None => None,
        };
        let body = substitute_block(&f.body, generic_params, generic_args);
        let mut name: Vec<char> = chars_of(f.name.as_str());
        append_str(&mut name, "_");
        let ghost names = av.map_values(|t: TypeV| type_arg_name(t));
        let ghost start = name@;
        let mut k: usize = 0;
        while k < generic_args.len()
            invariant
                k <= generic_args.len(),
                av == tys_view(generic_args@),
                av.len() == generic_args@.len(),
                forall|j: int| 0 <= j < generic_args@.len() ==> #[trigger] av[j] == ty_view(generic_args@[j]),
                paths_nonempty(av),
                names == av.map_values(|t: TypeV| type_arg_name(t)),
                name@ == start + join_underscore(names.subrange(0, k as int)),
            decreases generic_args.len() - k,
        {
            if k > 0 {
                append_str(&mut name, "_");
            }
            proof {
                assert(av[k as int] == ty_view(generic_args@[k as int]));
                assert(seq![generic_args@[k as int]@][0] == av[k as int]);
                assert(paths_nonempty(seq![generic_args@[k as int]@]));
            }
            let part = type_arg_name_of(&generic_args[k]);
            let pv2 = chars_of(part.as_str());
            append_chars(&mut name, &pv2);
            proof {
                let pre = names.subrange(0, k + 1);
                assert(pre.subrange(0, k as int) =~= names.subrange(0, k as int));
                if k == 0 {
                    assert(names.subrange(0, 0) =~= Seq::<Seq<char>>::empty());
                }
            }
            k = k + 1;
        }
        assert(names.subrange(0, generic_args.len() as int) =~= names);
        let r = FnDecl {
            is_pub: f.is_pub,
            name: string_of(&name),
            generic_params: Vec::new(),
            params,
            ret_ty,
            body,
            span: f.span,
        };
        proof {
            assert(strs_view(r.generic_params@) =~= Seq::<Seq<char>>::empty());
            assert(params_view(r.params@) =~= specialized(f@, av).params);
        }
        r
    }

    /// Infers generic arguments from parameter and argument types; a
    /// parameter that nothing binds becomes `i32`.
    fn infer_generic_args(&self, generic_params: &[String], param_tys: &Vec<Type>, arg_tys: &Vec<Type>) -> (r: Option<Vec<Type>>)
        ensures
            match inferred_args(strs_view(generic_params@), tys_view(param_tys@), tys_view(arg_tys@)) {
                Some(a) => r matches Some(v) && tys_view(v@) == a,
                None => r is None,
            },
    {
        let ghost ps = strs_view(generic_params@);
        let mut inferred: Vec<Option<Type>> = Vec::new();
        let mut i: usize = 0;
        while i < generic_params.len()
            invariant
                i <= generic_params.len(),
                inferred.len() == i,
                forall|j: int| 0 <= j < i ==> (#[trigger] inferred@[j]) is None,
            decreases generic_params.len() - i,
        {
            inferred.push(None);
            i = i + 1;
        }
        let ghost init = Seq::new(ps.len(), |i: int| None::<TypeV>);
        assert(inferred@.map_values(|o: Option<Type>| opt_ty_view(o)) =~= init);
        let ghost pv = tys_view(param_tys@);
        let ghost av = tys_view(arg_tys@);
        proof {
            lemma_tys_view(param_tys@);
            lemma_tys_view(arg_tys@);
        }
        let n = if param_tys.len() < arg_tys.len() { param_tys.len() } else { arg_tys.len() };
        assert(pv.subrange(0, pv.len() as int) =~= pv);
        assert(av.subrange(0, av.len() as int) =~= av);
        let mut k: usize = 0;
        while k < n
            invariant
                k <= n,
                n <= param_tys.len(),
                n <= arg_tys.len(),
                n == param_tys.len() || n == arg_tys.len(),
                ps == strs_view(generic_params@),
                inferred.len() == ps.len(),
                pv == tys_view(param_tys@),
                av == tys_view(arg_tys@),
                pv.len() == param_tys.len(),
                av.len() == arg_tys.len(),
                forall|j: int| 0 <= j < param_tys.len() ==> #[trigger] pv[j] == ty_view(param_tys@[j]),
                forall|j: int| 0 <= j < arg_tys.len() ==> #[trigger] av[j] == ty_view(arg_tys@[j]),
                match_types_all(ps, pv, av, init) == match_types_all(ps, pv.subrange(k as int, pv.len() as int), av.subrange(k as int, av.len() as int), inferred@.map_values(|o: Option<Type>| opt_ty_view(o))),
            decreases n - k,
        {
            proof {
                let sp = pv.subrange(k as int, pv.len() as int);
                let sa = av.subrange(k as int, av.len() as int);
                assert(sp[0] == pv[k as int]);
                assert(sa[0] == av[k as int]);
                assert(sp.subrange(1, sp.len() as int) =~= pv.subrange(k + 1, pv.len() as int));
                assert(sa.subrange(1, sa.len() as int) =~= av.subrange(k + 1, av.len() as int));
            }
            self.match_param_arg_type(generic_params, &param_tys[k], &arg_tys[k], &mut inferred);
            k = k + 1;
        }
        proof {
            let sp = pv.subrange(k as int, pv.len() as int);
            let sa = av.subrange(k as int, av.len() as int);
            assert(sp.len() == 0 || sa.len() == 0);
        }
        let ghost inf = inferred@.map_values(|o: Option<Type>| opt_ty_view(o));
        proof {
            assert(pv.subrange(k as int, pv.len() as int).len() == 0 || av.subrange(k as int, av.len() as int).len() == 0);
            assert(inf == match_types_all(ps, pv, av, init));
            assert(init =~= Seq::new(ps.len(), |i: int| None::<TypeV>));
        }
        let mut concrete: Vec<Type> = Vec::new();
        let mut j: usize = 0;
        while j < inferred.len()
            invariant
                j <= inferred.len(),
                inferred.len() == ps.len(),
                inf == inferred@.map_values(|o: Option<Type>| opt_ty_view(o)),
                inf == match_types_all(ps, pv, av, Seq::new(ps.len(), |i: int| None::<TypeV>)),
                ps == strs_view(generic_params@),
                pv == tys_view(param_tys@),
                av == tys_view(arg_tys@),
                concrete.len() == j,
                forall|m: int| 0 <= m < j ==> (#[trigger] inf[m]) is Some && ty_view(concrete@[m]) == inf[m]->0,
            decreases inferred.len() - j,
        {
            match &inferred[j] {
                Some(t) => concrete.push(copy_type(t)),
                None => {
                    proof {
                        assert(inf[j as int] is None);
                    }
                    return None;
                },
            }
            j = j + 1;
        }
        proof {
            lemma_tys_view(concrete@);
            assert(tys_view(concrete@) =~= inferred_args(ps, pv, av)->0);
        }
        Some(concrete)
    }

    /// Records in `inferred` what matching `param_ty` against `arg_ty` binds.
    fn match_param_arg_type(&self, generic_params: &[String], param_ty: &Type, arg_ty: &Type, inferred: &mut Vec<Option<Type>>)
        requires
            old(inferred)@.len() == generic_params@.len(),
        ensures
            final(inferred)@.len() == old(inferred)@.len(),
            final(inferred)@.map_values(|o: Option<Type>| opt_ty_view(o)) == match_types(
                strs_view(generic_params@),
                param_ty@,
                arg_ty@,
                old(inferred)@.map_values(|o: Option<Type>| opt_ty_view(o)),
            ),
        decreases param_ty,
    {
        let ghost ps = strs_view(generic_params@);
        let ghost inf0 = inferred@.map_values(|o: Option<Type>| opt_ty_view(o));
        match (&param_ty.kind, &arg_ty.kind) {
            (TypeKind::Path(path, args), TypeKind::Path(_, arg_args)) => {
                if path.len() == 1 {
                    assert(strs_view(path@)[0] == path@[0]@);
                    match position(generic_params, &path[0]) {
                        Some(idx) => {
                            proof { lemma_position_of(ps, path@[0]@); }
                            if inferred[idx].is_none() {
                                inferred.set(idx, Some(copy_type(arg_ty)));
                                assert(inferred@.map_values(|o: Option<Type>| opt_ty_view(o)) =~= inf0.update(idx as int, Some(arg_ty@)));
                            }
                            return;
                        },
                        None => {},
                    }
                }
                let ghost pv = tys_view(args@);
                let ghost av = tys_view(arg_args@);
                proof {
                    lemma_tys_view(args@);
                    lemma_tys_view(arg_args@);
                }
                let n = if args.len() < arg_args.len() { args.len() } else { arg_args.len() };
                assert(pv.subrange(0, pv.len() as int) =~= pv);
                assert(av.subrange(0, av.len() as int) =~= av);
                let mut k: usize = 0;
                while k < n
                    invariant
                        k <= n,
                        n <= args.len(),
                        n <= arg_args.len(),
                        n == args.len() || n == arg_args.len(),
                        param_ty.kind == TypeKind::Path(*path, *args),
                        ps == strs_view(generic_params@),
                        inferred@.len() == generic_params@.len(),
                        pv == tys_view(args@),
                        av == tys_view(arg_args@),
                        pv.len() == args.len(),
                        av.len() == arg_args.len(),
                        forall|j: int| 0 <= j < args.len() ==> #[trigger] pv[j] == ty_view(args@[j]),
                        forall|j: int| 0 <= j < arg_args.len() ==> #[trigger] av[j] == ty_view(arg_args@[j]),
                        match_types_all(ps, pv, av, inf0) == match_types_all(ps, pv.subrange(k as int, pv.len() as int), av.subrange(k as int, av.len() as int), inferred@.map_values(|o: Option<Type>| opt_ty_view(o))),
                    decreases n - k,
                {
                    proof {
                        broadcast use vstd::std_specs::vec::axiom_vec_index_decreases;
                        assert(decreases_to!(*param_ty => param_ty.kind));
                        assert(param_ty.kind->Path_1 == *args);
                        assert(decreases_to!(param_ty.kind => param_ty.kind->Path_1));
                        assert(decreases_to!(*args => args[k as int]));
                        let sp = pv.subrange(k as int, pv.len() as int);
                        let sa = av.subrange(k as int, av.len() as int);
                        assert(sp[0] == pv[k as int]);
                        assert(sa[0] == av[k as int]);
                        assert(sp.subrange(1, sp.len() as int) =~= pv.subrange(k + 1, pv.len() as int));
                        assert(sa.subrange(1, sa.len() as int) =~= av.subrange(k + 1, av.len() as int));
                    }
                    self.match_param_arg_type(generic_params, &args[k], &arg_args[k], inferred);
                    k = k + 1;
                }
                proof {
                    let sp = pv.subrange(k as int, pv.len() as int);
                    let sa = av.subrange(k as int, av.len() as int);
                    assert(sp.len() == 0 || sa.len() == 0);
                    assert(pv.subrange(0, pv.len() as int) =~= pv);
                    assert(av.subrange(0, av.len() as int) =~= av);
                }
            },
            (TypeKind::Ref(p), TypeKind::Ref(a)) => self.match_param_arg_type(generic_params, p, a, inferred),
            (TypeKind::Slice(p), TypeKind::Slice(a)) => self.match_param_arg_type(generic_params, p, a, inferred),
            (TypeKind::RawPtr(p), TypeKind::RawPtr(a)) => self.match_param_arg_type(generic_params, p, a, inferred),
            _ => {},
        }
    }
}

/// The `{:?}` text of a type's kind.
fn kind_text(t: &Type) -> (r: Vec<char>)
    ensures
        r@ == debug_type_kind(t@.kind),
{
    let mut out: Vec<char> = Vec::new();
    push_debug_kind(&mut out, &t.kind);
    out
}

/// Path segments joined by `::`.
pub open spec fn join_path(p: Seq<Seq<char>>) -> Seq<char>
    decreases p.len(),
{
    if p.len() == 0 {
        Seq::empty()
    } else if p.len() == 1 {
        p[0]
    } else {
        join_path(p.subrange(0, p.len() - 1)) + "::"@ + p[p.len() - 1]
    }
}

fn join_path_exec(p: &Vec<String>) -> (r: String)
    ensures
        r@ == join_path(strs_view(p@)),
{
    let ghost pv = strs_view(p@);
    let mut out: Vec<char> = Vec::new();
    let mut i: usize = 0;
    while i < p.len()
        invariant
            i <= p.len(),
            pv == strs_view(p@),
            out@ == join_path(pv.subrange(0, i as int)),
        decreases p.len() - i,
    {
        if i > 0 {
            append_str(&mut out, "::");
        }
        let part = chars_of(p[i].as_str());
        append_chars(&mut out, &part);
        proof {
            let pre = pv.subrange(0, i + 1);
            assert(pre.subrange(0, i as int) =~= pv.subrange(0, i as int));
            assert(pre[i as int] == p@[i as int]@);
            if i == 0 {
                assert(pv.subrange(0, 0) =~= Seq::<Seq<char>>::empty());
            }
        }
        i = i + 1;
    }
    assert(pv.subrange(0, p.len() as int) =~= pv);
    string_of(&out)
}

impl TypeChecker {
    fn push_scope(&mut self)
        ensures
            final(self).scopes@.len() == old(self).scopes@.len() + 1,
            final(self).scopes@.drop_last() == old(self).scopes@,
            final(self).scopes@.last()@.len() == 0,
            final(self).active_borrows@.len() == old(self).active_borrows@.len() + 1,
            final(self).active_borrows@.drop_last() == old(self).active_borrows@,
            final(self).active_borrows@.last()@.len() == 0,
            final(self).diagnostics == old(self).diagnostics,
            final(self).filename == old(self).filename,
            final(self).in_raw_block == old(self).in_raw_block,
            final(self).current_ret_ty == old(self).current_ret_ty,
            final(self).specializations_left == old(self).specializations_left,
            final(self).functions == old(self).functions,
            final(self).structs == old(self).structs,
            final(self).specialized_items == old(self).specialized_items,
            final(self).specialized_calls == old(self).specialized_calls,
    {
        self.scopes.push(Vec::new());
        self.active_borrows.push(Vec::new());
    }

    fn pop_scope(&mut self)
        ensures
            final(self).scopes@ == if old(self).scopes@.len() > 0 { old(self).scopes@.drop_last() } else { old(self).scopes@ },
            final(self).active_borrows@ == if old(self).active_borrows@.len() > 0 { old(self).active_borrows@.drop_last() } else { old(self).active_borrows@ },
            final(self).diagnostics == old(self).diagnostics,
            final(self).filename == old(self).filename,
            final(self).in_raw_block == old(self).in_raw_block,
            final(self).current_ret_ty == old(self).current_ret_ty,
            final(self).specializations_left == old(self).specializations_left,
            final(self).functions == old(self).functions,
            final(self).structs == old(self).structs,
            final(self).specialized_items == old(self).specialized_items,
            final(self).specialized_calls == old(self).specialized_calls,
    {
        let _ = self.scopes.pop();
        let _ = self.active_borrows.pop();
    }

    /// Declares a variable in the innermost scope; a name that the scope
    /// already binds is reported (`E0101`) and the scope is left as it was.
    fn declare_var(&mut self, name: String, ty: Type, state: VarState, is_mut: bool, span: Span)
        ensures
            final(self).keeps(old(self)),
            final(self).specializations_left == old(self).specializations_left,
            final(self).functions == old(self).functions,
            final(self).structs == old(self).structs,
            final(self).specialized_items == old(self).specialized_items,
            final(self).specialized_calls == old(self).specialized_calls,
            final(self).active_borrows == old(self).active_borrows,
            final(self).scopes@.len() == old(self).scopes@.len(),
            old(self).scopes@.len() == 0 ==> *final(self) == *old(self),
            old(self).scopes@.len() > 0 && find_binding(old(self).scopes@.last()@, name@) >= 0 ==> {
                &&& final(self).scopes == old(self).scopes
                &&& final(self).diagnostics@.len() == old(self).diagnostics@.len() + 1
                &&& is_error(final(self).diagnostics@.last(), old(self).filename@, "E0101"@,
                    "redefinition of local variable `"@ + name@ + "`"@, span)
            },
            old(self).scopes@.len() > 0 && find_binding(old(self).scopes@.last()@, name@) < 0 ==> {
                &&& final(self).diagnostics == old(self).diagnostics
                &&& final(self).scopes@.drop_last() == old(self).scopes@.drop_last()
                &&& final(self).scopes@.last()@.len() == old(self).scopes@.last()@.len() + 1
                &&& final(self).scopes@.last()@.drop_last() == old(self).scopes@.last()@
                &&& final(self).scopes@.last()@.last().name@ == name@
                &&& final(self).scopes@.last()@.last().ty@ == ty@
                &&& final(self).scopes@.last()@.last().state == state
                &&& final(self).scopes@.last()@.last().is_mut == is_mut
            },
    {
        if self.scopes.len() == 0 {
            return;
        }
        let last = self.scopes.len() - 1;
        let ghost scope = self.scopes@[last as int]@;
        proof { lemma_find_binding(scope, name@); }
        let mut found = false;
        let mut i: usize = 0;
        while i < self.scopes[last].len()
            invariant
                last == self.scopes@.len() - 1,
                scope == self.scopes@[last as int]@,
                i <= scope.len(),
                found == (exists|j: int| 0 <= j < i && (#[trigger] scope[j]).name@ == name@),
            decreases scope.len() - i,
        {
            if self.scopes[last][i].name == name {
                found = true;
            }
            i = i + 1;
        }
        proof {
            if find_binding(scope, name@) >= 0 {
                assert(scope[find_binding(scope, name@)].name@ == name@);
            }
        }
        if found {
            let mut msg: Vec<char> = Vec::new();
            append_str(&mut msg, "redefinition of local variable `");
            append_chars(&mut msg, &chars_of(name.as_str()));
            append_str(&mut msg, "`");
            self.error("E0101", msg, span);
        } else {
            let mut scope_v = self.scopes.remove(last);
            scope_v.push(Binding { name, ty, state, is_mut });
            self.scopes.insert(last, scope_v);
            assert(self.scopes@.drop_last() =~= old(self).scopes@.drop_last());
        }
    }

    /// Where the innermost binding of `name` is: its scope and its index.
    fn lookup_var(&self, name: &str) -> (r: Option<(usize, usize)>)
        ensures
            match r {
                Some((i, k)) => lookup(self.scopes@, name@) == Some((i as int, k as int)),
                None => lookup(self.scopes@, name@) is None,
            },
            match r {
                Some((i, k)) => i < self.scopes@.len() && k < self.scopes@[i as int]@.len()
                    && self.scopes@[i as int]@[k as int].name@ == name@,
                None => true,
            },
    {
        proof { lemma_lookup(self.scopes@, name@); }
        let mut s = self.scopes.len();
        assert(self.scopes@.subrange(0, s as int) =~= self.scopes@);
        while s > 0
            invariant
                s <= self.scopes@.len(),
                lookup(self.scopes@, name@) == lookup(self.scopes@.subrange(0, s as int), name@),
            decreases s,
        {
            let idx = s - 1;
            let ghost scope = self.scopes@[idx as int]@;
            proof { lemma_find_binding(scope, name@); }
            let mut k: usize = 0;
            while k < self.scopes[idx].len()
                invariant
                    idx < self.scopes@.len(),
                    s == idx + 1,
                    s <= self.scopes@.len(),
                    lookup(self.scopes@, name@) == lookup(self.scopes@.subrange(0, s as int), name@),
                    scope == self.scopes@[idx as int]@,
                    k <= scope.len(),
                    forall|j: int| 0 <= j < k ==> (#[trigger] scope[j]).name@ != name@,
                    -1 <= find_binding(scope, name@) < scope.len(),
                    find_binding(scope, name@) >= 0 ==> scope[find_binding(scope, name@)].name@ == name@,
                    forall|j: int| 0 <= j < scope.len() && (find_binding(scope, name@) < 0 || j < find_binding(scope, name@)) ==> (#[trigger] scope[j]).name@ != name@,
                decreases scope.len() - k,
            {
                if str_eq(self.scopes[idx][k].name.as_str(), name) {
                    proof {
                        let pre = self.scopes@.subrange(0, s as int);
                        assert(pre[pre.len() - 1] == self.scopes@[idx as int]);
                        assert(scope[k as int].name@ == name@);
                        assert(find_binding(scope, name@) == k);
                    }
                    return Some((idx, k));
                }
                k = k + 1;
            }
            proof {
                let pre = self.scopes@.subrange(0, s as int);
                assert(pre[pre.len() - 1] == self.scopes@[idx as int]);
                if find_binding(scope, name@) >= 0 {
                    assert(scope[find_binding(scope, name@)].name@ == name@);
                }
                assert(pre.subrange(0, pre.len() - 1) =~= self.scopes@.subrange(0, idx as int));
            }
            s = idx;
        }
        None
    }

    fn set_state(&mut self, at: (usize, usize), state: VarState)
        requires
            at.0 < old(self).scopes@.len(),
            at.1 < old(self).scopes@[at.0 as int]@.len(),
        ensures
            final(self).keeps(old(self)),
            final(self).diagnostics == old(self).diagnostics,
            final(self).functions == old(self).functions,
            final(self).structs == old(self).structs,
            final(self).specialized_items == old(self).specialized_items,
            final(self).specialized_calls == old(self).specialized_calls,
            final(self).active_borrows == old(self).active_borrows,
            final(self).scopes@.len() == old(self).scopes@.len(),
            forall|i: int| 0 <= i < old(self).scopes@.len() ==> (#[trigger] final(self).scopes@[i])@.len() == old(self).scopes@[i]@.len(),
            forall|i: int, k: int| 0 <= i < old(self).scopes@.len() && 0 <= k < old(self).scopes@[i]@.len() ==> {
                &&& (#[trigger] final(self).scopes@[i]@[k]).name == old(self).scopes@[i]@[k].name
                &&& final(self).scopes@[i]@[k].ty == old(self).scopes@[i]@[k].ty
                &&& final(self).scopes@[i]@[k].is_mut == old(self).scopes@[i]@[k].is_mut
                &&& final(self).scopes@[i]@[k].state == if i == at.0 && k == at.1 { state } else { old(self).scopes@[i]@[k].state }
            },
    {
        let mut scope_v = self.scopes.remove(at.0);
        let b = scope_v.remove(at.1);
        scope_v.insert(at.1, Binding { name: b.name, ty: b.ty, state, is_mut: b.is_mut });
        self.scopes.insert(at.0, scope_v);
        proof {
            assert forall|i: int| 0 <= i < old(self).scopes@.len() implies (#[trigger] self.scopes@[i])@.len() == old(self).scopes@[i]@.len() by {
                if i != at.0 {
                    assert(self.scopes@[i] == old(self).scopes@[i]);
                }
            }
        }
    }
}

/// Two scope stacks that bind the same names, with the same types and
/// mutability, in the same places.
pub open spec fn same_bindings(a: Seq<Vec<Binding>>, b: Seq<Vec<Binding>>) -> bool {
    &&& a.len() == b.len()
    &&& forall|i: int| 0 <= i < a.len() ==> (#[trigger] b[i])@.len() == a[i]@.len()
    &&& forall|i: int, k: int| 0 <= i < a.len() && 0 <= k < a[i]@.len() ==> {
        &&& (#[trigger] b[i]@[k]).name == a[i]@[k].name
        &&& b[i]@[k].ty == a[i]@[k].ty
        &&& b[i]@[k].is_mut == a[i]@[k].is_mut
    }
}

/// `b` is `a` with some initialised variables moved, and nothing else
/// changed.
pub open spec fn only_moves(a: Seq<Vec<Binding>>, b: Seq<Vec<Binding>>) -> bool {
    &&& same_bindings(a, b)
    &&& forall|i: int, k: int| 0 <= i < a.len() && 0 <= k < a[i]@.len() ==> {
        ||| (#[trigger] b[i]@[k]).state == a[i]@[k].state
        ||| (a[i]@[k].state == VarState::Initialized && b[i]@[k].state is Moved)
    }
}

proof fn lemma_find_binding_same_names(a: Seq<Binding>, b: Seq<Binding>, name: Seq<char>)
    requires
        a.len() == b.len(),
        forall|k: int| 0 <= k < a.len() ==> (#[trigger] b[k]).name == a[k].name,
    ensures
        find_binding(a, name) == find_binding(b, name),
    decreases a.len(),
{
    if a.len() > 0 {
        let pa = a.subrange(0, a.len() - 1);
        let pb = b.subrange(0, b.len() - 1);
        assert forall|k: int| 0 <= k < pa.len() implies (#[trigger] pb[k]).name == pa[k].name by {
            assert(pa[k] == a[k] && pb[k] == b[k]);
        }
        lemma_find_binding_same_names(pa, pb, name);
        assert(b[b.len() - 1].name == a[a.len() - 1].name);
    }
}

/// Lookups see only names, so moving variables changes no lookup.
pub proof fn lemma_lookup_same_bindings(a: Seq<Vec<Binding>>, b: Seq<Vec<Binding>>, name: Seq<char>)
    requires
        same_bindings(a, b),
    ensures
        lookup(a, name) == lookup(b, name),
    decreases a.len(),
{
    if a.len() > 0 {
        let last = a.len() - 1;
        assert forall|k: int| 0 <= k < a[last]@.len() implies (#[trigger] b[last]@[k]).name == a[last]@[k].name by {}
        lemma_find_binding_same_names(a[last]@, b[last]@, name);
        let pa = a.subrange(0, last);
        let pb = b.subrange(0, last);
        assert forall|i: int| 0 <= i < pa.len() implies (#[trigger] pb[i])@.len() == pa[i]@.len() by {
            assert(pa[i] == a[i] && pb[i] == b[i]);
        }
        assert forall|i: int, k: int| 0 <= i < pa.len() && 0 <= k < pa[i]@.len() implies {
            &&& (#[trigger] pb[i]@[k]).name == pa[i]@[k].name
            &&& pb[i]@[k].ty == pa[i]@[k].ty
            &&& pb[i]@[k].is_mut == pa[i]@[k].is_mut
        } by {
            assert(pa[i] == a[i] && pb[i] == b[i]);
        }
        lemma_lookup_same_bindings(pa, pb, name);
    }
}

/// `e` is a plain use of an initialised variable of a non-copy type, which
/// moves it.
pub open spec fn moves_variable(scopes: Seq<Vec<Binding>>, e: Expr) -> bool {
    e.kind is Ident && match lookup(scopes, e.kind->Ident_0@) {
        Some((i, k)) => scopes[i]@[k].state == VarState::Initialized && !is_copy(scopes[i]@[k].ty@),
        None => false,
    }
}

/// Values of the primitive scalar types (signed and unsigned integers of
/// each width, `usize`, `f32`, `f64`, `bool`, `char`), of `string`, and
/// references and raw pointers are copied: a plain use of a variable of
/// such a type never moves it, so the variable stays usable.
pub proof fn law_scalar_uses_do_not_move(scopes: Seq<Vec<Binding>>, e: Expr)
    requires
        e.kind is Ident,
        lookup(scopes, e.kind->Ident_0@) matches Some((i, k)) && ({
            let t = scopes[i]@[k].ty@;
            ||| t.kind is Ref
            ||| t.kind is RawPtr
            ||| (t.kind matches TypeKindV::Path(p, _) && p.len() == 1 && (p[0] == "i8"@ || p[0] == "i16"@ || p[0]
                == "i32"@ || p[0] == "i64"@ || p[0] == "u8"@ || p[0] == "u16"@ || p[0] == "u32"@ || p[0] == "u64"@
                || p[0] == "usize"@ || p[0] == "f32"@ || p[0] == "f64"@ || p[0] == "bool"@ || p[0] == "char"@
                || p[0] == "string"@))
        }),
    ensures
        !moves_variable(scopes, e),
{
}

/// Values of slices, of paths of several segments, and of named types other
/// than the scalars and `string` (structs, enums, generic parameters) are
/// moved: a plain use of an initialised variable of such a type moves it.
pub proof fn law_other_uses_move(scopes: Seq<Vec<Binding>>, e: Expr)
    requires
        e.kind is Ident,
        lookup(scopes, e.kind->Ident_0@) matches Some((i, k)) && scopes[i]@[k].state == VarState::Initialized && ({
            let t = scopes[i]@[k].ty@;
            ||| t.kind is Slice
            ||| (t.kind matches TypeKindV::Path(p, _) && p.len() != 1)
            ||| (t.kind matches TypeKindV::Path(p, _) && p.len() == 1 && !(p[0] == "i8"@ || p[0] == "i16"@ || p[0]
                == "i32"@ || p[0] == "i64"@ || p[0] == "u8"@ || p[0] == "u16"@ || p[0] == "u32"@ || p[0] == "u64"@
                || p[0] == "usize"@ || p[0] == "f32"@ || p[0] == "f64"@ || p[0] == "bool"@ || p[0] == "char"@
                || p[0] == "string"@))
        }),
    ensures
        moves_variable(scopes, e),
{
}

/// A variable that holds the value of an unsuffixed literal (an integer, a
/// float, a string or a boolean) is copied by a use, not moved.
pub proof fn law_literal_values_are_copied(scopes: Seq<Vec<Binding>>, e: Expr, l: LitV, span: Span)
    requires
        !(l is Int && l->Int_1 is Some),
        !(l is Float && l->Float_1 is Some),
        e.kind is Ident,
        lookup(scopes, e.kind->Ident_0@) matches Some((i, k)) && scopes[i]@[k].ty@ == lit_type(l, span),
    ensures
        !moves_variable(scopes, e),
{
}

impl TypeChecker {
    /// The table entry for a function name.
    fn find_function(&self, name: &str) -> (r: Option<usize>)
        ensures
            match r {
                Some(i) => i < self.functions@.len() && self.functions@[i as int].0@ == name@
                    && i == find_fn(self.functions@, name@),
                None => find_fn(self.functions@, name@) < 0,
            },
    {
        proof { lemma_find_fn(self.functions@, name@); }
        let mut i = self.functions.len();
        while i > 0
            invariant
                i <= self.functions@.len(),
                forall|j: int| i <= j < self.functions@.len() ==> (#[trigger] self.functions@[j]).0@ != name@,
            decreases i,
        {
            if str_eq(self.functions[i - 1].0.as_str(), name) {
                proof { lemma_find_fn(self.functions@, name@); }
                return Some(i - 1);
            }
            i = i - 1;
        }
        proof {
            if find_fn(self.functions@, name@) >= 0 {
                assert(self.functions@[find_fn(self.functions@, name@)].0@ == name@);
            }
        }
        None
    }

    /// Registers a function under a name, replacing an entry of that name.
    fn insert_fn(&mut self, name: String, f: FnDecl)
        ensures
            final(self).keeps(old(self)),
            final(self).diagnostics == old(self).diagnostics,
            final(self).scopes == old(self).scopes,
            final(self).active_borrows == old(self).active_borrows,
            final(self).structs == old(self).structs,
            final(self).specialized_items == old(self).specialized_items,
            final(self).specialized_calls == old(self).specialized_calls,
            exists|i: int| 0 <= i < final(self).functions@.len() && (#[trigger] final(self).functions@[i]).0@ == name@
                && final(self).functions@[i].1@ == f@,
    {
        let ghost fv = f@;
        match self.find_function(name.as_str()) {
            Some(i) => {
                let _ = self.functions.remove(i);
                self.functions.insert(i, (name, f));
                assert(self.functions@[i as int].0@ == name@);
            },
            None => {
                self.functions.push((name, f));
                assert(self.functions@[self.functions@.len() - 1].1@ == fv);
            },
        }
    }

    /// Registers a struct, replacing one of the same name.
    fn insert_struct(&mut self, s: StructDecl)
        ensures
            final(self).structs@ == ({
                let i = struct_index(old(self).structs@, s.name@);
                if i >= 0 { old(self).structs@.update(i, s) } else { old(self).structs@.push(s) }
            }),
            final(self).keeps(old(self)),
            final(self).diagnostics == old(self).diagnostics,
            final(self).scopes == old(self).scopes,
            final(self).active_borrows == old(self).active_borrows,
            final(self).functions == old(self).functions,
            final(self).specialized_items == old(self).specialized_items,
            final(self).specialized_calls == old(self).specialized_calls,
    {
        let mut i: usize = 0;
        while i < self.structs.len()
            invariant
                i <= self.structs@.len(),
                *self == *old(self),
                forall|t: int| 0 <= t < i ==> (#[trigger] self.structs@[t]).name@ != s.name@,
            decreases self.structs@.len() - i,
        {
            if str_eq(self.structs[i].name.as_str(), s.name.as_str()) {
                proof {
                    lemma_struct_from(self.structs@, s.name@, i as int, 0);
                }
                let _ = self.structs.remove(i);
                self.structs.insert(i, s);
                proof {
                    assert(self.structs@ =~= old(self).structs@.update(i as int, s));
                }
                return;
            }
            i = i + 1;
        }
        proof {
            lemma_struct_from(self.structs@, s.name@, self.structs@.len() as int, 0);
        }
        self.structs.push(s);
    }

    /// The struct of the given name.
    fn find_struct_index(&self, name: &str) -> (r: Option<usize>)
        ensures
            match r {
                Some(i) => i < self.structs@.len() && self.structs@[i as int].name@ == name@
                    && i == struct_index(self.structs@, name@),
                None => struct_index(self.structs@, name@) < 0,
            },
    {
        let mut i: usize = 0;
        while i < self.structs.len()
            invariant
                i <= self.structs@.len(),
                forall|t: int| 0 <= t < i ==> (#[trigger] self.structs@[t]).name@ != name@,
            decreases self.structs@.len() - i,
        {
            if str_eq(self.structs[i].name.as_str(), name) {
                proof {
                    lemma_struct_from(self.structs@, name@, i as int, 0);
                }
                return Some(i);
            }
            i = i + 1;
        }
        proof {
            lemma_struct_from(self.structs@, name@, self.structs@.len() as int, 0);
        }
        None
    }

    /// Records which specialisation the call at `span` uses.
    fn record_call(&mut self, span: Span, name: String)
        ensures
            final(self).keeps(old(self)),
            final(self).diagnostics == old(self).diagnostics,
            final(self).scopes == old(self).scopes,
            final(self).active_borrows == old(self).active_borrows,
            final(self).functions == old(self).functions,
            final(self).structs == old(self).structs,
            final(self).specialized_items == old(self).specialized_items,
            exists|i: int| 0 <= i < final(self).specialized_calls@.len() && (#[trigger] final(self).specialized_calls@[i]).0 == span
                && final(self).specialized_calls@[i].1@ == name@,
    {
        let ghost nv = name@;
        let mut i: usize = 0;
        while i < self.specialized_calls.len()
            invariant
                i <= self.specialized_calls@.len(),
                name@ == nv,
                *self == *old(self),
            decreases self.specialized_calls@.len() - i,
        {
            if self.specialized_calls[i].0 == span {
                let _ = self.specialized_calls.remove(i);
                self.specialized_calls.insert(i, (span, name));
                assert(self.specialized_calls@[i as int].1@ == nv);
                return;
            }
            i = i + 1;
        }
        self.specialized_calls.push((span, name));
        assert(self.specialized_calls@[self.specialized_calls@.len() - 1].1@ == nv);
    }

    /// Checks a borrow of `name`: a mutable variable that is already borrowed,
    /// or any variable that is already borrowed mutably, is reported
    /// (`E0204`); otherwise the borrow is recorded in the innermost scope.
    fn check_borrow(&mut self, name: &str, span: Span)
        ensures
            final(self).keeps(old(self)),
            final(self).scopes == old(self).scopes,
            final(self).functions == old(self).functions,
            final(self).structs == old(self).structs,
            final(self).specialized_items == old(self).specialized_items,
            final(self).specialized_calls == old(self).specialized_calls,
            match lookup(old(self).scopes@, name@) {
                None => *final(self) == *old(self),
                Some((i, k)) => {
                    let m = old(self).scopes@[i]@[k].is_mut;
                    let before = old(self).diagnostics@;
                    let after = final(self).diagnostics@;
                    if borrow_conflict(borrows_view(old(self).active_borrows@), name@, m) {
                        &&& one_more(before, after)
                        &&& is_error(after.last(), old(self).filename@, "E0204"@, borrow_message(name@, m), span)
                        &&& final(self).active_borrows == old(self).active_borrows
                    } else {
                        &&& after == before
                        &&& borrows_view(final(self).active_borrows@) == record_borrow(
                            borrows_view(old(self).active_borrows@),
                            name@,
                            BorrowInfo { is_mut: m, span },
                        )
                    }
                },
            },
    {
        let is_mut = match self.lookup_var(name) {
            Some((i, k)) => self.scopes[i][k].is_mut,
            None => return,
        };
        let ghost view0 = borrows_view(self.active_borrows@);
        let mut s: usize = 0;
        while s < self.active_borrows.len()
            invariant
                s <= self.active_borrows@.len(),
                *self == *old(self),
                view0 == borrows_view(self.active_borrows@),
                lookup(old(self).scopes@, name@) matches Some((i, k)) && old(self).scopes@[i]@[k].is_mut == is_mut,
                forall|t: int| 0 <= t < s ==> !scope_conflicts(#[trigger] view0[t], name@, is_mut),
            decreases self.active_borrows@.len() - s,
        {
            let ghost sc = view0[s as int];
            let mut e: usize = 0;
            while e < self.active_borrows[s].len()
                invariant
                    s < self.active_borrows@.len(),
                    e <= self.active_borrows@[s as int]@.len(),
                    *self == *old(self),
                    view0 == borrows_view(self.active_borrows@),
                    sc == view0[s as int],
                    forall|j: int| 0 <= j < e ==> (#[trigger] sc[j]).0 != name@,
                ensures
                    e <= self.active_borrows@[s as int]@.len(),
                    forall|j: int| 0 <= j < e ==> (#[trigger] sc[j]).0 != name@,
                    e < self.active_borrows@[s as int]@.len() ==> sc[e as int].0 == name@,
                decreases self.active_borrows@[s as int]@.len() - e,
            {
                if str_eq(self.active_borrows[s][e].name.as_str(), name) {
                    break;
                }
                e = e + 1;
            }
            proof {
                lemma_entry_of(sc, name@, e as int);
            }
            if e < self.active_borrows[s].len() && self.active_borrows[s][e].borrows.len() > 0 {
                if is_mut {
                    let mut msg: Vec<char> = Vec::new();
                    append_str(&mut msg, "cannot borrow `");
                    append_chars(&mut msg, &chars_of(name));
                    append_str(&mut msg, "` mutably because it is already borrowed");
                    proof {
                        assert(scope_conflicts(view0[s as int], name@, is_mut));
                    }
                    self.error("E0204", msg, span);
                    return;
                }
                let mut b: usize = 0;
                while b < self.active_borrows[s][e].borrows.len()
                    invariant
                        s < self.active_borrows@.len(),
                        e < self.active_borrows@[s as int]@.len(),
                        b <= self.active_borrows@[s as int]@[e as int].borrows@.len(),
                        *self == *old(self),
                        view0 == borrows_view(self.active_borrows@),
                        sc == view0[s as int],
                        entry_of(sc, name@, 0) == e as int,
                        sc[e as int].1.len() > 0,
                        !is_mut,
                        lookup(old(self).scopes@, name@) matches Some((i, k)) && old(self).scopes@[i]@[k].is_mut == is_mut,
                        forall|j: int| 0 <= j < b ==> !(#[trigger] sc[e as int].1[j]).is_mut,
                    decreases self.active_borrows@[s as int]@[e as int].borrows@.len() - b,
                {
                    if self.active_borrows[s][e].borrows[b].is_mut {
                        let mut msg: Vec<char> = Vec::new();
                        append_str(&mut msg, "cannot borrow `");
                        append_chars(&mut msg, &chars_of(name));
                        append_str(&mut msg, "` immutably because it is already borrowed mutably");
                        proof {
                            assert(sc[e as int].1[b as int].is_mut);
                            assert(scope_conflicts(view0[s as int], name@, is_mut));
                        }
                        self.error("E0204", msg, span);
                        return;
                    }
                    b = b + 1;
                }
            }
            s = s + 1;
        }
        proof {
            assert forall|t: int| 0 <= t < view0.len() implies !scope_conflicts(#[trigger] view0[t], name@, is_mut) by {}
        }
        if self.active_borrows.len() > 0 {
            let last = self.active_borrows.len() - 1;
            let mut scope_b = self.active_borrows.remove(last);
            let ghost sc = borrow_sets_view(scope_b@);
            let mut e: usize = 0;
            while e < scope_b.len()
                invariant
                    e <= scope_b@.len(),
                    sc == borrow_sets_view(scope_b@),
                    forall|j: int| 0 <= j < e ==> (#[trigger] sc[j]).0 != name@,
                ensures
                    e <= scope_b@.len(),
                    forall|j: int| 0 <= j < e ==> (#[trigger] sc[j]).0 != name@,
                    e < scope_b@.len() ==> sc[e as int].0 == name@,
                decreases scope_b@.len() - e,
            {
                if str_eq(scope_b[e].name.as_str(), name) {
                    break;
                }
                e = e + 1;
            }
            proof {
                lemma_entry_of(sc, name@, e as int);
            }
            if e < scope_b.len() {
                let mut set = scope_b.remove(e);
                set.borrows.push(BorrowInfo { is_mut, span });
                scope_b.insert(e, set);
            } else {
                let mut borrows: Vec<BorrowInfo> = Vec::new();
                borrows.push(BorrowInfo { is_mut, span });
                scope_b.push(BorrowSet { name: owned(name), borrows });
            }
            proof {
                let info = BorrowInfo { is_mut, span };
                let expected = if (e as int) < sc.len() {
                    sc.update(e as int, (sc[e as int].0, sc[e as int].1.push(info)))
                } else {
                    sc.push((name@, seq![info]))
                };
                assert(borrow_sets_view(scope_b@) =~= expected);
            }
            self.active_borrows.insert(last, scope_b);
            proof {
                assert(self.active_borrows@.drop_last() =~= old(self).active_borrows@.drop_last());
                assert(borrows_view(self.active_borrows@) =~= record_borrow(view0, name@, BorrowInfo { is_mut, span }));
            }
        } else {
            proof {
                assert(borrows_view(self.active_borrows@) =~= record_borrow(view0, name@, BorrowInfo { is_mut, span }));
            }
        }
    }

    /// Marks as moved the variables that an expression moves: a plain
    /// identifier of a non-copy type that is initialised; `&x` and field
    /// accesses move nothing.
    fn mark_moves(&mut self, expr: &Expr)
        ensures
            final(self).keeps(old(self)),
            final(self).diagnostics == old(self).diagnostics,
            final(self).functions == old(self).functions,
            final(self).structs == old(self).structs,
            final(self).active_borrows == old(self).active_borrows,
            final(self).specialized_items == old(self).specialized_items,
            final(self).specialized_calls == old(self).specialized_calls,
            only_moves(old(self).scopes@, final(self).scopes@),
            expr.kind is Lit ==> *final(self) == *old(self),
            expr.kind is Ident ==> match lookup(old(self).scopes@, expr.kind->Ident_0@) {
                Some((i, k)) => {
                    let b = old(self).scopes@[i]@[k];
                    final(self).scopes@[i]@[k].state == if b.state == VarState::Initialized && !is_copy(b.ty@) {
                        VarState::Moved(expr.span)
                    } else {
                        b.state
                    }
                },
                None => *final(self) == *old(self),
            },
            expr.kind is Call ==> forall|j: int|
                #![trigger expr.kind->Call_1@[j]]
                0 <= j < expr.kind->Call_1@.len() && moves_variable(old(self).scopes@, expr.kind->Call_1@[j]) ==> {
                    let (i, k) = lookup(old(self).scopes@, expr.kind->Call_1@[j].kind->Ident_0@)->0;
                    final(self).scopes@[i]@[k].state is Moved
                },
        decreases expr,
    {
        match &expr.kind {
            ExprKind::Ident(name) => {
                proof { lemma_lookup(self.scopes@, name@); }
                match self.lookup_var(name.as_str()) {
                    Some(at) => {
                        let ghost b = self.scopes@[at.0 as int]@[at.1 as int];
                        let st = self.scopes[at.0][at.1].state;
                        let copy = self.is_copy_type(&self.scopes[at.0][at.1].ty);
                        assert(lookup(old(self).scopes@, name@) == Some((at.0 as int, at.1 as int)));
                        if st == VarState::Initialized && !copy {
                            self.set_state(at, VarState::Moved(expr.span));
                            assert(self.scopes@[at.0 as int]@[at.1 as int].state == VarState::Moved(expr.span));
                        }
                        assert(self.scopes@[at.0 as int]@[at.1 as int].state == if b.state == VarState::Initialized && !is_copy(b.ty@) {
                            VarState::Moved(expr.span)
                        } else {
                            b.state
                        });
                    },
                    None => {},
                }
            },
            ExprKind::Unary(UnOp::AddrOf, _) => {},
            ExprKind::Unary(_, operand) => self.mark_moves(operand),
            ExprKind::Binary(_, lhs, rhs) => {
                self.mark_moves(lhs);
                self.mark_moves(rhs);
            },
            ExprKind::Call(_, args) => {
                let mut i: usize = 0;
                while i < args.len()
                    invariant
                        i <= args.len(),
                        expr.kind == ExprKind::Call(expr.kind->Call_0, *args),
                        forall|j: int|
                            #![trigger args@[j]]
                            0 <= j < i && moves_variable(old(self).scopes@, args@[j]) ==> {
                                let (a, b) = lookup(old(self).scopes@, args@[j].kind->Ident_0@)->0;
                                self.scopes@[a]@[b].state is Moved
                            },
                        self.keeps(old(self)),
                        self.diagnostics == old(self).diagnostics,
                        self.functions == old(self).functions,
                        self.structs == old(self).structs,
                        self.active_borrows == old(self).active_borrows,
                        self.specialized_items == old(self).specialized_items,
                        self.specialized_calls == old(self).specialized_calls,
                        only_moves(old(self).scopes@, self.scopes@),
                    decreases args.len() - i,
                {
                    proof {
                        broadcast use vstd::std_specs::vec::axiom_vec_index_decreases;
                        assert(decreases_to!(*expr => expr.kind));
                        assert(expr.kind->Call_1 == *args);
                        assert(decreases_to!(expr.kind => expr.kind->Call_1));
                        assert(decreases_to!(*args => args[i as int]));
                    }
                    let ghost prev = self.scopes@;
                    self.mark_moves(&args[i]);
                    proof {
                        assert forall|j: int|
                            #![trigger args@[j]]
                            0 <= j < i + 1 && moves_variable(old(self).scopes@, args@[j]) implies {
                                let (a, b) = lookup(old(self).scopes@, args@[j].kind->Ident_0@)->0;
                                self.scopes@[a]@[b].state is Moved
                            } by {
                            let name = args@[j].kind->Ident_0@;
                            lemma_lookup(old(self).scopes@, name);
                            lemma_lookup_same_bindings(old(self).scopes@, prev, name);
                        }
                    }
                    i = i + 1;
                }
            },
            ExprKind::MethodCall(receiver, _, args) => {
                self.mark_moves(receiver);
                let mut i: usize = 0;
                while i < args.len()
                    invariant
                        i <= args.len(),
                        expr.kind == ExprKind::MethodCall(expr.kind->MethodCall_0, expr.kind->MethodCall_1, *args),
                        self.keeps(old(self)),
                        self.diagnostics == old(self).diagnostics,
                        self.functions == old(self).functions,
                        self.structs == old(self).structs,
                        self.active_borrows == old(self).active_borrows,
                        self.specialized_items == old(self).specialized_items,
                        self.specialized_calls == old(self).specialized_calls,
                        only_moves(old(self).scopes@, self.scopes@),
                    decreases args.len() - i,
                {
                    proof {
                        broadcast use vstd::std_specs::vec::axiom_vec_index_decreases;
                        assert(decreases_to!(*expr => expr.kind));
                        assert(expr.kind->MethodCall_2 == *args);
                        assert(decreases_to!(expr.kind => expr.kind->MethodCall_2));
                        assert(decreases_to!(*args => args[i as int]));
                    }
                    self.mark_moves(&args[i]);
                    i = i + 1;
                }
            },
            ExprKind::FieldAccess(_, _) => {},
            ExprKind::StructInit(_, fields) => {
                let mut i: usize = 0;
                while i < fields.len()
                    invariant
                        i <= fields.len(),
                        expr.kind == ExprKind::StructInit(expr.kind->StructInit_0, *fields),
                        self.keeps(old(self)),
                        self.diagnostics == old(self).diagnostics,
                        self.functions == old(self).functions,
                        self.structs == old(self).structs,
                        self.active_borrows == old(self).active_borrows,
                        self.specialized_items == old(self).specialized_items,
                        self.specialized_calls == old(self).specialized_calls,
                        only_moves(old(self).scopes@, self.scopes@),
                    decreases fields.len() - i,
                {
                    proof {
                        broadcast use vstd::std_specs::vec::axiom_vec_index_decreases;
                        assert(decreases_to!(*expr => expr.kind));
                        assert(expr.kind->StructInit_1 == *fields);
                        assert(decreases_to!(expr.kind => expr.kind->StructInit_1));
                        assert(decreases_to!(*fields => fields[i as int]));
                        assert(decreases_to!(fields[i as int] => fields[i as int].1));
                    }
                    self.mark_moves(&fields[i].1);
                    i = i + 1;
                }
            },
            ExprKind::If(cond, _, _) => self.mark_moves(cond),
            ExprKind::Match(cond, _) => self.mark_moves(cond),
            ExprKind::Try(val) => self.mark_moves(val),
            _ => {},
        }
    }
}

/// The type of a literal: its suffix, or `i32`, `f64`, `string`, `bool`.
pub open spec fn lit_type(l: LitV, span: Span) -> TypeV {
    match l {
        LitV::Int(_, suf) => named_type(if suf is Some { suf->0 } else { "i32"@ }, span),
        LitV::Float(_, suf) => named_type(if suf is Some { suf->0 } else { "f64"@ }, span),
        LitV::Str(_) => named_type("string"@, span),
        LitV::Bool(_) => named_type("bool"@, span),
    }
}

/// Whether a binary operator compares its operands (its result is `bool`).
pub open spec fn is_comparison(op: BinOp) -> bool {
    op is Eq || op is Ne || op is Lt || op is Gt || op is Le || op is Ge
}

/// The type given to a function used as a value: `raw *u8`.
pub open spec fn fn_value_type(span: Span) -> TypeV {
    TypeV { kind: TypeKindV::RawPtr(Box::new(named_type("u8"@, span))), span }
}

/// `d` reports a use of the moved variable `name` at `span`, with a note on
/// the place it was moved.
pub open spec fn is_moved_error(d: Diagnostic, file: Seq<char>, name: Seq<char>, span: Span, moved_at: Span) -> bool {
    &&& d.code@ == "E0203"@
    &&& d.severity@ == "error"@
    &&& d.message@ == "use of moved value `"@ + name + "`"@
    &&& d.file@ == file
    &&& d.span == span
    &&& d.notes@.len() == 1
    &&& d.notes@[0].message@ == "`"@ + name + "` was moved here"@
    &&& d.notes@[0].span == Some(moved_at)
    &&& d.suggested_fix is None
}

proof fn lemma_one_more(old: Seq<Diagnostic>, new: Seq<Diagnostic>)
    requires
        new.len() == old.len() + 1,
        new.subrange(0, old.len() as int) == old,
    ensures
        one_more(old, new),
{
    assert forall|i: int| 0 <= i < old.len() implies new[i] == old[i] by {
        assert(new.subrange(0, old.len() as int)[i] == new[i]);
    }
}

/// `new` is `old` with one more diagnostic, `d`.
pub open spec fn one_more(old: Seq<Diagnostic>, new: Seq<Diagnostic>) -> bool {
    new.len() == old.len() + 1 && forall|i: int| 0 <= i < old.len() ==> new[i] == old[i]
}

/// A reported error: its code, message and span.
pub type Report = (Seq<char>, Seq<char>, Span);

/// The error that checking `stmt` reports first, for the statements whose
/// first report the `raw` flag and the return type `ret` decide: a typed
/// `let` of a literal of another type (`E0102`), a `return` of nothing or of
/// a literal that does not fit `ret` (`E0104`, `E0105`, `E0106`), and a
/// `while` on a literal that is not `bool` (`E0107`).
pub open spec fn stmt_opening(raw: bool, ret: Option<TypeV>, stmt: Stmt) -> Option<Report> {
    match stmt.kind {
        StmtKind::Let { ty, value, .. } => if ty is Some && value.kind is Lit {
            let declared = ty->0@;
            let found = lit_type(lit_view(value.kind->Lit_0), value.span);
            if types_eq(raw, found, declared) {
                None
            } else {
                Some(("E0102"@, "mismatched types: expected `"@ + debug_type_kind(declared.kind) + "`, found `"@
                    + debug_type_kind(found.kind) + "`"@, value.span))
            }
        } else {
            None
        },
        StmtKind::Return(v) => match v {
            None => match ret {
                Some(expected) => Some(("E0105"@, "mismatched return type: expected `"@ + debug_type_kind(
                    expected.kind,
                ) + "`, found void"@, stmt.span)),
                None => None,
            },
            Some(e) => if e.kind is Lit {
                let found = lit_type(lit_view(e.kind->Lit_0), e.span);
                match ret {
                    Some(expected) => if types_eq(raw, expected, found) {
                        None
                    } else {
                        Some(("E0104"@, "mismatched return type: expected `"@ + debug_type_kind(expected.kind)
                            + "`, found `"@ + debug_type_kind(found.kind) + "`"@, e.span))
                    },
                    None => Some(("E0106"@, "mismatched return type: expected void, found `"@ + debug_type_kind(
                        found.kind,
                    ) + "`"@, e.span)),
                }
            } else {
                None
            },
        },
        StmtKind::While(cond, _) => if cond.kind is Lit {
            let found = lit_type(lit_view(cond.kind->Lit_0), cond.span);
            if types_eq(raw, found, named_type("bool"@, cond.span)) {
                None
            } else {
                Some(("E0107"@, "while condition must be bool, found `"@ + debug_type_kind(found.kind) + "`"@,
                    cond.span))
            }
        } else {
            None
        },
        _ => None,
    }
}

/// The first diagnostic after `old` in `new` is the error `o` of `file`.
pub open spec fn leads_with(old: Seq<Diagnostic>, new: Seq<Diagnostic>, file: Seq<char>, o: Report) -> bool {
    new.len() > old.len() && is_error(new[old.len() as int], file, o.0, o.1, o.2)
}

/// The error that checking a block reports first, where its first statement
/// decides it.
pub open spec fn block_opening(raw: bool, ret: Option<TypeV>, b: Block) -> Option<Report> {
    if b.stmts@.len() > 0 {
        stmt_opening(raw, ret, b.stmts@[0])
    } else {
        None
    }
}

/// An earlier parameter has the name of parameter `k`.
pub open spec fn has_earlier(params: Seq<Param>, k: int) -> bool {
    exists|i: int| 0 <= i < k && (#[trigger] params[i]).name@ == params[k].name@
}

/// The index of the first parameter, at or after `j`, whose name an earlier
/// parameter already has, or -1.
pub open spec fn dup_from(params: Seq<Param>, j: int) -> int
    decreases params.len() - j,
{
    if j < 0 || j >= params.len() {
        -1
    } else if has_earlier(params, j) {
        j
    } else {
        dup_from(params, j + 1)
    }
}

proof fn lemma_dup_from(params: Seq<Param>, j: int)
    requires
        0 <= j <= params.len(),
    ensures
        dup_from(params, j) == -1 || j <= dup_from(params, j) < params.len(),
        dup_from(params, j) >= 0 ==> has_earlier(params, dup_from(params, j)),
        forall|k: int| j <= k < params.len() && (dup_from(params, j) < 0 || k < dup_from(params, j)) ==> !has_earlier(
            params,
            k,
        ),
    decreases params.len() - j,
{
    if j < params.len() {
        lemma_dup_from(params, j + 1);
    }
}

/// The return type a function body is checked against, with `Self`
/// resolved to `self_ty`.
pub open spec fn ret_for(f: FnDecl, self_ty: Option<Type>) -> Option<TypeV> {
    match f.ret_ty {
        Some(e) => Some(
            match self_ty {
                Some(t) => resolve_self(e@, t@),
                None => e@,
            },
        ),
        None => None,
    }
}

/// The error that checking a function reports first, where it is decided: a
/// repeated parameter name (`E0101`), else the opening of its body.
pub open spec fn fn_opening(raw: bool, f: FnDecl, self_ty: Option<Type>) -> Option<Report> {
    let d = dup_from(f.params@, 0);
    if d >= 0 {
        Some(("E0101"@, "redefinition of local variable `"@ + f.params@[d].name@ + "`"@, f.params@[d].span))
    } else {
        block_opening(raw, ret_for(f, self_ty), f.body)
    }
}

/// The error that checking a module reports first, where its first item is
/// a non-generic function whose check decides it.
pub open spec fn module_opening(items: Seq<Item>, raw: bool) -> Option<Report> {
    if items.len() > 0 {
        match items[0] {
            Item::Fn(f) => if f.generic_params@.len() == 0 {
                fn_opening(raw, f, None)
            } else {
                None
            },
            _ => None,
        }
    } else {
        None
    }
}

/// A non-generic function item, or an impl block with a non-generic method,
/// whose check reports an error that `fn_opening` determines.
pub open spec fn item_reports(item: Item, raw: bool) -> bool {
    match item {
        Item::Fn(f) => f.generic_params@.len() == 0 && fn_opening(raw, f, None) is Some,
        Item::Impl(imp) => exists|m: int| 0 <= m < imp.methods@.len() && method_reports(imp, #[trigger] imp.methods@[m], raw),
        _ => false,
    }
}

/// A non-generic method of an impl block whose check reports an error that
/// `fn_opening` determines.
pub open spec fn method_reports(imp: ImplBlock, f: FnDecl, raw: bool) -> bool {
    f.generic_params@.len() == 0 && fn_opening(raw, f, Some(imp.target_ty)) is Some
}

/// `e` is an identifier that names neither a variable nor a function.
pub open spec fn unknown_name(scopes: Seq<Vec<Binding>>, fns: Seq<(String, FnDecl)>, e: Expr) -> bool {
    e.kind matches ExprKind::Ident(n) && lookup(scopes, n@) is None && find_fn(fns, n@) < 0
}

/// `e` is an identifier naming an initialised variable.
pub open spec fn initialized_var(scopes: Seq<Vec<Binding>>, e: Expr) -> bool {
    e.kind matches ExprKind::Ident(n) && lookup(scopes, n@) matches Some((i, k)) && scopes[i]@[k].state
        == VarState::Initialized
}

/// The declared type of the variable `e` names.
pub open spec fn var_type(scopes: Seq<Vec<Binding>>, e: Expr) -> TypeV {
    let (i, k) = lookup(scopes, e.kind->Ident_0@)->0;
    scopes[i]@[k].ty@
}

/// Checking the method call `expr` gets to its arguments: where the receiver
/// is an initialised variable, its struct has the method, which takes `self`
/// and as many further parameters as there are arguments.
spec fn method_call_reaches_args(old: TypeChecker, expr: Expr) -> bool {
    expr.kind matches ExprKind::MethodCall(receiver, method, args) ==> initialized_var(old.scopes@, *receiver) ==> {
        &&& receiver_path(var_type(old.scopes@, *receiver)) matches Some(p)
        &&& p.len() > 0
        &&& find_fn(old.functions@, p.last() + "::"@ + method@) >= 0
        &&& {
            let f = old.functions@[find_fn(old.functions@, p.last() + "::"@ + method@)].1@;
            f.params.len() > 0 && f.params[0].name == "self"@ && args@.len() + 1 == f.params.len()
        }
    }
}

/// What checking the method call `expr` gives when its receiver is an
/// initialised variable: a receiver that is not a struct (`E0115`), a struct
/// without the method (`E0116`), a method without `self` (`E0116`), or a
/// wrong number of arguments (`E0117`) is reported and yields no type;
/// otherwise the type is the method's return type, where the arguments check.
spec fn method_call_facts(old: TypeChecker, new: TypeChecker, expr: Expr, r: Option<Type>) -> bool {
    let before = old.diagnostics@;
    let after = new.diagnostics@;
    let file = old.filename@;
    expr.kind matches ExprKind::MethodCall(receiver, method, args) ==> initialized_var(old.scopes@, *receiver) ==> {
        let m = method@;
        match receiver_path(var_type(old.scopes@, *receiver)) {
            None => r is None && one_more(before, after) && is_error(after.last(), file, "E0115"@,
                "receiver is not a struct"@, expr.span),
            Some(p) => if p.len() == 0 {
                r is None && new == old
            } else {
                let fi = find_fn(old.functions@, p.last() + "::"@ + m);
                if fi < 0 {
                    r is None && one_more(before, after) && is_error(after.last(), file, "E0116"@, "no method `"@ + m
                        + "` on type `"@ + p.last() + "`"@, expr.span)
                } else {
                    let f = old.functions@[fi].1@;
                    if f.params.len() == 0 || f.params[0].name != "self"@ {
                        r is None && one_more(before, after) && is_error(after.last(), file, "E0116"@, "method `"@ + m
                            + "` has no `self` parameter"@, expr.span)
                    } else if args@.len() + 1 != f.params.len() {
                        r is None && one_more(before, after) && is_error(after.last(), file, "E0117"@, "method `"@ + m
                            + "` expected "@ + spec_decimal((f.params.len() - 1) as nat) + " arguments, found "@
                            + spec_decimal(args@.len() as nat), expr.span)
                    } else {
                        r matches Some(t) ==> f.ret_ty == Some(t@)
                    }
                }
            },
        }
    }
}

/// The function registered under `name` is `f`.
pub open spec fn registered_as(fns: Seq<(String, FnDecl)>, name: Seq<char>, f: FnDecl) -> bool {
    find_fn(fns, name) >= 0 && fns[find_fn(fns, name)].1@ == f@
}

/// The name a call goes to: an identifier or a path joined by `::`.
pub open spec fn callee_name(callee: Expr) -> Option<Seq<char>> {
    match callee.kind {
        ExprKind::Ident(n) => Some(n@),
        ExprKind::Path(p) => Some(join_path(strs_view(p@))),
        _ => None,
    }
}

/// The names that calls treat specially: `spawn` (arguments checked for
/// references), `print`, `sqrt`, and the constructors of `Result` and
/// `Option`.
pub open spec fn is_special_call(n: Seq<char>) -> bool {
    n == "spawn"@ || n == "print"@ || n == "sqrt"@ || n == "Ok"@ || n == "Err"@ || n == "Some"@ || n == "None"@
}

/// What checking the call `expr` gives: a callee that is not a name is
/// reported (`E0120`); a name that is neither special nor a known function is
/// reported (`E0123`); a known non-generic function called with the wrong
/// number of arguments is reported (`E0117`).  Each of these yields no type.
spec fn call_facts(old: TypeChecker, new: TypeChecker, expr: Expr, r: Option<Type>) -> bool {
    let before = old.diagnostics@;
    let after = new.diagnostics@;
    let file = old.filename@;
    expr.kind matches ExprKind::Call(callee, args) ==> match callee_name(*callee) {
        None => r is None && one_more(before, after) && is_error(after.last(), file, "E0120"@,
            "callee is not a function"@, callee.span),
        Some(n) => !is_special_call(n) ==> {
            let fi = find_fn(old.functions@, n);
            if fi < 0 {
                r is None && one_more(before, after) && is_error(after.last(), file, "E0123"@,
                    "cannot find function `"@ + n + "` in this scope"@, expr.span)
            } else {
                let f = old.functions@[fi].1@;
                (f.generic_params.len() == 0 && args@.len() != f.params.len()) ==> r is None && one_more(before, after)
                    && is_error(after.last(), file, "E0117"@, "function `"@ + f.name + "` expected "@
                    + spec_decimal(f.params.len()) + " arguments, found "@ + spec_decimal(args@.len() as nat),
                    expr.span)
            }
        },
    }
}

impl TypeChecker {
    /// Checks a module: registers its structs, functions and impl methods
    /// (a later declaration of a name replaces an earlier one; methods are
    /// registered as `Type::method`), then checks the body of every
    /// non-generic function and method.  Generic functions are checked when
    /// a call specialises them.
    pub fn check_module(&mut self, module: &Module)
        ensures
            extends(old(self).diags(), final(self).diags(), old(self).file()),
            final(self).file() == old(self).file(),
            final(self).raw() == old(self).raw(),
            final(self).depth() == old(self).depth(),
            old(self).wf() ==> final(self).wf(),
            old(self).items().len() <= final(self).items().len(),
            (exists|k: int| 0 <= k < module.items@.len() && item_reports(#[trigger] module.items@[k], old(self).raw()))
                ==> final(self).diags().len() > old(self).diags().len(),
            module_opening(module.items@, old(self).raw()) matches Some(o) ==> leads_with(
                old(self).diags(),
                final(self).diags(),
                old(self).file(),
                o,
            ),
    {
        let ghost start = *self;
        let mut i: usize = 0;
        while i < module.items.len()
            invariant
                i <= module.items.len(),
                self.keeps(&start),
                self.diagnostics == start.diagnostics,
                start.specialized_items@.len() <= self.specialized_items@.len(),
            decreases module.items.len() - i,
        {
            match &module.items[i] {
                Item::Struct(s) => {
                    let c = copy_struct(s);
                    self.insert_struct(c);
                },
                Item::Fn(f) => {
                    let c = copy_fn(f);
                    self.insert_fn(f.name.clone(), c);
                },
                Item::Impl(imp) => {
                    match &imp.target_ty.kind {
                        TypeKind::Path(path, _) => {
                            if path.len() > 0 {
                                let struct_name = &path[path.len() - 1];
                                let mut m: usize = 0;
                                while m < imp.methods.len()
                                    invariant
                                        m <= imp.methods.len(),
                                        self.keeps(&start),
                                        self.diagnostics == start.diagnostics,
                                        start.specialized_items@.len() <= self.specialized_items@.len(),
                                    decreases imp.methods.len() - m,
                                {
                                    let method = &imp.methods[m];
                                    let mut key: Vec<char> = chars_of(struct_name.as_str());
                                    append_str(&mut key, "::");
                                    append_chars(&mut key, &chars_of(method.name.as_str()));
                                    let c = copy_fn(method);
                                    self.insert_fn(string_of(&key), c);
                                    m = m + 1;
                                }
                            }
                        },
                        _ => {},
                    }
                },
                _ => {},
            }
            i = i + 1;
        }
        let mut i: usize = 0;
        while i < module.items.len()
            invariant
                i <= module.items.len(),
                self.keeps(&start),
                start.specialized_items@.len() <= self.specialized_items@.len(),
                (exists|k: int| 0 <= k < i && item_reports(#[trigger] module.items@[k], start.raw()))
                    ==> self.diagnostics@.len() > start.diagnostics@.len(),
                i == 0 ==> self.diagnostics == start.diagnostics,
                i > 0 ==> (module_opening(module.items@, start.raw()) matches Some(o) ==> leads_with(
                    start.diagnostics@,
                    self.diagnostics@,
                    start.filename@,
                    o,
                )),
            decreases module.items.len() - i,
        {
            let ghost before = *self;
            match &module.items[i] {
                Item::Fn(f) => {
                    if f.generic_params.len() == 0 {
                        self.check_fn(f);
                    }
                    proof {
                        if item_reports(module.items@[i as int], start.raw()) {
                            assert(self.diagnostics@.len() > before.diagnostics@.len());
                        }
                    }
                },
                Item::Impl(imp) => {
                    let mut m: usize = 0;
                    while m < imp.methods.len()
                        invariant
                            m <= imp.methods.len(),
                            self.keeps(&start),
                            start.specialized_items@.len() <= self.specialized_items@.len(),
                            before.diagnostics@.len() <= self.diagnostics@.len(),
                            forall|x: int| 0 <= x < before.diagnostics@.len() ==> self.diagnostics@[x] == before.diagnostics@[x],
                            module.items@[i as int] == Item::Impl(*imp),
                            self.in_raw_block == start.in_raw_block,
                            (exists|k: int| 0 <= k < m && method_reports(*imp, #[trigger] imp.methods@[k], start.raw()))
                                ==> self.diagnostics@.len() > before.diagnostics@.len(),
                        decreases imp.methods.len() - m,
                    {
                        let method = &imp.methods[m];
                        let ghost mid = *self;
                        if method.generic_params.len() == 0 {
                            let target = copy_type(&imp.target_ty);
                            self.check_fn_with_self(method, Some(target));
                            proof {
                                assert(fn_opening(start.raw(), *method, Some(target)) == fn_opening(start.raw(), *method, Some(imp.target_ty)));
                            }
                        }
                        proof {
                            if exists|k: int| 0 <= k < m + 1 && method_reports(*imp, #[trigger] imp.methods@[k], start.raw()) {
                                let k = choose|k: int| 0 <= k < m + 1 && method_reports(*imp, #[trigger] imp.methods@[k], start.raw());
                                if k < m {
                                    assert(mid.diagnostics@.len() > before.diagnostics@.len());
                                }
                            }
                        }
                        m = m + 1;
                    }
                },
                _ => {},
            }
            proof {
                if exists|k: int| 0 <= k < i + 1 && item_reports(#[trigger] module.items@[k], start.raw()) {
                    let k = choose|k: int| 0 <= k < i + 1 && item_reports(#[trigger] module.items@[k], start.raw());
                    if k < i {
                        assert(before.diagnostics@.len() > start.diagnostics@.len());
                    }
                }
                if i > 0 {
                    if let Some(o) = module_opening(module.items@, start.raw()) {
                        let j = start.diagnostics@.len() as int;
                        assert(self.diagnostics@[j] == before.diagnostics@[j]);
                    }
                }
            }
            i = i + 1;
        }
    }

    fn check_fn(&mut self, f: &FnDecl)
        ensures
            fn_opening(old(self).in_raw_block, *f, None) matches Some(o) ==> leads_with(
                old(self).diagnostics@,
                final(self).diagnostics@,
                old(self).filename@,
                o,
            ),
            final(self).keeps(old(self)),
            old(self).specialized_items@.len() <= final(self).specialized_items@.len(),
        decreases old(self).specializations_left, f.body, 2int,
    {
        self.check_fn_with_self(f, None);
    }

    /// Checks a function body in a fresh scope holding its parameters, with
    /// `Self` in the parameter and return types resolved to `self_ty`.
    fn check_fn_with_self(&mut self, f: &FnDecl, self_ty: Option<Type>)
        ensures
            fn_opening(old(self).in_raw_block, *f, self_ty) matches Some(o) ==> leads_with(
                old(self).diagnostics@,
                final(self).diagnostics@,
                old(self).filename@,
                o,
            ),
            final(self).keeps(old(self)),
            old(self).specialized_items@.len() <= final(self).specialized_items@.len(),
        decreases old(self).specializations_left, f.body, 1int,
    {
        self.push_scope();
        let prev_ret = copy_opt_type(&self.current_ret_ty);
        let ret = match &f.ret_ty {
            Some(expected) => match &self_ty {
                Some(self_t) => Some(self.resolve_self_type(expected, self_t)),
                None => Some(copy_type(expected)),
            },
            None => None,
        };
        self.current_ret_ty = ret;
        let ghost mid = *self;
        let ghost d = dup_from(f.params@, 0);
        let ghost dup = ("E0101"@, "redefinition of local variable `"@ + f.params@[d].name@ + "`"@, f.params@[d].span);
        proof {
            lemma_dup_from(f.params@, 0);
            assert(self.ret_ty() == ret_for(*f, self_ty));
        }
        let mut i: usize = 0;
        while i < f.params.len()
            invariant
                i <= f.params.len(),
                self.keeps(&mid),
                self.specializations_left == mid.specializations_left,
                self.specialized_items == mid.specialized_items,
                self.scopes@.len() == mid.scopes@.len(),
                mid.scopes@.len() > 0,
                mid.scopes@.last()@.len() == 0,
                d == dup_from(f.params@, 0),
                d == -1 || 0 <= d < f.params@.len(),
                d >= 0 ==> dup == ("E0101"@, "redefinition of local variable `"@ + f.params@[d].name@ + "`"@,
                    f.params@[d].span),
                d >= 0 ==> has_earlier(f.params@, d),
                forall|k: int| 0 <= k < f.params@.len() && (d < 0 || k < d) ==> !has_earlier(f.params@, k),
                (d < 0 || i <= d) ==> {
                    &&& self.diagnostics == mid.diagnostics
                    &&& self.scopes@.last()@.len() == i
                    &&& forall|k: int| 0 <= k < i ==> (#[trigger] self.scopes@.last()@[k]).name@ == f.params@[k].name@
                },
                (d >= 0 && i > d) ==> leads_with(mid.diagnostics@, self.diagnostics@, mid.filename@, dup),
            decreases f.params.len() - i,
        {
            let param = &f.params[i];
            let ty = match &self_ty {
                Some(self_t) => self.resolve_self_type(&param.ty, self_t),
                None => copy_type(&param.ty),
            };
            proof {
                let sc = self.scopes@.last()@;
                lemma_find_binding(sc, f.params@[i as int].name@);
                if d < 0 || i < d {
                    assert(!has_earlier(f.params@, i as int));
                    if find_binding(sc, f.params@[i as int].name@) >= 0 {
                        let k = find_binding(sc, f.params@[i as int].name@);
                        assert(f.params@[k].name@ == f.params@[i as int].name@);
                        assert(has_earlier(f.params@, i as int));
                    }
                } else if d == i {
                    let k = choose|k: int| 0 <= k < d && (#[trigger] f.params@[k]).name@ == f.params@[d].name@;
                    assert(sc[k].name@ == f.params@[i as int].name@);
                }
            }
            let ghost before = *self;
            self.declare_var(param.name.clone(), ty, VarState::Initialized, false, param.span);
            proof {
                if d < 0 || (i as int) < d {
                    assert forall|k: int| 0 <= k < i + 1 implies (#[trigger] self.scopes@.last()@[k]).name@
                        == f.params@[k].name@ by {
                        if k < i {
                            assert(self.scopes@.last()@.drop_last()[k] == self.scopes@.last()@[k]);
                        }
                    }
                } else if d == i {
                    assert(self.diagnostics@.last() == self.diagnostics@[mid.diagnostics@.len() as int]);
                    assert(leads_with(mid.diagnostics@, self.diagnostics@, mid.filename@, dup));
                } else {
                    assert(self.diagnostics@[mid.diagnostics@.len() as int] == before.diagnostics@[mid.diagnostics@.len() as int]);
                }
            }
            i = i + 1;
        }
        assert(self.specializations_left == old(self).specializations_left);
        self.check_block(&f.body);
        self.pop_scope();
        self.current_ret_ty = prev_ret;
    }

    fn check_block(&mut self, block: &Block)
        ensures
            final(self).keeps(old(self)),
            final(self).active_borrows@ == old(self).active_borrows@,
            old(self).specialized_items@.len() <= final(self).specialized_items@.len(),
            block_opening(old(self).in_raw_block, old(self).ret_ty(), *block) matches Some(o) ==> leads_with(
                old(self).diagnostics@,
                final(self).diagnostics@,
                old(self).filename@,
                o,
            ),
        decreases old(self).specializations_left, block, 0int,
    {
        self.push_scope();
        let ghost mid = *self;
        let mut i: usize = 0;
        while i < block.stmts.len()
            invariant
                i <= block.stmts.len(),
                mid.diagnostics == old(self).diagnostics,
                mid.filename == old(self).filename,
                mid.in_raw_block == old(self).in_raw_block,
                mid.ret_ty() == old(self).ret_ty(),
                i > 0 ==> (block_opening(old(self).in_raw_block, old(self).ret_ty(), *block) matches Some(o)
                    ==> leads_with(old(self).diagnostics@, self.diagnostics@, old(self).filename@, o)),
                i == 0 ==> *self == mid,
                self.keeps(&mid),
                mid.specializations_left == old(self).specializations_left,
                mid.specialized_items == old(self).specialized_items,
                old(self).specialized_items@.len() <= self.specialized_items@.len(),
            decreases block.stmts.len() - i,
        {
            proof {
                broadcast use vstd::std_specs::vec::axiom_vec_index_decreases;
                assert(decreases_to!(*block => block.stmts));
                assert(decreases_to!(block.stmts => block.stmts[i as int]));
            }
            self.check_stmt(&block.stmts[i]);
            i = i + 1;
        }
        self.pop_scope();
    }

    #[verifier::rlimit(40)]
    fn check_stmt(&mut self, stmt: &Stmt)
        ensures
            final(self).keeps(old(self)),
            old(self).specialized_items@.len() <= final(self).specialized_items@.len(),
            (stmt.kind is Let && stmt.kind->ty is Some && stmt.kind->value.kind is Lit) ==> {
                let declared = stmt.kind->ty->0@;
                let value = stmt.kind->value;
                let found = lit_type(lit_view(value.kind->Lit_0), value.span);
                let before = old(self).diagnostics@;
                let after = final(self).diagnostics@;
                &&& !types_eq(old(self).in_raw_block, found, declared) ==> after.len() > before.len() && is_error(
                    after[before.len() as int],
                    old(self).filename@,
                    "E0102"@,
                    "mismatched types: expected `"@ + debug_type_kind(declared.kind) + "`, found `"@ + debug_type_kind(
                        found.kind,
                    ) + "`"@,
                    value.span,
                )
                &&& types_eq(old(self).in_raw_block, found, declared) ==> (after.len() == before.len() || (after.len()
                    == before.len() + 1 && after.last().code@ == "E0101"@))
            },
            (stmt.kind matches StmtKind::Return(v) && (v is None || v->0.kind is Lit)) ==> {
                let v = stmt.kind->Return_0;
                let before = old(self).diagnostics@;
                let after = final(self).diagnostics@;
                let file = old(self).filename@;
                match v {
                    None => match old(self).ret_ty() {
                        Some(expected) => one_more(before, after) && is_error(after.last(), file, "E0105"@,
                            "mismatched return type: expected `"@ + debug_type_kind(expected.kind) + "`, found void"@,
                            stmt.span),
                        None => after == before,
                    },
                    Some(e) => {
                        let found = lit_type(lit_view(e.kind->Lit_0), e.span);
                        match old(self).ret_ty() {
                            Some(expected) => if types_eq(old(self).in_raw_block, expected, found) {
                                after == before
                            } else {
                                one_more(before, after) && is_error(after.last(), file, "E0104"@,
                                    "mismatched return type: expected `"@ + debug_type_kind(expected.kind) + "`, found `"@
                                    + debug_type_kind(found.kind) + "`"@, e.span)
                            },
                            None => one_more(before, after) && is_error(after.last(), file, "E0106"@,
                                "mismatched return type: expected void, found `"@ + debug_type_kind(found.kind) + "`"@,
                                e.span),
                        }
                    },
                }
            },
            (stmt.kind matches StmtKind::Assign(lhs, rhs) && lhs.kind is Ident && rhs.kind is Lit && {
                let name = lhs.kind->Ident_0@;
                lookup(old(self).scopes@, name) matches Some((i, k)) && old(self).scopes@[i]@[k].state
                    == VarState::Initialized
            }) ==> {
                let rhs = stmt.kind->Assign_1;
                let (i, k) = lookup(old(self).scopes@, stmt.kind->Assign_0.kind->Ident_0@)->0;
                let declared = old(self).scopes@[i]@[k].ty@;
                let found = lit_type(lit_view(rhs.kind->Lit_0), rhs.span);
                let before = old(self).diagnostics@;
                let after = final(self).diagnostics@;
                if types_eq(old(self).in_raw_block, declared, found) {
                    after == before
                } else {
                    one_more(before, after) && is_error(after.last(), old(self).filename@, "E0102"@,
                        "mismatched types in assignment: expected `"@ + debug_type_kind(declared.kind) + "`, found `"@
                        + debug_type_kind(found.kind) + "`"@, rhs.span)
                }
            },
            (stmt.kind matches StmtKind::While(cond, _) && cond.kind is Lit) ==> {
                let cond = stmt.kind->While_0;
                let found = lit_type(lit_view(cond.kind->Lit_0), cond.span);
                let before = old(self).diagnostics@;
                let after = final(self).diagnostics@;
                &&& final(self).active_borrows@ == old(self).active_borrows@
                &&& !types_eq(old(self).in_raw_block, found, named_type("bool"@, cond.span)) ==> after.len()
                    > before.len() && is_error(after[before.len() as int], old(self).filename@, "E0107"@,
                    "while condition must be bool, found `"@ + debug_type_kind(found.kind) + "`"@, cond.span)
            },
            (stmt.kind is Let && stmt.kind->ty is None && stmt.kind->value.kind is Lit
                && old(self).scopes@.len() > 0) ==> {
                let name = stmt.kind->name@;
                let value = stmt.kind->value;
                let found = lit_type(lit_view(value.kind->Lit_0), value.span);
                let before = old(self).diagnostics@;
                let after = final(self).diagnostics@;
                if find_binding(old(self).scopes@.last()@, name) >= 0 {
                    &&& final(self).scopes == old(self).scopes
                    &&& one_more(before, after)
                    &&& is_error(after.last(), old(self).filename@, "E0101"@,
                        "redefinition of local variable `"@ + name + "`"@, stmt.span)
                } else {
                    &&& after == before
                    &&& final(self).scopes@.drop_last() == old(self).scopes@.drop_last()
                    &&& final(self).scopes@.last()@.drop_last() == old(self).scopes@.last()@
                    &&& final(self).scopes@.last()@.last().name@ == name
                    &&& final(self).scopes@.last()@.last().ty@ == found
                    &&& final(self).scopes@.last()@.last().state == VarState::Initialized
                    &&& final(self).scopes@.last()@.last().is_mut == stmt.kind->is_mut
                }
            },
            stmt_opening(old(self).in_raw_block, old(self).ret_ty(), *stmt) matches Some(o) ==> leads_with(
                old(self).diagnostics@,
                final(self).diagnostics@,
                old(self).filename@,
                o,
            ),
            (stmt.kind is Let && stmt.kind->ty is Some && stmt.kind->value.kind is Lit && old(self).scopes@.len()
                > 0) ==> {
                let name = stmt.kind->name@;
                if find_binding(old(self).scopes@.last()@, name) >= 0 {
                    final(self).scopes == old(self).scopes
                } else {
                    &&& final(self).scopes@.drop_last() == old(self).scopes@.drop_last()
                    &&& final(self).scopes@.last()@.drop_last() == old(self).scopes@.last()@
                    &&& final(self).scopes@.last()@.last().name@ == name
                    &&& final(self).scopes@.last()@.last().ty@ == stmt.kind->ty->0@
                    &&& final(self).scopes@.last()@.last().state == VarState::Initialized
                    &&& final(self).scopes@.last()@.last().is_mut == stmt.kind->is_mut
                }
            },
        decreases old(self).specializations_left, stmt, 0int,
    {
        match &stmt.kind {
            StmtKind::Let { is_mut, name, ty, value } => {
                let val_ty = match self.check_expr(value) {
                    Some(t) => t,
                    None => return,
                };
                self.mark_moves(value);
                match ty {
                    Some(expected_ty) => {
                        if !self.types_equal(&val_ty, expected_ty) {
                            let mut msg: Vec<char> = Vec::new();
                            append_str(&mut msg, "mismatched types: expected `");
                            append_chars(&mut msg, &kind_text(expected_ty));
                            append_str(&mut msg, "`, found `");
                            append_chars(&mut msg, &kind_text(&val_ty));
                            append_str(&mut msg, "`");
                            self.error("E0102", msg, value.span);
                        }
                        self.declare_var(name.clone(), copy_type(expected_ty), VarState::Initialized, *is_mut, stmt.span);
                    },
                    None => {
                        self.declare_var(name.clone(), val_ty, VarState::Initialized, *is_mut, stmt.span);
                    },
                }
            },
            StmtKind::Assign(lhs, rhs) => {
                let lhs_ty = match self.check_expr(lhs) {
                    Some(t) => t,
                    None => return,
                };
                let rhs_ty = match self.check_expr(rhs) {
                    Some(t) => t,
                    None => return,
                };
                self.mark_moves(rhs);
                if !self.types_equal(&lhs_ty, &rhs_ty) {
                    let mut msg: Vec<char> = Vec::new();
                    append_str(&mut msg, "mismatched types in assignment: expected `");
                    append_chars(&mut msg, &kind_text(&lhs_ty));
                    append_str(&mut msg, "`, found `");
                    append_chars(&mut msg, &kind_text(&rhs_ty));
                    append_str(&mut msg, "`");
                    self.error("E0102", msg, rhs.span);
                }
                match &lhs.kind {
                    ExprKind::Ident(name) => {
                        match self.lookup_var(name.as_str()) {
                            Some(at) => self.set_state(at, VarState::Initialized),
                            None => {},
                        }
                    },
                    _ => {},
                }
            },
            StmtKind::Expr(expr) => {
                let _ = self.check_expr(expr);
                self.mark_moves(expr);
            },
            StmtKind::Return(val_expr) => {
                let actual_ty = match val_expr {
                    Some(e) => {
                        let t = self.check_expr(e);
                        self.mark_moves(e);
                        t
                    },
                    None => None,
                };
                match (&self.current_ret_ty, actual_ty) {
                    (Some(expected), Some(actual)) => {
                        if !self.types_equal(expected, &actual) {
                            let mut msg: Vec<char> = Vec::new();
                            append_str(&mut msg, "mismatched return type: expected `");
                            append_chars(&mut msg, &kind_text(expected));
                            append_str(&mut msg, "`, found `");
                            append_chars(&mut msg, &kind_text(&actual));
                            append_str(&mut msg, "`");
                            let span = match val_expr {
                                Some(e) => e.span,
                                None => stmt.span,
                            };
                            self.error("E0104", msg, span);
                        }
                    },
                    (None, Some(actual)) => {
                        let mut msg: Vec<char> = Vec::new();
                        append_str(&mut msg, "mismatched return type: expected void, found `");
                        append_chars(&mut msg, &kind_text(&actual));
                        append_str(&mut msg, "`");
                        let span = match val_expr {
                            Some(e) => e.span,
                            None => stmt.span,
                        };
                        self.error("E0106", msg, span);
                    },
                    (Some(expected), None) => {
                        let mut msg: Vec<char> = Vec::new();
                        append_str(&mut msg, "mismatched return type: expected `");
                        append_chars(&mut msg, &kind_text(expected));
                        append_str(&mut msg, "`, found void");
                        self.error("E0105", msg, stmt.span);
                    },
                    (None, None) => {},
                }
            },
            StmtKind::While(cond, body) => {
                let cond_ty = self.check_expr(cond);
                self.mark_moves(cond);
                match cond_ty {
                    Some(t) => {
                        let bool_ty = make_named_type("bool", cond.span);
                        if !self.types_equal(&t, &bool_ty) {
                            let mut msg: Vec<char> = Vec::new();
                            append_str(&mut msg, "while condition must be bool, found `");
                            append_chars(&mut msg, &kind_text(&t));
                            append_str(&mut msg, "`");
                            self.error("E0107", msg, cond.span);
                        }
                    },
                    None => {},
                }
                self.check_block(body);
            },
            StmtKind::For(name, iter, body) => {
                let _ = self.check_expr(iter);
                self.push_scope();
                let dummy_ty = make_named_type("i32", stmt.span);
                self.declare_var(name.clone(), dummy_ty, VarState::Initialized, false, stmt.span);
                self.check_block(body);
                self.pop_scope();
            },
            StmtKind::Raw(block) => {
                let prev_raw = self.in_raw_block;
                self.in_raw_block = true;
                self.check_block(block);
                self.in_raw_block = prev_raw;
            },
        }
    }

    /// Checks an expression and gives its type, or `None` where it has none
    /// or checking it failed.
    fn check_expr(&mut self, expr: &Expr) -> (r: Option<Type>)
        ensures
            final(self).keeps(old(self)),
            old(self).specialized_items@.len() <= final(self).specialized_items@.len(),
            expr.kind is Lit ==> *final(self) == *old(self)
                && (r matches Some(t) && t@ == lit_type(lit_view(expr.kind->Lit_0), expr.span)),
            expr.kind is Path ==> *final(self) == *old(self)
                && (r matches Some(t) && t@ == named_type(join_path(strs_view(expr.kind->Path_0@)), expr.span)),
            expr.kind is Ident ==> final(self).scopes == old(self).scopes && final(self).active_borrows
                == old(self).active_borrows,
            initialized_var(old(self).scopes@, *expr) ==> *final(self) == *old(self) && (r matches Some(t) && t@
                == var_type(old(self).scopes@, *expr)),
            expr.kind is Ident ==> {
                let name = expr.kind->Ident_0@;
                let file = old(self).filename@;
                let before = old(self).diagnostics@;
                let after = final(self).diagnostics@;
                match lookup(old(self).scopes@, name) {
                    Some((i, k)) => {
                        let b = old(self).scopes@[i]@[k];
                        &&& r matches Some(t) && t@ == b.ty@
                        &&& match b.state {
                            VarState::Initialized => after == before,
                            VarState::Uninitialized => one_more(before, after) && is_error(after.last(), file, "E0108"@,
                                "use of possibly uninitialized variable `"@ + name + "`"@, expr.span),
                            VarState::Moved(at) => one_more(before, after) && is_moved_error(after.last(), file, name, expr.span, at),
                        }
                    },
                    None => if find_fn(old(self).functions@, name) >= 0 {
                        &&& r matches Some(t) && t@ == fn_value_type(expr.span)
                        &&& after == before
                    } else {
                        &&& r is None
                        &&& one_more(before, after)
                        &&& is_error(after.last(), file, "E0109"@, "cannot find value `"@ + name + "` in this scope"@, expr.span)
                    },
                }
            },
            ({
                let file = old(self).filename@;
                let before = old(self).diagnostics@;
                let after = final(self).diagnostics@;
                (expr.kind matches ExprKind::Unary(UnOp::Deref, operand) && operand.kind is Ident && {
                    let name = operand.kind->Ident_0@;
                    lookup(old(self).scopes@, name) matches Some((i, k)) && old(self).scopes@[i]@[k].state
                        == VarState::Initialized && old(self).scopes@[i]@[k].ty@.kind is RawPtr
                }) ==> {
                    let name = expr.kind->Unary_1.kind->Ident_0@;
                    let (i, k) = lookup(old(self).scopes@, name)->0;
                    let inner = *old(self).scopes@[i]@[k].ty@.kind->RawPtr_0;
                    &&& r matches Some(t) && t@ == inner
                    &&& if old(self).in_raw_block {
                        after == before
                    } else {
                        one_more(before, after) && is_error(after.last(), file, "E0111"@,
                            "raw pointer dereference requires `raw` block"@, expr.span)
                    }
                }
            }),
            (expr.kind matches ExprKind::Binary(op, lhs, rhs) && lhs.kind is Lit && rhs.kind is Lit) ==> {
                let op = expr.kind->Binary_0;
                let lt = lit_type(lit_view(expr.kind->Binary_1.kind->Lit_0), expr.kind->Binary_1.span);
                let rt = lit_type(lit_view(expr.kind->Binary_2.kind->Lit_0), expr.kind->Binary_2.span);
                let before = old(self).diagnostics@;
                let after = final(self).diagnostics@;
                if types_eq(old(self).in_raw_block, lt, rt) {
                    &&& *final(self) == *old(self)
                    &&& r matches Some(t) && t@ == (if is_comparison(op) { named_type("bool"@, expr.span) } else { lt })
                } else {
                    &&& r is None
                    &&& one_more(before, after)
                    &&& is_error(after.last(), old(self).filename@, "E0102"@,
                        "mismatched types in binary operation: `"@ + debug_type_kind(lt.kind) + "` and `"@
                        + debug_type_kind(rt.kind) + "`"@, expr.span)
                }
            },
            ({
                let before = old(self).diagnostics@;
                let after = final(self).diagnostics@;
                (expr.kind matches ExprKind::Unary(UnOp::AddrOf, operand) && operand.kind is Ident && {
                    let name = operand.kind->Ident_0@;
                    lookup(old(self).scopes@, name) matches Some((i, k)) && old(self).scopes@[i]@[k].state
                        == VarState::Initialized
                }) ==> {
                    let name = expr.kind->Unary_1.kind->Ident_0@;
                    let (i, k) = lookup(old(self).scopes@, name)->0;
                    let b = old(self).scopes@[i]@[k];
                    let borrows = borrows_view(old(self).active_borrows@);
                    &&& r matches Some(t) && t@ == TypeV { kind: TypeKindV::Ref(Box::new(b.ty@)), span: expr.span }
                    &&& if borrow_conflict(borrows, name, b.is_mut) {
                        one_more(before, after) && is_error(after.last(), old(self).filename@, "E0204"@,
                            borrow_message(name, b.is_mut), expr.span)
                    } else {
                        after == before && borrows_view(final(self).active_borrows@) == record_borrow(borrows, name,
                            BorrowInfo { is_mut: b.is_mut, span: expr.span })
                    }
                }
            }),
            expr.kind is Call ==> call_facts(*old(self), *final(self), *expr, r),
            (expr.kind matches ExprKind::Binary(op, _, _) && is_comparison(op)) ==> (r matches Some(t) ==> t@
                == named_type("bool"@, expr.span)),
            expr.kind is If ==> r is None,
            expr.kind is Block ==> final(self).active_borrows@ == old(self).active_borrows@,
            (expr.kind matches ExprKind::If(cond, _, _) && cond.kind is Lit) ==> {
                let cond = expr.kind->If_0;
                let found = lit_type(lit_view(cond.kind->Lit_0), cond.span);
                let before = old(self).diagnostics@;
                let after = final(self).diagnostics@;
                !types_eq(old(self).in_raw_block, found, named_type("bool"@, cond.span)) ==> after.len() > before.len()
                    && is_error(after[before.len() as int], old(self).filename@, "E0128"@,
                    "if condition must be bool, found `"@ + debug_type_kind(found.kind) + "`"@, cond.span)
            },
        decreases old(self).specializations_left, expr, 2int,
    {
        match &expr.kind {
            ExprKind::Lit(lit) => {
                let t = match lit {
                    Lit::Int(_, suffix) => match suffix {
                        Some(s) => make_named_type(s.as_str(), expr.span),
                        None => make_named_type("i32", expr.span),
                    },
                    Lit::Float(_, suffix) => match suffix {
                        Some(s) => make_named_type(s.as_str(), expr.span),
                        None => make_named_type("f64", expr.span),
                    },
                    Lit::Str(_) => make_named_type("string", expr.span),
                    Lit::Bool(_) => make_named_type("bool", expr.span),
                };
                Some(t)
            },
            ExprKind::Ident(name) => self.check_ident(expr, name),
            ExprKind::Path(path) => {
                let joined = join_path_exec(path);
                Some(make_named_type(joined.as_str(), expr.span))
            },
            ExprKind::Binary(op, lhs, rhs) => {
                let lhs_ty = self.check_expr(lhs)?;
                let rhs_ty = self.check_expr(rhs)?;
                if !self.types_equal(&lhs_ty, &rhs_ty) {
                    let mut msg: Vec<char> = Vec::new();
                    append_str(&mut msg, "mismatched types in binary operation: `");
                    append_chars(&mut msg, &kind_text(&lhs_ty));
                    append_str(&mut msg, "` and `");
                    append_chars(&mut msg, &kind_text(&rhs_ty));
                    append_str(&mut msg, "`");
                    self.error("E0102", msg, expr.span);
                    return None;
                }
                match op {
                    BinOp::Eq | BinOp::Ne | BinOp::Lt | BinOp::Gt | BinOp::Le | BinOp::Ge => Some(make_named_type("bool", expr.span)),
                    _ => Some(lhs_ty),
                }
            },
            ExprKind::Unary(op, operand) => {
                let ty = self.check_expr(operand)?;
                match op {
                    UnOp::AddrOf => {
                        match &operand.kind {
                            ExprKind::Ident(name) => self.check_borrow(name.as_str(), expr.span),
                            _ => {},
                        }
                        Some(Type { kind: TypeKind::Ref(Box::new(ty)), span: expr.span })
                    },
                    UnOp::Deref => {
                        match ty.kind {
                            TypeKind::Ref(inner) => Some(*inner),
                            TypeKind::RawPtr(inner) => {
                                if !self.in_raw_block {
                                    let mut msg: Vec<char> = Vec::new();
                                    append_str(&mut msg, "raw pointer dereference requires `raw` block");
                                    self.error("E0111", msg, expr.span);
                                }
                                Some(*inner)
                            },
                            kind => {
                                let t = Type { kind, span: ty.span };
                                let mut msg: Vec<char> = Vec::new();
                                append_str(&mut msg, "cannot dereference type `");
                                append_chars(&mut msg, &kind_text(&t));
                                append_str(&mut msg, "`");
                                self.error("E0112", msg, expr.span);
                                None
                            },
                        }
                    },
                    UnOp::Not => Some(ty),
                }
            },
            ExprKind::FieldAccess(receiver, field_name) => {
                let receiver_ty = self.check_expr(receiver)?;
                let struct_name = match self.receiver_name(&receiver_ty, "E0113", expr.span) {
                    Some(n) => n,
                    None => return None,
                };
                match self.find_struct_index(struct_name.as_str()) {
                    Some(si) => {
                        let mut j: usize = 0;
                        while j < self.structs[si].fields.len()
                            invariant
                                si < self.structs@.len(),
                                j <= self.structs@[si as int].fields@.len(),
                                expr.kind is FieldAccess,
                                self.keeps(old(self)),
                                old(self).specialized_items@.len() <= self.specialized_items@.len(),
                            decreases self.structs@[si as int].fields@.len() - j,
                        {
                            if self.structs[si].fields[j].name == *field_name {
                                return Some(copy_type(&self.structs[si].fields[j].ty));
                            }
                            j = j + 1;
                        }
                    },
                    None => {},
                }
                let mut msg: Vec<char> = Vec::new();
                append_str(&mut msg, "no field `");
                append_chars(&mut msg, &chars_of(field_name.as_str()));
                append_str(&mut msg, "` on type `");
                append_chars(&mut msg, &chars_of(struct_name.as_str()));
                append_str(&mut msg, "`");
                self.error("E0114", msg, expr.span);
                None
            },
            ExprKind::MethodCall(_, _, _) => self.check_method_call(expr),
            ExprKind::Call(_, _) => self.check_call(expr),
            ExprKind::StructInit(_, _) => self.check_struct_init(expr),
            ExprKind::Block(block) => {
                self.push_scope();
                let ghost mid = *self;
                let mut last_ty: Option<Type> = None;
                let mut i: usize = 0;
                while i < block.stmts.len()
                    invariant
                        i <= block.stmts.len(),
                        expr.kind == ExprKind::Block(*block),
                        self.keeps(&mid),
                        mid.specializations_left == old(self).specializations_left,
                        mid.specialized_items == old(self).specialized_items,
                        old(self).specialized_items@.len() <= self.specialized_items@.len(),
                    decreases block.stmts.len() - i,
                {
                    proof {
                        broadcast use vstd::std_specs::vec::axiom_vec_index_decreases;
                        assert(decreases_to!(*expr => expr.kind));
                        assert(expr.kind->Block_0 == *block);
                        assert(decreases_to!(expr.kind => expr.kind->Block_0));
                        assert(decreases_to!(*block => block.stmts));
                        assert(decreases_to!(block.stmts => block.stmts[i as int]));
                    }
                    let stmt = &block.stmts[i];
                    self.check_stmt(stmt);
                    match &stmt.kind {
                        StmtKind::Expr(e) => {
                            last_ty = self.check_expr(e);
                        },
                        _ => {},
                    }
                    i = i + 1;
                }
                self.pop_scope();
                last_ty
            },
            ExprKind::If(cond, then_branch, else_branch) => {
                let cond_ty = self.check_expr(cond)?;
                let bool_ty = make_named_type("bool", cond.span);
                if !self.types_equal(&cond_ty, &bool_ty) {
                    let mut msg: Vec<char> = Vec::new();
                    append_str(&mut msg, "if condition must be bool, found `");
                    append_chars(&mut msg, &kind_text(&cond_ty));
                    append_str(&mut msg, "`");
                    self.error("E0128", msg, cond.span);
                }
                self.check_block(then_branch);
                match else_branch {
                    Some(eb) => self.check_else(eb),
                    None => {},
                }
                None
            },
            ExprKind::Match(cond, arms) => {
                let _cond_ty = self.check_expr(cond)?;
                let ghost mid = *self;
                let mut i: usize = 0;
                while i < arms.len()
                    invariant
                        i <= arms.len(),
                        expr.kind == ExprKind::Match(*cond, *arms),
                        self.keeps(&mid),
                        mid.keeps(old(self)),
                        old(self).specialized_items@.len() <= self.specialized_items@.len(),
                    decreases arms.len() - i,
                {
                    proof {
                        broadcast use vstd::std_specs::vec::axiom_vec_index_decreases;
                        assert(decreases_to!(*expr => expr.kind));
                        assert(expr.kind->Match_1 == *arms);
                        assert(decreases_to!(expr.kind => expr.kind->Match_1));
                        assert(decreases_to!(*arms => arms[i as int]));
                        assert(decreases_to!(arms[i as int] => arms[i as int].body));
                    }
                    self.push_scope();
                    self.bind_pattern(&arms[i].pattern);
                    let _ = self.check_expr(&arms[i].body);
                    self.pop_scope();
                    i = i + 1;
                }
                None
            },
            ExprKind::Try(val) => {
                let ty = self.check_expr(val)?;
                let mut ok: Option<Type> = None;
                match &ty.kind {
                    TypeKind::Path(path, args) => {
                        if path.len() == 0 {
                            return None;
                        }
                        let last = path[path.len() - 1].as_str();
                        if str_eq(last, "Result") && args.len() == 2 {
                            ok = Some(copy_type(&args[0]));
                        } else if str_eq(last, "Option") && args.len() == 1 {
                            ok = Some(copy_type(&args[0]));
                        }
                    },
                    _ => {},
                }
                if ok.is_some() {
                    return ok;
                }
                let mut msg: Vec<char> = Vec::new();
                append_str(&mut msg, "operator ? cannot be applied to type `");
                append_chars(&mut msg, &kind_text(&ty));
                append_str(&mut msg, "`");
                self.error("E0129", msg, expr.span);
                None
            },
            ExprKind::Index(receiver, index) => {
                let rx_ty = self.check_expr(receiver)?;
                let idx_ty = self.check_expr(index)?;
                let elem_ty = match rx_ty.kind {
                    TypeKind::Slice(inner) => *inner,
                    kind => {
                        let t = Type { kind, span: rx_ty.span };
                        let mut msg: Vec<char> = Vec::new();
                        append_str(&mut msg, "cannot index into non-slice type `");
                        append_chars(&mut msg, &kind_text(&t));
                        append_str(&mut msg, "`");
                        self.error("E0130", msg, receiver.span);
                        return None;
                    },
                };
                let is_integer = match &idx_ty.kind {
                    TypeKind::Path(path, _) => {
                        if path.len() == 1 {
                            let n = path[0].as_str();
                            str_eq(n, "i32") || str_eq(n, "i64") || str_eq(n, "usize") || str_eq(n, "u32") || str_eq(n, "u64")
                                || str_eq(n, "i16") || str_eq(n, "u16") || str_eq(n, "i8") || str_eq(n, "u8")
                        } else {
                            false
                        }
                    },
                    _ => false,
                };
                if !is_integer {
                    let mut msg: Vec<char> = Vec::new();
                    append_str(&mut msg, "slice index must be an integer, found `");
                    append_chars(&mut msg, &kind_text(&idx_ty));
                    append_str(&mut msg, "`");
                    self.error("E0131", msg, index.span);
                }
                Some(elem_ty)
            },
        }
    }
}

fn all_paths_nonempty(v: &Vec<Type>) -> (r: bool)
    ensures
        r == paths_nonempty(tys_view(v@)),
{
    proof { lemma_tys_view(v@); }
    let mut i: usize = 0;
    while i < v.len()
        invariant
            i <= v.len(),
            tys_view(v@).len() == v@.len(),
            forall|j: int| 0 <= j < v@.len() ==> #[trigger] tys_view(v@)[j] == ty_view(v@[j]),
            forall|j: int| 0 <= j < i ==> (#[trigger] tys_view(v@)[j]).kind is Path ==> tys_view(v@)[j].kind->Path_0.len() > 0,
        decreases v.len() - i,
    {
        match &v[i].kind {
            TypeKind::Path(p, _) => {
                if p.len() == 0 {
                    assert(tys_view(v@)[i as int].kind->Path_0.len() == 0);
                    return false;
                }
            },
            _ => {},
        }
        i = i + 1;
    }
    true
}

impl TypeChecker {
    /// Checks a use of a variable (or of a function as a value).
    fn check_ident(&mut self, expr: &Expr, name: &String) -> (r: Option<Type>)
        requires
            expr.kind == ExprKind::Ident(*name),
        ensures
            final(self).keeps(old(self)),
            final(self).specialized_items == old(self).specialized_items,
            final(self).scopes == old(self).scopes,
            final(self).active_borrows == old(self).active_borrows,
            initialized_var(old(self).scopes@, *expr) ==> *final(self) == *old(self),
            ({
                let file = old(self).filename@;
                let before = old(self).diagnostics@;
                let after = final(self).diagnostics@;
                match lookup(old(self).scopes@, name@) {
                    Some((i, k)) => {
                        let b = old(self).scopes@[i]@[k];
                        &&& r matches Some(t) && t@ == b.ty@
                        &&& match b.state {
                            VarState::Initialized => after == before,
                            VarState::Uninitialized => one_more(before, after) && is_error(after.last(), file, "E0108"@,
                                "use of possibly uninitialized variable `"@ + name@ + "`"@, expr.span),
                            VarState::Moved(at) => one_more(before, after) && is_moved_error(after.last(), file, name@, expr.span, at),
                        }
                    },
                    None => if find_fn(old(self).functions@, name@) >= 0 {
                        &&& r matches Some(t) && t@ == fn_value_type(expr.span)
                        &&& after == before
                    } else {
                        &&& r is None
                        &&& one_more(before, after)
                        &&& is_error(after.last(), file, "E0109"@, "cannot find value `"@ + name@ + "` in this scope"@, expr.span)
                    },
                }
            }),
    {
        proof { lemma_find_fn(self.functions@, name@); }
        match self.lookup_var(name.as_str()) {
            Some((i, k)) => {
                let ty = copy_type(&self.scopes[i][k].ty);
                let state = self.scopes[i][k].state;
                match state {
                    VarState::Uninitialized => {
                        let mut msg: Vec<char> = Vec::new();
                        append_str(&mut msg, "use of possibly uninitialized variable `");
                        append_chars(&mut msg, &chars_of(name.as_str()));
                        append_str(&mut msg, "`");
                        self.error("E0108", msg, expr.span);
                    },
                    VarState::Moved(move_span) => {
                        let mut msg: Vec<char> = Vec::new();
                        append_str(&mut msg, "use of moved value `");
                        append_chars(&mut msg, &chars_of(name.as_str()));
                        append_str(&mut msg, "`");
                        let mut note: Vec<char> = Vec::new();
                        append_str(&mut note, "`");
                        append_chars(&mut note, &chars_of(name.as_str()));
                        append_str(&mut note, "` was moved here");
                        let mut notes: Vec<Note> = Vec::new();
                        notes.push(Note { message: string_of(&note), span: Some(move_span) });
                        let d = Diagnostic {
                            code: owned("E0203"),
                            severity: owned("error"),
                            message: string_of(&msg),
                            file: self.filename.clone(),
                            span: expr.span,
                            notes,
                            suggested_fix: None,
                        };
                        self.diagnostics.push(d);
                    },
                    VarState::Initialized => {},
                }
                Some(ty)
            },
            None => {
                match self.find_function(name.as_str()) {
                    Some(_) => {
                        let inner = make_named_type("u8", expr.span);
                        Some(Type { kind: TypeKind::RawPtr(Box::new(inner)), span: expr.span })
                    },
                    None => {
                        proof {
                            if find_fn(old(self).functions@, name@) >= 0 {
                                assert(self.functions@[find_fn(self.functions@, name@)].0@ == name@);
                            }
                        }
                        let mut msg: Vec<char> = Vec::new();
                        append_str(&mut msg, "cannot find value `");
                        append_chars(&mut msg, &chars_of(name.as_str()));
                        append_str(&mut msg, "` in this scope");
                        self.error("E0109", msg, expr.span);
                        None
                    },
                }
            },
        }
    }

    /// The struct name that a receiver type names (`S` or `&S`); any other
    /// type is reported with `code`.
    fn receiver_name(&mut self, ty: &Type, code: &str, span: Span) -> (r: Option<String>)
        requires
            is_type_code(code@),
        ensures
            match receiver_path(ty@) {
                None => r is None && one_more(old(self).diagnostics@, final(self).diagnostics@) && is_error(
                    final(self).diagnostics@.last(),
                    old(self).filename@,
                    code@,
                    "receiver is not a struct"@,
                    span,
                ),
                Some(p) => *final(self) == *old(self) && (r is None <==> p.len() == 0) && (r matches Some(n) ==> n@
                    == p.last()),
            },
            final(self).keeps(old(self)),
            final(self).specialized_items == old(self).specialized_items,
            final(self).specializations_left == old(self).specializations_left,
    {
        let path = match &ty.kind {
            TypeKind::Path(path, _) => path,
            TypeKind::Ref(inner) => match &inner.kind {
                TypeKind::Path(path, _) => path,
                _ => {
                    let mut msg: Vec<char> = Vec::new();
                    append_str(&mut msg, "receiver is not a struct");
                    self.error(code, msg, span);
                    proof {
                        assert(ty@.kind == TypeKindV::Ref(Box::new(ty_view(**inner))));
                        assert(ty_view(**inner).kind == crate::ast::ty_kind_view(inner.kind));
                        lemma_one_more(old(self).diagnostics@, self.diagnostics@);
                    }
                    return None;
                },
            },
            _ => {
                let mut msg: Vec<char> = Vec::new();
                append_str(&mut msg, "receiver is not a struct");
                self.error(code, msg, span);
                proof {
                    lemma_one_more(old(self).diagnostics@, self.diagnostics@);
                }
                return None;
            },
        };
        if path.len() == 0 {
            return None;
        }
        Some(path[path.len() - 1].clone())
    }

    /// Binds the variables of a match pattern, with an unknown (`any`) type.
    fn bind_pattern(&mut self, pattern: &Pattern)
        ensures
            pattern is Ident ==> {
                let name = pattern->Ident_0@;
                let zero = Span { start_line: 0, start_col: 0, end_line: 0, end_col: 0 };
                &&& old(self).scopes@.len() == 0 ==> *final(self) == *old(self)
                &&& old(self).scopes@.len() > 0 && find_binding(old(self).scopes@.last()@, name) >= 0 ==> {
                    &&& final(self).scopes == old(self).scopes
                    &&& final(self).diagnostics@.len() == old(self).diagnostics@.len() + 1
                    &&& is_error(final(self).diagnostics@.last(), old(self).filename@, "E0101"@,
                        "redefinition of local variable `"@ + name + "`"@, zero)
                }
                &&& old(self).scopes@.len() > 0 && find_binding(old(self).scopes@.last()@, name) < 0 ==> {
                    &&& final(self).diagnostics == old(self).diagnostics
                    &&& final(self).scopes@.drop_last() == old(self).scopes@.drop_last()
                    &&& final(self).scopes@.last()@.drop_last() == old(self).scopes@.last()@
                    &&& final(self).scopes@.last()@.last().name@ == name
                    &&& final(self).scopes@.last()@.last().ty@ == named_type("any"@, zero)
                    &&& final(self).scopes@.last()@.last().state == VarState::Initialized
                    &&& !final(self).scopes@.last()@.last().is_mut
                }
            },
            !(pattern is Ident || pattern is EnumVariant) ==> *final(self) == *old(self),
            binds_only_innermost(old(self).scopes@, final(self).scopes@),
            final(self).keeps(old(self)),
            final(self).specialized_items == old(self).specialized_items,
            final(self).specializations_left == old(self).specializations_left,
            final(self).scopes@.len() == old(self).scopes@.len(),
            final(self).active_borrows == old(self).active_borrows,
        decreases pattern,
    {
        match pattern {
            Pattern::Ident(name) => {
                let any_ty = make_named_type("any", Span::new(0, 0, 0, 0));
                self.declare_var(name.clone(), any_ty, VarState::Initialized, false, Span::new(0, 0, 0, 0));
                proof {
                    if old(self).scopes@.len() > 0 {
                        let (o, n) = (old(self).scopes@, self.scopes@);
                        if find_binding(o.last()@, name@) >= 0 {
                            assert(n.last()@.subrange(0, o.last()@.len() as int) =~= o.last()@);
                        } else {
                            assert(n.last()@.subrange(0, o.last()@.len() as int) =~= n.last()@.drop_last());
                        }
                    }
                }
            },
            Pattern::EnumVariant(_, subpatterns) => {
                proof {
                    if self.scopes@.len() > 0 {
                        assert(self.scopes@.last()@.subrange(0, self.scopes@.last()@.len() as int) =~= self.scopes@.last()@);
                    }
                }
                let mut i: usize = 0;
                while i < subpatterns.len()
                    invariant
                        i <= subpatterns.len(),
                        *pattern == Pattern::EnumVariant(pattern->EnumVariant_0, *subpatterns),
                        self.keeps(old(self)),
                        self.specialized_items == old(self).specialized_items,
                        self.specializations_left == old(self).specializations_left,
                        self.scopes@.len() == old(self).scopes@.len(),
                        self.active_borrows == old(self).active_borrows,
                        binds_only_innermost(old(self).scopes@, self.scopes@),
                    decreases subpatterns.len() - i,
                {
                    proof {
                        broadcast use vstd::std_specs::vec::axiom_vec_index_decreases;
                        assert(pattern->EnumVariant_1 == *subpatterns);
                        assert(decreases_to!(*pattern => pattern->EnumVariant_1));
                        assert(decreases_to!(*subpatterns => subpatterns[i as int]));
                    }
                    let ghost before = self.scopes@;
                    self.bind_pattern(&subpatterns[i]);
                    proof {
                        lemma_binds_only_innermost_trans(old(self).scopes@, before, self.scopes@);
                    }
                    i = i + 1;
                }
            },
            _ => {},
        }
    }

    /// Checks an `else` branch: a block, or an `else if` checked as an `if`.
    fn check_else(&mut self, eb: &BlockOrIf)
        ensures
            match *eb {
                BlockOrIf::Block(b) => block_opening(old(self).in_raw_block, old(self).ret_ty(), b) matches Some(o)
                    ==> leads_with(old(self).diagnostics@, final(self).diagnostics@, old(self).filename@, o),
                BlockOrIf::If(cond, _, _) => cond.kind is Lit ==> {
                    let found = lit_type(lit_view(cond.kind->Lit_0), cond.span);
                    !types_eq(old(self).in_raw_block, found, named_type("bool"@, cond.span)) ==> leads_with(
                        old(self).diagnostics@,
                        final(self).diagnostics@,
                        old(self).filename@,
                        ("E0128"@, "if condition must be bool, found `"@ + debug_type_kind(found.kind) + "`"@, cond.span),
                    )
                },
            },
            final(self).keeps(old(self)),
            old(self).specialized_items@.len() <= final(self).specialized_items@.len(),
        decreases old(self).specializations_left, eb, 0int,
    {
        match eb {
            BlockOrIf::Block(b) => self.check_block(b),
            BlockOrIf::If(cond, then_branch, rest) => {
                let cond_ty = match self.check_expr(cond) {
                    Some(t) => t,
                    None => return,
                };
                let bool_ty = make_named_type("bool", cond.span);
                if !self.types_equal(&cond_ty, &bool_ty) {
                    let mut msg: Vec<char> = Vec::new();
                    append_str(&mut msg, "if condition must be bool, found `");
                    append_chars(&mut msg, &kind_text(&cond_ty));
                    append_str(&mut msg, "`");
                    self.error("E0128", msg, cond.span);
                }
                self.check_block(then_branch);
                match rest {
                    Some(r) => self.check_else(r),
                    None => {},
                }
            },
        }
    }

    /// Checks a method call `receiver.method(args)` against the method
    /// registered for the receiver's struct.
    fn check_method_call(&mut self, expr: &Expr) -> (r: Option<Type>)
        ensures
            method_call_facts(*old(self), *final(self), *expr, r),
            final(self).keeps(old(self)),
            old(self).specialized_items@.len() <= final(self).specialized_items@.len(),
        decreases old(self).specializations_left, expr, 1int,
    {
        let (receiver, method_name, args) = match &expr.kind {
            ExprKind::MethodCall(receiver, method_name, args) => (receiver, method_name, args),
            _ => return None,
        };
        let receiver_ty = self.check_expr(receiver)?;
        let struct_name = self.receiver_name(&receiver_ty, "E0115", expr.span)?;
        let mut key: Vec<char> = chars_of(struct_name.as_str());
        append_str(&mut key, "::");
        append_chars(&mut key, &chars_of(method_name.as_str()));
        let key_s = string_of(&key);
        match self.find_function(key_s.as_str()) {
            Some(fi) => {
                let method = copy_fn(&self.functions[fi].1);
                if method.params.len() == 0 || !str_eq(method.params[0].name.as_str(), "self") {
                    let mut msg: Vec<char> = Vec::new();
                    append_str(&mut msg, "method `");
                    append_chars(&mut msg, &chars_of(method_name.as_str()));
                    append_str(&mut msg, "` has no `self` parameter");
                    self.error("E0116", msg, expr.span);
                    return None;
                }
                if args.len() != method.params.len() - 1 {
                    let mut msg: Vec<char> = Vec::new();
                    append_str(&mut msg, "method `");
                    append_chars(&mut msg, &chars_of(method_name.as_str()));
                    append_str(&mut msg, "` expected ");
                    append_chars(&mut msg, &decimal_usize(method.params.len() - 1));
                    append_str(&mut msg, " arguments, found ");
                    append_chars(&mut msg, &decimal_usize(args.len()));
                    self.error("E0117", msg, expr.span);
                    return None;
                }
                let mut i: usize = 0;
                while i < args.len()
                    invariant
                        i <= args.len(),
                        args.len() == method.params.len() - 1,
                        expr.kind == ExprKind::MethodCall(*receiver, *method_name, *args),
                        method_call_reaches_args(*old(self), *expr),
                        self.keeps(old(self)),
                        old(self).specialized_items@.len() <= self.specialized_items@.len(),
                    decreases args.len() - i,
                {
                    proof {
                        broadcast use vstd::std_specs::vec::axiom_vec_index_decreases;
                        assert(decreases_to!(*expr => expr.kind));
                        assert(expr.kind->MethodCall_2 == *args);
                        assert(decreases_to!(expr.kind => expr.kind->MethodCall_2));
                        assert(decreases_to!(*args => args[i as int]));
                    }
                    let arg = &args[i];
                    let arg_ty = self.check_expr(arg)?;
                    let param_ty = &method.params[i + 1].ty;
                    if !self.types_equal(&arg_ty, param_ty) {
                        let mut msg: Vec<char> = Vec::new();
                        append_str(&mut msg, "mismatched types in method call: expected `");
                        append_chars(&mut msg, &kind_text(param_ty));
                        append_str(&mut msg, "`, found `");
                        append_chars(&mut msg, &kind_text(&arg_ty));
                        append_str(&mut msg, "`");
                        self.error("E0118", msg, arg.span);
                    }
                    i = i + 1;
                }
                copy_opt_type(&method.ret_ty)
            },
            None => {
                let mut msg: Vec<char> = Vec::new();
                append_str(&mut msg, "no method `");
                append_chars(&mut msg, &chars_of(method_name.as_str()));
                append_str(&mut msg, "` on type `");
                append_chars(&mut msg, &chars_of(struct_name.as_str()));
                append_str(&mut msg, "`");
                self.error("E0116", msg, expr.span);
                None
            },
        }
    }

    /// Checks a struct literal against the struct's declared fields.
    fn check_struct_init(&mut self, expr: &Expr) -> (r: Option<Type>)
        ensures
            expr.kind matches ExprKind::StructInit(path, fields) ==> {
                let p = strs_view(path@);
                let ty = TypeV { kind: TypeKindV::Path(p, Seq::empty()), span: expr.span };
                if p.len() == 0 {
                    r is None && *final(self) == *old(self)
                } else if struct_index(old(self).structs@, p.last()) < 0 {
                    &&& r is None
                    &&& one_more(old(self).diagnostics@, final(self).diagnostics@)
                    &&& is_error(final(self).diagnostics@.last(), old(self).filename@, "E0110"@,
                        "cannot find struct `"@ + p.last() + "` in this scope"@, expr.span)
                } else {
                    &&& r matches Some(t) ==> t@ == ty
                    &&& fields@.len() == 0 ==> r is Some
                }
            },
            final(self).keeps(old(self)),
            old(self).specialized_items@.len() <= final(self).specialized_items@.len(),
        decreases old(self).specializations_left, expr, 1int,
    {
        let (path, fields) = match &expr.kind {
            ExprKind::StructInit(path, fields) => (path, fields),
            _ => return None,
        };
        if path.len() == 0 {
            return None;
        }
        let struct_name = &path[path.len() - 1];
        proof {
            assert(strs_view(path@).last() == struct_name@);
        }
        match self.find_struct_index(struct_name.as_str()) {
            Some(si) => {
                let s = copy_struct(&self.structs[si]);
                let mut initialized: Vec<String> = Vec::new();
                let mut i: usize = 0;
                while i < fields.len()
                    invariant
                        i <= fields.len(),
                        expr.kind == ExprKind::StructInit(*path, *fields),
                        path@.len() > 0,
                        struct_index(old(self).structs@, strs_view(path@).last()) >= 0,
                        self.keeps(old(self)),
                        old(self).specialized_items@.len() <= self.specialized_items@.len(),
                    decreases fields.len() - i,
                {
                    proof {
                        broadcast use vstd::std_specs::vec::axiom_vec_index_decreases;
                        assert(decreases_to!(*expr => expr.kind));
                        assert(expr.kind->StructInit_1 == *fields);
                        assert(decreases_to!(expr.kind => expr.kind->StructInit_1));
                        assert(decreases_to!(*fields => fields[i as int]));
                        assert(decreases_to!(fields[i as int] => fields[i as int].1));
                    }
                    let f_name = &fields[i].0;
                    let f_val = &fields[i].1;
                    initialized.push(f_name.clone());
                    let val_ty = self.check_expr(f_val)?;
                    let mut found: Option<usize> = None;
                    let mut j: usize = 0;
                    while j < s.fields.len()
                        invariant
                            j <= s.fields@.len(),
                        decreases s.fields@.len() - j,
                    {
                        if s.fields[j].name == *f_name {
                            found = Some(j);
                            break;
                        }
                        j = j + 1;
                    }
                    match found {
                        Some(j) => {
                            if j < s.fields.len() && !self.types_equal(&val_ty, &s.fields[j].ty) {
                                let mut msg: Vec<char> = Vec::new();
                                append_str(&mut msg, "mismatched field type for `");
                                append_chars(&mut msg, &chars_of(f_name.as_str()));
                                append_str(&mut msg, "`: expected `");
                                append_chars(&mut msg, &kind_text(&s.fields[j].ty));
                                append_str(&mut msg, "`, found `");
                                append_chars(&mut msg, &kind_text(&val_ty));
                                append_str(&mut msg, "`");
                                self.error("E0124", msg, f_val.span);
                            }
                        },
                        None => {
                            let mut msg: Vec<char> = Vec::new();
                            append_str(&mut msg, "struct `");
                            append_chars(&mut msg, &chars_of(struct_name.as_str()));
                            append_str(&mut msg, "` has no field `");
                            append_chars(&mut msg, &chars_of(f_name.as_str()));
                            append_str(&mut msg, "`");
                            self.error("E0125", msg, f_val.span);
                        },
                    }
                    i = i + 1;
                }
                let mut j: usize = 0;
                while j < s.fields.len()
                    invariant
                        j <= s.fields@.len(),
                        self.keeps(old(self)),
                        old(self).specialized_items@.len() <= self.specialized_items@.len(),
                    decreases s.fields@.len() - j,
                {
                    let expected = &s.fields[j];
                    let mut present = false;
                    let mut k: usize = 0;
                    while k < initialized.len()
                        invariant
                            k <= initialized@.len(),
                        decreases initialized@.len() - k,
                    {
                        if initialized[k] == expected.name {
                            present = true;
                        }
                        k = k + 1;
                    }
                    if !present {
                        let mut msg: Vec<char> = Vec::new();
                        append_str(&mut msg, "missing field `");
                        append_chars(&mut msg, &chars_of(expected.name.as_str()));
                        append_str(&mut msg, "` in struct initializer");
                        self.error("E0126", msg, expr.span);
                    }
                    j = j + 1;
                }
                let no_args: Vec<Type> = Vec::new();
                let p2 = copy_strings(path);
                proof {
                    assert(tys_view(no_args@) =~= Seq::<TypeV>::empty());
                    assert(strs_view(p2@) == strs_view(path@));
                }
                let t = Type { kind: TypeKind::Path(p2, no_args), span: expr.span };
                Some(t)
            },
            None => {
                let mut msg: Vec<char> = Vec::new();
                append_str(&mut msg, "cannot find struct `");
                append_chars(&mut msg, &chars_of(struct_name.as_str()));
                append_str(&mut msg, "` in this scope");
                self.error("E0110", msg, expr.span);
                proof {
                    lemma_one_more(old(self).diagnostics@, self.diagnostics@);
                }
                None
            },
        }
    }
}

impl TypeChecker {
    /// Checks each argument, only for what checking them reports.
    fn check_args(&mut self, expr: &Expr, args: &Vec<Expr>)
        requires
            expr.kind is Call && expr.kind->Call_1 == *args,
        ensures
            final(self).keeps(old(self)),
            old(self).specialized_items@.len() <= final(self).specialized_items@.len(),
            (args@.len() > 0 && unknown_name(old(self).scopes@, old(self).functions@, args@[0])) ==> leads_with(
                old(self).diagnostics@,
                final(self).diagnostics@,
                old(self).filename@,
                (
                    "E0109"@,
                    "cannot find value `"@ + args@[0].kind->Ident_0@ + "` in this scope"@,
                    args@[0].span,
                ),
            ),
        decreases old(self).specializations_left, expr, 0int,
    {
        let mut i: usize = 0;
        while i < args.len()
            invariant
                i <= args.len(),
                expr.kind is Call && expr.kind->Call_1 == *args,
                i == 0 ==> *self == *old(self),
                i > 0 ==> (unknown_name(old(self).scopes@, old(self).functions@, args@[0]) ==> leads_with(
                    old(self).diagnostics@,
                    self.diagnostics@,
                    old(self).filename@,
                    (
                        "E0109"@,
                        "cannot find value `"@ + args@[0].kind->Ident_0@ + "` in this scope"@,
                        args@[0].span,
                    ),
                )),
                self.keeps(old(self)),
                old(self).specialized_items@.len() <= self.specialized_items@.len(),
            decreases args.len() - i,
        {
            proof {
                broadcast use vstd::std_specs::vec::axiom_vec_index_decreases;
                assert(decreases_to!(*expr => expr.kind));
                assert(decreases_to!(expr.kind => expr.kind->Call_1));
                assert(decreases_to!(*args => args[i as int]));
            }
            let _ = self.check_expr(&args[i]);
            i = i + 1;
        }
    }

    /// The specialisation of the generic function `func` for a call:
    /// infers its arguments from the call's argument types, records the
    /// specialisation for the call, and checks the specialised function the
    /// first time its name is made.  `None` where an argument fails to check,
    /// where an inferred argument is a path type without segments (which the
    /// parser never builds), or where the specialisation budget is spent.
    fn specialize_call(&mut self, expr: &Expr, args: &Vec<Expr>, func: &FnDecl) -> (r: Option<FnDecl>)
        requires
            expr.kind is Call && expr.kind->Call_1 == *args,
        ensures
            r matches Some(f) ==> exists|targs: Seq<TypeV>| #[trigger]
                registered_as(final(self).functions@, specialized_name(func@.name, targs), f),
            final(self).keeps(old(self)),
            old(self).specialized_items@.len() <= final(self).specialized_items@.len(),
        decreases old(self).specializations_left, expr, 0int,
    {
        let mut arg_tys: Vec<Type> = Vec::new();
        let mut i: usize = 0;
        while i < args.len()
            invariant
                i <= args.len(),
                expr.kind is Call && expr.kind->Call_1 == *args,
                self.keeps(old(self)),
                old(self).specialized_items@.len() <= self.specialized_items@.len(),
            decreases args.len() - i,
        {
            proof {
                broadcast use vstd::std_specs::vec::axiom_vec_index_decreases;
                assert(decreases_to!(*expr => expr.kind));
                assert(decreases_to!(expr.kind => expr.kind->Call_1));
                assert(decreases_to!(*args => args[i as int]));
            }
            match self.check_expr(&args[i]) {
                Some(t) => arg_tys.push(t),
                None => return None,
            }
            i = i + 1;
        }
        let mut param_tys: Vec<Type> = Vec::new();
        let mut j: usize = 0;
        while j < func.params.len()
            invariant
                j <= func.params.len(),
            decreases func.params.len() - j,
        {
            param_tys.push(copy_type(&func.params[j].ty));
            j = j + 1;
        }
        let concrete = match self.infer_generic_args(func.generic_params.as_slice(), &param_tys, &arg_tys) {
            Some(c) => c,
            None => {
                let mut msg: Vec<char> = Vec::new();
                append_str(&mut msg, "cannot infer generic type of `");
                append_chars(&mut msg, &chars_of(func.name.as_str()));
                append_str(&mut msg, "`");
                self.error("E0122", msg, expr.span);
                return None;
            },
        };
        proof { lemma_tys_view(concrete@); }
        if !all_paths_nonempty(&concrete) {
            return None;
        }
        let spec_f = self.specialize_fn(func, concrete.as_slice());
        let spec_name = spec_f.name.clone();
        self.record_call(expr.span, spec_name.clone());
        if self.find_function(spec_name.as_str()).is_none() {
            if self.specializations_left == 0 {
                return None;
            }
            self.specializations_left = self.specializations_left - 1;
            self.insert_fn(spec_name.clone(), copy_fn(&spec_f));
            self.specialized_items.push(Item::Fn(copy_fn(&spec_f)));
            self.check_fn(&spec_f);
        }
        match self.find_function(spec_name.as_str()) {
            Some(si) => {
                let f = copy_fn(&self.functions[si].1);
                proof {
                    assert(registered_as(self.functions@, specialized_name(func@.name, tys_view(concrete@)), f));
                }
                Some(f)
            },
            None => None,
        }
    }

    /// Checks a call: built-in names first (`spawn` outside `raw` blocks may
    /// not take references; `print`, `sqrt`, `Ok`, `Err`, `Some`, `None`),
    /// then a registered function, specialised first where it is generic.
    fn check_call(&mut self, expr: &Expr) -> (r: Option<Type>)
        ensures
            final(self).keeps(old(self)),
            old(self).specialized_items@.len() <= final(self).specialized_items@.len(),
            call_facts(*old(self), *final(self), *expr, r),
        decreases old(self).specializations_left, expr, 1int,
    {
        let (callee, args) = match &expr.kind {
            ExprKind::Call(callee, args) => (callee, args),
            _ => return None,
        };
        let func_name: String = match &callee.kind {
            ExprKind::Ident(name) => name.clone(),
            ExprKind::Path(path) => join_path_exec(path),
            _ => {
                let mut msg: Vec<char> = Vec::new();
                append_str(&mut msg, "callee is not a function");
                self.error("E0120", msg, callee.span);
                return None;
            },
        };
        let fname = func_name.as_str();
        if str_eq(fname, "spawn") && !self.in_raw_block {
            let mut i: usize = 0;
            while i < args.len()
                invariant
                    i <= args.len(),
                    expr.kind == ExprKind::Call(*callee, *args),
                    self.keeps(old(self)),
                    old(self).specialized_items@.len() <= self.specialized_items@.len(),
                decreases args.len() - i,
            {
                proof {
                    broadcast use vstd::std_specs::vec::axiom_vec_index_decreases;
                    assert(decreases_to!(*expr => expr.kind));
                    assert(expr.kind->Call_1 == *args);
                    assert(decreases_to!(expr.kind => expr.kind->Call_1));
                    assert(decreases_to!(*args => args[i as int]));
                }
                match self.check_expr(&args[i]) {
                    Some(arg_ty) => {
                        match arg_ty.kind {
                            TypeKind::Ref(_) => {
                                let mut msg: Vec<char> = Vec::new();
                                append_str(&mut msg, "cannot pass reference as thread argument in safe code");
                                self.error("E0205", msg, args[i].span);
                            },
                            _ => {},
                        }
                    },
                    None => {},
                }
                i = i + 1;
            }
        }
        if str_eq(fname, "print") || str_eq(fname, "sqrt") {
            self.check_args(expr, args);
            if str_eq(fname, "sqrt") {
                return Some(make_named_type("f64", expr.span));
            }
            return None;
        }
        if str_eq(fname, "Ok") || str_eq(fname, "Err") || str_eq(fname, "Some") || str_eq(fname, "None") {
            self.check_args(expr, args);
            return copy_opt_type(&self.current_ret_ty);
        }
        match self.find_function(fname) {
            Some(fi) => {
                let func = copy_fn(&self.functions[fi].1);
                let active = if func.generic_params.len() > 0 {
                    match self.specialize_call(expr, args, &func) {
                        Some(f) => f,
                        None => return None,
                    }
                } else {
                    func
                };
                proof {
                    if !is_special_call(func_name@) {
                        assert(func@ == old(self).functions@[fi as int].1@);
                    }
                }
                if args.len() != active.params.len() {
                    let mut msg: Vec<char> = Vec::new();
                    append_str(&mut msg, "function `");
                    append_chars(&mut msg, &chars_of(active.name.as_str()));
                    append_str(&mut msg, "` expected ");
                    append_chars(&mut msg, &decimal_usize(active.params.len()));
                    append_str(&mut msg, " arguments, found ");
                    append_chars(&mut msg, &decimal_usize(args.len()));
                    self.error("E0117", msg, expr.span);
                    return None;
                }
                let mut i: usize = 0;
                while i < args.len()
                    invariant
                        i <= args.len(),
                        args.len() == active.params.len(),
                        expr.kind == ExprKind::Call(*callee, *args),
                        callee_name(**callee) == Some(func_name@),
                        !is_special_call(func_name@) ==> fi == find_fn(old(self).functions@, func_name@) && (old(
                            self,
                        ).functions@[fi as int].1@.generic_params.len() == 0 ==> args@.len() == old(
                            self,
                        ).functions@[fi as int].1@.params.len()),
                        self.keeps(old(self)),
                        old(self).specialized_items@.len() <= self.specialized_items@.len(),
                    decreases args.len() - i,
                {
                    proof {
                        broadcast use vstd::std_specs::vec::axiom_vec_index_decreases;
                        assert(decreases_to!(*expr => expr.kind));
                        assert(expr.kind->Call_1 == *args);
                        assert(decreases_to!(expr.kind => expr.kind->Call_1));
                        assert(decreases_to!(*args => args[i as int]));
                    }
                    let arg = &args[i];
                    let arg_ty = self.check_expr(arg)?;
                    let param_ty = &active.params[i].ty;
                    if !self.types_equal(&arg_ty, param_ty) {
                        let mut msg: Vec<char> = Vec::new();
                        append_str(&mut msg, "mismatched types in function call: expected `");
                        append_chars(&mut msg, &kind_text(param_ty));
                        append_str(&mut msg, "`, found `");
                        append_chars(&mut msg, &kind_text(&arg_ty));
                        append_str(&mut msg, "`");
                        self.error("E0118", msg, arg.span);
                    }
                    i = i + 1;
                }
                copy_opt_type(&active.ret_ty)
            },
            None => {
                let mut msg: Vec<char> = Vec::new();
                append_str(&mut msg, "cannot find function `");
                append_chars(&mut msg, &chars_of(fname));
                append_str(&mut msg, "` in this scope");
                self.error("E0123", msg, expr.span);
                None
            },
        }
    }
}

} // verus!
