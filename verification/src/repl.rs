//! The decisions of the interactive C* session: which program to compile for
//! an input line, and what the session keeps.

use vstd::prelude::*;
use crate::text::{
    append_chars, append_str, chars_of, contains, seq_contains, seq_starts_with, spec_trim, starts_with, string_of,
    trim,
};

verus! {

/// Declarations, each followed by a blank line.
pub open spec fn decl_lines(decls: Seq<Seq<char>>) -> Seq<char>
    decreases decls.len(),
{
    if decls.len() == 0 {
        Seq::empty()
    } else {
        decl_lines(decls.drop_last()) + decls.last() + "\n\n"@
    }
}

/// Statements, each on a line indented by four spaces.
pub open spec fn stmt_lines(stmts: Seq<Seq<char>>) -> Seq<char>
    decreases stmts.len(),
{
    if stmts.len() == 0 {
        Seq::empty()
    } else {
        stmt_lines(stmts.drop_last()) + "    "@ + stmts.last() + "\n"@
    }
}

/// The program of a session: `module main`, the declarations, and a `main`
/// that runs the statements, then the current expression if any, and
/// returns 0.
pub open spec fn cstar_program(decls: Seq<Seq<char>>, stmts: Seq<Seq<char>>, expr: Option<Seq<char>>) -> Seq<char> {
    "module main\n\n"@ + decl_lines(decls) + "fn main() -> i32 {\n"@ + stmt_lines(stmts) + (match expr {
        Some(e) => "    "@ + e + "\n"@,
        None => Seq::empty(),
    }) + "    return 0\n}\n"@
}

pub open spec fn strings_view(s: Seq<String>) -> Seq<Seq<char>> {
    s.map_values(|x: String| x@)
}

/// Builds the program of a session (see `cstar_program`).
pub fn build_cstar_code(decls: &[String], stmts: &[String], current_expr: Option<&str>) -> (r: String)
    ensures
        r@ == cstar_program(
            strings_view(decls@),
            strings_view(stmts@),
            match current_expr {
                Some(e) => Some(e@),
                None => None,
            },
        ),
{
    let ghost dv = strings_view(decls@);
    let ghost sv = strings_view(stmts@);
    let mut code: Vec<char> = Vec::new();
    append_str(&mut code, "module main\n\n");
    let ghost start = code@;
    let mut i: usize = 0;
    while i < decls.len()
        invariant
            i <= decls@.len(),
            dv == strings_view(decls@),
            code@ == start + decl_lines(dv.subrange(0, i as int)),
        decreases decls@.len() - i,
    {
        append_chars(&mut code, &chars_of(decls[i].as_str()));
        append_str(&mut code, "\n\n");
        proof {
            assert(dv.subrange(0, i + 1).drop_last() =~= dv.subrange(0, i as int));
            assert(dv.subrange(0, i + 1).last() == decls@[i as int]@);
        }
        i = i + 1;
    }
    assert(dv.subrange(0, decls@.len() as int) =~= dv);
    append_str(&mut code, "fn main() -> i32 {\n");
    let ghost mid = code@;
    let mut j: usize = 0;
    while j < stmts.len()
        invariant
            j <= stmts@.len(),
            sv == strings_view(stmts@),
            code@ == mid + stmt_lines(sv.subrange(0, j as int)),
        decreases stmts@.len() - j,
    {
        append_str(&mut code, "    ");
        append_chars(&mut code, &chars_of(stmts[j].as_str()));
        append_str(&mut code, "\n");
        proof {
            assert(sv.subrange(0, j + 1).drop_last() =~= sv.subrange(0, j as int));
            assert(sv.subrange(0, j + 1).last() == stmts@[j as int]@);
        }
        j = j + 1;
    }
    assert(sv.subrange(0, stmts@.len() as int) =~= sv);
    let ghost before_expr = code@;
    match current_expr {
        Some(expr) => {
            append_str(&mut code, "    ");
            append_chars(&mut code, &chars_of(expr));
            append_str(&mut code, "\n");
        },
        None => {},
    }
    append_str(&mut code, "    return 0\n}\n");
    proof {
        let tail = match current_expr {
            Some(e) => "    "@ + e@ + "\n"@,
            None => Seq::<char>::empty(),
        };
        assert(code@ =~= start + decl_lines(dv) + "fn main() -> i32 {\n"@ + stmt_lines(sv) + tail + "    return 0\n}\n"@);
    }
    string_of(&code)
}

/// Whether a trimmed line starts with `p`.
pub open spec fn trimmed_starts(line: Seq<char>, p: Seq<char>) -> bool {
    seq_starts_with(spec_trim(line), p)
}

/// A line that declares something at the top level: it starts (after
/// trimming) with `fn `, `pub fn `, `struct `, `pub struct `, `enum `,
/// `pub enum `, `impl ` or `use `.
pub open spec fn spec_is_declaration(line: Seq<char>) -> bool {
    trimmed_starts(line, "fn "@) || trimmed_starts(line, "pub fn "@) || trimmed_starts(line, "struct "@)
        || trimmed_starts(line, "pub struct "@) || trimmed_starts(line, "enum "@) || trimmed_starts(line, "pub enum "@)
        || trimmed_starts(line, "impl "@) || trimmed_starts(line, "use "@)
}

/// A line that is a statement: it starts (after trimming) with `let ` or
/// `return `, or holds `=` but none of `==`, `<=`, `>=`, `!=`.
pub open spec fn spec_is_statement(line: Seq<char>) -> bool {
    let t = spec_trim(line);
    seq_starts_with(t, "let "@) || seq_starts_with(t, "return "@) || (seq_contains(t, "="@) && !seq_contains(t, "=="@)
        && !seq_contains(t, "<="@) && !seq_contains(t, ">="@) && !seq_contains(t, "!="@))
}

fn starts_with_str(t: &Vec<char>, p: &str) -> (r: bool)
    ensures
        r == seq_starts_with(t@, p@),
{
    starts_with(t, &chars_of(p))
}

fn contains_str(t: &Vec<char>, p: &str) -> (r: bool)
    ensures
        r == seq_contains(t@, p@),
{
    contains(t, &chars_of(p))
}

/// Whether a line is a top-level declaration (see `spec_is_declaration`).
pub fn is_declaration(line: &str) -> (r: bool)
    ensures
        r == spec_is_declaration(line@),
{
    let t = trim(&chars_of(line));
    starts_with_str(&t, "fn ") || starts_with_str(&t, "pub fn ") || starts_with_str(&t, "struct ")
        || starts_with_str(&t, "pub struct ") || starts_with_str(&t, "enum ") || starts_with_str(&t, "pub enum ")
        || starts_with_str(&t, "impl ") || starts_with_str(&t, "use ")
}

/// Whether a line is a statement (see `spec_is_statement`).
pub fn is_statement(line: &str) -> (r: bool)
    ensures
        r == spec_is_statement(line@),
{
    let t = trim(&chars_of(line));
    starts_with_str(&t, "let ") || starts_with_str(&t, "return ") || (contains_str(&t, "=") && !contains_str(&t, "==")
        && !contains_str(&t, "<=") && !contains_str(&t, ">=") && !contains_str(&t, "!="))
}

/// What an input line asks of the session.
#[derive(Debug)]
pub enum ReplInput {
    /// `exit` or `quit`.
    Quit,
    /// A blank line.
    Blank,
    Declaration(String),
    Statement(String),
    /// Anything else: an expression whose value is printed.
    Expression(String),
}

/// How a line is read: trimmed, then `exit`/`quit`, blank, declaration,
/// statement, or expression, in that order.
pub open spec fn classify(line: Seq<char>, r: ReplInput) -> bool {
    let t = spec_trim(line);
    if t == "exit"@ || t == "quit"@ {
        r is Quit
    } else if t.len() == 0 {
        r is Blank
    } else if spec_is_declaration(t) {
        r matches ReplInput::Declaration(s) && s@ == t
    } else if spec_is_statement(t) {
        r matches ReplInput::Statement(s) && s@ == t
    } else {
        r matches ReplInput::Expression(s) && s@ == t
    }
}

/// Reads an input line (see `classify`).
pub fn classify_input(line: &str) -> (r: ReplInput)
    ensures
        classify(line@, r),
{
    let t = trim(&chars_of(line));
    let ts = string_of(&t);
    if chars_eq_str(&t, "exit") || chars_eq_str(&t, "quit") {
        ReplInput::Quit
    } else if t.len() == 0 {
        ReplInput::Blank
    } else if is_declaration(ts.as_str()) {
        ReplInput::Declaration(ts)
    } else if is_statement(ts.as_str()) {
        ReplInput::Statement(ts)
    } else {
        ReplInput::Expression(ts)
    }
}

fn chars_eq_str(t: &Vec<char>, p: &str) -> (r: bool)
    ensures
        r == (t@ == p@),
{
    crate::text::chars_eq(t, &chars_of(p))
}

/// The declarations and statements that an interactive session has kept.
#[derive(Debug)]
pub struct ReplSession {
    pub decls: Vec<String>,
    pub stmts: Vec<String>,
}

impl ReplSession {
    pub fn new() -> (r: Self)
        ensures
            r.decls@.len() == 0,
            r.stmts@.len() == 0,
    {
        ReplSession { decls: Vec::new(), stmts: Vec::new() }
    }

    /// The program to compile first for an input: the session with a new
    /// declaration or statement added, or with an expression printed; none
    /// for `Quit` and `Blank`.
    pub fn trial_program(&self, input: &ReplInput) -> (r: Option<String>)
        ensures
            match input {
                ReplInput::Declaration(t) => r matches Some(p) && p@ == cstar_program(
                    strings_view(self.decls@).push(t@),
                    strings_view(self.stmts@),
                    None,
                ),
                ReplInput::Statement(t) => r matches Some(p) && p@ == cstar_program(
                    strings_view(self.decls@),
                    strings_view(self.stmts@).push(t@),
                    None,
                ),
                ReplInput::Expression(t) => r matches Some(p) && p@ == cstar_program(
                    strings_view(self.decls@),
                    strings_view(self.stmts@),
                    Some("print("@ + t@ + ")"@),
                ),
                _ => r is None,
            },
    {
        match input {
            ReplInput::Declaration(t) => {
                let mut decls: Vec<String> = clone_all(&self.decls);
                decls.push(t.clone());
                proof { assert(strings_view(decls@) =~= strings_view(self.decls@).push(t@)); }
                Some(build_cstar_code(decls.as_slice(), self.stmts.as_slice(), None))
            },
            ReplInput::Statement(t) => {
                let mut stmts: Vec<String> = clone_all(&self.stmts);
                stmts.push(t.clone());
                proof { assert(strings_view(stmts@) =~= strings_view(self.stmts@).push(t@)); }
                Some(build_cstar_code(self.decls.as_slice(), stmts.as_slice(), None))
            },
            ReplInput::Expression(t) => {
                let mut e: Vec<char> = Vec::new();
                append_str(&mut e, "print(");
                append_chars(&mut e, &chars_of(t.as_str()));
                append_str(&mut e, ")");
                let es = string_of(&e);
                Some(build_cstar_code(self.decls.as_slice(), self.stmts.as_slice(), Some(es.as_str())))
            },
            _ => None,
        }
    }

    /// For an expression whose printed form did not compile: the program
    /// with the expression as a plain statement.
    pub fn fallback_program(&self, input: &ReplInput) -> (r: Option<String>)
        ensures
            match input {
                ReplInput::Expression(t) => r matches Some(p) && p@ == cstar_program(
                    strings_view(self.decls@),
                    strings_view(self.stmts@),
                    Some(t@),
                ),
                _ => r is None,
            },
    {
        match input {
            ReplInput::Expression(t) => Some(
                build_cstar_code(self.decls.as_slice(), self.stmts.as_slice(), Some(t.as_str())),
            ),
            _ => None,
        }
    }

    /// Keeps a declaration or statement whose trial program compiled and ran.
    pub fn commit(&mut self, input: &ReplInput)
        ensures
            match input {
                ReplInput::Declaration(t) => strings_view(final(self).decls@) == strings_view(old(self).decls@).push(t@)
                    && final(self).stmts@ == old(self).stmts@,
                ReplInput::Statement(t) => strings_view(final(self).stmts@) == strings_view(old(self).stmts@).push(t@)
                    && final(self).decls@ == old(self).decls@,
                _ => final(self).decls@ == old(self).decls@ && final(self).stmts@ == old(self).stmts@,
            },
    {
        match input {
            ReplInput::Declaration(t) => {
                self.decls.push(t.clone());
                assert(strings_view(self.decls@) =~= strings_view(old(self).decls@).push(t@));
            },
            ReplInput::Statement(t) => {
                self.stmts.push(t.clone());
                assert(strings_view(self.stmts@) =~= strings_view(old(self).stmts@).push(t@));
            },
            _ => {},
        }
    }
}

fn clone_all(v: &Vec<String>) -> (r: Vec<String>)
    ensures
        r@ == v@,
{
    let mut out: Vec<String> = Vec::new();
    let mut i: usize = 0;
    while i < v.len()
        invariant
            i <= v@.len(),
            out@ == v@.subrange(0, i as int),
        decreases v@.len() - i,
    {
        out.push(v[i].clone());
        i = i + 1;
    }
    out
}

/// What the session tried for a declaration is what it runs from then on:
/// the trial program equals the program of the session after the commit.
pub proof fn lemma_commit_matches_trial(decls: Seq<Seq<char>>, stmts: Seq<Seq<char>>, t: Seq<char>)
    ensures
        cstar_program(decls.push(t), stmts, None) == cstar_program(decls + seq![t], stmts, None),
        decl_lines(decls.push(t)) == decl_lines(decls) + t + "\n\n"@,
{
    assert(decls.push(t) =~= decls + seq![t]);
    assert(decls.push(t).drop_last() =~= decls);
}

/// Every session program starts with the module header and ends with
/// `return 0` and the closing brace of `main`.
pub proof fn lemma_program_frame(decls: Seq<Seq<char>>, stmts: Seq<Seq<char>>, expr: Option<Seq<char>>)
    ensures
        cstar_program(decls, stmts, expr).subrange(0, "module main\n\n"@.len() as int) == "module main\n\n"@,
        cstar_program(decls, stmts, expr).subrange(
            cstar_program(decls, stmts, expr).len() - "    return 0\n}\n"@.len(),
            cstar_program(decls, stmts, expr).len() as int,
        ) == "    return 0\n}\n"@,
{
    let p = cstar_program(decls, stmts, expr);
    let head = "module main\n\n"@;
    let tail = "    return 0\n}\n"@;
    let middle = decl_lines(decls) + "fn main() -> i32 {\n"@ + stmt_lines(stmts) + (match expr {
        Some(e) => "    "@ + e + "\n"@,
        None => Seq::empty(),
    });
    assert(p =~= head + middle + tail);
    assert(p.subrange(0, head.len() as int) =~= head);
    assert(p.subrange(p.len() - tail.len(), p.len() as int) =~= tail);
}

} // verus!
