//! Structured diagnostics and their human-readable rendering.

use vstd::prelude::*;
use crate::text::{append_chars, append_str, chars_of, decimal_usize, lines, owned, push_repeat, spec_decimal, spec_lines, spec_repeat, string_of};

verus! {

/// A source range; lines and columns are 1-indexed.
#[derive(Debug, Clone, Copy, PartialEq, Eq, Hash, Structural)]
pub struct Span {
    pub start_line: usize,
    pub start_col: usize,
    pub end_line: usize,
    pub end_col: usize,
}

impl Span {
    pub fn new(start_line: usize, start_col: usize, end_line: usize, end_col: usize) -> (s: Self)
        ensures
            s.start_line == start_line,
            s.start_col == start_col,
            s.end_line == end_line,
            s.end_col == end_col,
    {
        Span { start_line, start_col, end_line, end_col }
    }
}

#[derive(Debug, Clone)]
pub struct Note {
    pub message: String,
    pub span: Option<Span>,
}

#[derive(Debug, Clone)]
pub struct SuggestedFix {
    pub description: String,
    pub replacement: String,
}

#[derive(Debug, Clone)]
pub struct Diagnostic {
    pub code: String,
    /// `"error"` or `"warning"`.
    pub severity: String,
    pub message: String,
    pub file: String,
    pub span: Span,
    pub notes: Vec<Note>,
    pub suggested_fix: Option<SuggestedFix>,
}

#[derive(Debug, Clone)]
pub struct DiagnosticsReport {
    pub version: String,
    pub diagnostics: Vec<Diagnostic>,
}

/// Calls `str::to_uppercase`; the contract names its result.
pub uninterp spec fn spec_to_uppercase(s: Seq<char>) -> Seq<char>;

#[verifier::external_body]
fn to_uppercase(s: &str) -> (r: String)
    ensures
        r@ == spec_to_uppercase(s@),
{
    s.to_uppercase()
}

/// The source text recorded for `file`: the first entry of the cache that
/// names it.
pub open spec fn spec_lookup(cache: Seq<(String, String)>, file: Seq<char>) -> Option<Seq<char>>
    decreases cache.len(),
{
    if cache.len() == 0 {
        None
    } else if cache[0].0@ == file {
        Some(cache[0].1@)
    } else {
        spec_lookup(cache.drop_first(), file)
    }
}

/// `a - b`, or 0 when `b > a`.
pub open spec fn sat_sub(a: nat, b: nat) -> nat {
    if a >= b { (a - b) as nat } else { 0 }
}

/// Width of the caret marker under the source line.
pub open spec fn caret_width(sp: Span) -> nat {
    if sp.start_line == sp.end_line {
        let w = sat_sub(sp.end_col as nat, sp.start_col as nat);
        if w < 1 { 1 } else { w }
    } else {
        1
    }
}

/// The `" N | "` prefix of a quoted source line.
pub open spec fn gutter(line: nat) -> Seq<char> {
    seq![' '] + spec_decimal(line) + seq![' ', '|', ' ']
}

/// The quoted source line with its caret marker, when the source is known
/// and the span's start line lies inside it.
pub open spec fn source_excerpt(d: Diagnostic, cache: Seq<(String, String)>) -> Seq<char> {
    match spec_lookup(cache, d.file@) {
        None => Seq::empty(),
        Some(src) => {
            let ls = spec_lines(src);
            let n = d.span.start_line as nat;
            if 0 < n && n <= ls.len() {
                let g = gutter(n);
                g + ls[n - 1] + seq!['\n']
                    + spec_repeat(' ', (g.len() - 3) as nat) + seq![' ', '|', ' ']
                    + spec_repeat(' ', sat_sub(d.span.start_col as nat, 1))
                    + spec_repeat('^', caret_width(d.span)) + seq!['\n']
            } else {
                Seq::empty()
            }
        }
    }
}

pub open spec fn render_note(d: Diagnostic, note: Note) -> Seq<char> {
    "  = note: "@ + note.message@ + seq!['\n'] + match note.span {
        Some(sp) => "    at "@ + d.file@ + seq![':'] + spec_decimal(sp.start_line as nat)
            + seq![':'] + spec_decimal(sp.start_col as nat) + seq!['\n'],
        None => Seq::empty(),
    }
}

pub open spec fn render_notes(d: Diagnostic, k: int) -> Seq<char>
    decreases k,
{
    if k <= 0 {
        Seq::empty()
    } else {
        render_notes(d, k - 1) + render_note(d, d.notes@[k - 1])
    }
}

pub open spec fn render_fix(d: Diagnostic) -> Seq<char> {
    match d.suggested_fix {
        Some(fix) => "  = help: "@ + fix.description@ + " -> replace with `"@ + fix.replacement@
            + seq!['`', '\n'],
        None => Seq::empty(),
    }
}

/// The human-readable block of one diagnostic.
pub open spec fn render_diagnostic(d: Diagnostic, cache: Seq<(String, String)>) -> Seq<char> {
    render_labelled(spec_to_uppercase(d.severity@), d, cache)
}

/// The human-readable block of one diagnostic, headed by `label` in place
/// of its severity.
pub open spec fn render_labelled(label: Seq<char>, d: Diagnostic, cache: Seq<(String, String)>) -> Seq<char> {
    label + " ["@ + d.code@ + "]: "@ + d.message@ + seq!['\n']
        + "  --> "@ + d.file@ + seq![':'] + spec_decimal(d.span.start_line as nat) + seq![':']
        + spec_decimal(d.span.start_col as nat) + seq!['\n']
        + source_excerpt(d, cache)
        + render_notes(d, d.notes@.len() as int)
        + render_fix(d)
        + seq!['\n']
}

/// The blocks of the first `k` diagnostics, in order.
pub open spec fn render_report(ds: Seq<Diagnostic>, cache: Seq<(String, String)>, k: int) -> Seq<char>
    decreases k,
{
    if k <= 0 {
        Seq::empty()
    } else {
        render_report(ds, cache, k - 1) + render_diagnostic(ds[k - 1], cache)
    }
}

fn lookup<'a>(cache: &'a Vec<(String, String)>, file: &String) -> (r: Option<&'a String>)
    ensures
        match r {
            Some(src) => spec_lookup(cache@, file@) == Some(src@),
            None => spec_lookup(cache@, file@) is None,
        },
{
    let mut i: usize = 0;
    assert(cache@.skip(0) =~= cache@);
    while i < cache.len()
        invariant
            i <= cache@.len(),
            spec_lookup(cache@, file@) == spec_lookup(cache@.skip(i as int), file@),
        decreases cache@.len() - i,
    {
        assert(cache@.skip(i as int).drop_first() =~= cache@.skip(i + 1));
        if cache[i].0 == *file {
            return Some(&cache[i].1);
        }
        i = i + 1;
    }
    None
}

fn push_string(out: &mut Vec<char>, s: &String)
    ensures
        final(out)@ == old(out)@ + s@,
{
    append_str(out, s.as_str());
}

impl DiagnosticsReport {
    pub fn new(diagnostics: Vec<Diagnostic>) -> (r: Self)
        ensures
            r.version@ == "1"@,
            r.diagnostics@ == diagnostics@,
    {
        DiagnosticsReport { version: owned("1"), diagnostics }
    }

    fn render_excerpt(d: &Diagnostic, cache: &Vec<(String, String)>, out: &mut Vec<char>)
        ensures
            final(out)@ == old(out)@ + source_excerpt(*d, cache@),
    {
        match lookup(cache, &d.file) {
            None => {
                assert(old(out)@ + Seq::<char>::empty() =~= old(out)@);
            }
            Some(source) => {
                let src = chars_of(source.as_str());
                let ls = lines(&src);
                let n = d.span.start_line;
                if n > 0 && n <= ls.len() {
                    let ghost start = out@;
                    let mut g: Vec<char> = Vec::new();
                    g.push(' ');
                    let digits = decimal_usize(n);
                    append_chars(&mut g, &digits);
                    g.push(' ');
                    g.push('|');
                    g.push(' ');
                    assert(g@ =~= gutter(n as nat));
                    append_chars(out, &g);
                    append_chars(out, &ls[n - 1]);
                    out.push('\n');
                    push_repeat(out, ' ', g.len() - 3);
                    out.push(' ');
                    out.push('|');
                    out.push(' ');
                    let pad = if d.span.start_col >= 1 { d.span.start_col - 1 } else { 0 };
                    push_repeat(out, ' ', pad);
                    let w0 = if d.span.end_col >= d.span.start_col {
                        d.span.end_col - d.span.start_col
                    } else {
                        0
                    };
                    let w = if d.span.start_line == d.span.end_line {
                        if w0 < 1 { 1 } else { w0 }
                    } else {
                        1
                    };
                    push_repeat(out, '^', w);
                    out.push('\n');
                    assert(out@ =~= start + source_excerpt(*d, cache@));
                } else {
                    assert(old(out)@ + Seq::<char>::empty() =~= old(out)@);
                }
            }
        }
    }

    fn render_one(d: &Diagnostic, cache: &Vec<(String, String)>, out: &mut Vec<char>)
        ensures
            final(out)@ == old(out)@ + render_diagnostic(*d, cache@),
    {
        let sev = to_uppercase(d.severity.as_str());
        Self::render_block(sev.as_str(), d, cache, out);
    }

    /// Renders one diagnostic headed by `label`, the severity as it is to
    /// be shown.
    pub fn render_with_label(label: &str, d: &Diagnostic, cache: &Vec<(String, String)>) -> (r: String)
        ensures
            r@ == render_labelled(label@, *d, cache@),
    {
        let mut out: Vec<char> = Vec::new();
        Self::render_block(label, d, cache, &mut out);
        assert(out@ =~= render_labelled(label@, *d, cache@));
        string_of(&out)
    }

    #[verifier::rlimit(40)]
    fn render_block(label: &str, d: &Diagnostic, cache: &Vec<(String, String)>, out: &mut Vec<char>)
        ensures
            final(out)@ == old(out)@ + render_labelled(label@, *d, cache@),
    {
        let ghost start = out@;
        append_str(out, label);
        append_str(out, " [");
        push_string(out, &d.code);
        append_str(out, "]: ");
        push_string(out, &d.message);
        out.push('\n');
        append_str(out, "  --> ");
        push_string(out, &d.file);
        out.push(':');
        let l = decimal_usize(d.span.start_line);
        append_chars(out, &l);
        out.push(':');
        let c = decimal_usize(d.span.start_col);
        append_chars(out, &c);
        out.push('\n');
        let ghost head = out@;
        Self::render_excerpt(d, cache, out);
        let ghost after_excerpt = out@;
        let mut k: usize = 0;
        while k < d.notes.len()
            invariant
                k <= d.notes@.len(),
                out@ == after_excerpt + render_notes(*d, k as int),
            decreases d.notes@.len() - k,
        {
            let note = &d.notes[k];
            let ghost before = out@;
            append_str(out, "  = note: ");
            push_string(out, &note.message);
            out.push('\n');
            match note.span {
                Some(sp) => {
                    append_str(out, "    at ");
                    push_string(out, &d.file);
                    out.push(':');
                    let a = decimal_usize(sp.start_line);
                    append_chars(out, &a);
                    out.push(':');
                    let b = decimal_usize(sp.start_col);
                    append_chars(out, &b);
                    out.push('\n');
                }
                None => {}
            }
            assert(out@ =~= before + render_note(*d, d.notes@[k as int]));
            k = k + 1;
        }
        let ghost after_notes = out@;
        match &d.suggested_fix {
            Some(fix) => {
                append_str(out, "  = help: ");
                push_string(out, &fix.description);
                append_str(out, " -> replace with `");
                push_string(out, &fix.replacement);
                out.push('`');
                out.push('\n');
                assert(out@ =~= after_notes + render_fix(*d));
            }
            None => {
                assert(out@ =~= after_notes + render_fix(*d));
            }
        }
        out.push('\n');
        assert(out@ =~= start + render_labelled(label@, *d, cache@));
    }

    /// Renders the report to a human-readable string.  `source_cache` pairs
    /// file names with their source text.
    pub fn render_human(&self, source_cache: &Vec<(String, String)>) -> (r: String)
        ensures
            r@ == render_report(self.diagnostics@, source_cache@, self.diagnostics@.len() as int),
    {
        let mut out: Vec<char> = Vec::new();
        let mut i: usize = 0;
        while i < self.diagnostics.len()
            invariant
                i <= self.diagnostics@.len(),
                out@ == render_report(self.diagnostics@, source_cache@, i as int),
            decreases self.diagnostics@.len() - i,
        {
            Self::render_one(&self.diagnostics[i], source_cache, &mut out);
            i = i + 1;
        }
        string_of(&out)
    }
}

} // verus!
