//! The canonical C* formatter: indentation by brace depth, collapsed blank
//! lines and normalised spacing around operators.

use vstd::prelude::*;
use crate::text::{
    lemma_next_newline_bounds, lines_from, next_newline, strip_cr,
    append_chars, append_str, chars_of, is_alphanumeric, is_whitespace, lines, push_repeat, spec_is_alphanumeric,
    spec_is_whitespace, spec_lines, spec_repeat, spec_trim, spec_trim_end, string_of, trim, trim_end,
};

verus! {

// ---------------------------------------------------------------------------
// Spacing helpers
// ---------------------------------------------------------------------------

/// A space appended unless the text is empty or already ends in one.
pub open spec fn with_trailing_space(s: Seq<char>) -> Seq<char> {
    if s.len() > 0 && s.last() != ' ' { s.push(' ') } else { s }
}

/// The text with its trailing spaces removed.
pub open spec fn without_trailing_spaces(s: Seq<char>) -> Seq<char>
    decreases s.len(),
{
    if s.len() > 0 && s.last() == ' ' { without_trailing_spaces(s.drop_last()) } else { s }
}

/// The text before a single `:`: its trailing spaces removed, but one space
/// kept after a `:`, so that two colons never join into a `::`.
pub open spec fn before_colon(s: Seq<char>) -> Seq<char> {
    let t = without_trailing_spaces(s);
    if t.len() > 0 && t.last() == ':' { t.push(' ') } else { t }
}

/// The first position at or after `i` that holds no whitespace.
pub open spec fn skip_ws(cs: Seq<char>, i: int) -> int
    decreases cs.len() - i,
{
    if 0 <= i < cs.len() && spec_is_whitespace(cs[i]) { skip_ws(cs, i + 1) } else { i }
}

pub proof fn lemma_skip_ws(cs: Seq<char>, i: int)
    ensures
        skip_ws(cs, i) >= i,
        i <= cs.len() ==> skip_ws(cs, i) <= cs.len(),
    decreases cs.len() - i,
{
    if 0 <= i < cs.len() && spec_is_whitespace(cs[i]) {
        lemma_skip_ws(cs, i + 1);
    }
}

/// Appends a space unless the text is empty or already ends in one.
pub fn ensure_trailing_space(s: &mut String)
    ensures
        final(s)@ == with_trailing_space(old(s)@),
{
    let mut v = chars_of(s.as_str());
    push_space_unless_spaced(&mut v);
    *s = string_of(&v);
}

/// Removes the trailing spaces of a string.
pub fn trim_trailing_whitespace(s: &mut String)
    ensures
        final(s)@ == without_trailing_spaces(old(s)@),
{
    let mut v = chars_of(s.as_str());
    pop_spaces(&mut v);
    *s = string_of(&v);
}

/// Advances `i` past whitespace.
pub fn skip_whitespace(chars: &[char], i: &mut usize)
    requires
        *old(i) <= chars@.len(),
    ensures
        *final(i) == skip_ws(chars@, *old(i) as int),
{
    proof { lemma_skip_ws(chars@, *i as int); }
    while *i < chars.len() && is_whitespace(chars[*i])
        invariant
            *i <= chars@.len(),
            skip_ws(chars@, *old(i) as int) == skip_ws(chars@, *i as int),
        decreases chars@.len() - *i,
    {
        *i = *i + 1;
    }
}

fn push_space_unless_spaced(v: &mut Vec<char>)
    ensures
        final(v)@ == with_trailing_space(old(v)@),
{
    if v.len() > 0 && v[v.len() - 1] != ' ' {
        v.push(' ');
    }
}

fn pop_spaces(v: &mut Vec<char>)
    ensures
        final(v)@ == without_trailing_spaces(old(v)@),
{
    while v.len() > 0 && v[v.len() - 1] == ' '
        invariant
            without_trailing_spaces(v@) == without_trailing_spaces(old(v)@),
        decreases v@.len(),
    {
        let _ = v.pop();
    }
}

/// Whether the character after position `i` is `d`.
fn next_is(cs: &[char], i: usize, d: char) -> (b: bool)
    requires
        i < cs@.len(),
    ensures
        b == (i + 1 < cs@.len() && cs@[i + 1] == d),
{
    i < cs.len() - 1 && cs[i + 1] == d
}

// ---------------------------------------------------------------------------
// Spacing of one line
// ---------------------------------------------------------------------------

/// Where the spacing pass is: inside a string literal, a block comment or a
/// line comment, or in code.
pub struct SpacingMode {
    pub in_string: bool,
    pub in_block: bool,
    pub in_line: bool,
}

pub open spec fn code_mode() -> SpacingMode {
    SpacingMode { in_string: false, in_block: false, in_line: false }
}

/// Whether `cs[i]`, `cs[i + 1]` are `a`, `b`.
pub open spec fn pair_at(cs: Seq<char>, i: int, a: char, b: char) -> bool {
    0 <= i && i + 1 < cs.len() && cs[i] == a && cs[i + 1] == b
}

/// The two-character operators that get a space on each side.
pub open spec fn spaced_pair(cs: Seq<char>, i: int) -> Option<(char, char)> {
    if pair_at(cs, i, '=', '>') {
        Some(('=', '>'))
    } else if pair_at(cs, i, '=', '=') {
        Some(('=', '='))
    } else if pair_at(cs, i, '-', '>') {
        Some(('-', '>'))
    } else if pair_at(cs, i, '!', '=') {
        Some(('!', '='))
    } else if pair_at(cs, i, '<', '=') {
        Some(('<', '='))
    } else if pair_at(cs, i, '>', '=') {
        Some(('>', '='))
    } else {
        None
    }
}

/// A `-` after a letter, digit, `)`, `}` or `]` is a subtraction.
pub open spec fn is_subtraction(cs: Seq<char>, i: int) -> bool {
    cs[i] == '-' && i > 0 && {
        let p = cs[i - 1];
        spec_is_alphanumeric(p) || p == ')' || p == '}' || p == ']'
    }
}

/// A single `=`, `+`, `<` or `>` that does not follow `*` or `&`.
pub open spec fn is_spaced_single(cs: Seq<char>, i: int) -> bool {
    let c = cs[i];
    (c == '=' || c == '+' || c == '<' || c == '>') && (i == 0 || cs[i - 1] != '*') && (i == 0 || cs[i - 1] != '&')
}

/// The spacing pass from position `i`, given the text produced so far; the
/// result before trailing whitespace is trimmed.
pub open spec fn spacing_from(cs: Seq<char>, i: int, m: SpacingMode, out: Seq<char>) -> Seq<char>
    decreases cs.len() - i,
{
    if i < 0 || i >= cs.len() {
        out
    } else {
        let c = cs[i];
        proof {
            lemma_skip_ws(cs, i + 1);
            lemma_skip_ws(cs, i + 2);
        }
        if m.in_string {
            spacing_from(cs, i + 1, SpacingMode { in_string: c != '"', ..m }, out.push(c))
        } else if m.in_block {
            if pair_at(cs, i, '*', '/') {
                spacing_from(cs, i + 2, SpacingMode { in_block: false, ..m }, out.push('*').push('/'))
            } else {
                spacing_from(cs, i + 1, m, out.push(c))
            }
        } else if m.in_line {
            spacing_from(cs, i + 1, m, out.push(c))
        } else if pair_at(cs, i, '/', '/') {
            spacing_from(cs, i + 2, SpacingMode { in_line: true, ..m }, out.push('/').push('/'))
        } else if pair_at(cs, i, '/', '*') {
            spacing_from(cs, i + 2, SpacingMode { in_block: true, ..m }, out.push('/').push('*'))
        } else if c == '"' {
            spacing_from(cs, i + 1, SpacingMode { in_string: true, ..m }, out.push('"'))
        } else if spaced_pair(cs, i) is Some {
            spacing_from(cs, skip_ws(cs, i + 2), m, with_trailing_space(out).push((spaced_pair(cs, i)->0).0).push((spaced_pair(cs, i)->0).1).push(' '))
        } else if pair_at(cs, i, ':', ':') {
            spacing_from(cs, skip_ws(cs, i + 2), m, without_trailing_spaces(out).push(':').push(':'))
        } else if is_spaced_single(cs, i) {
            spacing_from(cs, skip_ws(cs, i + 1), m, with_trailing_space(out).push(c).push(' '))
        } else if is_subtraction(cs, i) {
            spacing_from(cs, skip_ws(cs, i + 1), m, with_trailing_space(out).push('-').push(' '))
        } else if c == ':' {
            spacing_from(cs, skip_ws(cs, i + 1), m, before_colon(out).push(':').push(' '))
        } else if c == ',' {
            spacing_from(cs, skip_ws(cs, i + 1), m, without_trailing_spaces(out).push(',').push(' '))
        } else if c == '{' {
            spacing_from(cs, i + 1, m, with_trailing_space(out).push('{'))
        } else {
            spacing_from(cs, i + 1, m, out.push(c))
        }
    }
}

/// A line with its spacing normalised: one space around `=>`, `==`, `->`,
/// `!=`, `<=`, `>=`, `=`, `+`, `<`, `>` and a binary `-`, none before and one
/// after `:` and `,` (one before a `:` that follows a `:`), none around `::`,
/// one before `{`; strings and comments
/// are copied as they are, and trailing whitespace is dropped.
pub open spec fn spaced(line: Seq<char>) -> Seq<char> {
    spec_trim_end(spacing_from(line, 0, code_mode(), Seq::empty()))
}

/// Normalises the spacing of a line (see `spaced`).
pub fn beautify_spacing(line: &str) -> (r: String)
    ensures
        r@ == spaced(line@),
{
    let chars = chars_of(line);
    let cs = chars.as_slice();
    let ghost g = cs@;
    let mut result: Vec<char> = Vec::new();
    let mut in_string = false;
    let mut in_line_comment = false;
    let mut in_block_comment = false;
    let mut i: usize = 0;
    while i < cs.len()
        invariant
            g == cs@,
            g == line@,
            i <= g.len(),
            spacing_from(g, 0, code_mode(), Seq::empty()) == spacing_from(
                g,
                i as int,
                SpacingMode { in_string, in_block: in_block_comment, in_line: in_line_comment },
                result@,
            ),
        decreases g.len() - i,
    {
        let c = cs[i];
        proof {
            lemma_skip_ws(g, i + 1);
            lemma_skip_ws(g, i + 2);
        }
        if in_string {
            result.push(c);
            if c == '"' {
                in_string = false;
            }
            i = i + 1;
            continue;
        }
        if in_block_comment {
            result.push(c);
            if c == '*' && next_is(cs, i, '/') {
                result.push('/');
                in_block_comment = false;
                i = i + 2;
            } else {
                i = i + 1;
            }
            continue;
        }
        if in_line_comment {
            result.push(c);
            i = i + 1;
            continue;
        }
        if c == '/' && next_is(cs, i, '/') {
            in_line_comment = true;
            result.push('/');
            result.push('/');
            i = i + 2;
            continue;
        }
        if c == '/' && next_is(cs, i, '*') {
            in_block_comment = true;
            result.push('/');
            result.push('*');
            i = i + 2;
            continue;
        }
        if c == '"' {
            in_string = true;
            result.push('"');
            i = i + 1;
            continue;
        }
        let pair: Option<(char, char)> = if c == '=' && next_is(cs, i, '>') {
            Some(('=', '>'))
        } else if c == '=' && next_is(cs, i, '=') {
            Some(('=', '='))
        } else if c == '-' && next_is(cs, i, '>') {
            Some(('-', '>'))
        } else if c == '!' && next_is(cs, i, '=') {
            Some(('!', '='))
        } else if c == '<' && next_is(cs, i, '=') {
            Some(('<', '='))
        } else if c == '>' && next_is(cs, i, '=') {
            Some(('>', '='))
        } else {
            None
        };
        if let Some((a, b)) = pair {
            push_space_unless_spaced(&mut result);
            result.push(a);
            result.push(b);
            result.push(' ');
            i = i + 2;
            skip_whitespace(cs, &mut i);
            continue;
        }
        if c == ':' && next_is(cs, i, ':') {
            pop_spaces(&mut result);
            result.push(':');
            result.push(':');
            i = i + 2;
            skip_whitespace(cs, &mut i);
            continue;
        }
        if (c == '=' || c == '+' || c == '<' || c == '>') && (i == 0 || cs[i - 1] != '*') && (i == 0 || cs[i - 1] != '&') {
            push_space_unless_spaced(&mut result);
            result.push(c);
            result.push(' ');
            i = i + 1;
            skip_whitespace(cs, &mut i);
            continue;
        }
        if c == '-' {
            let is_subtract = if i > 0 {
                let prev = cs[i - 1];
                is_alphanumeric(prev) || prev == ')' || prev == '}' || prev == ']'
            } else {
                false
            };
            if is_subtract {
                push_space_unless_spaced(&mut result);
                result.push('-');
                result.push(' ');
                i = i + 1;
                skip_whitespace(cs, &mut i);
                continue;
            }
        }
        if c == ':' {
            pop_spaces(&mut result);
            if result.len() > 0 && result[result.len() - 1] == ':' {
                result.push(' ');
            }
            result.push(':');
            result.push(' ');
            i = i + 1;
            skip_whitespace(cs, &mut i);
            continue;
        }
        if c == ',' {
            pop_spaces(&mut result);
            result.push(',');
            result.push(' ');
            i = i + 1;
            skip_whitespace(cs, &mut i);
            continue;
        }
        if c == '{' {
            push_space_unless_spaced(&mut result);
            result.push('{');
            i = i + 1;
            continue;
        }
        result.push(c);
        i = i + 1;
    }
    let trimmed = trim_end(&result);
    string_of(&trimmed)
}

// ---------------------------------------------------------------------------
// Brace depth of one line
// ---------------------------------------------------------------------------

/// What the brace scan of a line has seen: whether it is inside a block
/// comment, a string or a line comment, the net count of braces in code, and
/// the first non-whitespace character of code.
pub struct ScanState {
    pub in_block: bool,
    pub in_string: bool,
    pub in_line: bool,
    pub diff: int,
    pub first: Option<char>,
}

/// The brace scan from position `i`.
pub open spec fn scan_from(t: Seq<char>, i: int, s: ScanState) -> ScanState
    decreases t.len() - i,
{
    if i < 0 || i >= t.len() {
        s
    } else {
        let c = t[i];
        if s.in_block {
            if pair_at(t, i, '*', '/') {
                scan_from(t, i + 2, ScanState { in_block: false, ..s })
            } else {
                scan_from(t, i + 1, s)
            }
        } else if s.in_line {
            scan_from(t, i + 1, s)
        } else if s.in_string {
            scan_from(t, i + 1, ScanState { in_string: c != '"', ..s })
        } else if pair_at(t, i, '/', '/') {
            scan_from(t, i + 2, ScanState { in_line: true, ..s })
        } else if pair_at(t, i, '/', '*') {
            scan_from(t, i + 2, ScanState { in_block: true, ..s })
        } else if c == '"' {
            scan_from(t, i + 1, ScanState { in_string: true, ..s })
        } else {
            let first = if !spec_is_whitespace(c) && s.first is None { Some(c) } else { s.first };
            let diff = if c == '{' { s.diff + 1 } else if c == '}' { s.diff - 1 } else { s.diff };
            scan_from(t, i + 1, ScanState { first, diff, ..s })
        }
    }
}

/// The brace scan of a whole line that starts inside a block comment or not.
pub open spec fn scan_line(t: Seq<char>, in_block: bool) -> ScanState {
    scan_from(t, 0, ScanState { in_block, in_string: false, in_line: false, diff: 0, first: None })
}

/// Formats one trimmed line: gives the spaced line, the net brace count, and
/// whether the line's code starts with `}`; updates whether a block comment
/// is open at the end of the line.
pub fn analyze_and_format_line(trimmed: &str, in_block_comment: &mut bool) -> (r: (String, i32, bool))
    requires
        trimmed@.len() < 0x8000_0000,
    ensures
        r.0@ == spaced(trimmed@),
        r.1 == scan_line(trimmed@, *old(in_block_comment)).diff,
        r.2 == (scan_line(trimmed@, *old(in_block_comment)).first == Some('}')),
        *final(in_block_comment) == scan_line(trimmed@, *old(in_block_comment)).in_block,
{
    let chars = chars_of(trimmed);
    let cs = chars.as_slice();
    let ghost t = cs@;
    let mut in_string = false;
    let mut in_line_comment = false;
    let mut brace_diff: i32 = 0;
    let mut first_char: Option<char> = None;
    let mut i: usize = 0;
    while i < cs.len()
        invariant
            t == cs@,
            t == trimmed@,
            t.len() < 0x8000_0000,
            i <= t.len(),
            -(i as int) <= brace_diff <= i,
            scan_line(t, *old(in_block_comment)) == scan_from(
                t,
                i as int,
                ScanState {
                    in_block: *in_block_comment,
                    in_string,
                    in_line: in_line_comment,
                    diff: brace_diff as int,
                    first: first_char,
                },
            ),
        decreases t.len() - i,
    {
        let c = cs[i];
        if *in_block_comment {
            if c == '*' && next_is(cs, i, '/') {
                *in_block_comment = false;
                i = i + 2;
            } else {
                i = i + 1;
            }
            continue;
        }
        if in_line_comment {
            i = i + 1;
            continue;
        }
        if in_string {
            if c == '"' {
                in_string = false;
            }
            i = i + 1;
            continue;
        }
        if c == '/' && next_is(cs, i, '/') {
            in_line_comment = true;
            i = i + 2;
            continue;
        }
        if c == '/' && next_is(cs, i, '*') {
            *in_block_comment = true;
            i = i + 2;
            continue;
        }
        if c == '"' {
            in_string = true;
            i = i + 1;
            continue;
        }
        if !is_whitespace(c) && first_char.is_none() {
            first_char = Some(c);
        }
        if c == '{' {
            brace_diff = brace_diff + 1;
        } else if c == '}' {
            brace_diff = brace_diff - 1;
        }
        i = i + 1;
    }
    let starts_with_closing = match first_char {
        Some(f) => f == '}',
        None => false,
    };
    let beautified = beautify_spacing(trimmed);
    (beautified, brace_diff, starts_with_closing)
}

// ---------------------------------------------------------------------------
// Whole files
// ---------------------------------------------------------------------------

/// The formatter's state between lines: the indentation depth, whether a
/// block comment is open, and how many blank lines came in a row.
pub struct FormatState {
    pub indent: nat,
    pub in_block: bool,
    pub empties: nat,
}

pub open spec fn start_state() -> FormatState {
    FormatState { indent: 0, in_block: false, empties: 0 }
}

/// The depth after a net brace change, never below zero.
pub open spec fn apply_diff(indent: int, d: int) -> int {
    if d > 0 {
        indent + d
    } else if d < 0 {
        if indent >= -d { indent + d } else { 0 }
    } else {
        indent
    }
}

/// The output for one input line, and the state after it.  A blank line is
/// kept only when the line before it was not blank; a line whose code starts
/// with `}` is indented one level less; every line is indented four spaces
/// per level.
pub open spec fn format_line(st: FormatState, raw: Seq<char>) -> (Seq<char>, FormatState) {
    let t = spec_trim(raw);
    if t.len() == 0 {
        (if st.empties + 1 <= 1 { seq!['\n'] } else { Seq::empty() }, FormatState { empties: st.empties + 1, ..st })
    } else {
        let sc = scan_line(t, st.in_block);
        let closing = sc.first == Some('}');
        let ind1: nat = if closing && st.indent > 0 { (st.indent - 1) as nat } else { st.indent };
        let piece = spec_repeat(' ', ind1 * 4) + spaced(t) + seq!['\n'];
        let ind2 = if !closing { apply_diff(ind1 as int, sc.diff) } else { apply_diff(ind1 as int, sc.diff + 1) };
        (piece, FormatState { indent: ind2 as nat, in_block: sc.in_block, empties: 0 })
    }
}

/// The output for a sequence of lines and the state after them.
pub open spec fn format_lines(ls: Seq<Seq<char>>) -> (Seq<char>, FormatState)
    decreases ls.len(),
{
    if ls.len() == 0 {
        (Seq::empty(), start_state())
    } else {
        let (o, st) = format_lines(ls.drop_last());
        let (p, st2) = format_line(st, ls.last());
        (o + p, st2)
    }
}

/// The formatted text of a file.
pub open spec fn formatted(content: Seq<char>) -> Seq<char> {
    format_lines(spec_lines(content)).0
}

/// The total length of a sequence of lines.
pub open spec fn total_len(ls: Seq<Seq<char>>) -> nat
    decreases ls.len(),
{
    if ls.len() == 0 { 0 } else { total_len(ls.drop_last()) + ls.last().len() }
}

proof fn lemma_total_len_cons(a: Seq<char>, rest: Seq<Seq<char>>)
    ensures
        total_len(seq![a] + rest) == a.len() + total_len(rest),
    decreases rest.len(),
{
    let whole = seq![a] + rest;
    if rest.len() > 0 {
        lemma_total_len_cons(a, rest.drop_last());
        assert(whole.drop_last() =~= seq![a] + rest.drop_last());
        assert(whole.last() == rest.last());
        assert(total_len(whole) == total_len(whole.drop_last()) + whole.last().len());
        assert(total_len(rest) == total_len(rest.drop_last()) + rest.last().len());
    } else {
        assert(whole.drop_last() =~= Seq::<Seq<char>>::empty());
        assert(whole.last() == a);
        assert(total_len(whole) == total_len(whole.drop_last()) + whole.last().len());
    }
}

proof fn lemma_lines_total(s: Seq<char>, i: int)
    requires
        0 <= i,
    ensures
        total_len(lines_from(s, i)) <= if i <= s.len() { s.len() - i } else { 0 },
    decreases s.len() - i,
{
    if i < s.len() {
        let e = next_newline(s, i);
        lemma_next_newline_bounds(s, i);
        if e >= s.len() {
            let l = s.subrange(i, s.len() as int);
            assert(lines_from(s, i) == seq![l]);
            assert(seq![l].drop_last() =~= Seq::<Seq<char>>::empty());
            assert(seq![l].last() == l);
            assert(total_len(seq![l]) == total_len(seq![l].drop_last()) + seq![l].last().len());
        } else {
            lemma_lines_total(s, e + 1);
            assert(lines_from(s, i) == seq![strip_cr(s.subrange(i, e))] + lines_from(s, e + 1));
            lemma_total_len_cons(strip_cr(s.subrange(i, e)), lines_from(s, e + 1));
            assert(strip_cr(s.subrange(i, e)).len() <= e - i);
        }
    }
}

proof fn lemma_total_len_prefix(ls: Seq<Seq<char>>, k: int)
    requires
        0 <= k <= ls.len(),
    ensures
        total_len(ls.take(k)) <= total_len(ls),
    decreases ls.len() - k,
{
    if k < ls.len() {
        lemma_total_len_prefix(ls, k + 1);
        assert(ls.take(k + 1).drop_last() =~= ls.take(k));
    } else {
        assert(ls.take(k) =~= ls);
    }
}

/// 1 when the scan has seen `}` as the first character of code.
pub open spec fn closing_count(s: ScanState) -> int {
    if s.first == Some('}') { 1 } else { 0 }
}

proof fn lemma_scan_diff_bound(t: Seq<char>, i: int, s: ScanState)
    requires
        0 <= i <= t.len(),
        -i <= s.diff,
        s.diff + closing_count(s) <= i,
    ensures
        -t.len() <= scan_from(t, i, s).diff,
        scan_from(t, i, s).diff + closing_count(scan_from(t, i, s)) <= t.len(),
    decreases t.len() - i,
{
    if i < t.len() {
        let c = t[i];
        if s.in_block {
            if pair_at(t, i, '*', '/') {
                lemma_scan_diff_bound(t, i + 2, ScanState { in_block: false, ..s });
            } else {
                lemma_scan_diff_bound(t, i + 1, s);
            }
        } else if s.in_line {
            lemma_scan_diff_bound(t, i + 1, s);
        } else if s.in_string {
            lemma_scan_diff_bound(t, i + 1, ScanState { in_string: c != '"', ..s });
        } else if pair_at(t, i, '/', '/') {
            lemma_scan_diff_bound(t, i + 2, ScanState { in_line: true, ..s });
        } else if pair_at(t, i, '/', '*') {
            lemma_scan_diff_bound(t, i + 2, ScanState { in_block: true, ..s });
        } else if c == '"' {
            lemma_scan_diff_bound(t, i + 1, ScanState { in_string: true, ..s });
        } else {
            let first = if !spec_is_whitespace(c) && s.first is None { Some(c) } else { s.first };
            let diff = if c == '{' { s.diff + 1 } else if c == '}' { s.diff - 1 } else { s.diff };
            lemma_scan_diff_bound(t, i + 1, ScanState { first, diff, ..s });
        }
    }
}

proof fn lemma_trim_len(s: Seq<char>)
    ensures
        spec_trim(s).len() <= s.len(),
{
    crate::text::lemma_trim_shorter(s);
}

/// Formats a whole file (see `formatted`).
pub fn format_code(content: &str) -> (r: String)
    requires
        content@.len() < 0x4000_0000,
    ensures
        r@ == formatted(content@),
{
    let text = chars_of(content);
    let ls = lines(&text);
    let ghost lv = spec_lines(content@);
    proof {
        lemma_lines_total(content@, 0);
    }
    let mut out: Vec<char> = Vec::new();
    let mut indent_level: usize = 0;
    let mut in_block_comment = false;
    let mut consecutive_empty_lines: usize = 0;
    let mut k: usize = 0;
    assert(lv.take(0) =~= Seq::<Seq<char>>::empty());
    while k < ls.len()
        invariant
            lv == spec_lines(content@),
            ls@.len() == lv.len(),
            forall|j: int| 0 <= j < ls@.len() ==> #[trigger] ls@[j]@ == lv[j],
            total_len(lv) <= content@.len(),
            content@.len() < 0x4000_0000,
            k <= lv.len(),
            consecutive_empty_lines <= k,
            indent_level <= total_len(lv.take(k as int)),
            format_lines(lv.take(k as int)).0 == out@,
            format_lines(lv.take(k as int)).1 == (FormatState {
                indent: indent_level as nat,
                in_block: in_block_comment,
                empties: consecutive_empty_lines as nat,
            }),
        decreases lv.len() - k,
    {
        proof {
            lemma_total_len_prefix(lv, k + 1);
            assert(lv.take(k + 1).drop_last() =~= lv.take(k as int));
            assert(lv.take(k + 1).last() == lv[k as int]);
        }
        let t = trim(&ls[k]);
        if t.len() == 0 {
            consecutive_empty_lines = consecutive_empty_lines + 1;
            if consecutive_empty_lines <= 1 {
                out.push('\n');
            }
            k = k + 1;
            continue;
        }
        consecutive_empty_lines = 0;
        let ts = string_of(&t);
        proof {
            lemma_trim_len(lv[k as int]);
            lemma_scan_diff_bound(t@, 0, ScanState { in_block: in_block_comment, in_string: false, in_line: false, diff: 0, first: None });
        }
        let (processed_line, brace_diff, starts_with_closing) = analyze_and_format_line(ts.as_str(), &mut in_block_comment);
        if starts_with_closing && indent_level > 0 {
            indent_level = indent_level - 1;
        }
        push_repeat(&mut out, ' ', indent_level * 4);
        append_chars(&mut out, &chars_of(processed_line.as_str()));
        out.push('\n');
        let d: i64 = if !starts_with_closing { brace_diff as i64 } else { brace_diff as i64 + 1 };
        if d > 0 {
            indent_level = indent_level + (d as usize);
        } else if d < 0 {
            let diff_abs = (-d) as usize;
            if indent_level >= diff_abs {
                indent_level = indent_level - diff_abs;
            } else {
                indent_level = 0;
            }
        }
        k = k + 1;
    }
    assert(lv.take(lv.len() as int) =~= lv);
    string_of(&out)
}

} // verus!
verus! {

// ---------------------------------------------------------------------------
// Laws
// ---------------------------------------------------------------------------

/// Formatted text is empty or ends with a newline: every line it writes is
/// terminated.
pub proof fn lemma_formatted_ends_with_newline(content: Seq<char>)
    ensures
        formatted(content).len() == 0 || formatted(content).last() == '\n',
{
    lemma_lines_end_with_newline(spec_lines(content));
}

proof fn lemma_lines_end_with_newline(ls: Seq<Seq<char>>)
    ensures
        format_lines(ls).0.len() == 0 || format_lines(ls).0.last() == '\n',
    decreases ls.len(),
{
    if ls.len() > 0 {
        lemma_lines_end_with_newline(ls.drop_last());
    }
}

/// A spaced line never ends in whitespace.
pub proof fn lemma_spaced_no_trailing_whitespace(line: Seq<char>)
    ensures
        spaced(line).len() == 0 || !spec_is_whitespace(spaced(line).last()),
{
    lemma_trim_end_last(spacing_from(line, 0, code_mode(), Seq::empty()));
}

proof fn lemma_trim_end_last(s: Seq<char>)
    ensures
        spec_trim_end(s).len() == 0 || !spec_is_whitespace(spec_trim_end(s).last()),
    decreases s.len(),
{
    if s.len() > 0 && spec_is_whitespace(s.last()) {
        lemma_trim_end_last(s.drop_last());
    }
}

} // verus!
