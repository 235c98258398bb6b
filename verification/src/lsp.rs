//! The computing parts of the C* language server: URI decoding, message
//! dispatch, header parsing, and the conversion of compiler diagnostics to
//! LSP diagnostics.

use vstd::prelude::*;
use crate::text::{
    append_chars, append_str, chars_of, decimal_usize, seq_starts_with, slice_chars, spec_decimal, spec_trim,
    starts_with, str_eq, string_of, strip_prefixes, strip_prefixes_exec, trim,
};

verus! {

// ---------------------------------------------------------------------------
// Percent decoding
// ---------------------------------------------------------------------------

pub open spec fn is_hex(c: char) -> bool {
    ('0' <= c && c <= '9') || ('a' <= c && c <= 'f') || ('A' <= c && c <= 'F')
}

pub open spec fn hex_val(c: char) -> int {
    if '0' <= c && c <= '9' {
        c as int - '0' as int
    } else if 'a' <= c && c <= 'f' {
        c as int - 'a' as int + 10
    } else {
        c as int - 'A' as int + 10
    }
}

/// The digits of a number after an optional leading `+`.
pub open spec fn unsigned_digits(h: Seq<char>) -> Seq<char> {
    if h.len() > 0 && h[0] == '+' { h.subrange(1, h.len() as int) } else { h }
}

pub open spec fn all_hex(d: Seq<char>) -> bool {
    forall|k: int| 0 <= k < d.len() ==> is_hex(#[trigger] d[k])
}

/// The value of at most two hexadecimal digits after an optional `+`, as
/// `u8::from_str_radix(h, 16)` reads them; none for anything else.
pub open spec fn hex_byte(h: Seq<char>) -> Option<u8> {
    let digits = unsigned_digits(h);
    if digits.len() == 0 || digits.len() > 2 || !all_hex(digits) {
        None
    } else if digits.len() == 1 {
        Some(hex_val(digits[0]) as u8)
    } else {
        Some((hex_val(digits[0]) * 16 + hex_val(digits[1])) as u8)
    }
}

/// The at most two characters after a `%` at position `i`.
pub open spec fn escape_after(s: Seq<char>, i: int) -> Seq<char> {
    s.subrange(i + 1, if i + 3 <= s.len() { i + 3 } else { s.len() as int })
}

/// Percent decoding from position `i`: `%` and the (at most two) characters
/// after it become the byte they spell in hexadecimal, taken as a character,
/// or stay as they are when they spell none.
pub open spec fn decode_from(s: Seq<char>, i: int, out: Seq<char>) -> Seq<char>
    decreases s.len() - i,
{
    if i < 0 || i >= s.len() {
        out
    } else if s[i] == '%' {
        let h = escape_after(s, i);
        match hex_byte(h) {
            Some(b) => decode_from(s, i + 1 + h.len(), out.push((b as u32) as char)),
            None => decode_from(s, i + 1 + h.len(), out.push('%') + h),
        }
    } else {
        decode_from(s, i + 1, out.push(s[i]))
    }
}

pub open spec fn spec_percent_decode(s: Seq<char>) -> Seq<char> {
    decode_from(s, 0, Seq::empty())
}

fn hex_digit(c: char) -> (r: Option<u32>)
    ensures
        match r {
            Some(v) => is_hex(c) && v == hex_val(c),
            None => !is_hex(c),
        },
{
    if '0' <= c && c <= '9' {
        Some((c as u32) - ('0' as u32))
    } else if 'a' <= c && c <= 'f' {
        Some((c as u32) - ('a' as u32) + 10)
    } else if 'A' <= c && c <= 'F' {
        Some((c as u32) - ('A' as u32) + 10)
    } else {
        None
    }
}

fn parse_hex_byte(h: &Vec<char>) -> (r: Option<u8>)
    requires
        h@.len() <= 2,
    ensures
        r == hex_byte(h@),
{
    let digits = if h.len() > 0 && h[0] == '+' { slice_chars(h, 1, h.len()) } else { slice_chars(h, 0, h.len()) };
    assert(h@.subrange(0, h@.len() as int) =~= h@);
    if digits.len() == 0 {
        return None;
    }
    let ghost spec_digits = unsigned_digits(h@);
    assert(digits@ =~= spec_digits);
    let d0 = match hex_digit(digits[0]) {
        Some(v) => v,
        None => {
            assert(!is_hex(spec_digits[0]));
            assert(!all_hex(spec_digits));
            return None;
        },
    };
    if digits.len() == 1 {
        assert(all_hex(spec_digits));
        return Some(d0 as u8);
    }
    let d1 = match hex_digit(digits[1]) {
        Some(v) => v,
        None => {
            assert(!is_hex(spec_digits[1]));
            assert(!all_hex(spec_digits));
            return None;
        },
    };
    assert(all_hex(spec_digits));
    Some((d0 * 16 + d1) as u8)
}

/// Decodes `%XX` escapes (see `decode_from`).
pub fn percent_decode(s: &str) -> (r: String)
    ensures
        r@ == spec_percent_decode(s@),
{
    let cs = chars_of(s);
    let ghost g = cs@;
    let mut result: Vec<char> = Vec::new();
    let mut i: usize = 0;
    while i < cs.len()
        invariant
            g == cs@,
            i <= g.len(),
            spec_percent_decode(g) == decode_from(g, i as int, result@),
        decreases g.len() - i,
    {
        let c = cs[i];
        if c == '%' {
            let end = if cs.len() - i >= 3 { i + 3 } else { cs.len() };
            let hex = slice_chars(&cs, i + 1, end);
            assert(hex@ == escape_after(g, i as int));
            match parse_hex_byte(&hex) {
                Some(byte) => {
                    result.push(byte as char);
                },
                None => {
                    result.push('%');
                    append_chars(&mut result, &hex);
                },
            }
            i = end;
        } else {
            result.push(c);
            i = i + 1;
        }
    }
    string_of(&result)
}

/// Text without `%` decodes to itself.
pub proof fn lemma_percent_decode_plain(s: Seq<char>)
    requires
        forall|k: int| 0 <= k < s.len() ==> s[k] != '%',
    ensures
        spec_percent_decode(s) == s,
{
    lemma_decode_plain_from(s, 0, Seq::empty());
    assert(Seq::<char>::empty() + s.subrange(0, s.len() as int) =~= s);
}

proof fn lemma_decode_plain_from(s: Seq<char>, i: int, out: Seq<char>)
    requires
        0 <= i <= s.len(),
        forall|k: int| 0 <= k < s.len() ==> s[k] != '%',
    ensures
        decode_from(s, i, out) == out + s.subrange(i, s.len() as int),
    decreases s.len() - i,
{
    if i < s.len() {
        lemma_decode_plain_from(s, i + 1, out.push(s[i]));
        assert(out.push(s[i]) + s.subrange(i + 1, s.len() as int) =~= out + s.subrange(i, s.len() as int));
    } else {
        assert(out + s.subrange(i, s.len() as int) =~= out);
    }
}

// ---------------------------------------------------------------------------
// File URIs
// ---------------------------------------------------------------------------

/// The path that a `file://` URI names, where paths use `/`; none for any
/// other URI.
pub open spec fn spec_uri_to_path(uri: Seq<char>) -> Option<Seq<char>> {
    if seq_starts_with(uri, "file://"@) {
        Some(spec_percent_decode(strip_prefixes(uri, "file://"@)))
    } else {
        None
    }
}

/// The Windows path that a `file://` URI names: a leading `/` dropped and
/// `/` turned into `\`; none for any other URI.
pub open spec fn spec_uri_to_windows_path(uri: Seq<char>) -> Option<Seq<char>> {
    if seq_starts_with(uri, "file://"@) {
        let p = strip_prefixes(uri, "file://"@);
        let p2 = if p.len() > 0 && p[0] == '/' { p.subrange(1, p.len() as int) } else { p };
        Some(spec_percent_decode(p2).map_values(|c: char| if c == '/' { '\\' } else { c }))
    } else {
        None
    }
}

/// The path of a `file://` URI on hosts other than Windows.
pub fn uri_to_path(uri: &str) -> (r: Option<String>)
    ensures
        match spec_uri_to_path(uri@) {
            Some(p) => r matches Some(s) && s@ == p,
            None => r is None,
        },
{
    let u = chars_of(uri);
    let prefix = chars_of("file://");
    if starts_with(&u, &prefix) {
        let path = strip_prefixes_exec(&u, &prefix);
        let ps = string_of(&path);
        Some(percent_decode(ps.as_str()))
    } else {
        None
    }
}

/// The path of a `file://` URI on Windows.
pub fn uri_to_windows_path(uri: &str) -> (r: Option<String>)
    ensures
        match spec_uri_to_windows_path(uri@) {
            Some(p) => r matches Some(s) && s@ == p,
            None => r is None,
        },
{
    let u = chars_of(uri);
    let prefix = chars_of("file://");
    if starts_with(&u, &prefix) {
        let path = strip_prefixes_exec(&u, &prefix);
        let path2 = if path.len() > 0 && path[0] == '/' { slice_chars(&path, 1, path.len()) } else { path };
        let ps = string_of(&path2);
        let decoded = chars_of(percent_decode(ps.as_str()).as_str());
        let ghost dv = decoded@;
        let mut out: Vec<char> = Vec::new();
        let mut i: usize = 0;
        while i < decoded.len()
            invariant
                i <= decoded@.len(),
                out@ == dv.subrange(0, i as int).map_values(|c: char| if c == '/' { '\\' } else { c }),
                dv == decoded@,
            decreases decoded@.len() - i,
        {
            let c = decoded[i];
            out.push(if c == '/' { '\\' } else { c });
            assert(dv.subrange(0, i + 1).map_values(|c: char| if c == '/' { '\\' } else { c }) =~= dv.subrange(0, i as int).map_values(|c: char| if c == '/' { '\\' } else { c }).push(if c == '/' { '\\' } else { c }));
            i = i + 1;
        }
        assert(dv.subrange(0, dv.len() as int) =~= dv);
        Some(string_of(&out))
    } else {
        None
    }
}

// ---------------------------------------------------------------------------
// Compiler diagnostics as LSP diagnostics
// ---------------------------------------------------------------------------

/// A span as the compiler's JSON report gives it (1-indexed).
#[derive(Debug, Clone, Copy, PartialEq, Eq, Structural)]
pub struct CStarSpan {
    pub start_line: usize,
    pub start_col: usize,
    pub end_line: usize,
    pub end_col: usize,
}

#[derive(Debug)]
pub struct CStarNote {
    pub message: String,
    pub span: CStarSpan,
}

#[derive(Debug)]
pub struct CStarDiagnostic {
    pub code: String,
    pub severity: String,
    pub message: String,
    pub file: String,
    pub span: CStarSpan,
    pub notes: Vec<CStarNote>,
}

#[derive(Debug)]
pub struct CStarReport {
    pub version: String,
    pub diagnostics: Vec<CStarDiagnostic>,
}

/// A 0-indexed position.
#[derive(Debug, Clone, Copy, PartialEq, Eq, Structural)]
pub struct LspPosition {
    pub line: usize,
    pub character: usize,
}

#[derive(Debug, Clone, Copy, PartialEq, Eq, Structural)]
pub struct LspRange {
    pub start: LspPosition,
    pub end: LspPosition,
}

#[derive(Debug)]
pub struct LspDiagnostic {
    pub range: LspRange,
    pub severity: i32,
    pub code: String,
    pub source: String,
    pub message: String,
}

#[derive(Debug)]
pub struct PublishDiagnosticsParams {
    pub uri: String,
    pub diagnostics: Vec<LspDiagnostic>,
}

/// The LSP severity of a compiler severity: 1 for `error`, 2 for `warning`,
/// 3 for anything else.
pub open spec fn spec_lsp_severity(s: Seq<char>) -> i32 {
    if s == "error"@ { 1 } else if s == "warning"@ { 2 } else { 3 }
}

pub fn lsp_severity(s: &str) -> (r: i32)
    ensures
        r == spec_lsp_severity(s@),
{
    if str_eq(s, "error") { 1 } else if str_eq(s, "warning") { 2 } else { 3 }
}

pub open spec fn sat_dec(n: usize) -> usize {
    if n > 0 { (n - 1) as usize } else { 0 }
}

/// The 0-indexed range of a 1-indexed span; a 0 stays 0.
pub open spec fn spec_lsp_range(sp: CStarSpan) -> LspRange {
    LspRange {
        start: LspPosition { line: sat_dec(sp.start_line), character: sat_dec(sp.start_col) },
        end: LspPosition { line: sat_dec(sp.end_line), character: sat_dec(sp.end_col) },
    }
}

pub fn lsp_range(sp: CStarSpan) -> (r: LspRange)
    ensures
        r == spec_lsp_range(sp),
{
    LspRange {
        start: LspPosition { line: sp.start_line.saturating_sub(1), character: sp.start_col.saturating_sub(1) },
        end: LspPosition { line: sp.end_line.saturating_sub(1), character: sp.end_col.saturating_sub(1) },
    }
}

/// The message of a diagnostic followed by one `Note: ... (line N)` line per
/// note.
pub open spec fn message_with_notes(message: Seq<char>, notes: Seq<CStarNote>) -> Seq<char>
    decreases notes.len(),
{
    if notes.len() == 0 {
        message
    } else {
        message_with_notes(message, notes.drop_last()) + "\nNote: "@ + notes.last().message@ + " (line "@
            + spec_decimal(notes.last().span.start_line as nat) + ")"@
    }
}

/// The LSP form of a compiler diagnostic.
pub fn to_lsp_diagnostic(d: &CStarDiagnostic) -> (r: LspDiagnostic)
    ensures
        r.range == spec_lsp_range(d.span),
        r.severity == spec_lsp_severity(d.severity@),
        r.code@ == d.code@,
        r.source@ == "starc"@,
        r.message@ == message_with_notes(d.message@, d.notes@),
{
    let mut message: Vec<char> = chars_of(d.message.as_str());
    let mut i: usize = 0;
    while i < d.notes.len()
        invariant
            i <= d.notes@.len(),
            message@ == message_with_notes(d.message@, d.notes@.subrange(0, i as int)),
        decreases d.notes@.len() - i,
    {
        let note = &d.notes[i];
        append_str(&mut message, "\nNote: ");
        append_chars(&mut message, &chars_of(note.message.as_str()));
        append_str(&mut message, " (line ");
        append_chars(&mut message, &decimal_usize(note.span.start_line));
        append_str(&mut message, ")");
        proof {
            assert(d.notes@.subrange(0, i + 1).drop_last() =~= d.notes@.subrange(0, i as int));
        }
        i = i + 1;
    }
    assert(d.notes@.subrange(0, d.notes@.len() as int) =~= d.notes@);
    LspDiagnostic {
        range: lsp_range(d.span),
        severity: lsp_severity(d.severity.as_str()),
        code: d.code.clone(),
        source: crate::text::owned("starc"),
        message: string_of(&message),
    }
}

/// The diagnostics to publish for a document: those of the report,
/// converted, in order; none without a report.
pub fn publish_params(uri: &str, report: Option<&CStarReport>) -> (r: PublishDiagnosticsParams)
    ensures
        r.uri@ == uri@,
        r.diagnostics@.len() == match report {
            Some(rep) => rep.diagnostics@.len(),
            None => 0,
        },
        forall|k: int| 0 <= k < r.diagnostics@.len() ==> {
            let d = report->0.diagnostics@[k];
            &&& (#[trigger] r.diagnostics@[k]).range == spec_lsp_range(d.span)
            &&& r.diagnostics@[k].severity == spec_lsp_severity(d.severity@)
            &&& r.diagnostics@[k].code@ == d.code@
            &&& r.diagnostics@[k].source@ == "starc"@
            &&& r.diagnostics@[k].message@ == message_with_notes(d.message@, d.notes@)
        },
{
    let mut out: Vec<LspDiagnostic> = Vec::new();
    match report {
        Some(rep) => {
            let mut i: usize = 0;
            while i < rep.diagnostics.len()
                invariant
                    report == Some(rep),
                    i <= rep.diagnostics@.len(),
                    out@.len() == i,
                    forall|k: int| 0 <= k < i ==> {
                        let d = rep.diagnostics@[k];
                        &&& (#[trigger] out@[k]).range == spec_lsp_range(d.span)
                        &&& out@[k].severity == spec_lsp_severity(d.severity@)
                        &&& out@[k].code@ == d.code@
                        &&& out@[k].source@ == "starc"@
                        &&& out@[k].message@ == message_with_notes(d.message@, d.notes@)
                    },
                decreases rep.diagnostics@.len() - i,
            {
                out.push(to_lsp_diagnostic(&rep.diagnostics[i]));
                i = i + 1;
            }
        },
        None => {},
    }
    PublishDiagnosticsParams { uri: crate::text::owned(uri), diagnostics: out }
}

/// The JSON report in the compiler's output: standard output when, trimmed,
/// it starts with `{`, else standard error when it does, else nothing.
pub open spec fn spec_report_text(stdout: Seq<char>, stderr: Seq<char>) -> Seq<char> {
    if seq_starts_with(spec_trim(stdout), "{"@) {
        spec_trim(stdout)
    } else if seq_starts_with(spec_trim(stderr), "{"@) {
        spec_trim(stderr)
    } else {
        Seq::empty()
    }
}

pub fn report_text(stdout: &str, stderr: &str) -> (r: String)
    ensures
        r@ == spec_report_text(stdout@, stderr@),
{
    let brace = chars_of("{");
    let out = trim(&chars_of(stdout));
    if starts_with(&out, &brace) {
        return string_of(&out);
    }
    let err = trim(&chars_of(stderr));
    if starts_with(&err, &brace) {
        return string_of(&err);
    }
    String::new()
}

// ---------------------------------------------------------------------------
// Messages and headers
// ---------------------------------------------------------------------------

/// What the server does with a message.
#[derive(Debug, Clone, Copy, PartialEq, Eq, Structural)]
pub enum LspAction {
    /// Answer with the server's capabilities.
    Initialize,
    /// Run the compiler on the document and publish its diagnostics.
    CheckDocument,
    /// Stop serving.
    Stop,
    /// Answer with an empty result.
    EmptyResult,
    /// Nothing to do.
    Ignore,
}

pub open spec fn spec_lsp_action(method: Seq<char>, has_id: bool) -> LspAction {
    if method == "initialize"@ {
        LspAction::Initialize
    } else if method == "textDocument/didOpen"@ || method == "textDocument/didSave"@ || method
        == "textDocument/didChange"@ {
        LspAction::CheckDocument
    } else if method == "exit"@ || method == "shutdown"@ {
        LspAction::Stop
    } else if has_id {
        LspAction::EmptyResult
    } else {
        LspAction::Ignore
    }
}

/// What to do with a message of the given method, with or without an id.
pub fn lsp_action(method: &str, has_id: bool) -> (r: LspAction)
    ensures
        r == spec_lsp_action(method@, has_id),
{
    if str_eq(method, "initialize") {
        LspAction::Initialize
    } else if str_eq(method, "textDocument/didOpen") || str_eq(method, "textDocument/didSave") || str_eq(
        method,
        "textDocument/didChange",
    ) {
        LspAction::CheckDocument
    } else if str_eq(method, "exit") || str_eq(method, "shutdown") {
        LspAction::Stop
    } else if has_id {
        LspAction::EmptyResult
    } else {
        LspAction::Ignore
    }
}

/// The other messages: `initialize` is answered with the server's
/// capabilities, `exit` and `shutdown` stop the server, and any other
/// request (a message with an id) gets an empty result while any other
/// notification is ignored.
pub proof fn law_other_messages(method: Seq<char>, has_id: bool)
    ensures
        method == "initialize"@ ==> spec_lsp_action(method, has_id) == LspAction::Initialize,
        method == "exit"@ || method == "shutdown"@ ==> spec_lsp_action(method, has_id) == LspAction::Stop,
        !(method == "initialize"@ || method == "exit"@ || method == "shutdown"@ || method == "textDocument/didOpen"@
            || method == "textDocument/didSave"@ || method == "textDocument/didChange"@) ==> spec_lsp_action(
            method,
            has_id,
        ) == (if has_id { LspAction::EmptyResult } else { LspAction::Ignore }),
{
    reveal_strlit("initialize");
    reveal_strlit("exit");
    reveal_strlit("shutdown");
    reveal_strlit("textDocument/didOpen");
    reveal_strlit("textDocument/didSave");
    reveal_strlit("textDocument/didChange");
    if method == "exit"@ || method == "shutdown"@ {
        assert(method.len() < 10);
        assert(method != "initialize"@);
        assert(method != "textDocument/didOpen"@);
        assert(method != "textDocument/didSave"@);
        assert(method != "textDocument/didChange"@);
    }
}

/// Opening, saving or changing a document has it checked and its
/// diagnostics published, whether or not the message carries an id.
pub proof fn law_document_events_are_checked(method: Seq<char>, has_id: bool)
    requires
        method == "textDocument/didOpen"@ || method == "textDocument/didSave"@ || method
            == "textDocument/didChange"@,
    ensures
        spec_lsp_action(method, has_id) == LspAction::CheckDocument,
{
    reveal_strlit("initialize");
    reveal_strlit("textDocument/didOpen");
    reveal_strlit("textDocument/didSave");
    reveal_strlit("textDocument/didChange");
    assert("initialize"@.len() != method.len());
}

/// `str::to_lowercase` of a string.
pub uninterp spec fn spec_to_lowercase(s: Seq<char>) -> Seq<char>;

/// Calls `str::to_lowercase`; the contract names its result.
#[verifier::external_body]
fn to_lowercase(s: &str) -> (r: String)
    ensures
        r@ == spec_to_lowercase(s@),
{
    s.to_lowercase()
}

/// The value of a decimal number after an optional `+`, as `usize`'s
/// `FromStr` reads it; none for anything else, or when it exceeds `usize`.
pub open spec fn decimal_value(d: Seq<char>) -> int
    decreases d.len(),
{
    if d.len() == 0 {
        0
    } else {
        decimal_value(d.drop_last()) * 10 + (d.last() as int - '0' as int)
    }
}

pub open spec fn all_decimal(d: Seq<char>) -> bool {
    forall|k: int| 0 <= k < d.len() ==> '0' <= #[trigger] d[k] && d[k] <= '9'
}

pub open spec fn parse_usize(s: Seq<char>) -> Option<usize> {
    let d = unsigned_digits(s);
    if d.len() == 0 || !all_decimal(d) || decimal_value(d) > usize::MAX {
        None
    } else {
        Some(decimal_value(d) as usize)
    }
}

proof fn lemma_decimal_value_nonneg(d: Seq<char>)
    requires
        all_decimal(d),
    ensures
        decimal_value(d) >= 0,
    decreases d.len(),
{
    if d.len() > 0 {
        lemma_decimal_value_nonneg(d.drop_last());
    }
}

fn parse_usize_exec(s: &Vec<char>) -> (r: Option<usize>)
    ensures
        r == parse_usize(s@),
{
    let d = if s.len() > 0 && s[0] == '+' { slice_chars(s, 1, s.len()) } else { slice_chars(s, 0, s.len()) };
    let ghost dv = unsigned_digits(s@);
    assert(s@.subrange(0, s@.len() as int) =~= s@);
    assert(d@ =~= dv);
    if d.len() == 0 {
        return None;
    }
    let mut value: usize = 0;
    let mut overflow = false;
    let mut i: usize = 0;
    while i < d.len()
        invariant
            i <= d@.len(),
            dv == d@,
            dv == unsigned_digits(s@),
            all_decimal(dv.subrange(0, i as int)),
            !overflow ==> value == decimal_value(dv.subrange(0, i as int)),
            overflow ==> decimal_value(dv.subrange(0, i as int)) > usize::MAX,
        decreases d@.len() - i,
    {
        let c = d[i];
        if !('0' <= c && c <= '9') {
            assert(dv[i as int] == c);
            assert(!all_decimal(dv));
            return None;
        }
        proof {
            assert(dv.subrange(0, i + 1).drop_last() =~= dv.subrange(0, i as int));
            lemma_decimal_value_nonneg(dv.subrange(0, i as int));
        }
        let digit = (c as u32 - '0' as u32) as usize;
        if !overflow {
            match value.checked_mul(10) {
                Some(m) => match m.checked_add(digit) {
                    Some(v) => value = v,
                    None => overflow = true,
                },
                None => overflow = true,
            }
        }
        i = i + 1;
    }
    assert(dv.subrange(0, d@.len() as int) =~= dv);
    if overflow {
        None
    } else {
        Some(value)
    }
}

/// The position of the first `:` at or after `i`, or the length.
pub open spec fn colon_from(s: Seq<char>, i: int) -> int
    decreases s.len() - i,
{
    if i < 0 || i >= s.len() {
        s.len() as int
    } else if s[i] == ':' {
        i
    } else {
        colon_from(s, i + 1)
    }
}

/// The text between the first `:` of a line and the next one (or the end),
/// which is the second field of splitting the line at `:`; none without `:`.
pub open spec fn second_field(line: Seq<char>) -> Option<Seq<char>> {
    let a = colon_from(line, 0);
    if a >= line.len() {
        None
    } else {
        Some(line.subrange(a + 1, colon_from(line, a + 1)))
    }
}

proof fn lemma_colon_from(s: Seq<char>, i: int)
    requires
        0 <= i <= s.len(),
    ensures
        i <= colon_from(s, i) <= s.len(),
    decreases s.len() - i,
{
    if i < s.len() && s[i] != ':' {
        lemma_colon_from(s, i + 1);
    }
}

/// For a `Content-Length` header line (any letter case): the length it
/// gives, 0 when that is not a number; none for any other line.
pub open spec fn spec_content_length(line: Seq<char>) -> Option<usize> {
    if seq_starts_with(spec_to_lowercase(line), "content-length:"@) {
        match second_field(line) {
            Some(f) => Some(
                match parse_usize(spec_trim(f)) {
                    Some(n) => n,
                    None => 0,
                },
            ),
            None => None,
        }
    } else {
        None
    }
}

fn find_colon(s: &Vec<char>, from: usize) -> (r: usize)
    requires
        from <= s@.len(),
    ensures
        r == colon_from(s@, from as int),
        from <= r <= s@.len(),
{
    proof { lemma_colon_from(s@, from as int); }
    let mut i = from;
    while i < s.len() && s[i] != ':'
        invariant
            from <= i <= s@.len(),
            colon_from(s@, from as int) == colon_from(s@, i as int),
        decreases s@.len() - i,
    {
        i = i + 1;
    }
    i
}

/// Reads a header line (see `spec_content_length`).
pub fn content_length_header(line: &str) -> (r: Option<usize>)
    ensures
        r == spec_content_length(line@),
{
    let lower = chars_of(to_lowercase(line).as_str());
    if !starts_with(&lower, &chars_of("content-length:")) {
        return None;
    }
    let l = chars_of(line);
    let a = find_colon(&l, 0);
    if a >= l.len() {
        return None;
    }
    let b = find_colon(&l, a + 1);
    let field = slice_chars(&l, a + 1, b);
    let t = trim(&field);
    match parse_usize_exec(&t) {
        Some(n) => Some(n),
        None => Some(0),
    }
}

/// Whether a header line ends the headers (`\r\n` or `\n`).
pub fn is_header_end(line: &str) -> (r: bool)
    ensures
        r == (line@ == "\r\n"@ || line@ == "\n"@),
{
    str_eq(line, "\r\n") || str_eq(line, "\n")
}

} // verus!
