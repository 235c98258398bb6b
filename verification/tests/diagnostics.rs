use starc::diagnostics::{Diagnostic, DiagnosticsReport, Note, Span, SuggestedFix};

fn diag(notes: Vec<Note>, fix: Option<SuggestedFix>) -> Diagnostic {
    Diagnostic {
        code: "E0102".to_string(),
        severity: "error".to_string(),
        message: "mismatched types".to_string(),
        file: "m.cx".to_string(),
        span: Span::new(2, 5, 2, 8),
        notes,
        suggested_fix: fix,
    }
}

#[test]
fn report_version_is_one() {
    let r = DiagnosticsReport::new(Vec::new());
    assert_eq!(r.version, "1");
    assert_eq!(r.render_human(&Vec::new()), "");
}

#[test]
fn human_rendering_with_source_line() {
    let r = DiagnosticsReport::new(vec![diag(Vec::new(), None)]);
    let cache = vec![("m.cx".to_string(), "fn main() {\n    let x: i32 = true\n}\n".to_string())];
    let out = r.render_human(&cache);
    assert_eq!(
        out,
        "ERROR [E0102]: mismatched types\n  --> m.cx:2:5\n 2 |     let x: i32 = true\n   |     ^^^\n\n"
    );
}

#[test]
fn human_rendering_without_source_with_note_and_fix() {
    let note = Note { message: "moved here".to_string(), span: Some(Span::new(1, 2, 1, 3)) };
    let fix = SuggestedFix { description: "use a copy".to_string(), replacement: "x.clone()".to_string() };
    let r = DiagnosticsReport::new(vec![diag(vec![note], Some(fix))]);
    let out = r.render_human(&Vec::new());
    assert_eq!(
        out,
        "ERROR [E0102]: mismatched types\n  --> m.cx:2:5\n  = note: moved here\n    at m.cx:1:2\n  = help: use a copy -> replace with `x.clone()`\n\n"
    );
}

#[test]
fn caret_is_at_least_one_wide() {
    let mut d = diag(Vec::new(), None);
    d.span = Span::new(1, 3, 2, 1);
    let r = DiagnosticsReport::new(vec![d]);
    let cache = vec![("m.cx".to_string(), "abcdef".to_string())];
    let out = r.render_human(&cache);
    assert!(out.contains(" 1 | abcdef\n   |   ^\n"));
}

#[test]
fn labelled_rendering_uses_the_given_label() {
    let d = diag(Vec::new(), None);
    let cache = vec![("m.cx".to_string(), "fn main() {\n    let x: i32 = true\n}\n".to_string())];
    let out = DiagnosticsReport::render_with_label("ERROR", &d, &cache);
    assert_eq!(
        out,
        "ERROR [E0102]: mismatched types\n  --> m.cx:2:5\n 2 |     let x: i32 = true\n   |     ^^^\n\n"
    );
    let r = DiagnosticsReport::new(vec![diag(Vec::new(), None)]);
    assert_eq!(r.render_human(&cache), out);
}
