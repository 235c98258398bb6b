use starc::lsp::{
    content_length_header, is_header_end, lsp_action, lsp_severity, percent_decode, publish_params, report_text,
    to_lsp_diagnostic, uri_to_path, uri_to_windows_path, CStarDiagnostic, CStarNote, CStarReport, CStarSpan, LspAction,
};

#[test]
fn percent_escapes_are_decoded() {
    assert_eq!(percent_decode("a%20b"), "a b");
    assert_eq!(percent_decode("%41%42"), "AB");
    assert_eq!(percent_decode("%e9"), "\u{e9}");
    assert_eq!(percent_decode("%+4"), "\u{4}");
}

#[test]
fn bad_escapes_are_kept() {
    assert_eq!(percent_decode("%zz"), "%zz");
    assert_eq!(percent_decode("100%"), "100%");
    assert_eq!(percent_decode("%4"), "\u{4}");
    assert_eq!(percent_decode("%-1x"), "%-1x");
}

#[test]
fn text_without_percent_is_unchanged() {
    assert_eq!(percent_decode("/home/user/main.cx"), "/home/user/main.cx");
}

#[test]
fn file_uris_become_paths() {
    assert_eq!(uri_to_path("file:///home/a%20b/main.cx"), Some("/home/a b/main.cx".to_string()));
    assert_eq!(uri_to_path("http://example.com/x"), None);
    assert_eq!(uri_to_windows_path("file:///C:/src/main.cx"), Some("C:\\src\\main.cx".to_string()));
}

#[test]
fn severities_map_to_lsp() {
    assert_eq!(lsp_severity("error"), 1);
    assert_eq!(lsp_severity("warning"), 2);
    assert_eq!(lsp_severity("note"), 3);
}

#[test]
fn diagnostics_become_zero_indexed_with_notes() {
    let d = CStarDiagnostic {
        code: "E0203".to_string(),
        severity: "error".to_string(),
        message: "use of moved value `p`".to_string(),
        file: "m.cx".to_string(),
        span: CStarSpan { start_line: 3, start_col: 5, end_line: 3, end_col: 6 },
        notes: vec![CStarNote {
            message: "`p` was moved here".to_string(),
            span: CStarSpan { start_line: 2, start_col: 1, end_line: 2, end_col: 2 },
        }],
    };
    let l = to_lsp_diagnostic(&d);
    assert_eq!(l.range.start.line, 2);
    assert_eq!(l.range.start.character, 4);
    assert_eq!(l.range.end.character, 5);
    assert_eq!(l.severity, 1);
    assert_eq!(l.code, "E0203");
    assert_eq!(l.source, "starc");
    assert_eq!(l.message, "use of moved value `p`\nNote: `p` was moved here (line 2)");

    let zero = CStarDiagnostic {
        code: "E1".to_string(),
        severity: "warning".to_string(),
        message: "m".to_string(),
        file: "f".to_string(),
        span: CStarSpan { start_line: 0, start_col: 0, end_line: 0, end_col: 0 },
        notes: Vec::new(),
    };
    let l0 = to_lsp_diagnostic(&zero);
    assert_eq!(l0.range.start.line, 0);
    assert_eq!(l0.severity, 2);

    let report = CStarReport { version: "1".to_string(), diagnostics: vec![d, zero] };
    let p = publish_params("file:///m.cx", Some(&report));
    assert_eq!(p.uri, "file:///m.cx");
    assert_eq!(p.diagnostics.len(), 2);
    assert_eq!(publish_params("u", None).diagnostics.len(), 0);
}

#[test]
fn report_is_found_on_either_stream() {
    assert_eq!(report_text("  {\"a\":1}\n", ""), "{\"a\":1}");
    assert_eq!(report_text("Compilation successful.", " {} "), "{}");
    assert_eq!(report_text("x", "y"), "");
}

#[test]
fn methods_are_dispatched() {
    assert_eq!(lsp_action("initialize", true), LspAction::Initialize);
    assert_eq!(lsp_action("textDocument/didSave", false), LspAction::CheckDocument);
    assert_eq!(lsp_action("shutdown", true), LspAction::Stop);
    assert_eq!(lsp_action("textDocument/hover", true), LspAction::EmptyResult);
    assert_eq!(lsp_action("$/cancel", false), LspAction::Ignore);
}

#[test]
fn content_length_headers_are_read() {
    assert_eq!(content_length_header("Content-Length: 42\r\n"), Some(42));
    assert_eq!(content_length_header("content-length:7"), Some(7));
    assert_eq!(content_length_header("Content-Length: abc\r\n"), Some(0));
    assert_eq!(content_length_header("Content-Type: text\r\n"), None);
    assert!(is_header_end("\r\n"));
    assert!(is_header_end("\n"));
    assert!(!is_header_end("x\n"));
}
