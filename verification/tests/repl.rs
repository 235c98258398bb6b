use starc::repl::{build_cstar_code, classify_input, is_declaration, is_statement, ReplInput, ReplSession};

#[test]
fn program_with_declarations_statements_and_expression() {
    let decls = vec!["fn f() -> i32 {\n    return 1\n}".to_string()];
    let stmts = vec!["let x = 1".to_string()];
    let code = build_cstar_code(&decls, &stmts, Some("print(x)"));
    assert_eq!(
        code,
        "module main\n\nfn f() -> i32 {\n    return 1\n}\n\nfn main() -> i32 {\n    let x = 1\n    print(x)\n    return 0\n}\n"
    );
}

#[test]
fn empty_program() {
    assert_eq!(build_cstar_code(&[], &[], None), "module main\n\nfn main() -> i32 {\n    return 0\n}\n");
}

#[test]
fn declarations_are_recognised() {
    assert!(is_declaration("fn f() {}"));
    assert!(is_declaration("  pub struct P {}"));
    assert!(is_declaration("use geometry"));
    assert!(is_declaration("impl P {}"));
    assert!(!is_declaration("function()"));
    assert!(!is_declaration("let x = 1"));
}

#[test]
fn statements_are_recognised() {
    assert!(is_statement("let x = 1"));
    assert!(is_statement("return 5"));
    assert!(is_statement("x = 2"));
    assert!(!is_statement("x == 2"));
    assert!(!is_statement("x <= 2"));
    assert!(!is_statement("x + 1"));
}

#[test]
fn inputs_are_classified() {
    assert!(matches!(classify_input("  exit \n"), ReplInput::Quit));
    assert!(matches!(classify_input("quit"), ReplInput::Quit));
    assert!(matches!(classify_input("   \n"), ReplInput::Blank));
    match classify_input(" struct P {} \n") {
        ReplInput::Declaration(s) => assert_eq!(s, "struct P {}"),
        _ => panic!("expected a declaration"),
    }
    match classify_input("let a = 2\n") {
        ReplInput::Statement(s) => assert_eq!(s, "let a = 2"),
        _ => panic!("expected a statement"),
    }
    match classify_input("1 + 2\n") {
        ReplInput::Expression(s) => assert_eq!(s, "1 + 2"),
        _ => panic!("expected an expression"),
    }
}

#[test]
fn session_trial_commit_and_fallback() {
    let mut session = ReplSession::new();
    let decl = classify_input("fn one() -> i32 { return 1 }");
    let trial = session.trial_program(&decl).unwrap();
    session.commit(&decl);
    assert_eq!(session.decls.len(), 1);
    assert_eq!(trial, build_cstar_code(&session.decls, &session.stmts, None));

    let stmt = classify_input("let y = one()");
    session.commit(&stmt);
    assert_eq!(session.stmts, vec!["let y = one()".to_string()]);

    let expr = classify_input("y");
    let printed = session.trial_program(&expr).unwrap();
    assert!(printed.contains("    print(y)\n"));
    let plain = session.fallback_program(&expr).unwrap();
    assert!(plain.contains("    y\n"));
    assert!(session.fallback_program(&stmt).is_none());
    assert!(session.trial_program(&ReplInput::Blank).is_none());

    session.commit(&expr);
    assert_eq!(session.decls.len(), 1);
    assert_eq!(session.stmts.len(), 1);
}
