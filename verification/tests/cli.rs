use starc::cli::{builds_binary, default_binary_name, module_file_name, module_key, parse_cli_args, CliError};

fn args(v: &[&str]) -> Vec<String> {
    v.iter().map(|s| s.to_string()).collect()
}

#[test]
fn build_command_with_options() {
    let o = parse_cli_args(&args(&["starc", "build", "main.cx", "--error-format=json", "--profile=fast", "-o", "out"])).unwrap();
    assert!(o.is_build);
    assert_eq!(o.input, "main.cx");
    assert_eq!(o.error_format, "json");
    assert_eq!(o.profile, "fast");
    assert!(!o.emit_ir);
    assert_eq!(o.output, Some("out".to_string()));
    assert!(builds_binary(&o));
}

#[test]
fn defaults_and_emit() {
    let o = parse_cli_args(&args(&["starc", "main.cx", "--emit=llvm-ir"])).unwrap();
    assert!(!o.is_build);
    assert_eq!(o.error_format, "human");
    assert_eq!(o.profile, "safe");
    assert!(o.emit_ir);
    assert!(!builds_binary(&o));
}

#[test]
fn refused_command_lines() {
    assert!(matches!(parse_cli_args(&args(&["starc"])), Err(CliError::Usage)));
    assert!(matches!(parse_cli_args(&args(&["starc", "build"])), Err(CliError::BuildNeedsInput)));
    assert!(matches!(parse_cli_args(&args(&["starc", "a.cx", "--profile=slow"])), Err(CliError::BadProfile)));
    assert!(matches!(parse_cli_args(&args(&["starc", "a.cx", "-o"])), Err(CliError::OutputNeedsPath)));
    match parse_cli_args(&args(&["starc", "a.cx", "--frob"])) {
        Err(CliError::UnknownOption(o)) => assert_eq!(o, "--frob"),
        _ => panic!("expected an unknown option"),
    }
    assert!(matches!(parse_cli_args(&args(&["starc", "--emit=llvm-ir"])), Err(CliError::NoInput)));
}

#[test]
fn names_from_imports_and_stems() {
    let p = args(&["std", "io"]);
    assert_eq!(module_key(&p), "std.io");
    assert_eq!(module_file_name(&p), "io.cx");
    assert_eq!(default_binary_name("main", false), "main");
    assert_eq!(default_binary_name("main", true), "main.exe");
}
