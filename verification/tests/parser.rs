use starc::ast::{BinOp, Expr, ExprKind, Item, StmtKind};
use starc::lexer::Lexer;
use starc::parser::Parser;

#[test]
fn test_parse_struct_and_fn() {
    let src = "
        module geometry;
        pub struct Point {
            x: f64,
            y: f64
        }
        impl Point {
            pub fn new(x: f64, y: f64) -> Point {
                Point { x: x, y: y }
            }
        }
        ";
    let lexer = Lexer::new(src, "geometry.cx");
    let mut parser = Parser::new(lexer, "geometry.cx").unwrap();
    let module = parser.parse_module().unwrap();

    if !parser.diagnostics.is_empty() {
        println!("Diagnostics: {:#?}", parser.diagnostics);
    }

    assert_eq!(module.name, Some("geometry".to_string()));
    assert_eq!(module.items.len(), 2);

    if let Item::Struct(s) = &module.items[0] {
        assert_eq!(s.name, "Point");
        assert_eq!(s.fields.len(), 2);
    } else {
        panic!("Expected struct as first item");
    }
}

#[test]
fn test_parser_error_recovery() {
    let src = "
        fn main() {
            let a = ; // syntax error 1
            let b = 10;
            let c = +; // syntax error 2
            let d = 20;
            let e = ; // syntax error 3
        }
        ";
    let mut lexer = Lexer::new(src, "recovery.cx");
    println!("Tokens: {:?}", lexer.lex_all());

    let lexer = Lexer::new(src, "recovery.cx");
    let mut parser = Parser::new(lexer, "recovery.cx").unwrap();
    let _ = parser.parse_module();

    if parser.diagnostics.len() != 3 {
        println!("Diagnostics: {:#?}", parser.diagnostics);
    }

    assert_eq!(parser.diagnostics.len(), 3);
    assert_eq!(parser.diagnostics[0].code, "E0004");
}

#[test]
fn parse_imports_and_generic_fn() {
    let src = "use geometry\nfn max<T>(a: T, b: T) -> T {\n    return a\n}\n";
    let lexer = Lexer::new(src, "g.cx");
    let mut parser = Parser::new(lexer, "g.cx").unwrap();
    let module = parser.parse_module().unwrap();
    assert!(parser.diagnostics.is_empty(), "{:?}", parser.diagnostics);
    assert_eq!(module.imports.len(), 1);
    assert_eq!(module.imports[0].path, vec!["geometry".to_string()]);
    match &module.items[0] {
        Item::Fn(f) => {
            assert_eq!(f.name, "max");
            assert_eq!(f.generic_params, vec!["T".to_string()]);
            assert_eq!(f.params.len(), 2);
        }
        _ => panic!("expected a function"),
    }
}

#[test]
fn missing_token_reports_e0001() {
    let src = "struct P { x: i32 ";
    let lexer = Lexer::new(src, "p.cx");
    let mut parser = Parser::new(lexer, "p.cx").unwrap();
    let _ = parser.parse_module();
    assert!(!parser.diagnostics.is_empty());
    assert!(parser.diagnostics.iter().all(|d| d.severity == "error" && d.file == "p.cx"));
}

fn parse_errors(src: &str) -> Vec<String> {
    let lexer = Lexer::new(src, "e.cx");
    let mut parser = Parser::new(lexer, "e.cx").unwrap();
    let _ = parser.parse_module();
    parser.diagnostics.iter().map(|d| d.code.clone()).collect()
}

#[test]
fn pub_impl_is_e0002() {
    assert!(parse_errors("pub impl P {\n}\n").contains(&"E0002".to_string()));
}

#[test]
fn statement_at_module_level_is_e0003() {
    assert!(parse_errors("module m\nlet x = 10\n").contains(&"E0003".to_string()));
}

#[test]
fn bad_pattern_is_e0005() {
    assert!(parse_errors("fn main() {\n    match 1 {\n        + => 1,\n    }\n}\n").contains(&"E0005".to_string()));
}

#[test]
fn parse_errors_use_parse_codes() {
    for src in ["fn (", "struct { }", "fn main() { let = }", "impl", "use ;"] {
        for code in parse_errors(src) {
            assert!(["E0001", "E0002", "E0003", "E0004", "E0005"].contains(&code.as_str()), "{}", code);
        }
    }
}

#[test]
fn module_header_and_items_parse() {
    let src = "module m;\nfn f() {\n}\n";
    let lexer = Lexer::new(src, "m.cx");
    let mut parser = Parser::new(lexer, "m.cx").unwrap();
    let module = parser.parse_module().unwrap();
    assert_eq!(module.name, Some("m".to_string()));
    assert_eq!(module.items.len(), 1);
}

#[test]
fn binary_operators_follow_precedence_and_associate_left() {
    let src = "fn main() {\n    let x = a - b - c * d == e && f;\n}\n";
    let lexer = Lexer::new(src, "p.cx");
    let mut parser = Parser::new(lexer, "p.cx").unwrap();
    let module = parser.parse_module().unwrap();
    assert!(parser.diagnostics.is_empty());
    let f = match &module.items[0] {
        Item::Fn(f) => f,
        _ => panic!("expected a function"),
    };
    let value = match &f.body.stmts[0].kind {
        StmtKind::Let { value, .. } => value,
        _ => panic!("expected a let"),
    };
    assert_eq!(tree(value), "((((a - b) - (c * d)) == e) && f)");
}

fn tree(e: &Expr) -> String {
    match &e.kind {
        ExprKind::Ident(n) => n.clone(),
        ExprKind::Binary(op, a, b) => {
            let o = match op {
                BinOp::Sub => "-",
                BinOp::Mul => "*",
                BinOp::Eq => "==",
                BinOp::And => "&&",
                _ => "?",
            };
            format!("({} {} {})", tree(a), o, tree(b))
        }
        _ => "?".to_string(),
    }
}

#[test]
fn simple_module_items_follow_the_tokens() {
    let src = "module shapes;\npub struct Pair<T> { pub a: i32, b: T }\nfn area(w: i32, h: i32) -> i32 {\n    let s = w * h;\n    return s;\n}\npub fn main() {\n    area(2, 3);\n}\n";
    let lexer = Lexer::new(src, "shapes.cx");
    let mut parser = Parser::new(lexer, "shapes.cx").unwrap();
    let module = parser.parse_module().unwrap();
    assert!(parser.diagnostics.is_empty());
    assert_eq!(module.name, Some("shapes".to_string()));
    assert!(module.imports.is_empty());
    assert_eq!(module.items.len(), 3);
    match &module.items[0] {
        Item::Struct(s) => {
            assert!(s.is_pub);
            assert_eq!(s.name, "Pair");
            assert_eq!(s.generic_params, vec!["T".to_string()]);
            assert_eq!(s.fields.len(), 2);
            assert!(s.fields[0].is_pub);
            assert_eq!(s.fields[0].name, "a");
            assert!(!s.fields[1].is_pub);
            assert_eq!(s.fields[1].name, "b");
        }
        _ => panic!("expected a struct"),
    }
    match &module.items[1] {
        Item::Fn(f) => {
            assert!(!f.is_pub);
            assert_eq!(f.name, "area");
            assert_eq!(f.params.len(), 2);
            assert_eq!(f.params[0].name, "w");
            assert_eq!(f.params[1].name, "h");
            assert!(f.ret_ty.is_some());
            assert_eq!(f.body.stmts.len(), 2);
        }
        _ => panic!("expected a function"),
    }
    match &module.items[2] {
        Item::Fn(f) => {
            assert!(f.is_pub);
            assert_eq!(f.name, "main");
            assert!(f.params.is_empty());
            assert!(f.ret_ty.is_none());
            assert_eq!(f.body.stmts.len(), 1);
        }
        _ => panic!("expected a function"),
    }
}

#[test]
fn generic_function_declaration_keeps_its_parameters() {
    let src = "fn max<T, U>(a: T, b: U) -> T {\n    return a;\n}\n";
    let lexer = Lexer::new(src, "g.cx");
    let mut parser = Parser::new(lexer, "g.cx").unwrap();
    let module = parser.parse_module().unwrap();
    assert!(parser.diagnostics.is_empty());
    assert_eq!(module.items.len(), 1);
    match &module.items[0] {
        Item::Fn(f) => {
            assert_eq!(f.generic_params, vec!["T".to_string(), "U".to_string()]);
            assert_eq!(f.params.len(), 2);
            assert_eq!(f.body.stmts.len(), 1);
        }
        _ => panic!("expected a function"),
    }
}
