use starc::ast::{Block, FnDecl, Param, Type, TypeKind};
use starc::diagnostics::{Diagnostic, Span};
use starc::lexer::Lexer;
use starc::parser::Parser;
use starc::typeck::TypeChecker;

fn check_src(src: &str) -> Vec<Diagnostic> {
    let lexer = Lexer::new(src, "test.cx");
    let mut parser = Parser::new(lexer, "test.cx").unwrap();
    let module = parser.parse_module().unwrap();
    let mut tc = TypeChecker::new("test.cx");
    tc.check_module(&module);
    tc.diagnostics
}

#[test]
fn test_type_mismatch() {
    let src = "
        fn main() {
            let x: i32 = 10;
            let y: f64 = x; // Error: mismatched type
        }
        ";
    let errors = check_src(src);
    assert!(!errors.is_empty());
    assert_eq!(errors[0].code, "E0102");
}

#[test]
fn test_redefinition() {
    let src = "
        fn main() {
            let x: i32 = 10;
            let x: i32 = 20; // Error: redefinition
        }
        ";
    let errors = check_src(src);
    assert!(!errors.is_empty());
    assert_eq!(errors[0].code, "E0101");
}

#[test]
fn test_uninitialized_var() {
    let src = "
        fn main() {
            let x: i32 = 10;
            let y: i32 = x + 5;
        }
        ";
    let errors = check_src(src);
    assert!(errors.is_empty());
}

#[test]
fn test_raw_deref_outside_raw_block() {
    let src = "
        fn main() {
            let ptr: raw *i32 = 0; // stub type/val
            let val: i32 = *ptr;   // Dereferencing raw pointer!
        }
        ";
    let errors = check_src(src);
    assert!(!errors.is_empty());
    assert!(errors.iter().any(|e| e.code == "E0111"));
}

#[test]
fn test_raw_deref_inside_raw_block() {
    let src = "
        fn main() {
            let ptr: raw *i32 = 0;
            raw {
                let val: i32 = *ptr;
            }
        }
        ";
    let errors = check_src(src);
    assert!(errors.is_empty() || !errors.iter().any(|e| e.code == "E0111"));
}

#[test]
fn test_use_after_move() {
    let src = "
        struct Point {
            x: f64,
            y: f64,
        }
        fn consume(p: Point) {}
        fn main() {
            let p1 = Point { x: 0.0, y: 0.0 };
            consume(p1);
            let p2 = p1; // Error: use of moved value p1
        }
        ";
    let errors = check_src(src);
    assert!(!errors.is_empty(), "Expected E0203 typecheck error for use-after-move");
    assert_eq!(errors[0].code, "E0203");
    assert!(errors[0].message.contains("use of moved value `p1`"));
    assert!(errors[0].notes[0].message.contains("`p1` was moved here"));
}

#[test]
fn mismatch_message_shows_both_types() {
    let errors = check_src("fn main() {\n    let x: i32 = true\n}\n");
    assert_eq!(errors.len(), 1);
    assert_eq!(errors[0].code, "E0102");
    assert_eq!(errors[0].message, "mismatched types: expected `Path([\"i32\"], [])`, found `Path([\"bool\"], [])`");
    assert_eq!(errors[0].severity, "error");
    assert_eq!(errors[0].file, "test.cx");
}

#[test]
fn unknown_variable_is_e0109() {
    let errors = check_src("fn main() {\n    let y = z\n}\n");
    assert_eq!(errors[0].code, "E0109");
    assert_eq!(errors[0].message, "cannot find value `z` in this scope");
}

#[test]
fn redefinition_message() {
    let errors = check_src("fn main() {\n    let a = 1\n    let a = 2\n}\n");
    assert_eq!(errors[0].message, "redefinition of local variable `a`");
}

#[test]
fn binary_operands_must_agree() {
    let errors = check_src("fn main() {\n    let a = 1 + true\n}\n");
    assert_eq!(errors[0].code, "E0102");
}

#[test]
fn unknown_function_is_e0123() {
    let errors = check_src("fn main() {\n    nothing(1)\n}\n");
    assert!(errors.iter().any(|e| e.code == "E0123" && e.message == "cannot find function `nothing` in this scope"));
}

#[test]
fn wrong_argument_count_is_e0117() {
    let errors = check_src("fn f(a: i32) -> i32 {\n    return a\n}\nfn main() {\n    f(1, 2)\n}\n");
    assert!(errors.iter().any(|e| e.code == "E0117" && e.message == "function `f` expected 1 arguments, found 2"));
}

#[test]
fn return_type_mismatch_is_e0104() {
    let errors = check_src("fn f() -> i32 {\n    return true\n}\n");
    assert_eq!(errors[0].code, "E0104");
}

#[test]
fn missing_struct_field_is_e0126() {
    let errors = check_src("struct P {\n    x: i32,\n    y: i32\n}\nfn main() {\n    let p = P { x: 1 }\n}\n");
    assert!(errors.iter().any(|e| e.code == "E0126" && e.message == "missing field `y` in struct initializer"));
}

#[test]
fn unknown_field_is_e0114() {
    let errors = check_src("struct P {\n    x: i32\n}\nfn main() {\n    let p = P { x: 1 }\n    let q = p.z\n}\n");
    assert!(errors.iter().any(|e| e.code == "E0114" && e.message == "no field `z` on type `P`"));
}

#[test]
fn while_condition_must_be_bool() {
    let errors = check_src("fn main() {\n    while 1 {\n    }\n}\n");
    assert_eq!(errors[0].code, "E0107");
}

#[test]
fn copy_types_are_not_moved() {
    let errors = check_src("fn take(a: i32) {}\nfn main() {\n    let a: i32 = 1\n    take(a)\n    take(a)\n}\n");
    assert!(errors.is_empty(), "{:?}", errors);
}

#[test]
fn generic_call_is_specialised() {
    let src = "fn id<T>(x: T) -> T {\n    return x\n}\nfn main() {\n    let a: i32 = id(5)\n}\n";
    let lexer = Lexer::new(src, "g.cx");
    let mut parser = Parser::new(lexer, "g.cx").unwrap();
    let module = parser.parse_module().unwrap();
    let mut tc = TypeChecker::new("g.cx");
    tc.check_module(&module);
    assert!(tc.diagnostics.is_empty(), "{:?}", tc.diagnostics);
    assert_eq!(tc.specialized_items.len(), 1);
    assert_eq!(tc.specialized_calls.len(), 1);
    assert_eq!(tc.specialized_calls[0].1, "id_i32");
}

fn path_type(name: &str) -> Type {
    Type { kind: TypeKind::Path(vec![name.to_string()], Vec::new()), span: Span::new(1, 1, 1, 2) }
}

#[test]
fn specialize_fn_substitutes_and_names() {
    let f = FnDecl {
        is_pub: false,
        name: "pair".to_string(),
        generic_params: vec!["A".to_string(), "B".to_string()],
        params: vec![
            Param { name: "a".to_string(), ty: path_type("A"), span: Span::new(1, 1, 1, 1) },
            Param {
                name: "b".to_string(),
                ty: Type { kind: TypeKind::Ref(Box::new(path_type("B"))), span: Span::new(1, 1, 1, 1) },
                span: Span::new(1, 1, 1, 1),
            },
        ],
        ret_ty: Some(path_type("A")),
        body: Block { stmts: Vec::new(), span: Span::new(1, 1, 1, 1) },
        span: Span::new(1, 1, 1, 1),
    };
    let tc = TypeChecker::new("t.cx");
    let ptr = Type { kind: TypeKind::RawPtr(Box::new(path_type("u8"))), span: Span::new(2, 2, 2, 2) };
    let s = tc.specialize_fn(&f, &[path_type("i64"), ptr]);
    assert_eq!(s.name, "pair_i64_ptr");
    assert!(s.generic_params.is_empty());
    assert_eq!(s.params[0].ty, path_type("i64"));
    match &s.params[1].ty.kind {
        TypeKind::Ref(inner) => assert!(matches!(inner.kind, TypeKind::RawPtr(_))),
        _ => panic!("expected a reference"),
    }
    assert_eq!(s.ret_ty, Some(path_type("i64")));
}

#[test]
fn diagnostics_only_grow_and_are_errors_of_the_file() {
    let errors = check_src("fn main() {\n    let a = b\n    let c: bool = 1\n}\n");
    assert!(errors.len() >= 2);
    assert!(errors.iter().all(|e| e.severity == "error" && e.file == "test.cx"));
}

#[test]
fn raw_deref_message_and_pointee_type() {
    let errors = check_src("fn main() {\n    let p: raw *i32 = 0\n    let v: bool = *p\n}\n");
    assert_eq!(errors[0].code, "E0111");
    assert_eq!(errors[0].message, "raw pointer dereference requires `raw` block");
    assert_eq!(errors[1].code, "E0102");
    assert_eq!(errors[1].message, "mismatched types: expected `Path([\"bool\"], [])`, found `Path([\"i32\"], [])`");
}

#[test]
fn specialising_without_parameters_keeps_the_function() {
    let f = FnDecl {
        is_pub: true,
        name: "plain".to_string(),
        generic_params: Vec::new(),
        params: vec![Param { name: "a".to_string(), ty: path_type("i32"), span: Span::new(1, 1, 1, 1) }],
        ret_ty: None,
        body: Block { stmts: Vec::new(), span: Span::new(3, 1, 3, 2) },
        span: Span::new(1, 1, 3, 2),
    };
    let tc = TypeChecker::new("t.cx");
    let s = tc.specialize_fn(&f, &[]);
    assert_eq!(s.name, "plain_");
    assert_eq!(s.params, f.params);
    assert_eq!(s.body, f.body);
    assert!(s.is_pub);
}

#[test]
fn self_type_in_methods_is_resolved() {
    let src = "struct P {\n    x: i32\n}\nimpl P {\n    fn get(self: Self) -> i32 {\n        return self.x\n    }\n}\nfn main() {\n    let p = P { x: 1 }\n    let v: i32 = p.get()\n}\n";
    let errors = check_src(src);
    assert!(errors.is_empty(), "{:?}", errors);
}

#[test]
fn method_argument_count_is_e0117() {
    let src = "struct P {\n    x: i32\n}\nimpl P {\n    fn get(self: Self) -> i32 {\n        return self.x\n    }\n}\nfn main() {\n    let p = P { x: 1 }\n    let v = p.get(2)\n}\n";
    let errors = check_src(src);
    assert!(errors.iter().any(|e| e.code == "E0117" && e.message == "method `get` expected 0 arguments, found 1"));
}

#[test]
fn borrows_conflict_with_mutable_variables() {
    let errors = check_src("fn main() {\n    let mut a: i32 = 1\n    let r = &a\n    let s = &a\n}\n");
    assert!(errors.iter().any(|e| e.code == "E0204" && e.message == "cannot borrow `a` mutably because it is already borrowed"));
}

#[test]
fn first_function_decides_the_first_error() {
    let src = "fn main() {\n    let x: i32 = true;\n}\nfn other() {\n    let y: bool = 1;\n}\n";
    let errors = check_src(src);
    assert_eq!(errors.len(), 2);
    assert_eq!(errors[0].code, "E0102");
    assert_eq!(
        errors[0].message,
        "mismatched types: expected `Path([\"i32\"], [])`, found `Path([\"bool\"], [])`"
    );
    assert_eq!(errors[1].code, "E0102");
}
