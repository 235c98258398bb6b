use starc::diagnostics::Diagnostic;
use starc::lexer::Lexer;
use starc::parser::Parser;
use starc::typeck::TypeChecker;

fn diagnostics_of(src: &str) -> Vec<Diagnostic> {
    let lexer = Lexer::new(src, "codes.cx");
    let mut parser = Parser::new(lexer, "codes.cx").unwrap();
    let module = parser.parse_module().unwrap();
    assert!(parser.diagnostics.is_empty(), "{:?}", parser.diagnostics);
    let mut tc = TypeChecker::new("codes.cx");
    tc.check_module(&module);
    tc.diagnostics
}

fn has(src: &str, code: &str, message: &str) {
    let ds = diagnostics_of(src);
    assert!(ds.iter().any(|d| d.code == code && d.message == message), "{:?}", ds);
}

#[test]
fn assignment_mismatch_is_e0102() {
    has(
        "fn main() {\n    let mut a: i32 = 1\n    a = true\n}\n",
        "E0102",
        "mismatched types in assignment: expected `Path([\"i32\"], [])`, found `Path([\"bool\"], [])`",
    );
}

#[test]
fn value_returned_from_void_function_is_e0106() {
    has("fn f() {\n    return 1\n}\n", "E0106", "mismatched return type: expected void, found `Path([\"i32\"], [])`");
}

#[test]
fn missing_return_value_is_e0105() {
    has("fn f() -> i32 {\n    return\n}\n", "E0105", "mismatched return type: expected `Path([\"i32\"], [])`, found void");
}

#[test]
fn dereferencing_a_value_is_e0112() {
    has("fn main() {\n    let a: i32 = 1\n    let b = *a\n}\n", "E0112", "cannot dereference type `Path([\"i32\"], [])`");
}

#[test]
fn field_of_a_pointer_is_e0113() {
    has("fn f(p: raw *i32) {\n    let a = p.x\n}\n", "E0113", "receiver is not a struct");
}

#[test]
fn method_of_a_pointer_is_e0115() {
    has("fn f(p: raw *i32) {\n    let a = p.get()\n}\n", "E0115", "receiver is not a struct");
}

#[test]
fn method_without_self_is_e0116() {
    has(
        "struct P {\n    x: i32\n}\nimpl P {\n    fn make() -> i32 {\n        return 1\n    }\n}\nfn main() {\n    let p = P { x: 1 }\n    let a = p.make()\n}\n",
        "E0116",
        "method `make` has no `self` parameter",
    );
}

#[test]
fn method_argument_mismatch_is_e0118() {
    has(
        "struct P {\n    x: i32\n}\nimpl P {\n    fn add(self: Self, n: i32) -> i32 {\n        return n\n    }\n}\nfn main() {\n    let p = P { x: 1 }\n    let a = p.add(true)\n}\n",
        "E0118",
        "mismatched types in method call: expected `Path([\"i32\"], [])`, found `Path([\"bool\"], [])`",
    );
}

#[test]
fn unknown_method_is_e0116() {
    has(
        "struct P {\n    x: i32\n}\nfn main() {\n    let p = P { x: 1 }\n    let a = p.nothing()\n}\n",
        "E0116",
        "no method `nothing` on type `P`",
    );
}

#[test]
fn calling_a_literal_is_e0120() {
    has("fn main() {\n    let a = 1(2)\n}\n", "E0120", "callee is not a function");
}

#[test]
fn call_argument_mismatch_is_e0118() {
    has(
        "fn f(a: i32) -> i32 {\n    return a\n}\nfn main() {\n    let b = f(true)\n}\n",
        "E0118",
        "mismatched types in function call: expected `Path([\"i32\"], [])`, found `Path([\"bool\"], [])`",
    );
}

#[test]
fn struct_field_mismatch_is_e0124() {
    has(
        "struct P {\n    x: i32\n}\nfn main() {\n    let p = P { x: true }\n}\n",
        "E0124",
        "mismatched field type for `x`: expected `Path([\"i32\"], [])`, found `Path([\"bool\"], [])`",
    );
}

#[test]
fn unknown_struct_field_is_e0125() {
    has("struct P {\n    x: i32\n}\nfn main() {\n    let p = P { x: 1, z: 2 }\n}\n", "E0125", "struct `P` has no field `z`");
}

#[test]
fn unknown_struct_is_e0110() {
    has("fn main() {\n    let p = Q { x: 1 }\n}\n", "E0110", "cannot find struct `Q` in this scope");
}

#[test]
fn if_condition_must_be_bool() {
    has("fn main() {\n    if 1 {\n    }\n}\n", "E0128", "if condition must be bool, found `Path([\"i32\"], [])`");
}

#[test]
fn else_if_condition_must_be_bool() {
    has("fn main() {\n    if true {\n    } else if 2 {\n    }\n}\n", "E0128", "if condition must be bool, found `Path([\"i32\"], [])`");
}

#[test]
fn question_mark_needs_result_or_option() {
    has("fn main() {\n    let a = 1?;\n}\n", "E0129", "operator ? cannot be applied to type `Path([\"i32\"], [])`");
}

#[test]
fn indexing_a_value_is_e0130() {
    has("fn main() {\n    let a: i32 = 1\n    let b = a[0]\n}\n", "E0130", "cannot index into non-slice type `Path([\"i32\"], [])`");
}

#[test]
fn slice_index_must_be_an_integer() {
    has("fn f(s: []i32) {\n    let a = s[true]\n}\n", "E0131", "slice index must be an integer, found `Path([\"bool\"], [])`");
}

#[test]
fn borrowing_mutably_borrowed_variable_is_e0204() {
    let ds = diagnostics_of("fn main() {\n    let mut a: i32 = 1\n    let r = &a\n    let s = &a\n}\n");
    assert!(ds.iter().any(|d| d.code == "E0204"));
}

#[test]
fn references_cannot_be_sent_to_threads() {
    has(
        "fn spawn(a: &i32) {}\nfn main() {\n    let a: i32 = 1\n    spawn(&a)\n}\n",
        "E0205",
        "cannot pass reference as thread argument in safe code",
    );
}

#[test]
fn nested_types_print_their_spans() {
    has(
        "fn f(a: &i32) {\n    let b: bool = a\n}\n",
        "E0102",
        "mismatched types: expected `Path([\"bool\"], [])`, found `Ref(Type { kind: Path([\"i32\"], []), span: Span { start_line: 1, start_col: 10, end_line: 1, end_col: 16 } })`",
    );
}

#[test]
fn literal_operands_of_different_types_are_e0102() {
    has(
        "fn main() {\n    let a = 1 + true\n}\n",
        "E0102",
        "mismatched types in binary operation: `Path([\"i32\"], [])` and `Path([\"bool\"], [])`",
    );
}

#[test]
fn comparing_literals_gives_no_error() {
    assert!(diagnostics_of("fn main() {\n    let a: bool = 1 < 2\n}\n").is_empty());
}

#[test]
fn shared_borrows_of_an_immutable_variable_coexist() {
    let ds = diagnostics_of("fn main() {\n    let a: i32 = 1\n    let r = &a\n    let s = &a\n}\n");
    assert!(ds.iter().all(|d| d.code != "E0204"), "{:?}", ds);
}

#[test]
fn a_borrow_ends_with_its_block() {
    let ds = diagnostics_of("fn main() {\n    let mut a: i32 = 1\n    if true {\n        let r = &a\n    }\n    let s = &a\n}\n");
    assert!(ds.iter().all(|d| d.code != "E0204"), "{:?}", ds);
}

#[test]
fn repeated_parameter_is_e0101() {
    has("fn f(a: i32, a: i32) {\n}\n", "E0101", "redefinition of local variable `a`");
}

#[test]
fn uninferable_generic_is_e0122() {
    has("fn id<T>(x: T) -> T {\n    return x\n}\nfn main() {\n    id()\n}\n", "E0122", "cannot infer generic type of `id`");
}
