use starc::fmt::{
    analyze_and_format_line, beautify_spacing, ensure_trailing_space, format_code, skip_whitespace,
    trim_trailing_whitespace,
};

#[test]
fn indents_by_brace_depth() {
    assert_eq!(format_code("fn main() {\nlet x=1\n}\n"), "fn main() {\n    let x = 1\n}\n");
}

#[test]
fn nested_blocks_and_closing_lines() {
    let src = "fn f() {\nif a {\nb()\n} else {\nc()\n}\n}";
    let expected = "fn f() {\n    if a {\n        b()\n    } else {\n        c()\n    }\n}\n";
    assert_eq!(format_code(src), expected);
}

#[test]
fn blank_lines_collapse_to_one() {
    assert_eq!(format_code("a\n\n\n\nb"), "a\n\nb\n");
    assert_eq!(format_code("\n\n"), "\n");
}

#[test]
fn empty_input_formats_to_empty() {
    assert_eq!(format_code(""), "");
}

#[test]
fn output_ends_with_newline() {
    for src in ["x", "x\n", "{\n}", "  a  \n\n b"] {
        let out = format_code(src);
        assert!(out.is_empty() || out.ends_with('\n'));
    }
}

#[test]
fn braces_in_strings_and_comments_do_not_indent() {
    let src = "let s = \"{\"\n// {\nx";
    assert_eq!(format_code(src), "let s = \"{\"\n// {\nx\n");
}

#[test]
fn block_comment_spans_lines() {
    let src = "/* {\n{ */\nx";
    assert_eq!(format_code(src), "/* {\n{ */\nx\n");
}

#[test]
fn spacing_around_operators() {
    assert_eq!(beautify_spacing("a==b"), "a == b");
    assert_eq!(beautify_spacing("a=>b"), "a => b");
    assert_eq!(beautify_spacing("fn f()->i32"), "fn f() -> i32");
    assert_eq!(beautify_spacing("a!=b"), "a != b");
    assert_eq!(beautify_spacing("a<=b"), "a <= b");
    assert_eq!(beautify_spacing("a>=b"), "a >= b");
    assert_eq!(beautify_spacing("x=1+2"), "x = 1 + 2");
    assert_eq!(beautify_spacing("a-b"), "a - b");
    assert_eq!(beautify_spacing("-1"), "-1");
}

#[test]
fn spacing_around_punctuation() {
    assert_eq!(beautify_spacing("f(a,b)"), "f(a, b)");
    assert_eq!(beautify_spacing("a :i32"), "a: i32");
    assert_eq!(beautify_spacing("std :: io"), "std::io");
    assert_eq!(beautify_spacing("fn f(){"), "fn f() {");
}

#[test]
fn pointers_and_references_keep_their_operator() {
    assert_eq!(beautify_spacing("raw *=x"), "raw *=x");
    assert_eq!(beautify_spacing("&=x"), "&=x");
}

#[test]
fn strings_and_comments_are_kept() {
    assert_eq!(beautify_spacing("s = \"a==b\""), "s = \"a==b\"");
    assert_eq!(beautify_spacing("x=1 // a==b"), "x = 1 // a==b");
    assert_eq!(beautify_spacing("x /* a==b */ y"), "x /* a==b */ y");
}

#[test]
fn trailing_whitespace_is_dropped() {
    assert_eq!(beautify_spacing("a,"), "a,");
    assert_eq!(beautify_spacing("x  "), "x");
}

#[test]
fn analyze_counts_braces_and_closing() {
    let mut in_block = false;
    let (line, diff, closing) = analyze_and_format_line("} else {", &mut in_block);
    assert_eq!(line, "} else {");
    assert_eq!(diff, 0);
    assert!(closing);
    assert!(!in_block);

    let (_, diff, closing) = analyze_and_format_line("x /* {", &mut in_block);
    assert_eq!(diff, 0);
    assert!(!closing);
    assert!(in_block);

    let (_, diff, closing) = analyze_and_format_line("} */ }", &mut in_block);
    assert_eq!(diff, -1);
    assert!(closing);
    assert!(!in_block);
}

#[test]
fn helper_functions() {
    let mut s = String::from("ab");
    ensure_trailing_space(&mut s);
    assert_eq!(s, "ab ");
    ensure_trailing_space(&mut s);
    assert_eq!(s, "ab ");
    let mut e = String::new();
    ensure_trailing_space(&mut e);
    assert_eq!(e, "");

    let mut t = String::from("x   ");
    trim_trailing_whitespace(&mut t);
    assert_eq!(t, "x");

    let chars: Vec<char> = "a  \tb".chars().collect();
    let mut i = 1;
    skip_whitespace(&chars, &mut i);
    assert_eq!(i, 4);
}

#[test]
fn a_colon_after_a_colon_stays_apart() {
    let once = format_code("a: :b");
    assert_eq!(once, "a: : b\n");
    assert_eq!(format_code(&once), once);
}
