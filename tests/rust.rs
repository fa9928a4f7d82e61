use comment_remover::{remove_rust_comments};


#[test]
fn rust_test_single_line_comment() {
    let input = "int main() {\n    // This is a comment\n    return 0;\n}";
    let output = remove_rust_comments(input);
    assert_eq!(output, "int main() {\n    \n    return 0;\n}");
}

#[test]
fn rust_test_multi_line_comment() {
    let input = "int x = 5; /* multi\nline\ncomment */ int y = 10;";
    let output = remove_rust_comments(input);
    assert_eq!(output, "int x = 5; \n\n int y = 10;");
}

#[test]
fn test_nested_block_comments() {
    let input = "int x; /* outer /* inner */ still commented */ int y;";
    let output = remove_rust_comments(input);
    assert_eq!(output, "int x;  int y;");
}

#[test]
fn rust_test_comment_in_string() {
    let input = r#"char* s = "// not a comment";"#;
    let output = remove_rust_comments(input);
    assert_eq!(output, r#"char* s = "// not a comment";"#);
}

#[test]
fn test_comment_in_raw_string() {
    let input = r##"let s = r#"// not a comment /* also not */"#;"##;
    let output = remove_rust_comments(input);
    assert_eq!(output, r##"let s = r#"// not a comment /* also not */"#;"##);
}

#[test]
fn test_raw_string_basic() {
    let input = r#"let s = r"test";"#;
    let output = remove_rust_comments(input);
    assert_eq!(output, r#"let s = r"test";"#);
}

#[test]
fn test_raw_string_with_quotes() {
    let input = r##"let s = r#"test"ing"#;"##;
    let output = remove_rust_comments(input);
    assert_eq!(output, r##"let s = r#"test"ing"#;"##);
}

#[test]
fn test_byte_string() {
    let input = r#"let s = b"// not a comment";"#;
    let output = remove_rust_comments(input);
    assert_eq!(output, r#"let s = b"// not a comment";"#);
}

#[test]
fn test_byte_char() {
    let input = r"let c = b'/'; // actual comment";
    let output = remove_rust_comments(input);
    assert_eq!(output, "let c = b'/'; ");
}

#[test]
fn test_raw_byte_string() {
    let input = r##"let s = br#"/* not a comment */"#;"##;
    let output = remove_rust_comments(input);
    assert_eq!(output, r##"let s = br#"/* not a comment */"#;"##);
}

#[test]
fn rust_test_mixed_comments() {
    let input = "// line comment\nint x; /* block */ int y; // another";
    let output = remove_rust_comments(input);
    assert_eq!(output, "\nint x;  int y; ");
}

#[test]
fn rust_test_escaped_quotes_in_string() {
    let input = r#"char* s = "He said \"Hi // there\"";"#;
    let output = remove_rust_comments(input);
    assert_eq!(output, r#"char* s = "He said \"Hi // there\"";"#);
}

#[test]
fn rust_test_escaped_quotes_in_char() {
    let input = r"let c = '\''; // comment";
    let output = remove_rust_comments(input);
    assert_eq!(output, "let c = '\\''; ");
}

#[test]
fn rust_test_backslash_in_char() {
    let input = r"let c = '\\'; // comment";
    let output = remove_rust_comments(input);
    assert_eq!(output, "let c = '\\\\'; ");
}

#[test]
fn test_complex_nesting() {
    let input = "code /* a /* b /* c */ d */ e */ more";
    let output = remove_rust_comments(input);
    assert_eq!(output, "code  more");
}

#[test]
fn rust_test_string_with_asterisk_slash() {
    let input = r#"let s = "*/"; /* comment */ code"#;
    let output = remove_rust_comments(input);
    assert_eq!(output, r#"let s = "*/";  code"#);
}

#[test]
fn test_multiple_raw_string_hashes() {
    let input = r###"let s = r##"test"#still"##;"###;
    let output = remove_rust_comments(input);
    assert_eq!(output, r###"let s = r##"test"#still"##;"###);
}
