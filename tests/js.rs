use comment_remover::{remove_js_comments};


#[test]
fn js_test_single_line_comments() {
    let input = "let x = 5; // this is a comment\nlet y = 10;";
    let expected = "let x = 5; \nlet y = 10;";
    assert_eq!(remove_js_comments(input), expected);
}

#[test]
fn js_test_block_comments() {
    let input = "let x = 5; /* this is a comment */ let y = 10;";
    let expected = "let x = 5;  let y = 10;";
    assert_eq!(remove_js_comments(input), expected);
}

#[test]
fn js_test_multiline_block_comments() {
    let input = "let x = 5;\n/* this is\n   a multiline\n   comment */\nlet y = 10;";
    let expected = "let x = 5;\n\n\n\nlet y = 10;";
    assert_eq!(remove_js_comments(input), expected);
}

#[test]
fn js_test_double_quoted_strings() {
    let input = r#"let msg = "hello // world"; // actual comment"#;
    let expected = r#"let msg = "hello // world"; "#;
    assert_eq!(remove_js_comments(input), expected);
}

#[test]
fn test_single_quoted_strings() {
    let input = "let msg = 'hello // world'; // actual comment";
    let expected = "let msg = 'hello // world'; ";
    assert_eq!(remove_js_comments(input), expected);
}

#[test]
fn test_template_literals() {
    let input = "let msg = `hello // world`; // actual comment";
    let expected = "let msg = `hello // world`; ";
    assert_eq!(remove_js_comments(input), expected);
}

#[test]
fn test_template_literals_with_expressions() {
    let input = "let msg = `value: ${x /* inner comment */ + 5}`; // outer comment";
    let expected = "let msg = `value: ${x /* inner comment */ + 5}`; ";
    assert_eq!(remove_js_comments(input), expected);
}

#[test]
fn test_template_literals_with_nested_braces() {
    let input = "let msg = `result: ${obj.method({a: 1})}`;";
    let expected = "let msg = `result: ${obj.method({a: 1})}`;";
    assert_eq!(remove_js_comments(input), expected);
}

#[test]
fn js_test_escaped_strings() {
    let input = r#"let msg = "hello \"world\""; // comment"#;
    let expected = r#"let msg = "hello \"world\""; "#;
    assert_eq!(remove_js_comments(input), expected);
}

#[test]
fn test_regex_literal_after_equals() {
    let input = "let pattern = /test/gi; // comment";
    let expected = "let pattern = /test/gi; ";
    assert_eq!(remove_js_comments(input), expected);
}

#[test]
fn test_regex_literal_after_return() {
    let input = "return /test/g; // comment";
    let expected = "return /test/g; ";
    assert_eq!(remove_js_comments(input), expected);
}

#[test]
fn test_regex_literal_with_escaped_slashes() {
    let input = r"let pattern = /test\/path/; // comment";
    let expected = r"let pattern = /test\/path/; ";
    assert_eq!(remove_js_comments(input), expected);
}

#[test]
fn test_division_not_treated_as_regex() {
    let input = "let result = x / 2; // comment";
    let expected = "let result = x / 2; ";
    assert_eq!(remove_js_comments(input), expected);
}

#[test]
fn js_test_complex_mixed_example() {
    let input = r#"
            // Initial comment
            const pattern = /test\/\d+/gi; // regex with flags
            const str = "hello // world"; /* block comment */
            const tpl = `value: ${x + 5}`; // template literal
            let result = x / 2; // division, not regex
            /* multiline
               comment here */
            function test() {
                return /^test$/; // regex after return
            }
        "#;
    let result = remove_js_comments(input);

    // Check that comments are removed
    assert!(!result.contains("// Initial comment"));
    assert!(!result.contains("/* block comment */"));
    assert!(!result.contains("/* multiline"));

    // Check that strings and patterns are preserved
    assert!(result.contains(r#""hello // world""#));
    assert!(result.contains("/test\\/\\d+/gi"));
    assert!(result.contains("`value: ${x + 5}`"));
    assert!(result.contains("return /^test$/"));
}

#[test]
fn test_comment_with_slashes_in_string() {
    let input = r#"let url = "http://example.com"; // this is a comment"#;
    let expected = r#"let url = "http://example.com"; "#;
    assert_eq!(remove_js_comments(input), expected);
}

#[test]
fn js_test_empty_string() {
    let input = "";
    let expected = "";
    assert_eq!(remove_js_comments(input), expected);
}

#[test]
fn test_only_comments() {
    let input = "// comment 1\n/* comment 2 */";
    let expected = "\n";
    assert_eq!(remove_js_comments(input), expected);
}

#[test]
fn js_test_no_comments() {
    let input = "let x = 5;\nlet y = 10;";
    let expected = "let x = 5;\nlet y = 10;";
    assert_eq!(remove_js_comments(input), expected);
}

#[test]
fn js_test_consecutive_comments() {
    let input = "x; // comment 1\n// comment 2\ny;";
    let expected = "x; \n\ny;";
    assert_eq!(remove_js_comments(input), expected);
}
