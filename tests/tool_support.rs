use comment_remover::language::{
    comment_query, detect_language, get_supported_languages, language_for_extension,
    parse_language, TreeSitterLanguage,
};
use comment_remover::ranges::remove_comment_ranges;
use comment_remover::whitespace::collapse_whitespace;

#[test]
fn language_names_are_read_in_any_case() {
    assert_eq!(parse_language("Rust"), Ok(TreeSitterLanguage::Rust));
    assert_eq!(parse_language("C++"), Ok(TreeSitterLanguage::Cpp));
    assert_eq!(parse_language("c#"), Ok(TreeSitterLanguage::CSharp));
    assert_eq!(parse_language("golang"), Ok(TreeSitterLanguage::Go));
    assert_eq!(parse_language("TS"), Ok(TreeSitterLanguage::TypeScript));
}

#[test]
fn unknown_language_name_is_an_error() {
    assert_eq!(
        parse_language("Cobol"),
        Err("Language 'Cobol' is not supported or not compiled in this build".to_string())
    );
    assert!(parse_language("").is_err());
}

#[test]
fn language_is_detected_from_the_extension() {
    assert_eq!(detect_language("src/main.rs"), Some(TreeSitterLanguage::Rust));
    assert_eq!(detect_language("page.HTM"), Some(TreeSitterLanguage::Html));
    assert_eq!(detect_language("lib/x.hpp"), Some(TreeSitterLanguage::Cpp));
    assert_eq!(detect_language("Makefile"), None);
    assert_eq!(detect_language("notes.txt"), None);
    assert_eq!(language_for_extension("MJS"), Some(TreeSitterLanguage::JavaScript));
    assert_eq!(language_for_extension("pyw"), Some(TreeSitterLanguage::Python));
}

#[test]
fn supported_languages_are_listed() {
    assert_eq!(
        get_supported_languages(),
        "bash, c, c#, c++, css, go, haskell, html, java, javascript, lua, php, python, ruby, rust, scala, swift, typescript"
    );
}

#[test]
fn comment_queries_follow_the_grammar() {
    assert_eq!(
        comment_query(TreeSitterLanguage::Java),
        "(line_comment) @comment (block_comment) @comment"
    );
    assert_eq!(comment_query(TreeSitterLanguage::Python), "(comment) @comment");
}

#[test]
fn blank_line_runs_are_cut() {
    assert_eq!(collapse_whitespace("a\n\n\n\nb\n", 1), "a\n\nb\n");
    assert_eq!(collapse_whitespace("a\n\n\n\nb\n", 0), "a\nb\n");
    assert_eq!(collapse_whitespace("a\n \t\n\nb", 5), "a\n \t\n\nb");
    assert_eq!(collapse_whitespace("a\r\n\r\nb", 0), "a\nb");
    assert_eq!(collapse_whitespace("", 2), "");
    assert_eq!(collapse_whitespace("\n\n\n", 1), "\n");
    assert_eq!(collapse_whitespace("a\r", 0), "a\r");
    assert_eq!(collapse_whitespace("a\r\nb\r", 0), "a\nb\r");
}

#[test]
fn comment_ranges_are_removed_keeping_newlines() {
    assert_eq!(remove_comment_ranges("ab/*c\nd*/e", vec![(2, 9)]), "ab\ne");
    assert_eq!(remove_comment_ranges("é//x\ny", vec![(2, 5)]), "é\ny");
    assert_eq!(remove_comment_ranges("a#b\nc#d", vec![(5, 7), (1, 3)]), "a\nc");
    assert_eq!(remove_comment_ranges("abc", vec![]), "abc");
    assert_eq!(remove_comment_ranges("abc", vec![(0, 2), (1, 3)]), "");
}
