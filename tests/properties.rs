use comment_remover::text::is_whitespace;
use comment_remover::{
    remove_c_type_comments, remove_go_comments, remove_hash_comments_basic, remove_js_comments,
    remove_python_comments, remove_rust_comments, remove_shell_comments, xml_type_remover,
};

fn newlines(s: &str) -> usize {
    s.chars().filter(|c| *c == '\n').count()
}

fn all_engines(input: &str) -> Vec<String> {
    vec![
        remove_c_type_comments(input),
        remove_go_comments(input),
        remove_js_comments(input),
        remove_rust_comments(input),
        remove_hash_comments_basic(input),
        remove_shell_comments(input),
        remove_python_comments(input),
        xml_type_remover(input),
    ]
}

#[test]
fn every_engine_keeps_the_newline_count() {
    let inputs = [
        "a // x\nb /* y\nz */ c\n# d\ne <!-- f\ng --> h\n",
        "/* unterminated\n\n",
        "x = '''\n#\n''' # c\n",
        "cat <<EOF\n# body\nEOF\n# after\n",
        "<script>\n<!-- a\nb -->\n</script>\n",
        "\"open string\n// still string\n",
        "",
    ];
    for input in inputs.iter() {
        for out in all_engines(input) {
            assert_eq!(newlines(&out), newlines(input), "input {:?} gave {:?}", input, out);
        }
    }
}

#[test]
fn rust_nested_comment_is_one_unit() {
    assert_eq!(remove_rust_comments("a /* b /* c */ d */ e"), "a  e");
}

#[test]
fn c_go_js_comments_do_not_nest() {
    assert_eq!(remove_c_type_comments("a /* b /* c */ d */ e"), "a  d */ e");
    assert_eq!(remove_go_comments("a /* b /* c */ d */ e"), "a  d */ e");
    assert_eq!(remove_js_comments("a /* b /* c */ d */ e"), "a  d */ e");
}

#[test]
fn js_regex_after_return_is_kept() {
    assert_eq!(remove_js_comments("return /x/g;"), "return /x/g;");
}

#[test]
fn js_division_is_not_a_regex() {
    assert_eq!(remove_js_comments("a / b; // c"), "a / b; ");
}

#[test]
fn js_regex_holding_comment_markers_is_kept() {
    assert_eq!(remove_js_comments("x = /a\\/\\/b/; // c"), "x = /a\\/\\/b/; ");
    assert_eq!(remove_js_comments("f(/\\/*x/)"), "f(/\\/*x/)");
}

#[test]
fn js_keyword_needs_a_word_boundary() {
    // `xreturn` is an identifier, so the slash divides and `// c` is a comment.
    assert_eq!(remove_js_comments("xreturn / 2 // c"), "xreturn / 2 ");
    // after the keyword `typeof`, preceded by a space, a regex starts.
    assert_eq!(remove_js_comments("x = typeof /a//"), "x = typeof /a//");
    // whitespace of any kind between the keyword and the slash is skipped.
    assert_eq!(remove_js_comments("return\t\u{a0} /a//g"), "return\t\u{a0} /a//g");
}

#[test]
fn js_template_interpolation_keeps_braces() {
    assert_eq!(
        remove_js_comments("`a ${ {b: 1}.b } c` // d"),
        "`a ${ {b: 1}.b } c` "
    );
}

#[test]
fn shell_heredoc_body_is_kept() {
    let input = "cat <<EOF\n# not a comment\nEOF\n";
    assert_eq!(remove_shell_comments(input), input);
}

#[test]
fn shell_heredoc_with_dash_and_indented_delimiter() {
    let input = "cat <<- \"END\"\n\t# kept\n\tEND\n# gone\n";
    assert_eq!(remove_shell_comments(input), "cat <<- \"END\"\n\t# kept\n\tEND\n\n");
}

#[test]
fn shell_hash_after_tab_is_a_comment() {
    assert_eq!(remove_shell_comments("a\t# c\nb"), "a\t\nb");
    assert_eq!(remove_shell_comments("a#b # c"), "a#b ");
}

#[test]
fn shell_line_continuation_keeps_leading_blanks() {
    assert_eq!(remove_shell_comments("a \\\n   b # c"), "a \\\n   b ");
}

#[test]
fn markup_script_string_is_kept() {
    let input = "<script>var x = \"<!-- not a comment -->\";</script>";
    assert_eq!(xml_type_remover(input), input);
}

#[test]
fn markup_closing_tag_keeps_its_case() {
    let input = "<SCRIPT>a</SCRIPT><!-- c -->";
    assert_eq!(xml_type_remover(input), "<SCRIPT>a</SCRIPT>");
}

#[test]
fn markup_unterminated_instruction_is_kept() {
    assert_eq!(xml_type_remover("<?xml a"), "<?xml a");
}

#[test]
fn comment_free_input_is_unchanged() {
    let code = "int main() { return \"a // b\"[0]; }\n";
    assert_eq!(remove_c_type_comments(code), code);
    assert_eq!(remove_go_comments(code), code);
    assert_eq!(remove_js_comments(code), code);
    assert_eq!(remove_rust_comments(code), code);
    let script = "#!/bin/sh\necho \"# x\" a#b\n";
    assert_eq!(remove_hash_comments_basic("echo \"# x\"\n"), "echo \"# x\"\n");
    assert_eq!(remove_shell_comments(script), script);
    assert_eq!(remove_python_comments("s = '''\n# x\n'''\n"), "s = '''\n# x\n'''\n");
    let page = "<!DOCTYPE html><a href='<!-- x -->'><![CDATA[<!-- y -->]]></a>";
    assert_eq!(xml_type_remover(page), page);
}

#[test]
fn empty_input_gives_empty_output() {
    for out in all_engines("") {
        assert_eq!(out, "");
    }
}

#[test]
fn unterminated_literals_run_to_the_end() {
    assert_eq!(remove_c_type_comments("\"a // b"), "\"a // b");
    assert_eq!(remove_go_comments("`a // b"), "`a // b");
    assert_eq!(remove_js_comments("`a ${ // b"), "`a ${ // b");
    assert_eq!(remove_rust_comments("r#\"a // b\"## c"), "r#\"a // b\"## c");
    assert_eq!(remove_python_comments("'''a # b"), "'''a # b");
    assert_eq!(xml_type_remover("<![CDATA[a <!-- b"), "<![CDATA[a <!-- b");
}

#[test]
fn rust_raw_string_closes_on_exact_hash_count() {
    assert_eq!(
        remove_rust_comments("r##\"a\"# b\"## // c"),
        "r##\"a\"# b\"## "
    );
    assert_eq!(remove_rust_comments("br\"/* x */\" /* y */"), "br\"/* x */\" ");
}

#[test]
fn rust_unterminated_nested_comment_runs_to_the_end() {
    assert_eq!(remove_rust_comments("a /* b /* c */\n d"), "a \n");
}

#[test]
fn go_unterminated_block_comment_runs_to_the_end() {
    assert_eq!(remove_go_comments("a /* b\nc"), "a \n");
    assert_eq!(remove_js_comments("a /* b\nc"), "a \n");
}

#[test]
fn c_block_comment_keeps_only_newlines() {
    assert_eq!(remove_c_type_comments("a /* b\r\nc */ d"), "a \n d");
}

#[test]
fn c_line_comment_ends_at_the_first_newline() {
    assert_eq!(remove_c_type_comments("// a \\\nint y;"), "\nint y;");
    assert_eq!(remove_c_type_comments("x; // a\r\ny;"), "x; \ny;");
}

#[test]
fn whitespace_class_matches_std() {
    for v in 0u32..=0x10FFFF {
        if let Some(c) = char::from_u32(v) {
            assert_eq!(is_whitespace(c), c.is_whitespace(), "U+{:04X}", v);
        }
    }
}

#[test]
fn shebang_is_kept_by_every_hash_engine() {
    let input = "#!/usr/bin/env x # y\n# z\nw";
    assert_eq!(remove_hash_comments_basic(input), "#!/usr/bin/env x # y\n\nw");
    assert_eq!(remove_shell_comments(input), "#!/usr/bin/env x # y\n\nw");
    assert_eq!(remove_python_comments(input), "#!/usr/bin/env x # y\n\nw");
    assert_eq!(remove_shell_comments("#!/bin/sh"), "#!/bin/sh");
}

#[test]
fn multibyte_chars_are_kept_whole() {
    assert_eq!(remove_c_type_comments("é /* ü\n */ ß"), "é \n ß");
    assert_eq!(xml_type_remover("日本<!--語-->"), "日本");
}

#[test]
fn literal_between_texts_splits_the_output() {
    let join = |a: &str, l: &str, b: &str| format!("{}{}{}", a, l, b);
    let (a, l, b) = ("x = 1; /* c */ ", "\"// k \\\" /*\"", " y; // z\nw");
    assert_eq!(
        remove_c_type_comments(&join(a, l, b)),
        join(&remove_c_type_comments(a), l, &remove_c_type_comments(b))
    );
    let (a, l, b) = ("p := 1 // c\n", "`C:\\x // y`", " /* z */ q");
    assert_eq!(
        remove_go_comments(&join(a, l, b)),
        join(&remove_go_comments(a), l, &remove_go_comments(b))
    );
    let (a, l, b) = ("let s = /* c */ ", "r##\"a\"# // b\"##", "; // z");
    assert_eq!(
        remove_rust_comments(&join(a, l, b)),
        join(&remove_rust_comments(a), l, &remove_rust_comments(b))
    );
    let (a, l, b) = ("x = 1 # c\n", "\"# not\"", " # z");
    assert_eq!(
        remove_hash_comments_basic(&join(a, l, b)),
        join(&remove_hash_comments_basic(a), l, &remove_hash_comments_basic(b))
    );
    let (a, l, b) = ("<a><!-- c --> ", "<![CDATA[<!-- k -->]]>", "<!-- z --></a>");
    assert_eq!(
        xml_type_remover(&join(a, l, b)),
        join(&xml_type_remover(a), l, &xml_type_remover(b))
    );
}

#[test]
fn literal_after_text_follows_its_output() {
    let (a, l) = ("let t = /* c */ ", "`// kept /* too */`");
    let out = remove_js_comments(&format!("{}{}; // z", a, l));
    assert!(out.starts_with(&format!("{}{}", remove_js_comments(a), l)));
    let (a, l) = ("echo x # c\necho ", "'# kept'");
    let out = remove_shell_comments(&format!("{}{} # z", a, l));
    assert!(out.starts_with(&format!("{}{}", remove_shell_comments(a), l)));
    let (a, l) = ("x = 1  # c\ns = ", "'''\n# kept\n'''");
    let out = remove_python_comments(&format!("{}{}  # z", a, l));
    assert!(out.starts_with(&format!("{}{}", remove_python_comments(a), l)));
}
