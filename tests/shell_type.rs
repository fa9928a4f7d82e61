use comment_remover::{remove_hash_comments_basic, remove_python_comments, remove_shell_comments};


#[test]
fn test_basic_hash_comment() {
    let input = "x = 5  # inline comment\ny = 10";
    let output = remove_hash_comments_basic(input);
    assert_eq!(output, "x = 5  \ny = 10");
}

#[test]
fn test_basic_with_strings() {
    let input = "echo \"# not a comment\"";
    let output = remove_hash_comments_basic(input);
    assert_eq!(output, "echo \"# not a comment\"");
}

#[test]
fn test_basic_with_shebang() {
    let input = "#!/bin/bash\n# This is a comment\necho hello";
    let output = remove_hash_comments_basic(input);
    assert_eq!(output, "#!/bin/bash\n\necho hello");
}

#[test]
fn test_shell_heredoc_unquoted() {
    let input = "cat <<EOF\n# This is not a comment\nSome text\nEOF\necho done";
    let output = remove_shell_comments(input);
    assert_eq!(
        output,
        "cat <<EOF\n# This is not a comment\nSome text\nEOF\necho done"
    );
}

#[test]
fn test_shell_heredoc_quoted() {
    let input = "cat <<'EOF'\n# This is not a comment\nSome text\nEOF\necho done";
    let output = remove_shell_comments(input);
    assert_eq!(
        output,
        "cat <<'EOF'\n# This is not a comment\nSome text\nEOF\necho done"
    );
}

#[test]
fn test_shell_line_continuation() {
    let input = "echo \"Hello\" \\\n# This is a comment\nWorld";
    let output = remove_shell_comments(input);
    assert_eq!(output, "echo \"Hello\" \\\n\nWorld");
}

#[test]
fn test_shell_with_shebang() {
    let input = "#!/usr/bin/env python3\n# This is a comment\nprint('hello')";
    let output = remove_shell_comments(input);
    assert_eq!(output, "#!/usr/bin/env python3\n\nprint('hello')");
}

#[test]
fn test_shell_escaped_hash() {
    let input = "echo \\#escaped # comment here";
    let output = remove_shell_comments(input);
    assert_eq!(output, "echo \\#escaped ");
}

#[test]
fn test_shell_hash_in_token() {
    let input = "VAR=value#notacomment\necho $VAR # real comment";
    let output = remove_shell_comments(input);
    assert_eq!(output, "VAR=value#notacomment\necho $VAR ");
}

#[test]
fn test_shell_line_continuation_with_comment() {
    let input = "echo \"Hello\" \\  # line continues\n&& echo \"World\"";
    let output = remove_shell_comments(input);
    assert_eq!(output, "echo \"Hello\" \\  \n&& echo \"World\"");
}

#[test]
fn test_python_triple_quotes_double() {
    let input = "def foo():\n    \"\"\"This is a docstring\n    # Not a comment\n    \"\"\"\n    x = 1  # real comment";
    let output = remove_python_comments(input);
    assert_eq!(
        output,
        "def foo():\n    \"\"\"This is a docstring\n    # Not a comment\n    \"\"\"\n    x = 1  "
    );
}

#[test]
fn test_python_triple_quotes_single() {
    let input = "x = '''multi\nline\n# string'''\ny = 5  # comment";
    let output = remove_python_comments(input);
    assert_eq!(output, "x = '''multi\nline\n# string'''\ny = 5  ");
}

#[test]
fn test_python_regular_comment() {
    let input = "# Python comment\ndef foo():\n    # indented comment\n    x = \"#notcomment\"\n    return x  # end comment";
    let output = remove_python_comments(input);
    assert_eq!(
        output,
        "\ndef foo():\n    \n    x = \"#notcomment\"\n    return x  "
    );
}

#[test]
fn test_python_with_shebang() {
    let input = "#!/usr/bin/python3\n# Comment\ndef foo(): pass";
    let output = remove_python_comments(input);
    assert_eq!(output, "#!/usr/bin/python3\n\ndef foo(): pass");
}
