//! Choosing a language: by its name, or by a file's extension. The languages
//! are those whose grammars the command-line tool can parse with.
use vstd::prelude::*;
use crate::text::chars_of;

verus! {

/// A language that the grammar-driven command-line tool can strip.
#[derive(Clone, Copy, Debug, PartialEq, Eq, Structural)]
pub enum TreeSitterLanguage {
    Bash,
    C,
    CSharp,
    Cpp,
    Css,
    Go,
    Haskell,
    Html,
    Java,
    JavaScript,
    Lua,
    Php,
    Python,
    Ruby,
    Rust,
    Scala,
    Swift,
    TypeScript,
}

/// What `str::to_lowercase` returns for `s`.
pub uninterp spec fn lower_of(s: Seq<char>) -> Seq<char>;

/// Relies on `str::to_lowercase`: the lowercase form of `s`, which depends on
/// the characters of `s` alone.
#[verifier::external_body]
fn lowercase(s: &str) -> (r: String)
    ensures
        r@ == lower_of(s@),
{
    s.to_lowercase()
}

/// `p` holds `e` right after a `.`.
pub open spec fn follows_dot(p: Seq<char>, e: Seq<char>) -> bool {
    exists|k: int|
        0 < k && k + e.len() <= p.len() && p[k - 1] == '.' && #[trigger] p.subrange(k, k + e.len())
            == e
}

/// Relies on `Path::extension`: the extension of the file that `path` names, when
/// it has one. Where the path's components end depends on the platform; on every
/// one the extension is a part of the path that follows a `.`, and a path without
/// a `.` has none.
#[verifier::external_body]
fn file_extension(path: &str) -> (r: Option<String>)
    ensures
        r matches Some(e) ==> follows_dot(path@, e@),
        !path@.contains('.') ==> r is None,
{
    let ext = std::path::Path::new(path).extension()?;
    Some(ext.to_str()?.to_string())
}

/// The language that the lowercase name `n` stands for.
pub open spec fn language_named(n: Seq<char>) -> Option<TreeSitterLanguage> {
    if n == "bash"@ || n == "sh"@ {
        Some(TreeSitterLanguage::Bash)
    } else if n == "c"@ {
        Some(TreeSitterLanguage::C)
    } else if n == "c#"@ || n == "csharp"@ || n == "cs"@ {
        Some(TreeSitterLanguage::CSharp)
    } else if n == "c++"@ || n == "cpp"@ || n == "cc"@ || n == "cxx"@ {
        Some(TreeSitterLanguage::Cpp)
    } else if n == "css"@ {
        Some(TreeSitterLanguage::Css)
    } else if n == "go"@ || n == "golang"@ {
        Some(TreeSitterLanguage::Go)
    } else if n == "haskell"@ || n == "hs"@ {
        Some(TreeSitterLanguage::Haskell)
    } else if n == "html"@ || n == "htm"@ {
        Some(TreeSitterLanguage::Html)
    } else if n == "java"@ {
        Some(TreeSitterLanguage::Java)
    } else if n == "javascript"@ || n == "js"@ {
        Some(TreeSitterLanguage::JavaScript)
    } else if n == "lua"@ {
        Some(TreeSitterLanguage::Lua)
    } else if n == "php"@ {
        Some(TreeSitterLanguage::Php)
    } else if n == "python"@ || n == "py"@ {
        Some(TreeSitterLanguage::Python)
    } else if n == "ruby"@ || n == "rb"@ {
        Some(TreeSitterLanguage::Ruby)
    } else if n == "rust"@ || n == "rs"@ {
        Some(TreeSitterLanguage::Rust)
    } else if n == "scala"@ {
        Some(TreeSitterLanguage::Scala)
    } else if n == "swift"@ {
        Some(TreeSitterLanguage::Swift)
    } else if n == "typescript"@ || n == "ts"@ {
        Some(TreeSitterLanguage::TypeScript)
    } else {
        None
    }
}

/// The language of files whose lowercase extension is `n`.
pub open spec fn language_of_extension(n: Seq<char>) -> Option<TreeSitterLanguage> {
    if n == "sh"@ || n == "bash"@ {
        Some(TreeSitterLanguage::Bash)
    } else if n == "c"@ || n == "h"@ {
        Some(TreeSitterLanguage::C)
    } else if n == "cs"@ {
        Some(TreeSitterLanguage::CSharp)
    } else if n == "cpp"@ || n == "cc"@ || n == "cxx"@ || n == "hpp"@ || n == "hxx"@ || n == "c++"@ {
        Some(TreeSitterLanguage::Cpp)
    } else if n == "css"@ {
        Some(TreeSitterLanguage::Css)
    } else if n == "go"@ {
        Some(TreeSitterLanguage::Go)
    } else if n == "hs"@ {
        Some(TreeSitterLanguage::Haskell)
    } else if n == "html"@ || n == "htm"@ {
        Some(TreeSitterLanguage::Html)
    } else if n == "java"@ {
        Some(TreeSitterLanguage::Java)
    } else if n == "js"@ || n == "jsx"@ || n == "mjs"@ || n == "cjs"@ {
        Some(TreeSitterLanguage::JavaScript)
    } else if n == "lua"@ {
        Some(TreeSitterLanguage::Lua)
    } else if n == "php"@ {
        Some(TreeSitterLanguage::Php)
    } else if n == "py"@ || n == "pyw"@ {
        Some(TreeSitterLanguage::Python)
    } else if n == "rb"@ {
        Some(TreeSitterLanguage::Ruby)
    } else if n == "rs"@ {
        Some(TreeSitterLanguage::Rust)
    } else if n == "scala"@ {
        Some(TreeSitterLanguage::Scala)
    } else if n == "swift"@ {
        Some(TreeSitterLanguage::Swift)
    } else if n == "ts"@ || n == "tsx"@ || n == "mts"@ || n == "cts"@ {
        Some(TreeSitterLanguage::TypeScript)
    } else {
        None
    }
}

/// The message for a language name `s` that names no language.
pub open spec fn unsupported_message(s: Seq<char>) -> Seq<char> {
    "Language '"@ + s + "' is not supported or not compiled in this build"@
}

/// The names of the languages, as listed to users.
pub open spec fn supported_listing() -> Seq<char> {
    "bash, c, c#, c++, css, go, haskell, html, java, javascript, lua, php, python, ruby, rust, scala, swift, typescript"@
}

/// Whether `v` spells `w`.
fn is_word(v: &Vec<char>, w: &str) -> (r: bool)
    ensures
        r == (v@ == w@),
{
    let m = w.unicode_len();
    if v.len() != m {
        return false;
    }
    let mut j: usize = 0;
    while j < m
        invariant
            m == w@.len(),
            m == v@.len(),
            j <= m,
            forall|x: int| 0 <= x < j ==> v@[x] == w@[x],
        decreases m - j,
    {
        if v[j] != w.get_char(j) {
            return false;
        }
        j += 1;
    }
    proof {
        assert(v@ =~= w@);
    }
    true
}

/// The language that the lowercase name `n` stands for (see `language_named`).
fn language_with_name(n: &Vec<char>) -> (r: Option<TreeSitterLanguage>)
    ensures
        r == language_named(n@),
{
    if is_word(n, "bash") || is_word(n, "sh") {
        Some(TreeSitterLanguage::Bash)
    } else if is_word(n, "c") {
        Some(TreeSitterLanguage::C)
    } else if is_word(n, "c#") || is_word(n, "csharp") || is_word(n, "cs") {
        Some(TreeSitterLanguage::CSharp)
    } else if is_word(n, "c++") || is_word(n, "cpp") || is_word(n, "cc") || is_word(n, "cxx") {
        Some(TreeSitterLanguage::Cpp)
    } else if is_word(n, "css") {
        Some(TreeSitterLanguage::Css)
    } else if is_word(n, "go") || is_word(n, "golang") {
        Some(TreeSitterLanguage::Go)
    } else if is_word(n, "haskell") || is_word(n, "hs") {
        Some(TreeSitterLanguage::Haskell)
    } else if is_word(n, "html") || is_word(n, "htm") {
        Some(TreeSitterLanguage::Html)
    } else if is_word(n, "java") {
        Some(TreeSitterLanguage::Java)
    } else if is_word(n, "javascript") || is_word(n, "js") {
        Some(TreeSitterLanguage::JavaScript)
    } else if is_word(n, "lua") {
        Some(TreeSitterLanguage::Lua)
    } else if is_word(n, "php") {
        Some(TreeSitterLanguage::Php)
    } else if is_word(n, "python") || is_word(n, "py") {
        Some(TreeSitterLanguage::Python)
    } else if is_word(n, "ruby") || is_word(n, "rb") {
        Some(TreeSitterLanguage::Ruby)
    } else if is_word(n, "rust") || is_word(n, "rs") {
        Some(TreeSitterLanguage::Rust)
    } else if is_word(n, "scala") {
        Some(TreeSitterLanguage::Scala)
    } else if is_word(n, "swift") {
        Some(TreeSitterLanguage::Swift)
    } else if is_word(n, "typescript") || is_word(n, "ts") {
        Some(TreeSitterLanguage::TypeScript)
    } else {
        None
    }
}

/// The language of files whose lowercase extension is `n` (see `language_of_extension`).
fn language_with_extension(n: &Vec<char>) -> (r: Option<TreeSitterLanguage>)
    ensures
        r == language_of_extension(n@),
{
    if is_word(n, "sh") || is_word(n, "bash") {
        Some(TreeSitterLanguage::Bash)
    } else if is_word(n, "c") || is_word(n, "h") {
        Some(TreeSitterLanguage::C)
    } else if is_word(n, "cs") {
        Some(TreeSitterLanguage::CSharp)
    } else if is_word(n, "cpp") || is_word(n, "cc") || is_word(n, "cxx") || is_word(n, "hpp") || is_word(n, "hxx") || is_word(n, "c++") {
        Some(TreeSitterLanguage::Cpp)
    } else if is_word(n, "css") {
        Some(TreeSitterLanguage::Css)
    } else if is_word(n, "go") {
        Some(TreeSitterLanguage::Go)
    } else if is_word(n, "hs") {
        Some(TreeSitterLanguage::Haskell)
    } else if is_word(n, "html") || is_word(n, "htm") {
        Some(TreeSitterLanguage::Html)
    } else if is_word(n, "java") {
        Some(TreeSitterLanguage::Java)
    } else if is_word(n, "js") || is_word(n, "jsx") || is_word(n, "mjs") || is_word(n, "cjs") {
        Some(TreeSitterLanguage::JavaScript)
    } else if is_word(n, "lua") {
        Some(TreeSitterLanguage::Lua)
    } else if is_word(n, "php") {
        Some(TreeSitterLanguage::Php)
    } else if is_word(n, "py") || is_word(n, "pyw") {
        Some(TreeSitterLanguage::Python)
    } else if is_word(n, "rb") {
        Some(TreeSitterLanguage::Ruby)
    } else if is_word(n, "rs") {
        Some(TreeSitterLanguage::Rust)
    } else if is_word(n, "scala") {
        Some(TreeSitterLanguage::Scala)
    } else if is_word(n, "swift") {
        Some(TreeSitterLanguage::Swift)
    } else if is_word(n, "ts") || is_word(n, "tsx") || is_word(n, "mts") || is_word(n, "cts") {
        Some(TreeSitterLanguage::TypeScript)
    } else {
        None
    }
}

/// The language that `s` names, in any case, or the message that it names none.
pub fn parse_language(s: &str) -> (r: Result<TreeSitterLanguage, String>)
    ensures
        match r {
            Ok(l) => language_named(lower_of(s@)) == Some(l),
            Err(e) => language_named(lower_of(s@)) is None && e@ == unsupported_message(s@),
        },
{
    let lower = lowercase(s);
    let n = chars_of(lower.as_str());
    match language_with_name(&n) {
        Some(l) => Ok(l),
        None => {
            let mut e = String::from_str("Language '");
            e.append(s);
            e.append("' is not supported or not compiled in this build");
            Err(e)
        },
    }
}

/// The language of files with the extension `ext`, in any case.
pub fn language_for_extension(ext: &str) -> (r: Option<TreeSitterLanguage>)
    ensures
        r == language_of_extension(lower_of(ext@)),
{
    let lower = lowercase(ext);
    let n = chars_of(lower.as_str());
    language_with_extension(&n)
}

/// The language of the file that `path` names, by its extension.
pub fn detect_language(path: &str) -> (r: Option<TreeSitterLanguage>)
    ensures
        r matches Some(l) ==> exists|e: Seq<char>|
            follows_dot(path@, e) && #[trigger] language_of_extension(lower_of(e)) == Some(l),
        !path@.contains('.') ==> r is None,
{
    match file_extension(path) {
        Some(e) => language_for_extension(e.as_str()),
        None => None,
    }
}

/// The names of the languages, as listed to users.
pub fn get_supported_languages() -> (r: String)
    ensures
        r@ == supported_listing(),
{
    String::from_str("bash, c, c#, c++, css, go, haskell, html, java, javascript, lua, php, python, ruby, rust, scala, swift, typescript")
}

/// The query that picks the comments out of a syntax tree of `language`.
pub open spec fn comment_query_of(language: TreeSitterLanguage) -> Seq<char> {
    match language {
        TreeSitterLanguage::Java | TreeSitterLanguage::Rust => "(line_comment) @comment (block_comment) @comment"@,
        _ => "(comment) @comment"@,
    }
}

/// The query that picks the comments out of a syntax tree of `language`: Java's
/// and Rust's grammars tell line comments from block comments, the others have
/// one kind of comment node.
pub fn comment_query(language: TreeSitterLanguage) -> (r: &'static str)
    ensures
        r@ == comment_query_of(language),
{
    match language {
        TreeSitterLanguage::Java | TreeSitterLanguage::Rust => "(line_comment) @comment (block_comment) @comment",
        _ => "(comment) @comment",
    }
}

} // verus!
