//! Comment removal for source text, one single-pass scanner per family of
//! languages: C-style, Go, JavaScript, Rust, `#`-comment languages (generic,
//! shell, Python) and XML/HTML. Each scanner copies string, raw-string,
//! heredoc and CDATA literals unchanged, drops comments, and keeps every line
//! break that a comment held, so line numbers stay valid.
//!
//! Beside the scanners stand the pieces of the command-line tool that are pure
//! computation: choosing a language, removing comments at byte ranges that a
//! parser reported, and collapsing runs of blank lines.
pub mod c_type;
pub mod go;
pub mod js;
pub mod language;
pub mod literal;
pub mod ranges;
pub mod rust;
pub mod shell_type;
pub mod text;
pub mod whitespace;
pub mod xml_type;

pub use c_type::remove_c_type_comments;
pub use go::remove_go_comments;
pub use js::remove_js_comments;
pub use rust::remove_rust_comments;
pub use shell_type::{remove_hash_comments_basic, remove_python_comments, remove_shell_comments};
pub use xml_type::xml_type_remover;
