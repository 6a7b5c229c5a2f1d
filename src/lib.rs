//! Compile-time constants from TOML documents: the engine that selects,
//! reshapes and documents a document's leaf values as nested namespaces.

pub mod text;
pub mod ident;
pub mod comments;
pub mod value;
pub mod token;
pub mod pattern;
pub mod field;
pub mod emit;
pub mod module;
pub mod input;

pub use comments::{extract_comments, CommentMap};
pub use emit::{EmitError, Item};
pub use field::{Patterns, TomlField, TomlFields};
pub use ident::{kebab_to_snake, snake_to_kebab, to_valid_ident, ROOT};
pub use input::{expand, expand_document, MacroInput};
pub use module::{GenerationError, RootModule, RootModuleSource};
pub use pattern::{Pattern, PatternSegment};
pub use token::{Delimiter, SyntaxError, SyntaxErrorKind, Token};
pub use value::{convert_value_to_tokens, declares_workspace, parse_document, Literal, TomlValue, TypeDesc};
