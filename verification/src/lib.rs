//! A JSON parser: a hand-written lexer that turns text into positioned
//! tokens, and a recursive-descent parser that builds a value tree while
//! enforcing the JSON grammar. Every function is verified against a
//! mathematical model of the scan: the result of parsing is pinned down,
//! character by character, by spec-level functions over the input text.

pub mod errors;
pub mod jsonvalue;
pub mod lexer;
pub mod lexspec;
pub mod parser;
pub mod parsespec;
pub mod strutil;
pub mod value;

pub use errors::LexerError;
pub use errors::LexerErrorKinds;
pub use errors::ParserError;
pub use errors::ParserErrorKind;
pub use jsonvalue::JSONValue;
pub use jsonvalue::TokenKind;
pub use lexer::Lexer;
pub use lexer::Token;
pub use parser::Parser;
pub use parser::parse_json;
pub use parser::parse_json as parse;
pub use value::Value;
