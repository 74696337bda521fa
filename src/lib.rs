//! Jirai: a small markup language compiled to HTML in three stages. The
//! lexer splits source text into tokens, the parser reads the tokens into
//! block and inline statements, and the code generator writes those as
//! HTML. Each stage is specified by spec functions over views of its input
//! and output, and each stage stops at its first error.

pub mod compiler;
pub mod err;
pub mod html;
pub mod lexer;
pub mod numerals;
pub mod parser;

pub use compiler::to_html;
pub use err::ErrorKind;
pub use err::JiraiErr;
pub use html::HTMLCodeGenerator;
pub use lexer::is_text;
pub use lexer::tokenize_string;
pub use lexer::Position;
pub use lexer::Token;
pub use lexer::TokenType;
pub use parser::Image;
pub use parser::InlineStatement;
pub use parser::Link;
pub use parser::Parser;
pub use parser::SourceType;
pub use parser::Statement;
