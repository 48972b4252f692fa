//! A tokenizer for flat arithmetic and boolean expressions.
//!
//! The input text is scanned eagerly, left to right, into a complete token
//! sequence at construction time; `peek` and `next_token` then expose the
//! sequence as a unidirectional cursor.  A number is carried as its lexeme
//! (digits with at most one dot), so that the library itself holds no
//! floating-point values.
//!
//! The scan is all or nothing: a malformed numeric lexeme — no digit, or
//! more than one dot — fails construction as a whole, with no partial
//! sequence.  A lexeme still pending at the end of the text is flushed,
//! so a trailing number, identifier or keyword is emitted like any other.

pub mod laws;
pub mod scan;
pub mod stream;
pub mod token;

pub use stream::Lexer;
pub use token::Operator;
pub use token::Token;
