//! A minimal lambda-calculus front end: a tokenizer, a parser that resolves
//! bound variables to de Bruijn indices and collects free variables, and a
//! pretty printer that renders the resolved tree back to text.
pub mod parser;
pub mod pretty_printer;
pub mod round_trip;
pub mod tokenizer;

pub use parser::{parse, Expected, ParseError, Parser, Term};
pub use pretty_printer::{pretty_print, PrettyPrinter};
pub use tokenizer::{tokenize, LexError, Token};
