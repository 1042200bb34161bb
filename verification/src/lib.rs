//! A lexer for a minimal tape-manipulation language of eight
//! single-character instructions (`>`, `<`, `+`, `-`, `.`, `,`, `[`, `]`).
//!
//! The lexer consumes a stream of bytes, tracks a `(line, character)`
//! cursor, and records a [`token::Token`] for every instruction byte.
//! Every other byte is a comment: a linefeed advances the cursor to the
//! next line, and anything else merely occupies a column.
//!
//! The byte source itself (a file, typically) lives outside this crate:
//! each read is handed to the lexer as a [`lexer::ReadEvent`], and the
//! lexer answers with the [`lexer::StepAction`] the driver should take
//! next. The tokens the lexer accumulates are fully determined by the
//! bytes consumed, as the spec functions and lemmas in [`scan`] state.

pub mod cli;
pub mod lexer;
pub mod scan;
pub mod token;

pub use cli::check_args;
pub use cli::ProgramError;
pub use lexer::LexError;
pub use lexer::Lexer;
pub use lexer::ReadEvent;
pub use lexer::StepAction;
pub use token::Position;
pub use token::Token;
