//! Tokens and their source positions, and the classification of input
//! bytes into instructions, the linefeed, and comment bytes.

use vstd::prelude::*;

verus! {

/// Where a token was recognized: `line` counts the linefeed bytes read
/// before the token's byte; `character` counts the bytes read since the
/// most recent linefeed (or since the start of the input), the token's
/// own byte included. The first byte of a line thus sits at
/// `character == 1`.
#[derive(Clone, Copy, Debug, PartialEq, Eq, Structural)]
pub struct Position {
    pub line: usize,
    pub character: usize,
}

/// One recognized instruction byte, tagged with the position at which
/// it was read.
#[derive(Clone, Copy, Debug, PartialEq, Eq, Structural)]
pub enum Token {
    MoveLeft(Position),
    MoveRight(Position),
    Increment(Position),
    Decrement(Position),
    Output(Position),
    Input(Position),
    StartLoop(Position),
    EndLoop(Position),
}

/// The eight instruction bytes: `>`, `<`, `+`, `-`, `.`, `,`, `[`, `]`.
pub open spec fn is_instruction(b: u8) -> bool {
    ||| b == 62  // '>'
    ||| b == 60  // '<'
    ||| b == 43  // '+'
    ||| b == 45  // '-'
    ||| b == 46  // '.'
    ||| b == 44  // ','
    ||| b == 91  // '['
    ||| b == 93  // ']'
}

/// The nine significant bytes: the linefeed and the eight instructions.
/// Every other byte is a comment.
pub open spec fn is_significant(b: u8) -> bool {
    b == 10 || is_instruction(b)
}

/// The token that an instruction byte yields at a given position.
pub open spec fn token_for(b: u8, line: usize, character: usize) -> Token
    recommends
        is_instruction(b),
{
    let p = Position { line, character };
    if b == 62 {
        Token::MoveRight(p)
    } else if b == 60 {
        Token::MoveLeft(p)
    } else if b == 43 {
        Token::Increment(p)
    } else if b == 45 {
        Token::Decrement(p)
    } else if b == 46 {
        Token::Output(p)
    } else if b == 44 {
        Token::Input(p)
    } else if b == 91 {
        Token::StartLoop(p)
    } else {
        Token::EndLoop(p)
    }
}

} // verus!
