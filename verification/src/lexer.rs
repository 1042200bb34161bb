//! The streaming lexer: a cursor-tracking scanner driven one read at a
//! time.
//!
//! The byte source is an external collaborator (a buffered file
//! reader, typically). Each of its reads is reported to the lexer as a
//! [`ReadEvent`]; the lexer classifies the byte, if any, and answers
//! with the [`StepAction`] the driver should take next. A driver that
//! owns the whole event sequence up front can hand it to [`Lexer::lex`],
//! which runs the same loop to the first terminating event and is
//! verified to retry interrupted reads and to stop at end-of-stream or
//! at a fatal failure.

use vstd::prelude::*;

use crate::scan::{
    column_count, lemma_counts_bounded, lemma_scan_push, line_count, tokens_of,
};
use crate::token::{Position, Token};

verus! {

/// What one read of the byte source observed: `n` bytes written (here
/// always one, reported with its byte), a zero-length read meaning
/// end-of-stream, a transient interruption, or a fatal failure.
#[derive(Clone, Copy, Debug, PartialEq, Eq, Structural)]
pub enum ReadEvent {
    /// One byte was read.
    Byte(u8),
    /// A zero-length read: end of the stream.
    Eof,
    /// A transient, retriable failure.
    Interrupted,
    /// A fatal failure; its cause stays with the collaborator that
    /// performed the read.
    Failed,
}

/// What the driver should do after handing the lexer one event:
/// read again, stop successfully, or stop and report the failure.
#[derive(Clone, Copy, Debug, PartialEq, Eq, Structural)]
pub enum StepAction {
    Continue,
    Done,
    Fail,
}

/// The lexer's sole error: the byte source failed fatally. The
/// underlying cause stays with the collaborator that owns the source.
#[derive(Clone, Copy, Debug, PartialEq, Eq, Structural)]
pub enum LexError {
    IoFailure,
}

/// An event on which lexing terminates: end-of-stream or a fatal
/// failure.
pub open spec fn is_stop(ev: ReadEvent) -> bool {
    ev is Eof || ev is Failed
}

/// Whether some event of `evs` terminates lexing.
pub open spec fn has_stop(evs: Seq<ReadEvent>) -> bool {
    exists|i: int| 0 <= i < evs.len() && is_stop(evs[i])
}

/// The index of the first terminating event of `evs`, or `evs.len()`
/// if there is none.
pub open spec fn stop_index(evs: Seq<ReadEvent>) -> int
    decreases evs.len(),
{
    if evs.len() == 0 {
        0
    } else if is_stop(evs.first()) {
        0
    } else {
        1 + stop_index(evs.drop_first())
    }
}

/// The bytes that the events of `evs` delivered, in order.
pub open spec fn bytes_of(evs: Seq<ReadEvent>) -> Seq<u8>
    decreases evs.len(),
{
    if evs.len() == 0 {
        Seq::empty()
    } else {
        match evs.last() {
            ReadEvent::Byte(b) => bytes_of(evs.drop_last()).push(b),
            _ => bytes_of(evs.drop_last()),
        }
    }
}

/// The first terminating event is a terminating event, and nothing
/// before it is one.
pub proof fn lemma_stop_index(evs: Seq<ReadEvent>)
    requires
        has_stop(evs),
    ensures
        0 <= stop_index(evs) < evs.len(),
        is_stop(evs[stop_index(evs)]),
        forall|j: int| 0 <= j < stop_index(evs) ==> !is_stop(evs[j]),
    decreases evs.len(),
{
    let witness = choose|i: int| 0 <= i < evs.len() && is_stop(evs[i]);
    if !is_stop(evs.first()) {
        assert(witness != 0);
        assert(evs.drop_first()[witness - 1] == evs[witness]);
        assert(has_stop(evs.drop_first()));
        lemma_stop_index(evs.drop_first());
        assert forall|j: int| 0 <= j < stop_index(evs) implies !is_stop(evs[j]) by {
            if j > 0 {
                assert(evs[j] == evs.drop_first()[j - 1]);
            }
        }
    }
}

/// One more event delivers one more byte exactly when it is a byte
/// event.
pub proof fn lemma_bytes_of_push(evs: Seq<ReadEvent>, ev: ReadEvent)
    ensures
        bytes_of(evs.push(ev)) == (match ev {
            ReadEvent::Byte(b) => bytes_of(evs).push(b),
            _ => bytes_of(evs),
        }),
{
    assert(evs.push(ev).drop_last() =~= evs);
    assert(evs.push(ev).last() == ev);
}

/// A sequence of events delivers no more bytes than it has events.
pub proof fn lemma_bytes_of_len(evs: Seq<ReadEvent>)
    ensures
        bytes_of(evs).len() <= evs.len(),
    decreases evs.len(),
{
    if evs.len() > 0 {
        lemma_bytes_of_len(evs.drop_last());
    }
}

/// The streaming lexer. It owns the token sequence it accumulates and
/// a `(line, character)` cursor over the input; the ghost `history`
/// records the bytes consumed so far, and [`Lexer::wf`] ties the
/// executable state to the model in [`crate::scan`].
pub struct Lexer {
    tokens: Vec<Token>,
    line: usize,
    character: usize,
    history: Ghost<Seq<u8>>,
}

impl Lexer {
    /// The bytes this lexer has consumed.
    pub closed spec fn consumed(&self) -> Seq<u8> {
        self.history@
    }

    /// The tokens this lexer has accumulated.
    pub closed spec fn toks(&self) -> Seq<Token> {
        self.tokens@
    }

    /// The line the cursor stands on.
    pub closed spec fn cur_line(&self) -> usize {
        self.line
    }

    /// The column the cursor stands at.
    pub closed spec fn cur_character(&self) -> usize {
        self.character
    }

    /// The lexer's invariant: cursor and tokens are exactly the model's
    /// account of the bytes consumed so far.
    pub open spec fn wf(&self) -> bool {
        &&& self.cur_line() == line_count(self.consumed())
        &&& self.cur_character() == column_count(self.consumed())
        &&& self.toks() == tokens_of(self.consumed())
    }

    /// A fresh lexer: nothing consumed, no tokens, cursor at the
    /// origin.
    pub fn new() -> (lexer: Lexer)
        ensures
            lexer.wf(),
            lexer.consumed() == Seq::<u8>::empty(),
    {
        Lexer { tokens: Vec::new(), line: 0, character: 0, history: Ghost(Seq::empty()) }
    }

    /// Borrow the accumulated token sequence. Valid before, between
    /// and after steps, and after a failed run: tokens already pushed
    /// remain visible.
    pub fn tokens(&self) -> (tokens: &Vec<Token>)
        ensures
            tokens@ == self.toks(),
    {
        &self.tokens
    }

    /// The cursor after everything consumed so far.
    pub fn position(&self) -> (p: Position)
        ensures
            p.line == self.cur_line(),
            p.character == self.cur_character(),
    {
        Position { line: self.line, character: self.character }
    }

    /// Consume one byte: credit it a column, then classify it. A
    /// linefeed moves the cursor to the next line; an instruction byte
    /// appends its token at the cursor; anything else is a comment.
    fn handle_char(&mut self, b: u8)
        requires
            old(self).wf(),
            old(self).consumed().len() < usize::MAX,
        ensures
            final(self).wf(),
            final(self).consumed() == old(self).consumed().push(b),
    {
        proof {
            lemma_counts_bounded(self.history@);
            lemma_scan_push(self.history@, b);
        }
        let ghost prior = self.history@;
        self.character = self.character + 1;
        if b == 10 {
            self.line = self.line + 1;
            self.character = 0;
        } else if b == 62 {
            self.tokens.push(Token::MoveRight(Position { line: self.line, character: self.character }));
        } else if b == 60 {
            self.tokens.push(Token::MoveLeft(Position { line: self.line, character: self.character }));
        } else if b == 43 {
            self.tokens.push(Token::Increment(Position { line: self.line, character: self.character }));
        } else if b == 45 {
            self.tokens.push(Token::Decrement(Position { line: self.line, character: self.character }));
        } else if b == 46 {
            self.tokens.push(Token::Output(Position { line: self.line, character: self.character }));
        } else if b == 44 {
            self.tokens.push(Token::Input(Position { line: self.line, character: self.character }));
        } else if b == 91 {
            self.tokens.push(Token::StartLoop(Position { line: self.line, character: self.character }));
        } else if b == 93 {
            self.tokens.push(Token::EndLoop(Position { line: self.line, character: self.character }));
        }
        self.history = Ghost(prior.push(b));
    }

    /// Feed the lexer one read event. A delivered byte is consumed and
    /// the driver reads on; an interrupted read changes nothing and is
    /// retried; end-of-stream and a fatal failure change nothing and
    /// stop the run, successfully and unsuccessfully respectively.
    pub fn step(&mut self, event: ReadEvent) -> (action: StepAction)
        requires
            old(self).wf(),
            old(self).consumed().len() < usize::MAX,
        ensures
            final(self).wf(),
            (match event {
                ReadEvent::Byte(b) => final(self).consumed() == old(self).consumed().push(b)
                    && action == StepAction::Continue,
                ReadEvent::Interrupted => *final(self) == *old(self) && action
                    == StepAction::Continue,
                ReadEvent::Eof => *final(self) == *old(self) && action == StepAction::Done,
                ReadEvent::Failed => *final(self) == *old(self) && action == StepAction::Fail,
            }),
    {
        match event {
            ReadEvent::Byte(b) => {
                self.handle_char(b);
                StepAction::Continue
            },
            ReadEvent::Interrupted => StepAction::Continue,
            ReadEvent::Eof => StepAction::Done,
            ReadEvent::Failed => StepAction::Fail,
        }
    }

    /// Drive the lexer over a recorded event sequence until the first
    /// terminating event: bytes are consumed in order, interrupted
    /// reads are retried, end-of-stream returns success and a fatal
    /// failure returns `IoFailure`. Events past the first terminating
    /// one are never consumed. The event sequence must hold a
    /// terminating event: a blocking source that never reports
    /// end-of-stream or failure would keep a run going forever.
    pub fn lex(&mut self, events: &Vec<ReadEvent>) -> (outcome: Result<(), LexError>)
        requires
            old(self).wf(),
            has_stop(events@),
            old(self).consumed().len() + events@.len() <= usize::MAX,
        ensures
            final(self).wf(),
            final(self).consumed() == old(self).consumed() + bytes_of(
                events@.take(stop_index(events@)),
            ),
            outcome is Ok <==> events@[stop_index(events@)] is Eof,
            outcome is Err <==> events@[stop_index(events@)] is Failed,
            outcome is Err ==> outcome == Result::<(), LexError>::Err(LexError::IoFailure),
    {
        proof {
            lemma_stop_index(events@);
        }
        let ghost k = stop_index(events@);
        let mut i: usize = 0;
        loop
            invariant
                self.wf(),
                0 <= i <= k,
                k == stop_index(events@),
                k < events@.len(),
                is_stop(events@[k]),
                forall|j: int| 0 <= j < k ==> !is_stop(events@[j]),
                self.consumed() == old(self).consumed() + bytes_of(events@.take(i as int)),
                old(self).consumed().len() + events@.len() <= usize::MAX,
            decreases k - i,
        {
            proof {
                lemma_bytes_of_len(events@.take(i as int));
            }
            let event = events[i];
            match self.step(event) {
                StepAction::Done => {
                    proof {
                        assert(events@.take(i as int) =~= events@.take(k));
                    }
                    return Ok(());
                },
                StepAction::Fail => {
                    proof {
                        assert(events@.take(i as int) =~= events@.take(k));
                    }
                    return Err(LexError::IoFailure);
                },
                StepAction::Continue => {
                    proof {
                        assert(events@.take(i as int + 1) =~= events@.take(i as int).push(
                            events@[i as int],
                        ));
                        lemma_bytes_of_push(events@.take(i as int), events@[i as int]);
                        match event {
                            ReadEvent::Byte(b) => {
                                assert((old(self).consumed() + bytes_of(
                                    events@.take(i as int),
                                )).push(b) =~= old(self).consumed() + bytes_of(
                                    events@.take(i as int),
                                ).push(b));
                            },
                            _ => {},
                        }
                    }
                    i = i + 1;
                },
            }
        }
    }
}

/// Two lexers that have consumed the same bytes agree on every
/// observable: tokens, line and column. Together with the exact
/// account `lex` gives of the bytes it consumes and the outcome it
/// returns, lexing is deterministic in the byte source's behaviour.
pub proof fn lemma_deterministic(a: Lexer, b: Lexer)
    requires
        a.wf(),
        b.wf(),
        a.consumed() == b.consumed(),
    ensures
        a.toks() == b.toks(),
        a.cur_line() == b.cur_line(),
        a.cur_character() == b.cur_character(),
{
}

/// A run that ends at end-of-stream has observed exactly one
/// zero-length read: its terminating event is the sequence's first,
/// and no event before it is an end-of-stream (nor any other stop).
pub proof fn lemma_single_eof(evs: Seq<ReadEvent>)
    requires
        has_stop(evs),
        evs[stop_index(evs)] is Eof,
    ensures
        forall|j: int| 0 <= j < stop_index(evs) ==> !(evs[j] is Eof),
        forall|j: int| 0 <= j < stop_index(evs) ==> !(evs[j] is Failed),
{
    lemma_stop_index(evs);
}

} // verus!
