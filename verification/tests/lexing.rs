use brainfuck::check_args;
use brainfuck::LexError;
use brainfuck::Lexer;
use brainfuck::Position;
use brainfuck::ProgramError;
use brainfuck::ReadEvent;
use brainfuck::StepAction;
use brainfuck::Token;

fn at(line: usize, character: usize) -> Position {
    Position { line, character }
}

/// One byte event per input byte, then end-of-stream.
fn events_of(input: &[u8]) -> Vec<ReadEvent> {
    let mut events: Vec<ReadEvent> = Vec::new();
    for b in input {
        events.push(ReadEvent::Byte(*b));
    }
    events.push(ReadEvent::Eof);
    events
}

fn lex_all(input: &[u8]) -> Lexer {
    let mut lexer = Lexer::new();
    let outcome = lexer.lex(&events_of(input));
    assert!(outcome.is_ok());
    lexer
}

#[test]
fn empty_input_yields_no_tokens() {
    let lexer = lex_all(b"");
    assert_eq!(lexer.tokens().len(), 0);
    assert_eq!(lexer.position(), at(0, 0));
}

#[test]
fn single_increment() {
    let lexer = lex_all(b"+");
    assert_eq!(lexer.tokens(), &vec![Token::Increment(at(0, 1))]);
}

#[test]
fn linefeed_starts_a_new_line() {
    let lexer = lex_all(b"++\n+");
    assert_eq!(
        lexer.tokens(),
        &vec![
            Token::Increment(at(0, 1)),
            Token::Increment(at(0, 2)),
            Token::Increment(at(1, 1)),
        ]
    );
    assert_eq!(lexer.position(), at(1, 1));
}

#[test]
fn letters_and_spaces_are_comments() {
    let lexer = lex_all(b"hello world\n[+]");
    assert_eq!(
        lexer.tokens(),
        &vec![
            Token::StartLoop(at(1, 1)),
            Token::Increment(at(1, 2)),
            Token::EndLoop(at(1, 3)),
        ]
    );
}

#[test]
fn tokens_come_in_byte_order() {
    let lexer = lex_all(b",[.,]");
    assert_eq!(
        lexer.tokens(),
        &vec![
            Token::Input(at(0, 1)),
            Token::StartLoop(at(0, 2)),
            Token::Output(at(0, 3)),
            Token::Input(at(0, 4)),
            Token::EndLoop(at(0, 5)),
        ]
    );
}

#[test]
fn every_instruction_byte_is_classified() {
    let lexer = lex_all(b"><+-.,[]");
    assert_eq!(
        lexer.tokens(),
        &vec![
            Token::MoveRight(at(0, 1)),
            Token::MoveLeft(at(0, 2)),
            Token::Increment(at(0, 3)),
            Token::Decrement(at(0, 4)),
            Token::Output(at(0, 5)),
            Token::Input(at(0, 6)),
            Token::StartLoop(at(0, 7)),
            Token::EndLoop(at(0, 8)),
        ]
    );
}

#[test]
fn linefeeds_emit_no_token() {
    let lexer = lex_all(b"\n\n");
    assert_eq!(lexer.tokens().len(), 0);
    assert_eq!(lexer.position(), at(2, 0));
}

#[test]
fn carriage_return_occupies_a_column_on_the_same_line() {
    let lexer = lex_all(b"a\r+");
    assert_eq!(lexer.tokens(), &vec![Token::Increment(at(0, 3))]);
}

#[test]
fn interrupted_reads_are_retried() {
    let mut lexer = Lexer::new();
    let events = vec![
        ReadEvent::Interrupted,
        ReadEvent::Interrupted,
        ReadEvent::Byte(b'+'),
        ReadEvent::Eof,
    ];
    let outcome = lexer.lex(&events);
    assert!(outcome.is_ok());
    assert_eq!(lexer.tokens(), &vec![Token::Increment(at(0, 1))]);
}

#[test]
fn fatal_failure_is_returned_and_keeps_tokens() {
    let mut lexer = Lexer::new();
    let events = vec![ReadEvent::Byte(b'+'), ReadEvent::Failed];
    let outcome = lexer.lex(&events);
    assert_eq!(outcome, Err(LexError::IoFailure));
    assert_eq!(lexer.tokens(), &vec![Token::Increment(at(0, 1))]);
}

#[test]
fn immediate_failure_reports_io_failure() {
    let mut lexer = Lexer::new();
    let outcome = lexer.lex(&vec![ReadEvent::Failed]);
    assert_eq!(outcome, Err(LexError::IoFailure));
    assert_eq!(lexer.tokens().len(), 0);
}

#[test]
fn nothing_is_consumed_past_end_of_stream() {
    let mut lexer = Lexer::new();
    let events = vec![ReadEvent::Eof, ReadEvent::Byte(b'+')];
    let outcome = lexer.lex(&events);
    assert!(outcome.is_ok());
    assert_eq!(lexer.tokens().len(), 0);
    assert_eq!(lexer.position(), at(0, 0));
}

#[test]
fn step_consumes_one_byte() {
    let mut lexer = Lexer::new();
    assert_eq!(lexer.step(ReadEvent::Byte(b'>')), StepAction::Continue);
    assert_eq!(lexer.tokens(), &vec![Token::MoveRight(at(0, 1))]);
    assert_eq!(lexer.position(), at(0, 1));
}

#[test]
fn step_on_interrupt_changes_nothing() {
    let mut lexer = Lexer::new();
    assert_eq!(lexer.step(ReadEvent::Byte(b'-')), StepAction::Continue);
    assert_eq!(lexer.step(ReadEvent::Interrupted), StepAction::Continue);
    assert_eq!(lexer.tokens(), &vec![Token::Decrement(at(0, 1))]);
    assert_eq!(lexer.position(), at(0, 1));
}

#[test]
fn step_stops_on_end_of_stream_and_on_failure() {
    let mut lexer = Lexer::new();
    assert_eq!(lexer.step(ReadEvent::Eof), StepAction::Done);
    assert_eq!(lexer.step(ReadEvent::Failed), StepAction::Fail);
    assert_eq!(lexer.tokens().len(), 0);
}

#[test]
fn two_runs_over_the_same_events_agree() {
    let first = lex_all(b"+[,.]-\nx<>");
    let second = lex_all(b"+[,.]-\nx<>");
    assert_eq!(first.tokens(), second.tokens());
    assert_eq!(first.position(), second.position());
}

#[test]
fn one_argument_is_accepted() {
    let args = vec![String::from("program.bf")];
    assert_eq!(check_args(&args), Ok(()));
}

#[test]
fn zero_arguments_are_rejected() {
    let args: Vec<String> = Vec::new();
    assert_eq!(check_args(&args), Err(ProgramError::WrongNumberOfArguments));
}

#[test]
fn two_arguments_are_rejected() {
    let args = vec![String::from("a.bf"), String::from("b.bf")];
    assert_eq!(check_args(&args), Err(ProgramError::WrongNumberOfArguments));
}
