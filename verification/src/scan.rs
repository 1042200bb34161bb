//! The mathematical model of a scan: what tokens a byte sequence
//! yields, and where the cursor stands after it has been consumed.
//!
//! Everything here is stated over the sequence of bytes consumed so
//! far. [`crate::lexer::Lexer`] maintains, as its invariant, that its
//! token vector and cursor equal `tokens_of`, `line_count` and
//! `column_count` of that sequence.

use vstd::prelude::*;

use crate::token::{is_instruction, is_significant, token_for, Token};

verus! {

/// The line the cursor stands on after consuming `s`: the number of
/// linefeed bytes in `s`.
pub open spec fn line_count(s: Seq<u8>) -> nat
    decreases s.len(),
{
    if s.len() == 0 {
        0
    } else if s.last() == 10 {
        line_count(s.drop_last()) + 1
    } else {
        line_count(s.drop_last())
    }
}

/// The column the cursor stands at after consuming `s`: the number of
/// bytes after the most recent linefeed, zero right after a linefeed
/// and at the start of the input.
pub open spec fn column_count(s: Seq<u8>) -> nat
    decreases s.len(),
{
    if s.len() == 0 {
        0
    } else if s.last() == 10 {
        0
    } else {
        column_count(s.drop_last()) + 1
    }
}

/// The number of instruction bytes in `s`.
pub open spec fn instruction_count(s: Seq<u8>) -> nat
    decreases s.len(),
{
    if s.len() == 0 {
        0
    } else if is_instruction(s.last()) {
        instruction_count(s.drop_last()) + 1
    } else {
        instruction_count(s.drop_last())
    }
}

/// The index of the most recent linefeed in `s`, or `-1` if `s` holds
/// none.
pub open spec fn last_newline(s: Seq<u8>) -> int
    decreases s.len(),
{
    if s.len() == 0 {
        -1
    } else if s.last() == 10 {
        s.len() - 1
    } else {
        last_newline(s.drop_last())
    }
}

/// The tokens that consuming `s` emits, in the order of their bytes.
/// An instruction byte consumed after the prefix `p` is credited line
/// `line_count(p)` and column `column_count(p) + 1`; every other byte
/// emits nothing.
pub open spec fn tokens_of(s: Seq<u8>) -> Seq<Token>
    decreases s.len(),
{
    if s.len() == 0 {
        Seq::empty()
    } else if is_instruction(s.last()) {
        tokens_of(s.drop_last()).push(
            token_for(
                s.last(),
                line_count(s.drop_last()) as usize,
                (column_count(s.drop_last()) + 1) as usize,
            ),
        )
    } else {
        tokens_of(s.drop_last())
    }
}

/// How one consumed byte moves the model: a linefeed advances the line
/// and resets the column, an instruction byte appends its token, and
/// any other byte only widens the column.
pub proof fn lemma_scan_push(s: Seq<u8>, b: u8)
    ensures
        b == 10 ==> line_count(s.push(b)) == line_count(s) + 1 && column_count(s.push(b)) == 0,
        b != 10 ==> line_count(s.push(b)) == line_count(s) && column_count(s.push(b))
            == column_count(s) + 1,
        is_instruction(b) ==> tokens_of(s.push(b)) == tokens_of(s).push(
            token_for(b, line_count(s) as usize, (column_count(s) + 1) as usize),
        ),
        !is_instruction(b) ==> tokens_of(s.push(b)) == tokens_of(s),
        is_instruction(b) ==> instruction_count(s.push(b)) == instruction_count(s) + 1,
        !is_instruction(b) ==> instruction_count(s.push(b)) == instruction_count(s),
{
    assert(s.push(b).drop_last() =~= s);
    assert(s.push(b).last() == b);
}

/// The cursor and the token count never outgrow the input consumed.
pub proof fn lemma_counts_bounded(s: Seq<u8>)
    ensures
        line_count(s) <= s.len(),
        column_count(s) <= s.len(),
        instruction_count(s) <= s.len(),
    decreases s.len(),
{
    if s.len() > 0 {
        lemma_counts_bounded(s.drop_last());
    }
}

/// The emitted token count equals the count of instruction bytes in
/// the input.
pub proof fn lemma_token_count(s: Seq<u8>)
    ensures
        tokens_of(s).len() == instruction_count(s),
    decreases s.len(),
{
    if s.len() > 0 {
        lemma_token_count(s.drop_last());
    }
}

/// The column is the distance to the most recent linefeed: consuming
/// `s` leaves the cursor `s.len() - 1 - last_newline(s)` bytes past it.
pub proof fn lemma_column_offset(s: Seq<u8>)
    ensures
        column_count(s) == s.len() - 1 - last_newline(s),
    decreases s.len(),
{
    if s.len() > 0 && s.last() != 10 {
        lemma_column_offset(s.drop_last());
    }
}

/// Tokens appear in byte order, each at its source position: the
/// instruction byte at offset `k` yields the token at index
/// `instruction_count(s.take(k))`, whose line is the number of
/// linefeeds before offset `k` and whose column is the distance from
/// the most recent linefeed before offset `k`.
pub proof fn lemma_token_positions(s: Seq<u8>, k: int)
    requires
        0 <= k < s.len(),
        is_instruction(s[k]),
    ensures
        instruction_count(s.take(k)) < tokens_of(s).len(),
        tokens_of(s)[instruction_count(s.take(k)) as int] == token_for(
            s[k],
            line_count(s.take(k)) as usize,
            (column_count(s.take(k)) + 1) as usize,
        ),
    decreases s.len(),
{
    lemma_token_count(s);
    if k == s.len() - 1 {
        assert(s.take(k) =~= s.drop_last());
        lemma_token_count(s.drop_last());
    } else {
        let dl = s.drop_last();
        assert(dl.take(k) =~= s.take(k));
        assert(dl[k] == s[k]);
        lemma_token_positions(dl, k);
        lemma_token_count(dl);
    }
}

/// A longer prefix never holds fewer instruction bytes.
pub proof fn lemma_instruction_count_monotone(s: Seq<u8>, i: int, j: int)
    requires
        0 <= i <= j <= s.len(),
    ensures
        instruction_count(s.take(i)) <= instruction_count(s.take(j)),
    decreases j,
{
    if i < j {
        lemma_instruction_count_monotone(s, i, j - 1);
        assert(s.take(j).drop_last() =~= s.take(j - 1));
    }
}

/// Token order equals byte order: of two instruction bytes, the
/// earlier one's token stands at the strictly smaller index (the
/// indices being those of `lemma_token_positions`).
pub proof fn lemma_token_order(s: Seq<u8>, k1: int, k2: int)
    requires
        0 <= k1 < k2 < s.len(),
        is_instruction(s[k1]),
        is_instruction(s[k2]),
    ensures
        instruction_count(s.take(k1)) < instruction_count(s.take(k2)),
{
    assert(s.take(k1 + 1).drop_last() =~= s.take(k1));
    assert(s.take(k1 + 1).last() == s[k1]);
    lemma_instruction_count_monotone(s, k1 + 1, k2);
}

/// A linefeed byte emits no token; it advances the line by one and
/// resets the column.
pub proof fn lemma_linefeed_emits_nothing(s: Seq<u8>)
    ensures
        tokens_of(s.push(10)) == tokens_of(s),
        line_count(s.push(10)) == line_count(s) + 1,
        column_count(s.push(10)) == 0,
{
    lemma_scan_push(s, 10);
}

/// A comment byte emits no token and leaves the line untouched; it
/// consumes one column.
pub proof fn lemma_comment_byte(s: Seq<u8>, b: u8)
    requires
        !is_significant(b),
    ensures
        tokens_of(s.push(b)) == tokens_of(s),
        line_count(s.push(b)) == line_count(s),
        column_count(s.push(b)) == column_count(s) + 1,
{
    lemma_scan_push(s, b);
}

} // verus!
