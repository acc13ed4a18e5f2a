//! The command language of the interactive prompt: a line of text names one
//! operation on the ledger.
//!
//! A line is read as words separated by white space. The single words `exit`,
//! `show` and `mine` are commands of their own; a line whose first word begins
//! with `add-transaction` must have four words, the last of them an amount.

use crate::block::{Transaction, TransactionView};
use vstd::prelude::*;
use vstd::std_specs::iter::IteratorSpec;

verus! {

/// An operation that a line of text asks for.
#[derive(Debug, Clone, PartialEq)]
pub enum Command {
    /// Leave the prompt.
    Exit,
    /// List the chain and say whether it is intact.
    Show,
    /// Seal the waiting transactions into a block.
    Mine,
    /// Add a transaction to the pool.
    AddTransaction(Transaction),
}

/// Why a line of text is not a command.
#[derive(Debug, Clone, Copy, PartialEq, Eq)]
pub enum CommandError {
    /// The line asks to add a transaction, but its last word is not an
    /// amount.
    InvalidAmount,
    /// The line asks to add a transaction, but does not have four words.
    WrongWordCount,
    /// The line names no command.
    UnknownCommand,
}

/// The mathematical value of a [`Command`].
pub ghost enum CommandView {
    Exit,
    Show,
    Mine,
    AddTransaction(TransactionView),
}

impl View for Command {
    type V = CommandView;

    open spec fn view(&self) -> CommandView {
        match self {
            Command::Exit => CommandView::Exit,
            Command::Show => CommandView::Show,
            Command::Mine => CommandView::Mine,
            Command::AddTransaction(transaction) => CommandView::AddTransaction(transaction@),
        }
    }
}

/// Whether a character is white space: one of the characters that Unicode
/// classes as `White_Space`.
pub open spec fn is_space(c: char) -> bool {
    let v = c as u32;
    ||| 0x09 <= v <= 0x0d
    ||| v == 0x20
    ||| v == 0x85
    ||| v == 0xa0
    ||| v == 0x1680
    ||| 0x2000 <= v <= 0x200a
    ||| v == 0x2028
    ||| v == 0x2029
    ||| v == 0x202f
    ||| v == 0x205f
    ||| v == 0x3000
}

/// The words of a text: its longest runs of characters that are not white
/// space, in order. The definition reads the text from left to right; its
/// last character is white space and adds nothing, or continues the last
/// word, or begins a new one.
pub open spec fn split_words(text: Seq<char>) -> Seq<Seq<char>>
    decreases text.len(),
{
    if text.len() == 0 {
        Seq::empty()
    } else {
        let before = split_words(text.drop_last());
        let c = text.last();
        if is_space(c) {
            before
        } else if text.len() >= 2 && !is_space(text[text.len() - 2]) {
            before.drop_last().push(before.last().push(c))
        } else {
            before.push(seq![c])
        }
    }
}

/// Whether a character is a decimal digit.
pub open spec fn is_digit(c: char) -> bool {
    48 <= c as u32 <= 57
}

/// Whether a text consists of decimal digits alone.
pub open spec fn all_digits(text: Seq<char>) -> bool {
    forall|i: int| 0 <= i < text.len() ==> is_digit(#[trigger] text[i])
}

/// The number that a text of decimal digits stands for.
pub open spec fn digits_value(text: Seq<char>) -> nat
    decreases text.len(),
{
    if text.len() == 0 {
        0
    } else {
        digits_value(text.drop_last()) * 10 + (text.last() as u32 - 48) as nat
    }
}

/// The number that a text of digits stands for under a sign, if the text is
/// not empty, holds digits alone and the number fits an `i64`.
pub open spec fn signed_value(digits: Seq<char>, negative: bool) -> Option<int> {
    let value = if negative {
        -(digits_value(digits) as int)
    } else {
        digits_value(digits) as int
    };
    if digits.len() > 0 && all_digits(digits) && i64::MIN <= value <= i64::MAX {
        Some(value)
    } else {
        None
    }
}

/// The amount that a text stands for: an optional `+` or `-`, then one or more
/// decimal digits and nothing else, naming a number that fits an `i64`.
pub open spec fn amount_of(text: Seq<char>) -> Option<int> {
    if text.len() > 0 && text[0] == '-' {
        signed_value(text.drop_first(), true)
    } else if text.len() > 0 && text[0] == '+' {
        signed_value(text.drop_first(), false)
    } else {
        signed_value(text, false)
    }
}

/// The command that a line of text stands for, or why it stands for none.
pub open spec fn command_of(line: Seq<char>) -> Result<CommandView, CommandError> {
    let words = split_words(line);
    if words == seq!["exit"@] {
        Ok(CommandView::Exit)
    } else if words == seq!["show"@] {
        Ok(CommandView::Show)
    } else if words == seq!["mine"@] {
        Ok(CommandView::Mine)
    } else if words.len() > 0 && "add-transaction"@.is_prefix_of(words[0]) {
        if words.len() != 4 {
            Err(CommandError::WrongWordCount)
        } else {
            match amount_of(words[3]) {
                Some(amount) => Ok(
                    CommandView::AddTransaction(
                        TransactionView { sender: words[1], receiver: words[2], amount },
                    ),
                ),
                None => Err(CommandError::InvalidAmount),
            }
        }
    } else {
        Err(CommandError::UnknownCommand)
    }
}

/// The value of what `parse_command` returns.
pub open spec fn parsed_view(
    parsed: Result<Command, CommandError>,
) -> Result<CommandView, CommandError> {
    match parsed {
        Ok(command) => Ok(command@),
        Err(error) => Err(error),
    }
}

/// The views of a list of words.
pub open spec fn word_views(words: Seq<String>) -> Seq<Seq<char>> {
    words.map_values(|w: String| w@)
}

/// A prefix of a text of digits names no larger a number than the text.
pub proof fn lemma_digits_value_grows(text: Seq<char>, k: int)
    requires
        0 <= k <= text.len(),
    ensures
        digits_value(text.take(k)) <= digits_value(text),
    decreases text.len() - k,
{
    if k < text.len() {
        lemma_digits_value_grows(text, k + 1);
        assert(text.take(k + 1).drop_last() == text.take(k));
    } else {
        assert(text.take(k) == text);
    }
}

/// Tests whether a character is white space.
pub fn is_space_char(c: char) -> (space: bool)
    ensures
        space == is_space(c),
{
    let v: u32 = c as u32;
    let ascii = (0x09 <= v && v <= 0x0d) || v == 0x20;
    let latin = v == 0x85 || v == 0xa0;
    let wide = v == 0x1680 || (0x2000 <= v && v <= 0x200a) || v == 0x3000;
    let breaks = v == 0x2028 || v == 0x2029 || v == 0x202f || v == 0x205f;
    ascii || latin || wide || breaks
}

/// Splits a text into its words.
pub fn words_of(text: &str) -> (words: Vec<String>)
    ensures
        word_views(words@) == split_words(text@),
{
    let mut words: Vec<String> = Vec::new();
    let mut current = String::new();
    let mut in_word = false;
    let mut chars = text.chars();
    let ghost mut i: int = 0;
    loop
        invariant
            0 <= i <= text@.len(),
            chars.remaining() == text@.skip(i),
            in_word == (i > 0 && !is_space(text@[i - 1])),
            in_word ==> split_words(text@.take(i)) == word_views(words@).push(current@),
            !in_word ==> split_words(text@.take(i)) == word_views(words@),
            !in_word ==> current@.len() == 0,
        ensures
            i == text@.len(),
            in_word ==> split_words(text@.take(i)) == word_views(words@).push(current@),
            !in_word ==> split_words(text@.take(i)) == word_views(words@),
        decreases text@.len() - i,
    {
        let next = chars.next();
        match next {
            None => {
                break ;
            },
            Some(c) => {
                proof {
                    assert(text@.take(i + 1).drop_last() == text@.take(i));
                    assert(text@.take(i + 1).last() == c);
                    if i > 0 {
                        assert(text@.take(i + 1)[i - 1] == text@[i - 1]);
                    }
                }
                if is_space_char(c) {
                    if in_word {
                        let ghost listed = word_views(words@);
                        words.push(current);
                        current = String::new();
                        assert(word_views(words@) == listed.push(words@.last()@));
                    }
                    in_word = false;
                } else {
                    let ghost word = current@;
                    current.push(c);
                    proof {
                        if in_word {
                            let before = word_views(words@).push(word);
                            assert(before.drop_last() == word_views(words@));
                            assert(before.last() == word);
                            assert(split_words(text@.take(i + 1)) == word_views(words@).push(
                                word.push(c),
                            ));
                        } else {
                            assert(word.push(c) == seq![c]);
                            assert(split_words(text@.take(i + 1)) == word_views(words@).push(
                                seq![c],
                            ));
                        }
                    }
                    in_word = true;
                }
                proof {
                    i = i + 1;
                }
            },
        }
    }
    proof {
        assert(text@.take(i) == text@);
    }
    if in_word {
        let ghost listed = word_views(words@);
        words.push(current);
        assert(word_views(words@) == listed.push(words@.last()@));
    }
    words
}

/// Tests whether `text` begins with `prefix`.
pub fn has_prefix(text: &str, prefix: &str) -> (found: bool)
    ensures
        found == prefix@.is_prefix_of(text@),
{
    let mut rest = text.chars();
    let mut wanted = prefix.chars();
    let ghost mut i: int = 0;
    loop
        invariant
            0 <= i <= prefix@.len(),
            i <= text@.len(),
            rest.remaining() == text@.skip(i),
            wanted.remaining() == prefix@.skip(i),
            forall|k: int| 0 <= k < i ==> prefix@[k] == text@[k],
        decreases prefix@.len() - i,
    {
        match wanted.next() {
            None => {
                assert(prefix@ == text@.subrange(0, prefix@.len() as int));
                return true;
            },
            Some(expected) => {
                match rest.next() {
                    None => {
                        return false;
                    },
                    Some(c) => {
                        assert(expected == prefix@.skip(i)[0]);
                        assert(c == text@.skip(i)[0]);
                        if c != expected {
                            proof {
                                if prefix@.len() <= text@.len() {
                                    assert(text@.subrange(0, prefix@.len() as int)[i] == text@[i]);
                                }
                            }
                            return false;
                        }
                    },
                }
            },
        }
        proof {
            i = i + 1;
        }
    }
}

/// Tests whether two texts are the same.
pub fn same_text(a: &str, b: &str) -> (same: bool)
    ensures
        same == (a@ == b@),
{
    proof {
        if a@.len() == b@.len() {
            assert(a@.subrange(0, a@.len() as int) == a@);
            assert(b@.subrange(0, b@.len() as int) == b@);
        }
    }
    has_prefix(a, b) && has_prefix(b, a)
}

/// Reads an amount: an optional sign, then decimal digits.
pub fn parse_amount(text: &str) -> (amount: Option<i64>)
    ensures
        amount is None <==> amount_of(text@) is None,
        amount matches Some(value) ==> amount_of(text@) == Some(value as int),
{
    let mut chars = text.chars();
    let mut next = chars.next();
    let mut negative = false;
    let ghost mut start: int = 0;
    match next {
        Some(c) => {
            if c == '-' || c == '+' {
                negative = c == '-';
                next = chars.next();
                proof {
                    start = 1;
                }
            }
        },
        None => {},
    }
    let ghost digits = text@.skip(start);
    proof {
        if start == 1 {
            assert(digits == text@.drop_first());
        } else {
            assert(digits == text@);
        }
    }
    let limit: u64 = if negative {
        0x8000_0000_0000_0000
    } else {
        0x7fff_ffff_ffff_ffff
    };
    let mut magnitude: u64 = 0;
    let mut any_digit = false;
    let ghost mut i: int = start;
    loop
        invariant
            0 <= start <= i <= text@.len(),
            digits == text@.skip(start),
            amount_of(text@) == signed_value(digits, negative),
            negative ==> limit == 0x8000_0000_0000_0000,
            !negative ==> limit == 0x7fff_ffff_ffff_ffff,
            next is None ==> i == text@.len(),
            next matches Some(c) ==> i < text@.len() && c == text@[i] && chars.remaining()
                == text@.skip(i + 1),
            next is None ==> chars.remaining().len() == 0,
            any_digit == (i > start),
            all_digits(digits.take(i - start)),
            digits_value(digits.take(i - start)) == magnitude,
            magnitude <= limit,
        ensures
            0 <= start <= i == text@.len(),
            amount_of(text@) == signed_value(digits, negative),
            any_digit == (i > start),
            all_digits(digits.take(i - start)),
            digits_value(digits.take(i - start)) == magnitude,
            magnitude <= limit,
        decreases text@.len() - i,
    {
        match next {
            None => {
                break ;
            },
            Some(c) => {
                assert(digits[i - start] == c);
                let v: u32 = c as u32;
                if v < 48 || v > 57 {
                    assert(!is_digit(digits[i - start]));
                    return None;
                }
                let grown: u128 = magnitude as u128 * 10 + (v - 48) as u128;
                proof {
                    let seen = digits.take(i - start + 1);
                    assert(seen.drop_last() == digits.take(i - start));
                    assert(seen.last() == c);
                    assert(digits_value(seen) == grown);
                    lemma_digits_value_grows(digits, i - start + 1);
                }
                if grown > limit as u128 {
                    return None;
                }
                magnitude = grown as u64;
                any_digit = true;
                next = chars.next();
                proof {
                    i = i + 1;
                }
            },
        }
    }
    proof {
        assert(digits.take(i - start) == digits);
    }
    if !any_digit {
        None
    } else if !negative {
        Some(magnitude as i64)
    } else if magnitude == 0x8000_0000_0000_0000 {
        Some(i64::MIN)
    } else {
        Some(-(magnitude as i64))
    }
}

/// Reads a line of text as a command.
pub fn parse_command(line: &str) -> (parsed: Result<Command, CommandError>)
    ensures
        parsed_view(parsed) == command_of(line@),
{
    let words = words_of(line);
    let ghost listed = split_words(line@);
    proof {
        assert(listed.len() == words.len());
        assert forall|k: int| 0 <= k < words.len() implies listed[k] == (#[trigger] words[k])@ by {
            assert(word_views(words@)[k] == words[k]@);
        }
    }
    if words.len() == 1 && same_text(words[0].as_str(), "exit") {
        assert(listed == seq!["exit"@]);
        return Ok(Command::Exit);
    }
    if words.len() == 1 && same_text(words[0].as_str(), "show") {
        assert(listed == seq!["show"@]);
        return Ok(Command::Show);
    }
    if words.len() == 1 && same_text(words[0].as_str(), "mine") {
        assert(listed == seq!["mine"@]);
        return Ok(Command::Mine);
    }
    proof {
        assert(listed != seq!["exit"@]) by {
            if listed == seq!["exit"@] {
                assert(seq!["exit"@].len() == 1);
                assert(seq!["exit"@][0] == "exit"@);
            }
        }
        assert(listed != seq!["show"@]) by {
            if listed == seq!["show"@] {
                assert(seq!["show"@].len() == 1);
                assert(seq!["show"@][0] == "show"@);
            }
        }
        assert(listed != seq!["mine"@]) by {
            if listed == seq!["mine"@] {
                assert(seq!["mine"@].len() == 1);
                assert(seq!["mine"@][0] == "mine"@);
            }
        }
    }
    if words.len() > 0 && has_prefix(words[0].as_str(), "add-transaction") {
        if words.len() != 4 {
            return Err(CommandError::WrongWordCount);
        }
        match parse_amount(words[3].as_str()) {
            Some(amount) => Ok(
                Command::AddTransaction(
                    Transaction {
                        sender: words[1].clone(),
                        receiver: words[2].clone(),
                        amount,
                    },
                ),
            ),
            None => Err(CommandError::InvalidAmount),
        }
    } else {
        Err(CommandError::UnknownCommand)
    }
}

} // verus!
