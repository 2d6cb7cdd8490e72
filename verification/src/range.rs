//! The range of blocks to relay, as the command line gives it.

use vstd::prelude::*;
use crate::account::chars_of;
use crate::block::BlockHeight;
use crate::error::MalformedArgument;

verus! {

/// Which blocks a run relays.
#[derive(Clone, Copy, Debug, PartialEq, Eq)]
pub enum BlockRange {
    /// The blocks from `start_inclusive` up to, but without, `end_exclusive`.
    Range { start_inclusive: BlockHeight, end_exclusive: Option<BlockHeight> },
    /// The blocks from where the last run left off.
    AutoContinue,
}

/// `c` is one of the characters that may group the digits of a number.
pub open spec fn is_grouping(c: char) -> bool {
    c == '_' || c == ',' || c == ' ' || c == '.'
}

/// `text` without the characters that group digits.
pub open spec fn without_grouping(text: Seq<char>) -> Seq<char> {
    text.filter(|c: char| !is_grouping(c))
}

/// `text` without a leading `+`.
pub open spec fn without_sign(text: Seq<char>) -> Seq<char> {
    if text.len() > 0 && text[0] == '+' {
        text.drop_first()
    } else {
        text
    }
}

/// `c` is a decimal digit.
pub open spec fn is_digit(c: char) -> bool {
    '0' <= c <= '9'
}

/// The value of the decimal digit `c`.
pub open spec fn digit_value(c: char) -> nat {
    if is_digit(c) {
        (c as int - '0' as int) as nat
    } else {
        0
    }
}

/// Every character of `text` is a decimal digit.
pub open spec fn all_digits(text: Seq<char>) -> bool {
    forall|i: int| 0 <= i < text.len() ==> is_digit(#[trigger] text[i])
}

/// The number that the decimal digits `digits` write.
pub open spec fn decimal_value(digits: Seq<char>) -> nat
    decreases digits.len(),
{
    if digits.len() == 0 {
        0
    } else {
        10 * decimal_value(digits.drop_last()) + digit_value(digits.last())
    }
}

/// The number that `text` writes: an optional `+`, then one decimal digit or
/// more, of a value that a block height can hold.
pub open spec fn parsed_number(text: Seq<char>) -> Option<BlockHeight> {
    let digits = without_sign(text);
    if digits.len() > 0 && all_digits(digits) && decimal_value(digits) <= u64::MAX {
        Some(decimal_value(digits) as u64)
    } else {
        None
    }
}

/// The block height that the argument `text` gives, read without the
/// characters that group its digits.
pub open spec fn parsed_height(text: Seq<char>) -> Option<BlockHeight> {
    parsed_number(without_grouping(text))
}

/// The range that the arguments `args` give: none stands for continuing, two
/// heights for the range between them, anything else is malformed.
pub open spec fn parsed_range(args: Seq<String>) -> Result<BlockRange, MalformedArgument> {
    if args.len() == 0 {
        Ok(BlockRange::AutoContinue)
    } else if args.len() == 2 {
        match (parsed_height(args[0]@), parsed_height(args[1]@)) {
            (Some(start), Some(end)) => Ok(
                BlockRange::Range { start_inclusive: start, end_exclusive: Some(end) },
            ),
            _ => Err(MalformedArgument),
        }
    } else {
        Err(MalformedArgument)
    }
}

/// The digits written so far are worth no more than all of them.
proof fn lemma_decimal_value_grows(digits: Seq<char>, written: int)
    requires
        0 <= written <= digits.len(),
    ensures
        decimal_value(digits.take(written)) <= decimal_value(digits),
    decreases digits.len() - written,
{
    if written < digits.len() {
        assert(digits.take(written + 1).drop_last() == digits.take(written));
        lemma_decimal_value_grows(digits, written + 1);
    } else {
        assert(digits.take(written) == digits);
    }
}

/// Takes the characters that group digits out of `text`.
fn strip_grouping(text: &str) -> (kept: Vec<char>)
    ensures
        kept@ == without_grouping(text@),
{
    let chars = chars_of(text);
    let mut kept: Vec<char> = Vec::new();
    let mut i: usize = 0;
    while i < chars.len()
        invariant
            i <= chars.len(),
            chars@ == text@,
            kept@ == without_grouping(text@.take(i as int)),
        decreases chars.len() - i,
    {
        proof {
            reveal(Seq::filter);
            assert(text@.take(i + 1).drop_last() == text@.take(i as int));
        }
        let c = chars[i];
        if !(c == '_' || c == ',' || c == ' ' || c == '.') {
            kept.push(c);
        }
        i = i + 1;
    }
    proof {
        assert(text@.take(i as int) == text@);
    }
    kept
}

/// Reads a number: an optional `+`, then decimal digits.
fn parse_number(text: &Vec<char>) -> (number: Option<BlockHeight>)
    ensures
        number == parsed_number(text@),
{
    let start: usize = if text.len() > 0 && text[0] == '+' {
        1
    } else {
        0
    };
    let ghost digits = without_sign(text@);
    if start == text.len() {
        return None;
    }
    let mut value: u64 = 0;
    let mut i: usize = start;
    while i < text.len()
        invariant
            start <= i <= text.len(),
            digits == without_sign(text@),
            digits == text@.skip(start as int),
            all_digits(digits.take(i - start)),
            value == decimal_value(digits.take(i - start)),
        decreases text.len() - i,
    {
        let c = text[i];
        let ghost written = digits.take(i - start + 1);
        proof {
            assert(written.drop_last() == digits.take(i - start));
            assert(written.last() == c);
            assert(digits[i - start] == c);
        }
        if !('0' <= c && c <= '9') {
            assert(!is_digit(digits[i - start]));
            return None;
        }
        let digit: u64 = (c as u32 - '0' as u32) as u64;
        let next = match value.checked_mul(10) {
            Some(tenfold) => tenfold.checked_add(digit),
            None => None,
        };
        match next {
            Some(more) => {
                value = more;
            },
            None => {
                proof {
                    lemma_decimal_value_grows(digits, i - start + 1);
                    assert(decimal_value(written) > u64::MAX);
                }
                return None;
            },
        }
        proof {
            assert forall|k: int| 0 <= k < written.len() implies is_digit(#[trigger] written[k]) by {
                if k < written.len() - 1 {
                    assert(written[k] == digits.take(i - start)[k]);
                }
            }
        }
        i = i + 1;
    }
    proof {
        assert(digits.take(i - start) == digits);
    }
    Some(value)
}

/// Reads one block height from an argument. The characters `_`, `,`, `.` and
/// the space may group its digits and are passed over.
pub fn parse_height(text: &str) -> (height: Option<BlockHeight>)
    ensures
        height == parsed_height(text@),
{
    let kept = strip_grouping(text);
    parse_number(&kept)
}

/// Reads the range of blocks from the arguments that follow the name of the
/// program: none to continue from where the last run left off, or the first
/// height and the height to stop before.
pub fn parse_block_range(args: &[String]) -> (range: Result<BlockRange, MalformedArgument>)
    ensures
        range == parsed_range(args@),
{
    if args.len() == 0 {
        return Ok(BlockRange::AutoContinue);
    }
    if args.len() != 2 {
        return Err(MalformedArgument);
    }
    let start = parse_height(args[0].as_str());
    let end = parse_height(args[1].as_str());
    match (start, end) {
        (Some(start), Some(end)) => Ok(
            BlockRange::Range { start_inclusive: start, end_exclusive: Some(end) },
        ),
        _ => Err(MalformedArgument),
    }
}

} // verus!
