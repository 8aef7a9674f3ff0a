//! The whitelist as the command line gives it: surface numbers separated by
//! commas.

use vstd::prelude::*;
use crate::digits::{decimal_text, push_decimal};

verus! {

/// Why a field of the list is no surface number.
#[derive(Debug, PartialEq, Eq, Structural, Clone, Copy)]
pub enum FieldError {
    /// The field holds nothing.
    Empty,
    /// The field holds something other than an optional plus sign and
    /// decimal digits.
    InvalidDigit,
    /// The number leaves the machine's range.
    TooLarge,
}

/// The fields of `text`: the pieces between its commas. A text without a
/// comma is one field, and so is the empty text.
pub open spec fn split_fields(text: Seq<char>) -> Seq<Seq<char>>
    decreases text.len(),
{
    if text.len() == 0 {
        seq![Seq::<char>::empty()]
    } else {
        let before = split_fields(text.drop_last());
        if text.last() == ',' {
            before.push(Seq::<char>::empty())
        } else {
            before.drop_last().push(before.last().push(text.last()))
        }
    }
}

/// Whether `c` is a decimal digit.
pub open spec fn is_digit(c: char) -> bool {
    '0' <= c && c <= '9'
}

/// The value of a decimal digit.
pub open spec fn digit_value(c: char) -> nat {
    (c as int - '0' as int) as nat
}

/// Reads decimal digits from left to right, starting from the value `acc`.
/// The first character that is no digit, or the first digit that takes the
/// value out of the machine's range, ends the reading with an error.
pub open spec fn scan_digits(digits: Seq<char>, acc: nat) -> Result<nat, FieldError>
    decreases digits.len(),
{
    if digits.len() == 0 {
        Ok(acc)
    } else if !is_digit(digits[0]) {
        Err(FieldError::InvalidDigit)
    } else if acc * 10 + digit_value(digits[0]) > usize::MAX {
        Err(FieldError::TooLarge)
    } else {
        scan_digits(digits.drop_first(), acc * 10 + digit_value(digits[0]))
    }
}

/// The number that a field stands for: decimal digits, with one plus sign
/// before them if one likes.
pub open spec fn parse_field(field: Seq<char>) -> Result<nat, FieldError> {
    if field.len() == 0 {
        Err(FieldError::Empty)
    } else if field[0] == '+' {
        if field.len() == 1 {
            Err(FieldError::InvalidDigit)
        } else {
            scan_digits(field.drop_first(), 0)
        }
    } else {
        scan_digits(field, 0)
    }
}

/// The numbers of the first `upto` fields, or the position and the error of
/// the first field among them that is no number.
pub open spec fn parse_fields(fields: Seq<Seq<char>>, upto: nat) -> Result<Seq<nat>, (nat, FieldError)>
    decreases upto,
{
    if upto == 0 {
        Ok(Seq::empty())
    } else {
        match parse_fields(fields, (upto - 1) as nat) {
            Ok(values) => match parse_field(fields[upto - 1]) {
                Ok(value) => Ok(values.push(value)),
                Err(error) => Err(((upto - 1) as nat, error)),
            },
            Err(failure) => Err(failure),
        }
    }
}

/// What is wrong with a field, in words.
pub open spec fn error_text(error: FieldError) -> Seq<char> {
    match error {
        FieldError::Empty => "cannot parse integer from empty string"@,
        FieldError::InvalidDigit => "invalid digit found in string"@,
        FieldError::TooLarge => "number too large to fit in target type"@,
    }
}

/// The message for a list whose field at `index` is no number.
pub open spec fn failure_text(index: nat, error: FieldError) -> Seq<char> {
    "Whitelist is invalid: element: "@ + decimal_text(index) + ": "@ + error_text(error)
}

/// What a list of machine numbers stands for.
pub open spec fn number_values(numbers: Seq<usize>) -> Seq<nat> {
    Seq::new(numbers.len(), |i: int| numbers[i] as nat)
}

/// What a list of character lists stands for.
pub open spec fn field_views(fields: Seq<Vec<char>>) -> Seq<Seq<char>> {
    Seq::new(fields.len(), |i: int| fields[i]@)
}

/// Cuts `text` at its commas.
pub fn split_at_commas(text: &str) -> (fields: Vec<Vec<char>>)
    ensures
        field_views(fields@) == split_fields(text@),
{
    let mut fields: Vec<Vec<char>> = Vec::new();
    let mut current: Vec<char> = Vec::new();
    proof {
        assert(text@.subrange(0, 0) =~= Seq::<char>::empty());
    }
    for c in it: text.chars()
        invariant
            it.seq() == text@,
            split_fields(text@.subrange(0, it.index())) == field_views(fields@).push(current@),
    {
        let ghost prefix = text@.subrange(0, it.index() + 1);
        let ghost done = field_views(fields@);
        proof {
            assert(prefix.drop_last() =~= text@.subrange(0, it.index()));
            assert(prefix.last() == c);
            assert(done.push(current@).drop_last() =~= done);
        }
        if c == ',' {
            let ghost full = current@;
            fields.push(current);
            current = Vec::new();
            proof {
                assert(field_views(fields@) =~= done.push(full));
            }
        } else {
            current.push(c);
        }
    }
    proof {
        assert(text@.subrange(0, text@.len() as int) =~= text@);
    }
    let ghost done = field_views(fields@);
    let ghost last = current@;
    fields.push(current);
    proof {
        assert(field_views(fields@) =~= done.push(last));
    }
    fields
}

/// What the list `text` stands for: the numbers of its fields in order, or
/// the message for its first field that is no number.
pub open spec fn whitelist_outcome(text: Seq<char>) -> Result<Seq<nat>, Seq<char>> {
    let fields = split_fields(text);
    match parse_fields(fields, fields.len()) {
        Ok(values) => Ok(values),
        Err(failure) => Err(failure_text(failure.0, failure.1)),
    }
}

/// The value of `c` as a decimal digit, if it is one.
fn digit_of(c: char) -> (digit: Option<usize>)
    ensures
        match digit {
            Some(d) => is_digit(c) && d == digit_value(c),
            None => !is_digit(c),
        },
{
    if '0' <= c && c <= '9' {
        Some((c as u32 - '0' as u32) as usize)
    } else {
        None
    }
}

/// Reads the number that a field stands for.
pub fn parse_number(field: &Vec<char>) -> (number: Result<usize, FieldError>)
    ensures
        match number {
            Ok(value) => parse_field(field@) == Ok::<nat, FieldError>(value as nat),
            Err(error) => parse_field(field@) == Err::<nat, FieldError>(error),
        },
{
    if field.len() == 0 {
        return Err(FieldError::Empty);
    }
    let mut index: usize = 0;
    if field[0] == '+' {
        if field.len() == 1 {
            return Err(FieldError::InvalidDigit);
        }
        index = 1;
    }
    let ghost digits = field@.subrange(index as int, field@.len() as int);
    let mut value: usize = 0;
    proof {
        assert(field@.subrange(0, field@.len() as int) =~= field@);
        assert(field@.subrange(1, field@.len() as int) =~= field@.drop_first());
    }
    while index < field.len()
        invariant
            index <= field.len(),
            parse_field(field@) == scan_digits(
                field@.subrange(index as int, field@.len() as int),
                value as nat,
            ),
        decreases field.len() - index,
    {
        let ghost rest = field@.subrange(index as int, field@.len() as int);
        proof {
            assert(rest.drop_first() =~= field@.subrange(index + 1, field@.len() as int));
            assert(rest[0] == field@[index as int]);
        }
        let digit = match digit_of(field[index]) {
            Some(digit) => digit,
            None => {
                return Err(FieldError::InvalidDigit);
            },
        };
        let shifted = match value.checked_mul(10) {
            Some(shifted) => shifted,
            None => {
                return Err(FieldError::TooLarge);
            },
        };
        value = match shifted.checked_add(digit) {
            Some(sum) => sum,
            None => {
                return Err(FieldError::TooLarge);
            },
        };
        index = index + 1;
    }
    proof {
        assert(field@.subrange(index as int, field@.len() as int) =~= Seq::<char>::empty());
    }
    Ok(value)
}

/// The message for a list whose field at `index` is no number.
pub fn failure_message(index: usize, error: FieldError) -> (message: String)
    ensures
        message@ == failure_text(index as nat, error),
{
    let mut message = String::new();
    message.append("Whitelist is invalid: element: ");
    push_decimal(&mut message, index);
    message.append(": ");
    match error {
        FieldError::Empty => message.append("cannot parse integer from empty string"),
        FieldError::InvalidDigit => message.append("invalid digit found in string"),
        FieldError::TooLarge => message.append("number too large to fit in target type"),
    }
    proof {
        assert(message@ =~= failure_text(index as nat, error));
    }
    message
}

/// Reads a whitelist: surface numbers separated by commas. Every field must
/// be a number; the first one that is none is named in the error message by
/// its position, counted from zero.
pub fn whitelist_in_csv(s: &str) -> (whitelist: Result<Vec<usize>, String>)
    ensures
        match whitelist {
            Ok(numbers) => whitelist_outcome(s@) == Ok::<Seq<nat>, Seq<char>>(
                number_values(numbers@),
            ),
            Err(message) => whitelist_outcome(s@) == Err::<Seq<nat>, Seq<char>>(message@),
        },
{
    let fields = split_at_commas(s);
    let ghost views = split_fields(s@);
    let mut whitelist: Vec<usize> = Vec::new();
    let mut index: usize = 0;
    proof {
        assert(number_values(whitelist@) =~= Seq::<nat>::empty());
    }
    while index < fields.len()
        invariant
            views == split_fields(s@),
            views == field_views(fields@),
            index <= fields.len(),
            parse_fields(views, index as nat) == Ok::<Seq<nat>, (nat, FieldError)>(
                number_values(whitelist@),
            ),
        decreases fields.len() - index,
    {
        let ghost before = number_values(whitelist@);
        proof {
            assert(views[index as int] == fields@[index as int]@);
        }
        match parse_number(&fields[index]) {
            Ok(v) => {
                whitelist.push(v);
                proof {
                    assert(number_values(whitelist@) =~= before.push(v as nat));
                }
            },
            Err(e) => {
                proof {
                    lemma_failure_stays(views, (index + 1) as nat, views.len());
                }
                return Err(failure_message(index, e));
            },
        }
        index = index + 1;
    }
    Ok(whitelist)
}

/// Once a field is no number, reading further fields changes nothing.
pub proof fn lemma_failure_stays(fields: Seq<Seq<char>>, upto: nat, later: nat)
    requires
        upto <= later,
        parse_fields(fields, upto) is Err,
    ensures
        parse_fields(fields, later) == parse_fields(fields, upto),
    decreases later,
{
    if upto < later {
        lemma_failure_stays(fields, upto, (later - 1) as nat);
    }
}

} // verus!
