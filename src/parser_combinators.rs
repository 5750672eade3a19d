use vstd::prelude::*;
use vstd::string::StrSliceExecFns;
use vstd::string::StringExecFns;
use crate::error::{Error, ErrorView};
use crate::position::Position;

verus! {

/// A match value: the text produced by the latest literal match, and the
/// input that is still to be matched.
pub type Value = (String, String);

/// A match value seen as character sequences.
pub type ValueView = (Seq<char>, Seq<char>);

pub open spec fn value_view(v: Value) -> ValueView {
    (v.0@, v.1@)
}

pub fn fst<A, B>(tuple: (A, B)) -> (r: A)
    ensures
        r == tuple.0,
{
    let (a, _) = tuple;
    a
}

pub fn snd<A, B>(tuple: (A, B)) -> (r: B)
    ensures
        r == tuple.1,
{
    let (_, b) = tuple;
    b
}

pub open spec fn input_error(message: Seq<char>, pos_start: Position, pos_end: Position) -> ErrorView {
    ErrorView { name: "InputError"@, message, pos_start, pos_end }
}

/// What matching the literal `expected` against the remainder `rem` gives:
/// the literal and the rest of the input when `rem` starts with it, and an
/// input error otherwise.
pub open spec fn literal_outcome(
    expected: Seq<char>,
    rem: Seq<char>,
    pos_start: Position,
    pos_end: Position,
) -> Result<ValueView, ErrorView> {
    let n = expected.len() as int;
    if n > rem.len() {
        Err(input_error("cannot match "@ + rem + " with "@ + expected, pos_start, pos_end))
    } else if rem.subrange(0, n) == expected {
        Ok((expected, rem.subrange(n, rem.len() as int)))
    } else {
        Err(input_error("expected "@ + expected + ", found "@ + rem.subrange(0, n), pos_start, pos_end))
    }
}

pub open spec fn result_view(r: Result<Value, Error>) -> Result<ValueView, ErrorView> {
    match r {
        Ok(v) => Ok(value_view(v)),
        Err(e) => Err(e@),
    }
}

/// Matches the literal `expected` at the start of the remainder of `string`.
pub fn literal_parse(expected: String, string: Value, pos_start: Position, pos_end: Position) -> (r:
    Result<Value, Error>)
    ensures
        result_view(r) == literal_outcome(expected@, string.1@, pos_start, pos_end),
{
    let second = snd(string);
    let n = expected.as_str().unicode_len();
    let m = second.as_str().unicode_len();
    if n > m {
        let message = String::from_str("cannot match ").concat(second.as_str()).concat(
            " with ",
        ).concat(expected.as_str());
        return Err(
            Error { name: String::from_str("InputError"), message, pos_start, pos_end },
        );
    }
    let match_str = String::from_str(second.as_str().substring_char(0, n));
    let rest = String::from_str(second.as_str().substring_char(n, m));
    if match_str == expected {
        Ok((match_str, rest))
    } else {
        let message = String::from_str("expected ").concat(expected.as_str()).concat(
            ", found ",
        ).concat(match_str.as_str());
        Err(Error { name: String::from_str("InputError"), message, pos_start, pos_end })
    }
}

pub fn copy_value(value: &Result<Value, Error>) -> (r: Result<Value, Error>)
    ensures
        r == *value,
{
    match value {
        Ok(t) => {
            let (a, b) = t;
            Ok((a.clone(), b.clone()))
        },
        Err(err) => Err(err.copy()),
    }
}

} // verus!
