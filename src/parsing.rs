//! Decimal parsing of a list of strings into `u64` values.
use std::num::ParseIntError;
use vstd::prelude::*;

verus! {

/// std::num::ParseIntError, the error of `str::parse::<u64>`; it is only
/// handed back to the caller.
#[verifier::external_type_specification]
#[verifier::external_body]
pub struct ExParseIntError(ParseIntError);

/// Whether `c` is an ASCII decimal digit.
pub open spec fn is_digit(c: char) -> bool {
    '0' <= c && c <= '9'
}

/// The value of the decimal digits `s`.
pub open spec fn digits_value(s: Seq<char>) -> int
    decreases s.len(),
{
    if s.len() == 0 {
        0
    } else {
        digits_value(s.drop_last()) * 10 + (s.last() as int - '0' as int)
    }
}

/// `s` without one leading `+`.
pub open spec fn unsigned_digits(s: Seq<char>) -> Seq<char> {
    if s.len() > 0 && s[0] == '+' {
        s.drop_first()
    } else {
        s
    }
}

/// Whether `s` reads as a `u64`: an optional `+`, then one or more decimal
/// digits whose value fits.
pub open spec fn parses_as_u64(s: Seq<char>) -> bool {
    let d = unsigned_digits(s);
    &&& d.len() > 0
    &&& forall|i: int| 0 <= i < d.len() ==> is_digit(#[trigger] d[i])
    &&& digits_value(d) <= u64::MAX
}

/// Relies on `str::parse::<u64>` (`u64::from_str`): it accepts an optional
/// `+` followed by decimal digits whose value fits in a `u64`, and refuses
/// everything else.
#[verifier::external_body]
fn parse_u64(input: &str) -> (r: Result<u64, ParseIntError>)
    ensures
        r is Ok <==> parses_as_u64(input@),
        r matches Ok(n) ==> n == digits_value(unsigned_digits(input@)),
{
    input.parse::<u64>()
}

/// Each input read as a `u64`, in order; the error of the first input that
/// does not read as one.
pub fn parse(inputs: Vec<&str>) -> (r: Result<Vec<u64>, ParseIntError>)
    ensures
        r is Ok <==> forall|i: int| 0 <= i < inputs@.len() ==> parses_as_u64(#[trigger] inputs@[i]@),
        r matches Ok(v) ==> v@.len() == inputs@.len() && forall|i: int| 0 <= i < inputs@.len()
            ==> v@[i] == digits_value(unsigned_digits(#[trigger] inputs@[i]@)),
{
    let mut result: Vec<u64> = Vec::with_capacity(inputs.len());
    let n = inputs.len();
    let mut i: usize = 0;
    while i < n
        invariant
            n == inputs@.len(),
            i <= n,
            result@.len() == i,
            forall|j: int| 0 <= j < i ==> parses_as_u64(#[trigger] inputs@[j]@),
            forall|j: int| 0 <= j < i ==> result@[j] == digits_value(
                unsigned_digits(#[trigger] inputs@[j]@),
            ),
        decreases n - i,
    {
        match parse_u64(inputs[i]) {
            Ok(parsed) => result.push(parsed),
            Err(e) => return Err(e),
        }
        i = i + 1;
    }
    Ok(result)
}

} // verus!
