use std::str::FromStr;
use vstd::prelude::*;

use crate::attribute::Attribute;
use crate::session::UsageError;

verus! {

pub open spec fn is_digit(c: char) -> bool {
    '0' <= c <= '9'
}

/// Value of a sequence of decimal digits.
pub open spec fn digits_value(d: Seq<char>) -> int
    decreases d.len(),
{
    if d.len() == 0 {
        0
    } else {
        digits_value(d.drop_last()) * 10 + (d.last() as int - '0' as int)
    }
}

/// The integer that `s` writes in decimal, with an optional `+` or `-`
/// sign and at least one digit, if it fits in an `i64`.
pub open spec fn decimal_i64(s: Seq<char>) -> Option<int> {
    let signed = s.len() > 0 && (s[0] == '-' || s[0] == '+');
    let d = if signed {
        s.drop_first()
    } else {
        s
    };
    let v = if s.len() > 0 && s[0] == '-' {
        -digits_value(d)
    } else {
        digits_value(d)
    };
    if d.len() > 0 && (forall|i: int| 0 <= i < d.len() ==> is_digit(#[trigger] d[i])) && i64::MIN
        <= v <= i64::MAX {
        Some(v)
    } else {
        None
    }
}

/// The pieces of `s` between the occurrences of `sep`, in order, empty
/// pieces included; one empty piece for an empty `s`.
pub open spec fn split_on(s: Seq<char>, sep: char) -> Seq<Seq<char>>
    decreases s.len(),
{
    if s.len() == 0 {
        seq![Seq::empty()]
    } else {
        let before = split_on(s.drop_last(), sep);
        if s.last() == sep {
            before.push(Seq::empty())
        } else {
            before.update(before.len() - 1, before.last().push(s.last()))
        }
    }
}

/// Relies on `<i64 as FromStr>::from_str`: an optional `+` or `-` sign then
/// one or more decimal digits, whose value must fit in an `i64`.
#[verifier::external_body]
fn i64_from_text(s: &str) -> (r: Option<i64>)
    ensures
        r matches Some(v) ==> decimal_i64(s@) == Some(v as int),
        r is None ==> decimal_i64(s@) is None,
{
    i64::from_str(s).ok()
}

/// Relies on `str::split` with a `char` pattern: the pieces between the
/// separators, in order, empty pieces included.
#[verifier::external_body]
fn split_slash(s: &str) -> (r: Vec<String>)
    ensures
        r@.len() == split_on(s@, '/').len(),
        forall|i: int| 0 <= i < r@.len() ==> (#[trigger] r@[i])@ == split_on(s@, '/')[i],
{
    s.split('/').map(|p| p.to_string()).collect()
}

/// Checks that there are exactly `len` arguments.
pub fn check_arg(args: &Vec<String>, len: usize) -> (r: Result<(), UsageError>)
    ensures
        r is Ok <==> args@.len() == len,
        r matches Err(e) ==> e == UsageError::UnknownUsage,
{
    if args.len() != len {
        return Err(UsageError::UnknownUsage);
    }
    Ok(())
}

/// Reads a decimal `i64`.
pub fn parse_i64(input: &str) -> (r: Result<i64, UsageError>)
    ensures
        r matches Ok(v) ==> decimal_i64(input@) == Some(v as int),
        r is Err ==> decimal_i64(input@) is None,
        r matches Err(e) ==> e == UsageError::UnknownUsage,
{
    match i64_from_text(input) {
        Some(v) => Ok(v),
        None => Err(UsageError::UnknownUsage),
    }
}

/// An attribute written `time/value/popularity`.
pub open spec fn attr_text(s: Seq<char>) -> Option<Attribute> {
    let p = split_on(s, '/');
    if p.len() == 3 && decimal_i64(p[0]) is Some && decimal_i64(p[1]) is Some && decimal_i64(
        p[2],
    ) is Some {
        Some(
            Attribute {
                time: decimal_i64(p[0])->0 as i64,
                value: decimal_i64(p[1])->0 as i64,
                popularity: decimal_i64(p[2])->0 as i64,
            },
        )
    } else {
        None
    }
}

/// Reads an attribute written as three decimal integers separated by `/`.
pub fn parse_attr(input: &str) -> (r: Result<Attribute, UsageError>)
    ensures
        r matches Ok(a) ==> attr_text(input@) == Some(a),
        r is Err ==> attr_text(input@) is None,
        r matches Err(e) ==> e == UsageError::UnknownUsage,
{
    let pieces = split_slash(input);
    if pieces.len() != 3 {
        return Err(UsageError::UnknownUsage);
    }
    let time = parse_i64(pieces[0].as_str())?;
    let value = parse_i64(pieces[1].as_str())?;
    let popularity = parse_i64(pieces[2].as_str())?;
    Ok(Attribute::new(time, value, popularity))
}

} // verus!
