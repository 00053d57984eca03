//! Reading the values of command-line options.

use vstd::prelude::*;
use vstd::string::*;
use crate::text::owned;

verus! {

/// The value of an option: given, not given, or given wrongly.
#[derive(Debug)]
pub enum GetOptResult<T> {
    /// The option was given with this value.
    Value(T),
    /// The option was not given.
    Missing,
    /// The option was given with a value that cannot be used, and why.
    Invalid(String),
}

impl<T> GetOptResult<T> {
    /// Applies `f` to a value that was given; what was not given or given
    /// wrongly stays as it is.
    pub fn map<U, F: FnOnce(T) -> U>(self, f: F) -> (r: GetOptResult<U>)
        requires
            self is Value ==> f.requires((self->Value_0,)),
        ensures
            self is Value ==> r is Value && f.ensures((self->Value_0,), r->Value_0),
            self is Missing ==> r is Missing,
            self is Invalid ==> r is Invalid && r->Invalid_0 == self->Invalid_0,
    {
        match self {
            GetOptResult::Value(val) => GetOptResult::Value(f(val)),
            GetOptResult::Missing => GetOptResult::Missing,
            GetOptResult::Invalid(msg) => GetOptResult::Invalid(msg),
        }
    }

    /// Hands a value that was given to `f`, which may find it wrong; what
    /// was not given or given wrongly stays as it is.
    pub fn and_then<U, F: FnOnce(T) -> GetOptResult<U>>(self, f: F) -> (r: GetOptResult<U>)
        requires
            self is Value ==> f.requires((self->Value_0,)),
        ensures
            self is Value ==> f.ensures((self->Value_0,), r),
            self is Missing ==> r is Missing,
            self is Invalid ==> r is Invalid && r->Invalid_0 == self->Invalid_0,
    {
        match self {
            GetOptResult::Value(val) => f(val),
            GetOptResult::Missing => GetOptResult::Missing,
            GetOptResult::Invalid(msg) => GetOptResult::Invalid(msg),
        }
    }

    /// An option that may have been given, as a value or a missing one.
    pub fn from_option(opt: Option<T>) -> (r: GetOptResult<T>)
        ensures
            opt is Some ==> r is Value && r->Value_0 == opt->0,
            opt is None ==> r is Missing,
    {
        match opt {
            Some(val) => GetOptResult::Value(val),
            None => GetOptResult::Missing,
        }
    }

    /// The value if one was given rightly.
    pub fn into_option(self) -> (opt: Option<T>)
        ensures
            self is Value ==> opt == Some(self->Value_0),
            !(self is Value) ==> opt is None,
    {
        match self {
            GetOptResult::Value(val) => Some(val),
            _ => None,
        }
    }
}

/// Whether `c` is a decimal digit.
pub open spec fn is_digit(c: char) -> bool {
    '0' <= c && c <= '9'
}

/// The number that the digits `s` spell.
pub open spec fn digits_value(s: Seq<char>) -> nat
    decreases s.len(),
{
    if s.len() == 0 {
        0
    } else {
        digits_value(s.drop_last()) * 10 + ((s.last() as u32) - 48) as nat
    }
}

/// The digits of a number as it is written: the text itself, or what
/// follows one leading plus sign.
pub open spec fn digits_part(s: Seq<char>) -> Seq<char> {
    if s.len() > 0 && s[0] == '+' {
        s.skip(1)
    } else {
        s
    }
}

/// The number that `s` spells, if `s` is one or more decimal digits, with
/// or without a plus sign before them, and the number fits in 64 bits.
pub open spec fn spec_parse_u64(s: Seq<char>) -> Option<u64> {
    let d = digits_part(s);
    if d.len() > 0 && (forall|i: int| 0 <= i < d.len() ==> is_digit(d[i])) && digits_value(d)
        <= u64::MAX {
        Some(digits_value(d) as u64)
    } else {
        None
    }
}

proof fn lemma_value_grows(s: Seq<char>, i: int)
    requires
        0 <= i <= s.len(),
        forall|j: int| 0 <= j < s.len() ==> is_digit(s[j]),
    ensures
        digits_value(s.take(i)) <= digits_value(s),
    decreases s.len() - i,
{
    if i < s.len() {
        lemma_value_grows(s, i + 1);
        assert(s.take(i + 1).drop_last() =~= s.take(i));
    } else {
        assert(s.take(i) =~= s);
    }
}

/// Reads a number as it is written in decimal.
pub fn parse_u64(s: &str) -> (r: Option<u64>)
    ensures
        r == spec_parse_u64(s@),
{
    let n: usize = s.unicode_len();
    let first: usize = if n > 0 && s.get_char(0) == '+' {
        1
    } else {
        0
    };
    if first == n {
        return None;
    }
    let ghost d = digits_part(s@);
    proof {
        assert(d =~= s@.skip(first as int));
    }
    let mut acc: u64 = 0;
    let mut i: usize = first;
    while i < n
        invariant
            first <= i <= n,
            n == s@.len(),
            d == s@.skip(first as int),
            d == digits_part(s@),
            d.len() == n - first,
            forall|j: int| 0 <= j < i - first ==> is_digit(d[j]),
            acc == digits_value(d.take(i - first)),
        decreases n - i,
    {
        let c: char = s.get_char(i);
        proof {
            assert(d[i - first] == c);
            assert(d.take(i - first + 1).drop_last() =~= d.take(i - first));
        }
        if !('0' <= c && c <= '9') {
            proof {
                assert(!is_digit(d[i - first]));
            }
            return None;
        }
        let v: u64 = ((c as u32) - 48) as u64;
        if acc > (u64::MAX - v) / 10 {
            proof {
                if forall|j: int| 0 <= j < d.len() ==> is_digit(d[j]) {
                    lemma_value_grows(d, i - first + 1);
                    assert(digits_value(d.take(i - first + 1)) == acc * 10 + v);
                }
            }
            return None;
        }
        acc = acc * 10 + v;
        i = i + 1;
    }
    proof {
        assert(d.take(n - first) =~= d);
    }
    Some(acc)
}

/// Accepts the text of an integer greater than zero.
pub fn is_nonzero(text: String) -> (r: Result<(), String>)
    ensures
        r is Ok <==> spec_parse_u64(text@) is Some && spec_parse_u64(text@)->0 > 0,
        r is Err ==> r->Err_0@ == "must be an integer greater than zero"@,
{
    match parse_u64(text.as_str()) {
        Some(v) => {
            if v > 0 {
                Ok(())
            } else {
                Err(owned("must be an integer greater than zero"))
            }
        },
        None => Err(owned("must be an integer greater than zero")),
    }
}

/// Accepts the text of an integer.
pub fn is_int(text: String) -> (r: Result<(), String>)
    ensures
        r is Ok <==> spec_parse_u64(text@) is Some,
        r is Err ==> r->Err_0@ == "must be an integer"@,
{
    match parse_u64(text.as_str()) {
        Some(_) => Ok(()),
        None => Err(owned("must be an integer")),
    }
}

/// Whether and how the results are written as JSON.
#[derive(Debug, Clone, Copy, PartialEq, Eq, Structural)]
pub enum JsonSettings {
    NoJson,
    CompactJson,
    /// Indented by the given number of spaces for each level.
    PrettyJson(usize),
}

impl JsonSettings {
    /// Whether the results are written as JSON at all.
    pub fn is_json(&self) -> (json: bool)
        ensures
            json == !(*self is NoJson),
    {
        match self {
            JsonSettings::NoJson => false,
            _ => true,
        }
    }
}

} // verus!
