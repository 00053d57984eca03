//! Numbers, times and byte counts as a reader wants to see them.

use vstd::prelude::*;
use vstd::string::*;
use crate::text::{push_char, push_text};

verus! {

/// The character of the decimal digit `d`.
pub open spec fn digit_char(d: nat) -> char {
    ((48 + d) as u8) as char
}

/// `n` in decimal, without leading zeros.
pub open spec fn decimal(n: nat) -> Seq<char>
    decreases n,
{
    if n < 10 {
        seq![digit_char(n)]
    } else {
        decimal(n / 10).push(digit_char(n % 10))
    }
}

/// `n`, which is below a hundred, in two digits.
pub open spec fn two_digits(n: nat) -> Seq<char> {
    seq![digit_char(n / 10), digit_char(n % 10)]
}

/// `n`, which is below a thousand, in three digits.
pub open spec fn three_digits(n: nat) -> Seq<char> {
    seq![digit_char(n / 100), digit_char((n / 10) % 10), digit_char(n % 10)]
}

/// `n` in decimal with a comma before every group of three digits.
pub open spec fn grouped(n: nat) -> Seq<char>
    decreases n,
{
    if n < 1000 {
        decimal(n)
    } else {
        grouped(n / 1000) + seq![','] + three_digits(n % 1000)
    }
}

fn digit(d: u64) -> (c: char)
    requires
        d < 10,
    ensures
        c == digit_char(d as nat),
{
    ((48 + d) as u8) as char
}

/// Appends `n` in decimal to `out`.
pub fn push_decimal(out: &mut String, n: u64)
    ensures
        final(out)@ == old(out)@ + decimal(n as nat),
    decreases n,
{
    if n < 10 {
        push_char(out, digit(n));
        proof {
            assert(out@ =~= old(out)@ + decimal(n as nat));
        }
    } else {
        push_decimal(out, n / 10);
        push_char(out, digit(n % 10));
        proof {
            assert(out@ =~= old(out)@ + decimal(n as nat));
        }
    }
}

fn push_two_digits(out: &mut String, n: u64)
    requires
        n < 100,
    ensures
        final(out)@ == old(out)@ + two_digits(n as nat),
{
    push_char(out, digit(n / 10));
    push_char(out, digit(n % 10));
    proof {
        assert(out@ =~= old(out)@ + two_digits(n as nat));
    }
}

fn push_three_digits(out: &mut String, n: u64)
    requires
        n < 1000,
    ensures
        final(out)@ == old(out)@ + three_digits(n as nat),
{
    push_char(out, digit(n / 100));
    push_char(out, digit((n / 10) % 10));
    push_char(out, digit(n % 10));
    proof {
        assert(out@ =~= old(out)@ + three_digits(n as nat));
    }
}

/// Appends `n` to `out` with a comma before every group of three digits.
pub fn push_grouped(out: &mut String, n: u64)
    ensures
        final(out)@ == old(out)@ + grouped(n as nat),
    decreases n,
{
    if n < 1000 {
        push_decimal(out, n);
    } else {
        push_grouped(out, n / 1000);
        push_char(out, ',');
        push_three_digits(out, n % 1000);
        proof {
            assert(out@ =~= old(out)@ + grouped(n as nat));
        }
    }
}

/// A count, shown with a comma before every group of three digits.
#[derive(Debug, Clone, Copy, PartialEq, Eq, Structural)]
pub struct Number(pub u64);

impl Number {
    pub fn to_text(&self) -> (text: String)
        ensures
            text@ == grouped(self.0 as nat),
    {
        let mut out: String = String::new();
        push_grouped(&mut out, self.0);
        proof {
            assert(Seq::<char>::empty() + grouped(self.0 as nat) =~= grouped(self.0 as nat));
        }
        out
    }
}

/// The hours, the minutes below an hour and the seconds below a minute in
/// `total_secs` seconds.
pub fn secs_to_hr_min_sec(total_secs: u64) -> (parts: (u64, u8, u8))
    ensures
        parts.0 == total_secs / 3600,
        parts.1 == (total_secs / 60) % 60,
        parts.2 == total_secs % 60,
        parts.0 * 3600 + parts.1 * 60 + parts.2 == total_secs,
{
    let secs: u8 = (total_secs % 60) as u8;
    let total_mins: u64 = total_secs / 60;
    let mins: u8 = (total_mins % 60) as u8;
    let hrs: u64 = total_mins / 60;
    (hrs, mins, secs)
}

/// A duration in whole seconds as hours, minutes and seconds.
pub open spec fn clock_text(total_secs: nat) -> Seq<char> {
    let secs = total_secs % 60;
    let total_mins = total_secs / 60;
    let mins = total_mins % 60;
    let hrs = total_mins / 60;
    if hrs == 0 {
        decimal(mins) + seq![':'] + two_digits(secs)
    } else {
        decimal(hrs) + seq![':'] + two_digits(mins) + seq![':'] + two_digits(secs)
    }
}

/// A duration in whole seconds, shown as `m:ss`, or as `h:mm:ss` from one
/// hour on.
#[derive(Debug, Clone, Copy, PartialEq, Eq, Structural)]
pub struct Time(pub u64);

impl Time {
    pub fn to_text(&self) -> (text: String)
        ensures
            text@ == clock_text(self.0 as nat),
    {
        let (hrs, mins, secs) = secs_to_hr_min_sec(self.0);
        let mut out: String = String::new();
        if hrs == 0 {
            push_decimal(&mut out, mins as u64);
            push_char(&mut out, ':');
            push_two_digits(&mut out, secs as u64);
        } else {
            push_decimal(&mut out, hrs);
            push_char(&mut out, ':');
            push_two_digits(&mut out, mins as u64);
            push_char(&mut out, ':');
            push_two_digits(&mut out, secs as u64);
        }
        proof {
            assert(out@ =~= clock_text(self.0 as nat));
        }
        out
    }
}

/// A byte count in the largest unit that leaves more than one digit:
/// gigabytes with two decimals from a billion on, megabytes from a million
/// on, kilobytes from ten thousand on, else bytes.
pub open spec fn bytes_text(n: nat) -> Seq<char> {
    if n >= 1_000_000_000 {
        grouped(n / 1_000_000_000) + seq!['.'] + two_digits((n / 10_000_000) % 100) + " GB"@
    } else if n >= 1_000_000 {
        grouped(n / 1_000_000) + " MB"@
    } else if n >= 10_000 {
        grouped(n / 1_000) + " KB"@
    } else {
        grouped(n) + " B"@
    }
}

/// Appends the byte count `n` to `out`.
pub fn push_bytes(out: &mut String, n: u64)
    ensures
        final(out)@ == old(out)@ + bytes_text(n as nat),
{
    if n >= 1_000_000_000 {
        push_grouped(out, n / 1_000_000_000);
        push_char(out, '.');
        push_two_digits(out, (n / 10_000_000) % 100);
        push_text(out, " GB");
    } else if n >= 1_000_000 {
        push_grouped(out, n / 1_000_000);
        push_text(out, " MB");
    } else if n >= 10_000 {
        push_grouped(out, n / 1_000);
        push_text(out, " KB");
    } else {
        push_grouped(out, n);
        push_text(out, " B");
    }
    proof {
        assert(out@ =~= old(out)@ + bytes_text(n as nat));
    }
}

/// A number of bytes.
#[derive(Debug, Clone, Copy, PartialEq, Eq, Structural)]
pub struct Bytes(pub u64);

impl Bytes {
    pub fn to_text(&self) -> (text: String)
        ensures
            text@ == bytes_text(self.0 as nat),
    {
        let mut out: String = String::new();
        push_bytes(&mut out, self.0);
        proof {
            assert(Seq::<char>::empty() + bytes_text(self.0 as nat) =~= bytes_text(self.0 as nat));
        }
        out
    }
}

/// A number of bytes in each second.
#[derive(Debug, Clone, Copy, PartialEq, Eq, Structural)]
pub struct ByteRate(pub u64);

impl ByteRate {
    pub fn to_text(&self) -> (text: String)
        ensures
            text@ == bytes_text(self.0 as nat) + "/s"@,
    {
        let mut out: String = String::new();
        push_bytes(&mut out, self.0);
        push_text(&mut out, "/s");
        proof {
            assert(out@ =~= bytes_text(self.0 as nat) + "/s"@);
        }
        out
    }
}

/// The rate, in bytes a second, at which `bytes` bytes went by in `millis`
/// milliseconds: the whole bytes of each millisecond, times a thousand,
/// capped at the largest number that fits, and zero where no time has
/// passed.
pub open spec fn spec_rate(bytes: u64, millis: u64) -> u64 {
    if millis == 0 {
        0
    } else if (bytes / millis) * 1000 > u64::MAX {
        u64::MAX
    } else {
        ((bytes / millis) * 1000) as u64
    }
}

/// The rate, in bytes a second, at which `bytes` bytes went by in `millis`
/// milliseconds.
pub fn byte_rate(bytes: u64, millis: u64) -> (rate: ByteRate)
    ensures
        rate.0 == spec_rate(bytes, millis),
{
    if millis == 0 {
        return ByteRate(0);
    }
    let per_ms: u64 = bytes / millis;
    if per_ms > u64::MAX / 1000 {
        ByteRate(u64::MAX)
    } else {
        ByteRate(per_ms * 1000)
    }
}

} // verus!
