//! Times as text, for the loop controls.

use vstd::prelude::*;
use vstd::string::StringExecFns;
use crate::time::Seconds;

verus! {

/// The character of the decimal digit `d`.
pub open spec fn digit_char(d: int) -> char {
    if d == 0 {
        '0'
    } else if d == 1 {
        '1'
    } else if d == 2 {
        '2'
    } else if d == 3 {
        '3'
    } else if d == 4 {
        '4'
    } else if d == 5 {
        '5'
    } else if d == 6 {
        '6'
    } else if d == 7 {
        '7'
    } else if d == 8 {
        '8'
    } else {
        '9'
    }
}

/// The decimal digits of `n`, without leading zeros.
pub open spec fn decimal(n: nat) -> Seq<char>
    decreases n,
{
    if n < 10 {
        seq![digit_char(n as int)]
    } else {
        decimal(n / 10).push(digit_char((n % 10) as int))
    }
}

/// The last `width` decimal digits of `n`, with leading zeros.
pub open spec fn padded(n: nat, width: nat) -> Seq<char>
    decreases width,
{
    if width == 0 {
        Seq::empty()
    } else {
        padded(n / 10, (width - 1) as nat).push(digit_char((n % 10) as int))
    }
}

/// The whole milliseconds of `nanos`, rounded to the nearest; a negative
/// time counts as zero.
pub open spec fn rounded_millis(nanos: int) -> nat {
    if nanos <= 0 {
        0
    } else {
        ((nanos + 500_000) / 1_000_000) as nat
    }
}

/// A time of `millis` milliseconds as minutes, seconds and milliseconds:
/// `m:ss.mmm`.
pub open spec fn time_text(millis: nat) -> Seq<char> {
    decimal(millis / 60_000) + seq![':'] + padded((millis % 60_000) / 1000, 2) + seq!['.']
        + padded(millis % 1000, 3)
}

/// The text of one decimal digit.
fn digit_str(d: u64) -> (s: &'static str)
    requires
        d < 10,
    ensures
        s@ == seq![digit_char(d as int)],
{
    proof {
        reveal_strlit("0");
        reveal_strlit("1");
        reveal_strlit("2");
        reveal_strlit("3");
        reveal_strlit("4");
        reveal_strlit("5");
        reveal_strlit("6");
        reveal_strlit("7");
        reveal_strlit("8");
        reveal_strlit("9");
    }
    let s: &'static str = if d == 0 {
        "0"
    } else if d == 1 {
        "1"
    } else if d == 2 {
        "2"
    } else if d == 3 {
        "3"
    } else if d == 4 {
        "4"
    } else if d == 5 {
        "5"
    } else if d == 6 {
        "6"
    } else if d == 7 {
        "7"
    } else if d == 8 {
        "8"
    } else {
        "9"
    };
    assert(s@ =~= seq![digit_char(d as int)]);
    s
}

/// Appends the decimal digits of `n` to `out`.
fn push_decimal(out: &mut String, n: u64)
    ensures
        final(out)@ == old(out)@ + decimal(n as nat),
    decreases n,
{
    if n >= 10 {
        push_decimal(out, n / 10);
    }
    out.append(digit_str(n % 10));
    assert(out@ =~= old(out)@ + decimal(n as nat));
}

/// Appends the last `width` decimal digits of `n` to `out`.
fn push_padded(out: &mut String, n: u64, width: u8)
    ensures
        final(out)@ == old(out)@ + padded(n as nat, width as nat),
    decreases width,
{
    if width > 0 {
        push_padded(out, n / 10, width - 1);
        out.append(digit_str(n % 10));
    }
    assert(out@ =~= old(out)@ + padded(n as nat, width as nat));
}

/// A time as minutes, seconds and milliseconds, `m:ss.mmm`, rounded to the
/// nearest millisecond. A negative time reads as zero.
pub fn format_time(t: Seconds) -> (text: String)
    ensures
        text@ == time_text(rounded_millis(t@)),
{
    let millis: u64 = if t.nanos <= 0 {
        0
    } else {
        ((t.nanos as u64) + 500_000) / 1_000_000
    };
    let mut text = String::from_str("");
    proof {
        reveal_strlit("");
        reveal_strlit(":");
        reveal_strlit(".");
    }
    push_decimal(&mut text, millis / 60_000);
    text.append(":");
    push_padded(&mut text, (millis % 60_000) / 1000, 2);
    text.append(".");
    push_padded(&mut text, millis % 1000, 3);
    assert(text@ =~= time_text(millis as nat));
    text
}

} // verus!
