//! Formatting of an elapsed time for the run report.

use std::time::Duration;
use vstd::prelude::*;
use vstd::string::*;

verus! {

/// The character of a decimal digit.
pub open spec fn digit_char(digit: int) -> char {
    if digit == 0 {
        '0'
    } else if digit == 1 {
        '1'
    } else if digit == 2 {
        '2'
    } else if digit == 3 {
        '3'
    } else if digit == 4 {
        '4'
    } else if digit == 5 {
        '5'
    } else if digit == 6 {
        '6'
    } else if digit == 7 {
        '7'
    } else if digit == 8 {
        '8'
    } else {
        '9'
    }
}

/// The decimal numeral of `n`, without leading zeros.
pub open spec fn decimal(n: nat) -> Seq<char>
    decreases n,
{
    if n < 10 {
        seq![digit_char(n as int)]
    } else {
        decimal(n / 10).push(digit_char((n % 10) as int))
    }
}

/// The text of an elapsed time of `nanos` nanoseconds. The unit grows with
/// the time: nanoseconds below ten microseconds, microseconds below ten
/// milliseconds, milliseconds below ten seconds; from there on seconds with
/// the milliseconds that are left over, with minutes from one minute on and
/// hours from one hour on.
pub open spec fn time_text(nanos: nat) -> Seq<char> {
    let micros = nanos / 1_000;
    let millis = nanos / 1_000_000;
    let secs = nanos / 1_000_000_000;
    let ms = millis % 1_000;
    let mins = secs / 60;
    let hours = mins / 60;
    if micros < 10 {
        decimal(nanos) + seq!['n', 's']
    } else if millis < 10 {
        decimal(micros) + seq!['μ', 's']
    } else if secs < 10 {
        decimal(millis) + seq!['m', 's']
    } else if secs < 60 {
        decimal(secs) + seq!['s', ' '] + decimal(ms) + seq!['m', 's']
    } else if mins < 60 {
        decimal(mins) + seq!['m', ' '] + decimal(secs % 60) + seq!['s', ' '] + decimal(ms)
            + seq!['m', 's']
    } else {
        decimal(hours) + seq!['h', ' '] + decimal(mins % 60) + seq!['m', ' '] + decimal(secs % 60)
            + seq!['s', ' '] + decimal(ms) + seq!['m', 's']
    }
}

/// The one-character string of a decimal digit.
fn digit_str(digit: u128) -> (text: &'static str)
    requires
        digit < 10,
    ensures
        text@ == seq![digit_char(digit as int)],
{
    proof {
        reveal_strlit("0");
        reveal_strlit("1");
        reveal_strlit("2");
        reveal_strlit("3");
        reveal_strlit("4");
        reveal_strlit("5");
        reveal_strlit("6");
        reveal_strlit("7");
        reveal_strlit("8");
        reveal_strlit("9");
    }
    let text = if digit == 0 {
        "0"
    } else if digit == 1 {
        "1"
    } else if digit == 2 {
        "2"
    } else if digit == 3 {
        "3"
    } else if digit == 4 {
        "4"
    } else if digit == 5 {
        "5"
    } else if digit == 6 {
        "6"
    } else if digit == 7 {
        "7"
    } else if digit == 8 {
        "8"
    } else {
        "9"
    };
    text
}

/// Appends the decimal numeral of `n`.
pub fn push_decimal(out: &mut String, n: u128)
    ensures
        final(out)@ == old(out)@ + decimal(n as nat),
    decreases n,
{
    if n >= 10 {
        push_decimal(out, n / 10);
    }
    out.append(digit_str(n % 10));
}

/// Appends the decimal numeral of `n` and the unit that follows it.
fn push_amount(out: &mut String, n: u128, unit: &str)
    ensures
        final(out)@ == old(out)@ + decimal(n as nat) + unit@,
{
    push_decimal(out, n);
    out.append(unit);
}

/// Formats an elapsed time given in nanoseconds.
pub fn format_nanos(nanos: u128) -> (text: String)
    ensures
        text@ == time_text(nanos as nat),
{
    proof {
        reveal_strlit("ns");
        reveal_strlit("μs");
        reveal_strlit("ms");
        reveal_strlit("s ");
        reveal_strlit("m ");
        reveal_strlit("h ");
    }
    let micros: u128 = nanos / 1_000;
    let millis: u128 = nanos / 1_000_000;
    let secs: u128 = nanos / 1_000_000_000;
    let mut text = String::new();
    if micros < 10 {
        push_amount(&mut text, nanos, "ns");
        return text;
    }
    if millis < 10 {
        push_amount(&mut text, micros, "μs");
        return text;
    }
    if secs < 10 {
        push_amount(&mut text, millis, "ms");
        return text;
    }
    let ms: u128 = millis % 1_000;
    if secs < 60 {
        push_amount(&mut text, secs, "s ");
        push_amount(&mut text, ms, "ms");
        return text;
    }
    let mins: u128 = secs / 60;
    let secs: u128 = secs % 60;
    if mins < 60 {
        push_amount(&mut text, mins, "m ");
        push_amount(&mut text, secs, "s ");
        push_amount(&mut text, ms, "ms");
        return text;
    }
    let hours: u128 = mins / 60;
    let mins: u128 = mins % 60;
    push_amount(&mut text, hours, "h ");
    push_amount(&mut text, mins, "m ");
    push_amount(&mut text, secs, "s ");
    push_amount(&mut text, ms, "ms");
    text
}

/// The length of a duration in nanoseconds.
pub uninterp spec fn duration_nanos(d: Duration) -> nat;

/// `Duration::as_nanos` returns the whole length of the duration, counted in
/// nanoseconds. Nothing more is claimed of it than that this count is the
/// same for the same duration.
pub assume_specification[ Duration::as_nanos ](d: &Duration) -> (nanos: u128)
    ensures
        nanos == duration_nanos(*d),
;

/// Formats an elapsed time.
pub fn format_time(d: Duration) -> (text: String)
    ensures
        text@ == time_text(duration_nanos(d)),
{
    format_nanos(d.as_nanos())
}

} // verus!
