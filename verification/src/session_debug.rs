//! Labels of the session debugger: how long ago a session was last active.

use vstd::prelude::*;
use vstd::string::StringExecFns;

verus! {

/// The character of a decimal digit.
pub open spec fn digit_char(digit: int) -> char {
    if digit == 0 {
        '0'
    } else if digit == 1 {
        '1'
    } else if digit == 2 {
        '2'
    } else if digit == 3 {
        '3'
    } else if digit == 4 {
        '4'
    } else if digit == 5 {
        '5'
    } else if digit == 6 {
        '6'
    } else if digit == 7 {
        '7'
    } else if digit == 8 {
        '8'
    } else {
        '9'
    }
}

/// A natural number in decimal, without leading zeros.
pub open spec fn decimal(n: nat) -> Seq<char>
    decreases n,
{
    if n < 10 {
        seq![digit_char(n as int)]
    } else {
        decimal(n / 10).push(digit_char((n % 10) as int))
    }
}

/// An integer in decimal, with a minus sign in front of a negative one.
pub open spec fn signed_decimal(n: int) -> Seq<char> {
    if n < 0 {
        seq!['-'] + decimal((-n) as nat)
    } else {
        decimal(n as nat)
    }
}

/// The label for an idle time of `seconds`: in seconds below a minute, in
/// whole minutes below an hour, in whole hours from there on.
pub open spec fn duration_label(seconds: int) -> Seq<char> {
    if seconds < 60 {
        signed_decimal(seconds) + "s ago"@
    } else if seconds < 3600 {
        signed_decimal(seconds / 60) + "m ago"@
    } else {
        signed_decimal(seconds / 3600) + "h ago"@
    }
}

/// One decimal digit as text.
fn digit_text(digit: u64) -> (text: &'static str)
    requires
        digit < 10,
    ensures
        text@ == seq![digit_char(digit as int)],
{
    proof {
        reveal_strlit("0");
        reveal_strlit("1");
        reveal_strlit("2");
        reveal_strlit("3");
        reveal_strlit("4");
        reveal_strlit("5");
        reveal_strlit("6");
        reveal_strlit("7");
        reveal_strlit("8");
        reveal_strlit("9");
    }
    let text = match digit {
        0 => "0",
        1 => "1",
        2 => "2",
        3 => "3",
        4 => "4",
        5 => "5",
        6 => "6",
        7 => "7",
        8 => "8",
        _ => "9",
    };
    assert(text@ =~= seq![digit_char(digit as int)]);
    text
}

/// Writes `n` in decimal behind what `out` holds.
pub fn push_decimal(out: &mut String, n: u64)
    ensures
        final(out)@ == old(out)@ + decimal(n as nat),
    decreases n,
{
    if n >= 10 {
        push_decimal(out, n / 10);
    }
    out.append(digit_text(n % 10));
    assert(out@ =~= old(out)@ + decimal(n as nat));
}

/// Writes `n` in decimal behind what `out` holds, with a minus sign in
/// front of a negative number.
pub fn push_signed_decimal(out: &mut String, n: i64)
    ensures
        final(out)@ == old(out)@ + signed_decimal(n as int),
{
    if n < 0 {
        proof {
            reveal_strlit("-");
        }
        out.append("-");
        // The magnitude of the least number is one more than the greatest.
        let magnitude: u64 = (-(n + 1)) as u64 + 1;
        push_decimal(out, magnitude);
        assert(out@ =~= old(out)@ + signed_decimal(n as int));
    } else {
        push_decimal(out, n as u64);
    }
}

/// How long ago something happened, for a time of `seconds` since then:
/// `"42s ago"`, `"5m ago"`, `"3h ago"`.
pub fn format_duration(seconds: i64) -> (label: String)
    ensures
        label@ == duration_label(seconds as int),
{
    let mut label = String::new();
    if seconds < 60 {
        push_signed_decimal(&mut label, seconds);
        label.append("s ago");
    } else if seconds < 3600 {
        push_signed_decimal(&mut label, seconds / 60);
        label.append("m ago");
    } else {
        push_signed_decimal(&mut label, seconds / 3600);
        label.append("h ago");
    }
    assert(label@ =~= duration_label(seconds as int));
    label
}

/// The whole seconds between `earlier` and `now`, both in milliseconds
/// since the Unix epoch; negative when `earlier` lies after `now`.
pub fn idle_seconds(now: u64, earlier: u64) -> (seconds: i64)
    ensures
        seconds == if earlier <= now {
            (now - earlier) / 1000
        } else {
            -((earlier - now) / 1000)
        },
{
    if earlier <= now {
        ((now - earlier) / 1000) as i64
    } else {
        -(((earlier - now) / 1000) as i64)
    }
}

} // verus!
