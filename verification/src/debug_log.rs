//! Opt-in timing log: one line with a time stamp per call, where it is
//! switched on.

use vstd::prelude::*;
use vstd::string::*;

use crate::text::{
    decimal, decimal_reads_back, number_read, push_decimal, same_text, zero_padded,
    zeros_are_put_before, zeros_count_nothing,
};

verus! {

/// The log is switched on by the value `1` of its variable.
pub open spec fn switched_on(variable: Option<Seq<char>>) -> bool {
    variable == Some("1"@)
}

/// A line of the log: the time in seconds and milliseconds, the tag and the
/// message.
pub open spec fn log_line(secs: u64, millis: u32, tag: Seq<char>, msg: Seq<char>) -> Seq<char> {
    "["@ + decimal(secs as nat) + "."@ + zero_padded(decimal(millis as nat), 3) + "] "@ + tag
        + ": "@ + msg + "\n"@
}

/// Whether the log is switched on, given the value of its variable.
pub fn enabled(variable: Option<&str>) -> (r: bool)
    ensures
        r == switched_on(
            match variable {
                Some(value) => Some(value@),
                None => None,
            },
        ),
{
    match variable {
        Some(value) => same_text(value, "1"),
        None => false,
    }
}

/// Appends the milliseconds of a time stamp: at least three digits.
fn push_millis(out: &mut String, millis: u32)
    ensures
        final(out)@ == old(out)@ + zero_padded(decimal(millis as nat), 3),
{
    let ghost before = out@;
    let ghost digits = decimal(millis as nat);
    proof {
        reveal_with_fuel(zero_padded, 3);
        reveal_with_fuel(decimal, 3);
    }
    if millis < 100 {
        out.push('0');
        if millis < 10 {
            out.push('0');
        }
    }
    push_decimal(out, millis as u128);
    proof {
        if millis < 10 {
            assert(digits.len() == 1);
            assert(zero_padded(digits, 3) =~= seq!['0', '0'] + digits);
        } else if millis < 100 {
            assert(digits.len() == 2);
            assert(zero_padded(digits, 3) =~= seq!['0'] + digits);
        } else {
            assert(digits.len() >= 3);
        }
        assert(out@ =~= before + zero_padded(digits, 3));
    }
}

/// The line to append to the log; nothing while it is switched off.
pub fn log(variable: Option<&str>, secs: u64, millis: u32, tag: &str, msg: &str) -> (r: Option<
    String,
>)
    ensures
        match r {
            Some(line) => switched_on(
                match variable {
                    Some(value) => Some(value@),
                    None => None,
                },
            ) && line@ == log_line(secs, millis, tag@, msg@),
            None => !switched_on(
                match variable {
                    Some(value) => Some(value@),
                    None => None,
                },
            ),
        },
{
    if !enabled(variable) {
        return None;
    }
    let mut line = "[".to_owned();
    push_decimal(&mut line, secs as u128);
    line = line.concat(".");
    push_millis(&mut line, millis);
    Some(line.concat("] ").concat(tag).concat(": ").concat(msg).concat("\n"))
}

// ---------------------------------------------------------------------------
// Laws
// ---------------------------------------------------------------------------

/// The log is on for the one value `1`, and for no other.
pub proof fn one_value_switches_on(value: Seq<char>)
    ensures
        switched_on(Some(value)) <==> value.len() == 1 && value[0] == '1',
        !switched_on(None),
{
    reveal_strlit("1");
    if value.len() == 1 && value[0] == '1' {
        assert(value =~= "1"@);
    }
}

/// A line has the time in brackets, its seconds and, behind a dot, its
/// milliseconds in three digits; then the tag, a colon and the message, both
/// whole, and a newline.
pub proof fn line_tells_the_time(secs: u64, millis: u32, tag: Seq<char>, msg: Seq<char>) -> (r: (
    Seq<char>,
    Seq<char>,
))
    ensures
        log_line(secs, millis, tag, msg) == seq!['['] + r.0 + seq!['.'] + r.1 + seq![']', ' '] + tag
            + seq![':', ' '] + msg + seq!['\n'],
        number_read(r.0) == secs,
        number_read(r.1) == millis,
        millis < 1000 ==> r.1.len() == 3,
{
    reveal_strlit("[");
    reveal_strlit(".");
    reveal_strlit("] ");
    reveal_strlit(": ");
    reveal_strlit("\n");
    assert("["@ =~= seq!['[']);
    assert("."@ =~= seq!['.']);
    assert("] "@ =~= seq![']', ' ']);
    assert(": "@ =~= seq![':', ' ']);
    assert("\n"@ =~= seq!['\n']);
    decimal_reads_back(secs as nat);
    decimal_reads_back(millis as nat);
    let digits = decimal(millis as nat);
    zeros_are_put_before(digits, 3);
    zeros_count_nothing(digits, 3);
    if millis < 1000 {
        reveal_with_fuel(decimal, 4);
        assert(digits.len() <= 3);
    }
    (decimal(secs as nat), zero_padded(digits, 3))
}

} // verus!
