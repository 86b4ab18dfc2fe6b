//! Pieces of the transcript of a session that need nothing but the session.

use vstd::prelude::*;
use crate::session_types::ThinkingBlock;
use crate::text::push_char;

verus! {

/// The decimal digit for `d`.
pub open spec fn digit(d: nat) -> char
    recommends
        d < 10,
{
    if d == 0 {
        '0'
    } else if d == 1 {
        '1'
    } else if d == 2 {
        '2'
    } else if d == 3 {
        '3'
    } else if d == 4 {
        '4'
    } else if d == 5 {
        '5'
    } else if d == 6 {
        '6'
    } else if d == 7 {
        '7'
    } else if d == 8 {
        '8'
    } else {
        '9'
    }
}

/// `n` in decimal, without leading zeros.
pub open spec fn decimal(n: nat) -> Seq<char>
    decreases n,
{
    if n < 10 {
        seq![digit(n)]
    } else {
        decimal(n / 10).push(digit(n % 10))
    }
}

/// The whole minutes between two instants given in milliseconds; none where
/// the second is before the first.
pub open spec fn minutes_between(start: i64, end: i64) -> nat {
    if end >= start {
        ((end - start) / 60000) as nat
    } else {
        0
    }
}

/// A duration of `minutes` in words: hours and minutes from one hour on,
/// minutes alone below.
pub open spec fn duration_text(minutes: nat) -> Seq<char> {
    if minutes >= 60 {
        decimal(minutes / 60) + "h "@ + decimal(minutes % 60) + "m"@
    } else {
        decimal(minutes) + "m"@
    }
}

/// The duration of a session in words; `None` unless both ends are known.
pub open spec fn session_duration(start: Option<i64>, end: Option<i64>) -> Option<Seq<char>> {
    match (start, end) {
        (Some(s), Some(e)) => Some(duration_text(minutes_between(s, e))),
        _ => None,
    }
}

/// A thinking block as a folded section.
pub open spec fn thinking_section(thinking: Seq<char>) -> Seq<char> {
    "<details>\n<summary><em>Thinking...</em></summary>\n\n"@ + thinking + "\n\n</details>\n"@
}

fn digit_char(d: u64) -> (r: char)
    requires
        d < 10,
    ensures
        r == digit(d as nat),
{
    if d == 0 {
        '0'
    } else if d == 1 {
        '1'
    } else if d == 2 {
        '2'
    } else if d == 3 {
        '3'
    } else if d == 4 {
        '4'
    } else if d == 5 {
        '5'
    } else if d == 6 {
        '6'
    } else if d == 7 {
        '7'
    } else if d == 8 {
        '8'
    } else {
        '9'
    }
}

/// Appends `n` in decimal to `out`.
fn append_decimal(out: &mut String, n: u64)
    ensures
        final(out)@ == old(out)@ + decimal(n as nat),
    decreases n,
{
    if n >= 10 {
        append_decimal(out, n / 10);
    }
    push_char(out, digit_char(n % 10));
    assert(out@ =~= old(out)@ + decimal(n as nat));
}

/// The duration between the start and the end of a session, in words.
pub fn format_duration(start: Option<i64>, end: Option<i64>) -> (r: Option<String>)
    ensures
        r.deep_view() == session_duration(start, end),
{
    match (start, end) {
        (Some(s), Some(e)) => {
            let minutes: u64 = if e >= s {
                ((e as i128 - s as i128) / 60000) as u64
            } else {
                0
            };
            let mut out = String::new();
            if minutes >= 60 {
                append_decimal(&mut out, minutes / 60);
                out.append("h ");
                append_decimal(&mut out, minutes % 60);
            } else {
                append_decimal(&mut out, minutes);
            }
            out.append("m");
            assert(out@ =~= duration_text(minutes as nat));
            Some(out)
        },
        _ => None,
    }
}

/// A thinking block as a folded section.
pub fn format_thinking(thinking: &ThinkingBlock) -> (r: String)
    ensures
        r@ == thinking_section(thinking.thinking@),
{
    let mut out = "<details>\n<summary><em>Thinking...</em></summary>\n\n".to_owned();
    out.append(thinking.thinking.as_str());
    out.append("\n\n</details>\n");
    out
}

} // verus!
