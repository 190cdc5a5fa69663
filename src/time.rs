//! Human-readable rendering of elapsed times, such as `5w 2d 5s`, `5ms`
//! or `-2ns`.
use vstd::prelude::*;

use crate::expand::push_char;

verus! {

/// Nanoseconds in a second.
pub const NANOS_PER_SEC: u128 = 1_000_000_000;

/// The largest span that a time delta holds: `i64::MAX` milliseconds.
pub const MAX_SPAN_NANOS: i128 = 9_223_372_036_854_775_807_000_000;

/// The decimal digit for `d`.
pub open spec fn digit_char(d: int) -> char {
    if d == 0 {
        '0'
    } else if d == 1 {
        '1'
    } else if d == 2 {
        '2'
    } else if d == 3 {
        '3'
    } else if d == 4 {
        '4'
    } else if d == 5 {
        '5'
    } else if d == 6 {
        '6'
    } else if d == 7 {
        '7'
    } else if d == 8 {
        '8'
    } else {
        '9'
    }
}

/// The decimal digits of `n`.
pub open spec fn digits(n: nat) -> Seq<char>
    decreases n,
{
    if n < 10 {
        seq![digit_char(n as int)]
    } else {
        digits(n / 10) + seq![digit_char((n % 10) as int)]
    }
}

/// `count` followed by `unit`, or nothing when `count` is zero.
pub open spec fn part(count: nat, unit: Seq<char>) -> Seq<char> {
    if count == 0 {
        Seq::empty()
    } else {
        digits(count) + unit
    }
}

/// Two parts separated by a space, leaving out an empty one.
pub open spec fn join(a: Seq<char>, b: Seq<char>) -> Seq<char> {
    if a.len() == 0 {
        b
    } else if b.len() == 0 {
        a
    } else {
        a + seq![' '] + b
    }
}

/// Whole seconds as weeks, days, hours, minutes and seconds, leaving out
/// the units that are zero.
pub open spec fn units_text(secs: nat) -> Seq<char> {
    join(
        join(
            join(join(part(secs / 604800, "w"@), part((secs % 604800) / 86400, "d"@)), part((secs % 86400) / 3600, "h"@)),
            part((secs % 3600) / 60, "m"@),
        ),
        part(secs % 60, "s"@),
    )
}

/// The text for a span of `a` nanoseconds, `a` at least zero: whole
/// seconds by unit from one second on, else milliseconds, else
/// microseconds, else nanoseconds.
pub open spec fn magnitude_text(a: nat) -> Seq<char> {
    if a >= 1_000_000_000 {
        units_text(a / 1_000_000_000)
    } else if a >= 1_000_000 {
        digits(a / 1_000_000) + "ms"@
    } else if a >= 1000 {
        digits(a / 1000) + seq!['\u{b5}', 's']
    } else {
        digits(a) + "ns"@
    }
}

/// The text for a span of `n` nanoseconds: a `-` for a negative span, then
/// the text of its magnitude.
pub open spec fn readable(n: int) -> Seq<char> {
    if n < 0 {
        seq!['-'] + magnitude_text((-n) as nat)
    } else {
        magnitude_text(n as nat)
    }
}

fn digit(d: u128) -> (c: char)
    requires
        d < 10,
    ensures
        c == digit_char(d as int),
{
    if d == 0 {
        '0'
    } else if d == 1 {
        '1'
    } else if d == 2 {
        '2'
    } else if d == 3 {
        '3'
    } else if d == 4 {
        '4'
    } else if d == 5 {
        '5'
    } else if d == 6 {
        '6'
    } else if d == 7 {
        '7'
    } else if d == 8 {
        '8'
    } else {
        '9'
    }
}

fn push_digits(out: &mut String, n: u128)
    ensures
        final(out)@ == old(out)@ + digits(n as nat),
    decreases n,
{
    if n < 10 {
        push_char(out, digit(n));
    } else {
        let ghost start = out@;
        push_digits(out, n / 10);
        push_char(out, digit(n % 10));
        assert(out@ =~= start + (digits((n / 10) as nat) + seq![digit_char((n % 10) as int)]));
    }
}

fn push_text(out: &mut String, s: &str)
    ensures
        final(out)@ == old(out)@ + s@,
{
    out.append(s);
}

fn push_part(out: &mut String, count: u128, unit: &str)
    ensures
        final(out)@ == join(old(out)@, part(count as nat, unit@)),
{
    if count > 0 {
        if out.as_str().unicode_len() > 0 {
            push_char(out, ' ');
        }
        let ghost mid = out@;
        push_digits(out, count);
        push_text(out, unit);
        assert(out@ =~= mid + (digits(count as nat) + unit@));
        proof {
            if old(out)@.len() > 0 {
                assert(out@ =~= old(out)@ + seq![' '] + (digits(count as nat) + unit@));
                assert((digits(count as nat) + unit@).len() > 0);
            }
        }
    } else {
        assert(join(old(out)@, Seq::empty()) =~= old(out)@);
    }
}

/// Renders a span of `nanos` nanoseconds (negative for a span backwards in
/// time) in human-readable form.
pub fn human_readable_timedelta(nanos: i128) -> (r: String)
    requires
        -MAX_SPAN_NANOS <= nanos <= MAX_SPAN_NANOS,
    ensures
        r@ == readable(nanos as int),
{
    let mut out = String::new();
    let a: u128 = if nanos < 0 {
        push_char(&mut out, '-');
        (-nanos) as u128
    } else {
        nanos as u128
    };
    let ghost sign = out@;
    if a >= NANOS_PER_SEC {
        let secs = a / NANOS_PER_SEC;
        let ghost base = out@;
        let mut body = String::new();
        push_part(&mut body, secs / 604800, "w");
        push_part(&mut body, (secs % 604800) / 86400, "d");
        push_part(&mut body, (secs % 86400) / 3600, "h");
        push_part(&mut body, (secs % 3600) / 60, "m");
        push_part(&mut body, secs % 60, "s");
        assert(body@ == units_text(secs as nat)) by {
            assert(join(Seq::empty(), part((secs / 604800) as nat, "w"@)) == part((secs / 604800) as nat, "w"@));
        }
        out.append(body.as_str());
    } else if a >= 1_000_000 {
        push_digits(&mut out, a / 1_000_000);
        push_text(&mut out, "ms");
    } else if a >= 1000 {
        push_digits(&mut out, a / 1000);
        push_char(&mut out, '\u{b5}');
        push_char(&mut out, 's');
    } else {
        push_digits(&mut out, a);
        push_text(&mut out, "ns");
    }
    assert(out@ =~= sign + magnitude_text(a as nat));
    out
}

/// Relies on `chrono::TimeDelta::from_std`: a duration of `secs` seconds and
/// `nanos` nanoseconds converts exactly when it is at most `i64::MAX`
/// milliseconds; the result is returned as a count of nanoseconds.
#[verifier::external_body]
fn timedelta_nanos(secs: u64, nanos: u32) -> (r: Option<i128>)
    requires
        nanos < 1_000_000_000,
    ensures
        r is Some <==> secs as int * 1_000_000_000 + nanos as int <= MAX_SPAN_NANOS,
        r matches Some(n) ==> n == secs as int * 1_000_000_000 + nanos as int,
{
    chrono::TimeDelta::from_std(std::time::Duration::new(secs, nanos))
        .ok()
        .map(|d| d.num_seconds() as i128 * 1_000_000_000 + d.subsec_nanos() as i128)
}

/// Renders an elapsed time of `secs` seconds and `nanos` nanoseconds in
/// human-readable form, or `None` when it exceeds the largest time delta.
pub fn human_readable_duration(secs: u64, nanos: u32) -> (r: Option<String>)
    requires
        nanos < 1_000_000_000,
    ensures
        secs as int * 1_000_000_000 + nanos as int <= MAX_SPAN_NANOS ==> (r matches Some(s) && s@ == readable(
            secs as int * 1_000_000_000 + nanos as int,
        )),
        secs as int * 1_000_000_000 + nanos as int > MAX_SPAN_NANOS ==> r is None,
{
    match timedelta_nanos(secs, nanos) {
        Some(n) => Some(human_readable_timedelta(n)),
        None => None,
    }
}

} // verus!
