//! Plain-text rendering of durations and the per-node display record the
//! renderer consumes.

use vstd::prelude::*;

verus! {

/// The decimal digit character for a value below ten.
pub open spec fn digit_char(d: int) -> char
    recommends
        0 <= d <= 9,
{
    if d == 0 {
        '0'
    } else if d == 1 {
        '1'
    } else if d == 2 {
        '2'
    } else if d == 3 {
        '3'
    } else if d == 4 {
        '4'
    } else if d == 5 {
        '5'
    } else if d == 6 {
        '6'
    } else if d == 7 {
        '7'
    } else if d == 8 {
        '8'
    } else {
        '9'
    }
}

/// The decimal rendering of a number, most significant digit first.
pub open spec fn spec_dec(n: int) -> Seq<char>
    recommends
        n >= 0,
    decreases n,
{
    if n < 10 {
        seq![digit_char(n)]
    } else {
        spec_dec(n / 10).push(digit_char(n % 10))
    }
}

/// A number padded with blanks to at least three characters.
pub open spec fn spec_pad3(n: int) -> Seq<char>
    recommends
        n >= 0,
{
    if n >= 100 {
        spec_dec(n)
    } else if n >= 10 {
        seq![' '] + spec_dec(n)
    } else {
        seq![' ', ' '] + spec_dec(n)
    }
}

/// A number below a thousand padded with zeroes to three characters.
pub open spec fn spec_zero3(n: int) -> Seq<char>
    recommends
        0 <= n < 1000,
{
    if n >= 100 {
        spec_dec(n)
    } else if n >= 10 {
        seq!['0'] + spec_dec(n)
    } else {
        seq!['0', '0'] + spec_dec(n)
    }
}

/// A nanosecond duration rendered for display: seconds, milliseconds,
/// microseconds or nanoseconds, whichever is the coarsest non-zero unit,
/// with a three-digit fraction of the next finer unit.
pub open spec fn spec_format_duration(nanos: u64) -> Seq<char> {
    let secs = nanos / 1_000_000_000;
    let millis = nanos / 1_000_000;
    let micros = nanos / 1_000;
    if secs > 0 {
        spec_pad3(secs as int) + "."@ + spec_zero3(((nanos % 1_000_000_000) / 1_000_000 / 1000) as int)
            + " s"@
    } else if millis > 0 {
        spec_pad3(millis as int) + "."@ + spec_zero3((((nanos % 1_000_000_000) / 1_000) % 1000) as int)
            + " ms"@
    } else if micros > 0 {
        spec_pad3(micros as int) + "."@ + spec_zero3(((nanos % 1_000_000_000) % 1000) as int)
            + " \u{b5}s"@
    } else {
        spec_dec(nanos as int) + " ns"@
    }
}

/// Append one decimal digit character.
fn append_digit(s: &mut String, d: u64)
    requires
        d <= 9,
    ensures
        final(s)@ == old(s)@.push(digit_char(d as int)),
{
    proof {
        reveal_strlit("0");
        reveal_strlit("1");
        reveal_strlit("2");
        reveal_strlit("3");
        reveal_strlit("4");
        reveal_strlit("5");
        reveal_strlit("6");
        reveal_strlit("7");
        reveal_strlit("8");
        reveal_strlit("9");
    }
    let ghost before = s@;
    if d == 0 {
        s.append("0");
    } else if d == 1 {
        s.append("1");
    } else if d == 2 {
        s.append("2");
    } else if d == 3 {
        s.append("3");
    } else if d == 4 {
        s.append("4");
    } else if d == 5 {
        s.append("5");
    } else if d == 6 {
        s.append("6");
    } else if d == 7 {
        s.append("7");
    } else if d == 8 {
        s.append("8");
    } else {
        s.append("9");
    }
    proof {
        assert(s@ =~= before.push(digit_char(d as int)));
    }
}

/// Append the decimal rendering of a number.
fn append_dec(s: &mut String, n: u64)
    ensures
        final(s)@ == old(s)@ + spec_dec(n as int),
    decreases n,
{
    if n >= 10 {
        append_dec(s, n / 10);
        proof {
            assert(n / 10 < n);
        }
        append_digit(s, n % 10);
        proof {
            assert(s@ =~= old(s)@ + spec_dec(n as int));
        }
    } else {
        append_digit(s, n);
        proof {
            assert(s@ =~= old(s)@ + spec_dec(n as int));
        }
    }
}

/// Append a number padded with blanks to at least three characters.
fn append_pad3(s: &mut String, n: u64)
    ensures
        final(s)@ == old(s)@ + spec_pad3(n as int),
{
    proof {
        reveal_strlit(" ");
    }
    if n < 10 {
        s.append(" ");
        s.append(" ");
    } else if n < 100 {
        s.append(" ");
    }
    append_dec(s, n);
    proof {
        assert(s@ =~= old(s)@ + spec_pad3(n as int));
    }
}

/// Append a number below a thousand padded with zeroes to three
/// characters.
fn append_zero3(s: &mut String, n: u64)
    requires
        n < 1000,
    ensures
        final(s)@ == old(s)@ + spec_zero3(n as int),
{
    proof {
        reveal_strlit("0");
    }
    if n < 10 {
        s.append("0");
        s.append("0");
    } else if n < 100 {
        s.append("0");
    }
    append_dec(s, n);
    proof {
        assert(s@ =~= old(s)@ + spec_zero3(n as int));
    }
}

/// Render a nanosecond duration for display.
pub fn format_duration(nanos: u64) -> (r: String)
    ensures
        r@ == spec_format_duration(nanos),
{
    let mut s = String::new();
    let secs = nanos / 1_000_000_000;
    let millis = nanos / 1_000_000;
    let micros = nanos / 1_000;
    if secs > 0 {
        append_pad3(&mut s, secs);
        s.append(".");
        append_zero3(&mut s, (nanos % 1_000_000_000) / 1_000_000 / 1000);
        s.append(" s");
    } else if millis > 0 {
        append_pad3(&mut s, millis);
        s.append(".");
        append_zero3(&mut s, ((nanos % 1_000_000_000) / 1_000) % 1000);
        s.append(" ms");
    } else if micros > 0 {
        append_pad3(&mut s, micros);
        s.append(".");
        append_zero3(&mut s, (nanos % 1_000_000_000) % 1000);
        s.append(" \u{b5}s");
    } else {
        append_dec(&mut s, nanos);
        s.append(" ns");
    }
    proof {
        assert(s@ =~= spec_format_duration(nanos));
    }
    s
}

/// One rendered line of the trace display: the raw address, the resolved
/// name when there is one, the call's elapsed time, its self time — the
/// elapsed time minus its children's — and the reference duration a
/// percentage is computed against.  All times are in nanoseconds.
#[derive(Clone, Debug)]
pub struct TraceLine {
    pub addr: u64,
    pub symbol: Option<String>,
    pub time: u64,
    pub self_time: u64,
    pub upper_time: u64,
}

/// A call's self time: its elapsed time minus its children's total, and
/// zero when rounding or truncation make the children appear longer.
pub fn self_time_of(time: u64, children_time: u64) -> (r: u64)
    ensures
        r == if time >= children_time {
            (time - children_time) as u64
        } else {
            0u64
        },
{
    if time >= children_time {
        time - children_time
    } else {
        0
    }
}

} // verus!
