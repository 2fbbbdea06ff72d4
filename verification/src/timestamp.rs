//! Timestamps as subtitles write them: `HH:MM:SS,mmm`.

use vstd::arithmetic::power::{lemma_square_is_pow2, pow};
use vstd::prelude::*;

use crate::decimal::{decimal, decimal_value, law_padded, padded, push_padded};

verus! {

// ---------------------------------------------------------------------------
// Timestamps
// ---------------------------------------------------------------------------

/// The timestamp of `ms` milliseconds: hours, minutes and seconds with two digits, and
/// milliseconds with three. Hours beyond 99 take the digits they need.
pub open spec fn timestamp(ms: nat) -> Seq<char> {
    padded(ms / 3_600_000, 2).push(':') + padded(ms / 60_000 % 60, 2).push(':') + padded(
        ms / 1000 % 60,
        2,
    ).push(',') + padded(ms % 1000, 3)
}

/// Format a duration, given in milliseconds, as timestamp HH:MM:SS,mmm (SRT format).
pub fn format_timestamp(total_ms: u128) -> (out: String)
    ensures
        out@ == timestamp(total_ms as nat),
{
    let ms: u128 = total_ms % 1000;
    let total_secs: u128 = total_ms / 1000;
    let secs: u128 = total_secs % 60;
    let total_mins: u128 = total_secs / 60;
    let mins: u128 = total_mins % 60;
    let hours: u128 = total_mins / 60;
    assert(total_mins == total_ms / 60_000);
    assert(hours == total_ms / 3_600_000);
    let mut out = String::new();
    push_padded(&mut out, hours, 2);
    out.push(':');
    push_padded(&mut out, mins, 2);
    out.push(':');
    push_padded(&mut out, secs, 2);
    out.push(',');
    push_padded(&mut out, ms, 3);
    assert(out@ =~= timestamp(total_ms as nat));
    out
}

// ---------------------------------------------------------------------------
// Laws
// ---------------------------------------------------------------------------

/// How many digits the hours of a timestamp take: two, or as many as they need.
pub open spec fn hours_width(ms: nat) -> int {
    let needed = decimal(ms / 3_600_000).len();
    if needed < 2 {
        2
    } else {
        needed as int
    }
}

/// A timestamp has the form `HH:MM:SS,mmm`: the marks in their places and digits everywhere else.
/// The hours take two digits below a hundred hours, and as many as they need from there on.
pub proof fn law_timestamp_form(ms: nat)
    ensures
        ({
            let t = timestamp(ms);
            let w = hours_width(ms);
            &&& t.len() == w + 10
            &&& t[w] == ':'
            &&& t[w + 3] == ':'
            &&& t[w + 6] == ','
            &&& forall|i: int|
                0 <= i < t.len() && i != w && i != w + 3 && i != w + 6 ==> '0' <= #[trigger] t[i]
                    <= '9'
        }),
        ms < 360_000_000 <==> hours_width(ms) == 2,
{
    let h = ms / 3_600_000;
    law_padded(h, 2);
    law_padded(ms / 60_000 % 60, 2);
    law_padded(ms / 1000 % 60, 2);
    law_padded(ms % 1000, 3);
    lemma_pow_two_digits();
    let t = timestamp(ms);
    let w = hours_width(ms);
    assert forall|i: int| 0 <= i < t.len() && i != w && i != w + 3 && i != w + 6 implies '0'
        <= #[trigger] t[i] <= '9' by {
        if i < w {
            assert(t[i] == padded(h, 2)[i]);
        } else if i < w + 3 {
            assert(t[i] == padded(ms / 60_000 % 60, 2)[i - w - 1]);
        } else if i < w + 6 {
            assert(t[i] == padded(ms / 1000 % 60, 2)[i - w - 4]);
        } else {
            assert(t[i] == padded(ms % 1000, 3)[i - w - 7]);
        }
    }
}

proof fn lemma_pow_two_digits()
    ensures
        pow(10, 2) == 100,
{
    lemma_square_is_pow2(10);
}

/// The four numbers of a timestamp add up to the time, and the minutes and seconds stay below
/// sixty and the milliseconds below a thousand.
pub proof fn law_timestamp_parts(ms: nat)
    ensures
        ({
            let t = timestamp(ms);
            let n = t.len();
            let hours = decimal_value(t.take(n - 10));
            let mins = decimal_value(t.subrange(n - 9, n - 7));
            let secs = decimal_value(t.subrange(n - 6, n - 4));
            let millis = decimal_value(t.skip(n - 3));
            &&& n >= 12
            &&& 0 <= mins < 60
            &&& 0 <= secs < 60
            &&& 0 <= millis < 1000
            &&& ((hours * 60 + mins) * 60 + secs) * 1000 + millis == ms
        }),
{
    let h = ms / 3_600_000;
    let m = ms / 60_000 % 60;
    let s = ms / 1000 % 60;
    law_padded(h, 2);
    law_padded(m, 2);
    law_padded(s, 2);
    law_padded(ms % 1000, 3);
    let t = timestamp(ms);
    let n = t.len();
    assert(t.take(n - 10) =~= padded(h, 2));
    assert(t.subrange(n - 9, n - 7) =~= padded(m, 2));
    assert(t.subrange(n - 6, n - 4) =~= padded(s, 2));
    assert(t.skip(n - 3) =~= padded(ms % 1000, 3));
}

/// Different times have different timestamps.
pub proof fn law_timestamp_injective(a: nat, b: nat)
    requires
        timestamp(a) == timestamp(b),
    ensures
        a == b,
{
    law_timestamp_parts(a);
    law_timestamp_parts(b);
}

} // verus!
