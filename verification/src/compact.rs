//! Compact, human-readable rendering of download counts.

use crate::decimal::{decimal_text, push_decimal, to_decimal};
use vstd::prelude::*;

verus! {

/// `n` in compact form:
/// - below a thousand, the number itself;
/// - below ten thousand, thousands rounded to one decimal place, halves
///   upwards, with suffix `k`; a decimal place of zero is left out;
/// - below a million, thousands rounded to a whole number, halves upwards,
///   with suffix `k`;
/// - from a million on, millions rounded to a whole number, halves upwards,
///   with suffix `M`.
pub open spec fn compact_text(n: nat) -> Seq<char> {
    if n < 1_000 {
        decimal_text(n)
    } else if n < 10_000 {
        let tenths = (n + 50) / 100;
        if tenths % 10 == 0 {
            decimal_text(tenths / 10) + seq!['k']
        } else {
            decimal_text(tenths / 10) + seq!['.'] + decimal_text(tenths % 10) + seq!['k']
        }
    } else if n < 1_000_000 {
        decimal_text((n + 500) / 1_000) + seq!['k']
    } else {
        decimal_text((n + 500_000) / 1_000_000) + seq!['M']
    }
}

/// Formats a count for display: `950` as `950`, `1500` as `1.5k`, `10000`
/// as `10k`, `2500000` as `3M`.
pub fn format_number(n: u64) -> (r: String)
    ensures
        r@ == compact_text(n as nat),
{
    proof {
        reveal_strlit("k");
        reveal_strlit("M");
        reveal_strlit(".");
    }
    if n < 1_000 {
        to_decimal(n)
    } else if n < 10_000 {
        let tenths: u64 = (n + 50) / 100;
        let mut r = to_decimal(tenths / 10);
        if tenths % 10 != 0 {
            r.append(".");
            push_decimal(&mut r, tenths % 10);
        }
        r.append("k");
        assert(r@ =~= compact_text(n as nat));
        r
    } else if n < 1_000_000 {
        let mut r = to_decimal((n + 500) / 1_000);
        r.append("k");
        assert(r@ =~= compact_text(n as nat));
        r
    } else {
        let half: u64 = if n % 1_000_000 >= 500_000 {
            1
        } else {
            0
        };
        let mut r = to_decimal(n / 1_000_000 + half);
        r.append("M");
        assert(r@ =~= compact_text(n as nat));
        r
    }
}

} // verus!
