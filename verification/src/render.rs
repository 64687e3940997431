//! Human-readable size rendering for the local presentation path.
//!
//! Sizes are rendered in binary units with two decimal places (or none for
//! the megabyte pair), computed entirely in integers: the scaled value is
//! rounded to the nearest representable figure, ties to the even one.

use vstd::prelude::*;

use crate::codec::{dec_rep, digit_char, digit_to_char, push_char, push_dec};
use vstd::string::StringExecFns;

verus! {

pub const BYTES_PER_KB: u64 = 1024;

pub const BYTES_PER_MB: u64 = 1048576;

pub const BYTES_PER_GB: u64 = 1073741824;

/// `num / den` rounded to an integer, ties to even.
pub open spec fn rounded0(num: nat, den: nat) -> nat
    recommends
        den > 0,
{
    let q = num / den;
    let r = num % den;
    if 2 * r > den {
        q + 1
    } else if 2 * r < den {
        q
    } else if q % 2 == 0 {
        q
    } else {
        q + 1
    }
}

/// `num / den` in hundredths, rounded to the nearest hundredth, ties to
/// even.
pub open spec fn rounded2(num: nat, den: nat) -> nat
    recommends
        den > 0,
{
    rounded0(num * 100, den)
}

/// The two-decimal rendering of `num / den`.
pub open spec fn fixed2_chars(num: nat, den: nat) -> Seq<char>
    recommends
        den > 0,
{
    let v = rounded2(num, den);
    dec_rep(v / 100) + seq!['.'] + seq![digit_char((v / 10) % 10), digit_char(v % 10)]
}

/// The rendering of a byte count: scaled to the largest binary unit it
/// reaches, two decimals, or the plain count below one kilobyte.
pub open spec fn spec_format_bytes(bytes: u64) -> Seq<char> {
    if bytes >= BYTES_PER_GB {
        fixed2_chars(bytes as nat, BYTES_PER_GB as nat) + "GB"@
    } else if bytes >= BYTES_PER_MB {
        fixed2_chars(bytes as nat, BYTES_PER_MB as nat) + "MB"@
    } else if bytes >= BYTES_PER_KB {
        fixed2_chars(bytes as nat, BYTES_PER_KB as nat) + "KB"@
    } else {
        dec_rep(bytes as nat) + "B"@
    }
}

/// The rendering of a memory usage/limit pair: both sides in gigabytes with
/// two decimals when the limit exceeds one gigabyte, else both in whole
/// megabytes.
pub open spec fn spec_format_memory(usage: u64, limit: u64) -> Seq<char> {
    if limit > BYTES_PER_GB {
        fixed2_chars(usage as nat, BYTES_PER_GB as nat) + "GB / "@ + fixed2_chars(
            limit as nat,
            BYTES_PER_GB as nat,
        ) + "GB"@
    } else {
        dec_rep(rounded0(usage as nat, BYTES_PER_MB as nat)) + "MB / "@ + dec_rep(
            rounded0(limit as nat, BYTES_PER_MB as nat),
        ) + "MB"@
    }
}

/// Appends the canonical decimal representation of a wide value.
fn push_dec_wide(out: &mut String, x: u128)
    ensures
        final (out)@ == old(out)@ + dec_rep(x as nat),
    decreases x,
{
    if x >= 10 {
        push_dec_wide(out, x / 10);
    }
    let d: u8 = (x % 10) as u8;
    push_char(out, digit_to_char(d));
    proof {
        assert(final (out)@ =~= old(out)@ + dec_rep(x as nat));
    }
}

/// Appends the two-decimal rendering of `num / den`.
fn push_fixed2(out: &mut String, num: u64, den: u64)
    requires
        den >= 1,
    ensures
        final (out)@ == old(out)@ + fixed2_chars(num as nat, den as nat),
{
    let t: u128 = (num as u128) * 100;
    let d: u128 = den as u128;
    let q: u128 = t / d;
    let r: u128 = t % d;
    let v: u128 = if 2 * r > d {
        q + 1
    } else if 2 * r < d {
        q
    } else if q % 2 == 0 {
        q
    } else {
        q + 1
    };
    proof {
        assert(v as nat == rounded2(num as nat, den as nat));
    }
    push_dec_wide(out, v / 100);
    push_char(out, '.');
    push_char(out, digit_to_char(((v / 10) % 10) as u8));
    push_char(out, digit_to_char((v % 10) as u8));
    proof {
        assert(final (out)@ =~= old(out)@ + fixed2_chars(num as nat, den as nat));
    }
}

/// Computes `num / den` rounded to an integer, ties to even.
fn rounded0_exec(num: u64, den: u64) -> (v: u64)
    requires
        den >= 2,
    ensures
        v as nat == rounded0(num as nat, den as nat),
{
    let q: u64 = num / den;
    let r: u64 = num % den;
    proof {
        vstd::arithmetic::div_mod::lemma_div_is_ordered_by_denominator(num as int, 2, den as int);
    }
    let r2: u128 = (r as u128) * 2;
    if r2 > den as u128 {
        q + 1
    } else if r2 < den as u128 {
        q
    } else if q % 2 == 0 {
        q
    } else {
        q + 1
    }
}

/// Renders a byte count in the largest binary unit it reaches, with two
/// decimals, or as a plain count below one kilobyte.
pub fn format_bytes(bytes: u64) -> (r: String)
    ensures
        r@ == spec_format_bytes(bytes),
{
    let mut out = String::new();
    if bytes >= BYTES_PER_GB {
        push_fixed2(&mut out, bytes, BYTES_PER_GB);
        out.append("GB");
    } else if bytes >= BYTES_PER_MB {
        push_fixed2(&mut out, bytes, BYTES_PER_MB);
        out.append("MB");
    } else if bytes >= BYTES_PER_KB {
        push_fixed2(&mut out, bytes, BYTES_PER_KB);
        out.append("KB");
    } else {
        push_dec(&mut out, bytes);
        out.append("B");
    }
    proof {
        assert(out@ =~= spec_format_bytes(bytes));
    }
    out
}

/// Renders a memory usage/limit pair: gigabytes with two decimals when the
/// limit exceeds one gigabyte, else whole megabytes.
pub fn format_memory(usage: u64, limit: u64) -> (r: String)
    ensures
        r@ == spec_format_memory(usage, limit),
{
    let mut out = String::new();
    if limit > BYTES_PER_GB {
        push_fixed2(&mut out, usage, BYTES_PER_GB);
        out.append("GB / ");
        push_fixed2(&mut out, limit, BYTES_PER_GB);
        out.append("GB");
    } else {
        let u = rounded0_exec(usage, BYTES_PER_MB);
        push_dec(&mut out, u);
        out.append("MB / ");
        let l = rounded0_exec(limit, BYTES_PER_MB);
        push_dec(&mut out, l);
        out.append("MB");
    }
    proof {
        assert(out@ =~= spec_format_memory(usage, limit));
    }
    out
}

} // verus!
