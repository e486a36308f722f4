//! Times on the one clock every timestamp is taken on, as [`Duration`]s
//! since boot.

use std::time::Duration;
use vstd::arithmetic::div_mod::lemma_fundamental_div_mod_converse;
use vstd::prelude::*;

verus! {

/// Nanoseconds in a second.
pub const NS_PER_S: u128 = 1_000_000_000;

/// The longest [`Duration`], in nanoseconds: `u64::MAX` seconds and all but
/// one of the nanoseconds of another.
pub const MAX_NS: u128 = 18_446_744_073_709_551_615_999_999_999;

/// What [`Duration::as_nanos`] returns: the whole length of `d` in
/// nanoseconds.
pub uninterp spec fn nanos(d: Duration) -> nat;

/// [`Duration::as_nanos`] returns the total number of nanoseconds, which no
/// duration takes past [`MAX_NS`].
pub assume_specification[ Duration::as_nanos ](d: &Duration) -> (n: u128)
    ensures
        n == nanos(*d),
        n <= MAX_NS,
;

/// [`Duration::new`] makes a duration of `secs` whole seconds and
/// `subsec` nanoseconds more. From a full second of nanoseconds on, the
/// carry into the seconds can overflow and panic; that is left out.
pub assume_specification[ Duration::new ](secs: u64, subsec: u32) -> (d: Duration)
    requires
        subsec < 1_000_000_000,
    ensures
        nanos(d) == secs * NS_PER_S + subsec,
;

/// The duration of `ns` nanoseconds.
pub fn from_ns(ns: u128) -> (d: Duration)
    requires
        ns <= MAX_NS,
    ensures
        nanos(d) == ns,
{
    let secs: u64 = (ns / NS_PER_S) as u64;
    let subsec: u32 = (ns % NS_PER_S) as u32;
    Duration::new(secs, subsec)
}

/// The integer in `i64`'s range that differs from `x` by a multiple of 2^64.
pub open spec fn wrap_i64(x: int) -> int {
    let r = x % 0x1_0000_0000_0000_0000;
    if r < 0x8000_0000_0000_0000 {
        r
    } else {
        r - 0x1_0000_0000_0000_0000
    }
}

/// Keeps the low 64 bits of `x`.
pub fn low_i64(x: i128) -> (r: i64)
    ensures
        r == wrap_i64(x as int),
{
    let r: i64 = #[verifier::truncate]
    (x as i64);
    assert({
        let m = x % 0x1_0000_0000_0000_0000i128;
        &&& m < 0x8000_0000_0000_0000i128 ==> r == m
        &&& m >= 0x8000_0000_0000_0000i128 ==> r == m - 0x1_0000_0000_0000_0000i128
    }) by (bit_vector)
        requires
            r == x as i64,
    ;
    r
}

/// This many nanoseconds in ticks of `numer` / `denom` nanoseconds, in 32 bits.
pub open spec fn in_ticks(ns: nat, numer: int, denom: int) -> int {
    (ns * denom) / numer % 0x1_0000_0000
}

/// The ticks are those that have passed in full.
pub proof fn law_only_whole_ticks_count(ns: nat, numer: int, denom: int, n: int)
    requires
        0 < numer,
        0 <= n < 0x1_0000_0000,
        n * numer <= ns * denom < (n + 1) * numer,
    ensures
        in_ticks(ns, numer, denom) == n,
{
    let rest = ns * denom - n * numer;
    assert((n + 1) * numer == n * numer + numer) by (nonlinear_arith);
    lemma_fundamental_div_mod_converse(ns * denom, numer, n, rest);
}

/// `d` in ticks of a clock that takes `numer` / `denom` nanoseconds for each,
/// in 32 bits.
pub fn ticks(d: Duration, numer: u32, denom: u32) -> (n: u32)
    requires
        numer > 0,
        nanos(d) * denom <= u64::MAX,
        nanos(d) <= u64::MAX,
    ensures
        n == (nanos(d) * denom) as int / (numer as int) % 0x1_0000_0000,
        n == in_ticks(nanos(d), numer as int, denom as int),
{
    let ns: u64 = d.as_nanos() as u64;
    let whole: u64 = ns * denom as u64 / numer as u64;
    (whole % 0x1_0000_0000) as u32
}

/// Wrapping changes nothing that 64 bits can hold, and otherwise adds or takes
/// away 2^64 as often as it takes to make it so.
pub proof fn law_wrapping_keeps_what_fits(x: int, times: int)
    requires
        i64::MIN <= x <= i64::MAX,
    ensures
        wrap_i64(x) == x,
        wrap_i64(x + times * 0x1_0000_0000_0000_0000) == x,
{
    let whole = 0x1_0000_0000_0000_0000int;
    if x >= 0 {
        lemma_fundamental_div_mod_converse(x, whole, 0, x);
        lemma_fundamental_div_mod_converse(x + times * whole, whole, times, x);
    } else {
        lemma_fundamental_div_mod_converse(x, whole, -1, x + whole);
        lemma_fundamental_div_mod_converse(x + times * whole, whole, times - 1, x + whole);
    }
}

} // verus!
