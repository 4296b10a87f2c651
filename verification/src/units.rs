use vstd::prelude::*;

verus! {

/// The byte counts that one kibibyte, mebibyte and gibibyte stand for
/// (binary multiples: powers of 1024, not 1000).
pub const BYTES_PER_KB: u64 = 1024;

pub const BYTES_PER_MB: u64 = 1048576;

pub const BYTES_PER_GB: u64 = 1073741824;

/// `bytes / div` expressed in hundredths and rounded half away from zero:
/// the exact value behind a size column displayed to two decimal places.
pub open spec fn rounded_hundredths(bytes: nat, div: nat) -> nat
    recommends
        div > 0,
{
    (bytes * 100 + div / 2) / div
}

/// The rounding behind the two-decimal columns: `rounded_hundredths(bytes, div)`
/// is the greatest `h` with `h * div <= bytes * 100 + div / 2`, which for even
/// `div` is exactly the half-away-from-zero rounding of `bytes * 100 / div`.
pub proof fn lemma_rounded_hundredths_bounds(bytes: nat, div: nat)
    requires
        div > 0,
    ensures
        rounded_hundredths(bytes, div) * div <= bytes * 100 + div / 2,
        bytes * 100 + div / 2 < rounded_hundredths(bytes, div) * div + div,
{
    let x = (bytes * 100 + div / 2) as int;
    let d = div as int;
    let h = rounded_hundredths(bytes, div) as int;
    assert(h == x / d);
    vstd::arithmetic::div_mod::lemma_fundamental_div_mod(x, d);
    vstd::arithmetic::div_mod::lemma_mod_bound(x, d);
    assert(x == d * (x / d) + x % d);
    assert(d * h == h * d) by (nonlinear_arith);
    assert(h * d <= x);
    assert(x < h * d + d);
}

/// Hundredths of kibibytes that `bytes` amounts to, rounded to two decimals.
pub fn kb_hundredths(bytes: u64) -> (r: u64)
    ensures
        r == rounded_hundredths(bytes as nat, BYTES_PER_KB as nat),
{
    let q: u128 = (bytes as u128 * 100 + 512) / 1024;
    proof {
        vstd::arithmetic::div_mod::lemma_div_is_ordered(
            bytes as int * 100 + 512,
            0xffff_ffff_ffff_ffff as int * 100 + 512,
            1024,
        );
    }
    q as u64
}

/// Hundredths of mebibytes that `bytes` amounts to, rounded to two decimals.
pub fn mb_hundredths(bytes: u64) -> (r: u64)
    ensures
        r == rounded_hundredths(bytes as nat, BYTES_PER_MB as nat),
{
    let q: u128 = (bytes as u128 * 100 + 524288) / 1048576;
    proof {
        vstd::arithmetic::div_mod::lemma_div_is_ordered(
            bytes as int * 100 + 524288,
            0xffff_ffff_ffff_ffff as int * 100 + 524288,
            1048576,
        );
    }
    q as u64
}

/// Hundredths of gibibytes that `bytes` amounts to, rounded to two decimals.
pub fn gb_hundredths(bytes: u64) -> (r: u64)
    ensures
        r == rounded_hundredths(bytes as nat, BYTES_PER_GB as nat),
{
    let q: u128 = (bytes as u128 * 100 + 536870912) / 1073741824;
    proof {
        vstd::arithmetic::div_mod::lemma_div_is_ordered(
            bytes as int * 100 + 536870912,
            0xffff_ffff_ffff_ffff as int * 100 + 536870912,
            1073741824,
        );
    }
    q as u64
}

} // verus!
