//! The draws that a thread's own generator offers. Each takes that generator
//! as an argument; the storage that keeps one generator per thread, created
//! on first use, lives with the caller.

use vstd::prelude::*;

use crate::rng::{mix, modulus, next, pick, pick_wide, Rng};

verus! {

/// One end of a range of integers.
pub enum Bound<T> {
    Included(T),
    Excluded(T),
    Unbounded,
}

/// The least integer a range starting at `b` holds; `min` where it is unbounded.
pub open spec fn first<T>(b: Bound<T>, val: spec_fn(T) -> int, min: int) -> int {
    match b {
        Bound::Included(x) => val(x),
        Bound::Excluded(x) => val(x) + 1,
        Bound::Unbounded => min,
    }
}

/// The greatest integer a range ending at `b` holds; `max` where it is unbounded.
pub open spec fn last<T>(b: Bound<T>, val: spec_fn(T) -> int, max: int) -> int {
    match b {
        Bound::Included(x) => val(x),
        Bound::Excluded(x) => val(x) - 1,
        Bound::Unbounded => max,
    }
}

/// Sets the generator's state to `seed`: what it draws afterwards depends on
/// `seed` and on the calls made alone.
pub fn seed(rng: &mut Rng, seed: u64)
    ensures
        final(rng)@ == seed,
{
    rng.seed(seed);
}

/// The seed of a thread's first generator, made from a hash of the time and
/// of the thread's identity: the hash shifted left by one, with the lowest
/// bit set, so that it is odd and never zero.
pub fn local_seed(hash: u64) -> (r: u64)
    ensures
        r as int == (2 * hash as int) % modulus() + 1,
        r % 2 == 1,
{
    let doubled = ((hash as u128 * 2) % 0x1_0000_0000_0000_0000) as u64;
    assert(doubled % 2 == 0) by (nonlinear_arith)
        requires doubled as int == (2 * hash as int) % 0x1_0000_0000_0000_0000;
    doubled + 1
}

/// Draws a uniform `bool`: whether the next output is even.
pub fn bool(rng: &mut Rng) -> (r: bool)
    ensures
        final(rng)@ == next(old(rng)@),
        r == (mix(next(old(rng)@)) % 2 == 0),
{
    rng.gen_u64() % 2 == 0
}

/// Draws a uniform integer in `lo..=hi` of a type of at most 64 bits, held
/// here as `i128`.
fn between(rng: &mut Rng, lo: i128, hi: i128) -> (r: i128)
    requires
        lo <= hi,
        hi - lo < modulus(),
    ensures
        (r as int, final(rng)@) == pick(old(rng)@, lo as int, hi as int),
        lo <= r <= hi,
{
    let span = (hi - lo) as u64;
    let offset = rng.gen_offset(span);
    proof {
        crate::rng::lemma_pick_bound(old(rng)@, lo as int, hi as int);
    }
    lo + offset as i128
}

/// The least and the greatest `u8` of the range from `start` to `end`.
pub open spec fn range_u8(start: Bound<u8>, end: Bound<u8>) -> (int, int) {
    (first(start, |x: u8| x as int, u8::MIN as int), last(end, |x: u8| x as int, u8::MAX as int))
}

/// Draws a uniform `u8` in the range from `start` to `end`, which must not
/// be empty.
pub fn u8(rng: &mut Rng, start: Bound<u8>, end: Bound<u8>) -> (r: u8)
    requires
        range_u8(start, end).0 <= range_u8(start, end).1,
    ensures
        range_u8(start, end).0 <= r <= range_u8(start, end).1,
        (r as int, final(rng)@) == pick(old(rng)@, range_u8(start, end).0, range_u8(start, end).1),
{
    let lo: i128 = match start {
        Bound::Included(x) => x as i128,
        Bound::Excluded(x) => x as i128 + 1,
        Bound::Unbounded => u8::MIN as i128,
    };
    let hi: i128 = match end {
        Bound::Included(x) => x as i128,
        Bound::Excluded(x) => x as i128 - 1,
        Bound::Unbounded => u8::MAX as i128,
    };
    between(rng, lo, hi) as u8
}

/// The least and the greatest `i8` of the range from `start` to `end`.
pub open spec fn range_i8(start: Bound<i8>, end: Bound<i8>) -> (int, int) {
    (first(start, |x: i8| x as int, i8::MIN as int), last(end, |x: i8| x as int, i8::MAX as int))
}

/// Draws a uniform `i8` in the range from `start` to `end`, which must not
/// be empty.
pub fn i8(rng: &mut Rng, start: Bound<i8>, end: Bound<i8>) -> (r: i8)
    requires
        range_i8(start, end).0 <= range_i8(start, end).1,
    ensures
        range_i8(start, end).0 <= r <= range_i8(start, end).1,
        (r as int, final(rng)@) == pick(old(rng)@, range_i8(start, end).0, range_i8(start, end).1),
{
    let lo: i128 = match start {
        Bound::Included(x) => x as i128,
        Bound::Excluded(x) => x as i128 + 1,
        Bound::Unbounded => i8::MIN as i128,
    };
    let hi: i128 = match end {
        Bound::Included(x) => x as i128,
        Bound::Excluded(x) => x as i128 - 1,
        Bound::Unbounded => i8::MAX as i128,
    };
    between(rng, lo, hi) as i8
}

/// The least and the greatest `u16` of the range from `start` to `end`.
pub open spec fn range_u16(start: Bound<u16>, end: Bound<u16>) -> (int, int) {
    (first(start, |x: u16| x as int, u16::MIN as int), last(end, |x: u16| x as int, u16::MAX as int))
}

/// Draws a uniform `u16` in the range from `start` to `end`, which must not
/// be empty.
pub fn u16(rng: &mut Rng, start: Bound<u16>, end: Bound<u16>) -> (r: u16)
    requires
        range_u16(start, end).0 <= range_u16(start, end).1,
    ensures
        range_u16(start, end).0 <= r <= range_u16(start, end).1,
        (r as int, final(rng)@) == pick(old(rng)@, range_u16(start, end).0, range_u16(start, end).1),
{
    let lo: i128 = match start {
        Bound::Included(x) => x as i128,
        Bound::Excluded(x) => x as i128 + 1,
        Bound::Unbounded => u16::MIN as i128,
    };
    let hi: i128 = match end {
        Bound::Included(x) => x as i128,
        Bound::Excluded(x) => x as i128 - 1,
        Bound::Unbounded => u16::MAX as i128,
    };
    between(rng, lo, hi) as u16
}

/// The least and the greatest `i16` of the range from `start` to `end`.
pub open spec fn range_i16(start: Bound<i16>, end: Bound<i16>) -> (int, int) {
    (first(start, |x: i16| x as int, i16::MIN as int), last(end, |x: i16| x as int, i16::MAX as int))
}

/// Draws a uniform `i16` in the range from `start` to `end`, which must not
/// be empty.
pub fn i16(rng: &mut Rng, start: Bound<i16>, end: Bound<i16>) -> (r: i16)
    requires
        range_i16(start, end).0 <= range_i16(start, end).1,
    ensures
        range_i16(start, end).0 <= r <= range_i16(start, end).1,
        (r as int, final(rng)@) == pick(old(rng)@, range_i16(start, end).0, range_i16(start, end).1),
{
    let lo: i128 = match start {
        Bound::Included(x) => x as i128,
        Bound::Excluded(x) => x as i128 + 1,
        Bound::Unbounded => i16::MIN as i128,
    };
    let hi: i128 = match end {
        Bound::Included(x) => x as i128,
        Bound::Excluded(x) => x as i128 - 1,
        Bound::Unbounded => i16::MAX as i128,
    };
    between(rng, lo, hi) as i16
}

/// The least and the greatest `u32` of the range from `start` to `end`.
pub open spec fn range_u32(start: Bound<u32>, end: Bound<u32>) -> (int, int) {
    (first(start, |x: u32| x as int, u32::MIN as int), last(end, |x: u32| x as int, u32::MAX as int))
}

/// Draws a uniform `u32` in the range from `start` to `end`, which must not
/// be empty.
pub fn u32(rng: &mut Rng, start: Bound<u32>, end: Bound<u32>) -> (r: u32)
    requires
        range_u32(start, end).0 <= range_u32(start, end).1,
    ensures
        range_u32(start, end).0 <= r <= range_u32(start, end).1,
        (r as int, final(rng)@) == pick(old(rng)@, range_u32(start, end).0, range_u32(start, end).1),
{
    let lo: i128 = match start {
        Bound::Included(x) => x as i128,
        Bound::Excluded(x) => x as i128 + 1,
        Bound::Unbounded => u32::MIN as i128,
    };
    let hi: i128 = match end {
        Bound::Included(x) => x as i128,
        Bound::Excluded(x) => x as i128 - 1,
        Bound::Unbounded => u32::MAX as i128,
    };
    between(rng, lo, hi) as u32
}

/// The least and the greatest `i32` of the range from `start` to `end`.
pub open spec fn range_i32(start: Bound<i32>, end: Bound<i32>) -> (int, int) {
    (first(start, |x: i32| x as int, i32::MIN as int), last(end, |x: i32| x as int, i32::MAX as int))
}

/// Draws a uniform `i32` in the range from `start` to `end`, which must not
/// be empty.
pub fn i32(rng: &mut Rng, start: Bound<i32>, end: Bound<i32>) -> (r: i32)
    requires
        range_i32(start, end).0 <= range_i32(start, end).1,
    ensures
        range_i32(start, end).0 <= r <= range_i32(start, end).1,
        (r as int, final(rng)@) == pick(old(rng)@, range_i32(start, end).0, range_i32(start, end).1),
{
    let lo: i128 = match start {
        Bound::Included(x) => x as i128,
        Bound::Excluded(x) => x as i128 + 1,
        Bound::Unbounded => i32::MIN as i128,
    };
    let hi: i128 = match end {
        Bound::Included(x) => x as i128,
        Bound::Excluded(x) => x as i128 - 1,
        Bound::Unbounded => i32::MAX as i128,
    };
    between(rng, lo, hi) as i32
}

/// The least and the greatest `u64` of the range from `start` to `end`.
pub open spec fn range_u64(start: Bound<u64>, end: Bound<u64>) -> (int, int) {
    (first(start, |x: u64| x as int, u64::MIN as int), last(end, |x: u64| x as int, u64::MAX as int))
}

/// Draws a uniform `u64` in the range from `start` to `end`, which must not
/// be empty.
pub fn u64(rng: &mut Rng, start: Bound<u64>, end: Bound<u64>) -> (r: u64)
    requires
        range_u64(start, end).0 <= range_u64(start, end).1,
    ensures
        range_u64(start, end).0 <= r <= range_u64(start, end).1,
        (r as int, final(rng)@) == pick(old(rng)@, range_u64(start, end).0, range_u64(start, end).1),
{
    let lo: i128 = match start {
        Bound::Included(x) => x as i128,
        Bound::Excluded(x) => x as i128 + 1,
        Bound::Unbounded => u64::MIN as i128,
    };
    let hi: i128 = match end {
        Bound::Included(x) => x as i128,
        Bound::Excluded(x) => x as i128 - 1,
        Bound::Unbounded => u64::MAX as i128,
    };
    between(rng, lo, hi) as u64
}

/// The least and the greatest `i64` of the range from `start` to `end`.
pub open spec fn range_i64(start: Bound<i64>, end: Bound<i64>) -> (int, int) {
    (first(start, |x: i64| x as int, i64::MIN as int), last(end, |x: i64| x as int, i64::MAX as int))
}

/// Draws a uniform `i64` in the range from `start` to `end`, which must not
/// be empty.
pub fn i64(rng: &mut Rng, start: Bound<i64>, end: Bound<i64>) -> (r: i64)
    requires
        range_i64(start, end).0 <= range_i64(start, end).1,
    ensures
        range_i64(start, end).0 <= r <= range_i64(start, end).1,
        (r as int, final(rng)@) == pick(old(rng)@, range_i64(start, end).0, range_i64(start, end).1),
{
    let lo: i128 = match start {
        Bound::Included(x) => x as i128,
        Bound::Excluded(x) => x as i128 + 1,
        Bound::Unbounded => i64::MIN as i128,
    };
    let hi: i128 = match end {
        Bound::Included(x) => x as i128,
        Bound::Excluded(x) => x as i128 - 1,
        Bound::Unbounded => i64::MAX as i128,
    };
    between(rng, lo, hi) as i64
}

/// The least and the greatest `usize` of the range from `start` to `end`.
pub open spec fn range_usize(start: Bound<usize>, end: Bound<usize>) -> (int, int) {
    (first(start, |x: usize| x as int, usize::MIN as int), last(end, |x: usize| x as int, usize::MAX as int))
}

/// Draws a uniform `usize` in the range from `start` to `end`, which must not
/// be empty.
pub fn usize(rng: &mut Rng, start: Bound<usize>, end: Bound<usize>) -> (r: usize)
    requires
        range_usize(start, end).0 <= range_usize(start, end).1,
    ensures
        range_usize(start, end).0 <= r <= range_usize(start, end).1,
        (r as int, final(rng)@) == pick(old(rng)@, range_usize(start, end).0, range_usize(start, end).1),
{
    let lo: i128 = match start {
        Bound::Included(x) => x as i128,
        Bound::Excluded(x) => x as i128 + 1,
        Bound::Unbounded => usize::MIN as i128,
    };
    let hi: i128 = match end {
        Bound::Included(x) => x as i128,
        Bound::Excluded(x) => x as i128 - 1,
        Bound::Unbounded => usize::MAX as i128,
    };
    between(rng, lo, hi) as usize
}

/// The least and the greatest `isize` of the range from `start` to `end`.
pub open spec fn range_isize(start: Bound<isize>, end: Bound<isize>) -> (int, int) {
    (first(start, |x: isize| x as int, isize::MIN as int), last(end, |x: isize| x as int, isize::MAX as int))
}

/// Draws a uniform `isize` in the range from `start` to `end`, which must not
/// be empty.
pub fn isize(rng: &mut Rng, start: Bound<isize>, end: Bound<isize>) -> (r: isize)
    requires
        range_isize(start, end).0 <= range_isize(start, end).1,
    ensures
        range_isize(start, end).0 <= r <= range_isize(start, end).1,
        (r as int, final(rng)@) == pick(old(rng)@, range_isize(start, end).0, range_isize(start, end).1),
{
    let lo: i128 = match start {
        Bound::Included(x) => x as i128,
        Bound::Excluded(x) => x as i128 + 1,
        Bound::Unbounded => isize::MIN as i128,
    };
    let hi: i128 = match end {
        Bound::Included(x) => x as i128,
        Bound::Excluded(x) => x as i128 - 1,
        Bound::Unbounded => isize::MAX as i128,
    };
    between(rng, lo, hi) as isize
}

/// The least and the greatest `u128` of the range from `start` to `end`.
pub open spec fn range_u128(start: Bound<u128>, end: Bound<u128>) -> (int, int) {
    (first(start, |x: u128| x as int, u128::MIN as int), last(end, |x: u128| x as int, u128::MAX as int))
}

/// Draws a uniform `u128` in the range from `start` to `end`, which must not
/// be empty.
pub fn u128(rng: &mut Rng, start: Bound<u128>, end: Bound<u128>) -> (r: u128)
    requires
        range_u128(start, end).0 <= range_u128(start, end).1,
    ensures
        range_u128(start, end).0 <= r <= range_u128(start, end).1,
        (r as int, final(rng)@) == pick_wide(old(rng)@, range_u128(start, end).0, range_u128(start, end).1),
{
    let lo: u128 = match start {
        Bound::Included(x) => x,
        Bound::Excluded(x) => x + 1,
        Bound::Unbounded => u128::MIN,
    };
    let hi: u128 = match end {
        Bound::Included(x) => x,
        Bound::Excluded(x) => x - 1,
        Bound::Unbounded => u128::MAX,
    };
    proof {
        crate::rng::lemma_pick_wide_bound(old(rng)@, lo as int, hi as int);
    }
    lo + rng.gen_wide_offset(hi - lo)
}

/// The least and the greatest `i128` of the range from `start` to `end`.
pub open spec fn range_i128(start: Bound<i128>, end: Bound<i128>) -> (int, int) {
    (first(start, |x: i128| x as int, i128::MIN as int), last(end, |x: i128| x as int, i128::MAX as int))
}

/// `x` moved up by 2^127 into the range of `u128`, order kept.
fn lift(x: i128) -> (r: u128)
    ensures
        r as int == x as int - i128::MIN as int,
{
    if x >= 0 {
        x as u128 + 0x8000_0000_0000_0000_0000_0000_0000_0000
    } else {
        (x - i128::MIN) as u128
    }
}

/// Draws a uniform `i128` in the range from `start` to `end`, which must not
/// be empty.
pub fn i128(rng: &mut Rng, start: Bound<i128>, end: Bound<i128>) -> (r: i128)
    requires
        range_i128(start, end).0 <= range_i128(start, end).1,
    ensures
        range_i128(start, end).0 <= r <= range_i128(start, end).1,
        (r as int, final(rng)@) == pick_wide(old(rng)@, range_i128(start, end).0, range_i128(start, end).1),
{
    let lo: i128 = match start {
        Bound::Included(x) => x,
        Bound::Excluded(x) => x + 1,
        Bound::Unbounded => i128::MIN,
    };
    let hi: i128 = match end {
        Bound::Included(x) => x,
        Bound::Excluded(x) => x - 1,
        Bound::Unbounded => i128::MAX,
    };
    proof {
        crate::rng::lemma_pick_wide_bound(old(rng)@, lo as int, hi as int);
    }
    let offset = rng.gen_wide_offset(lift(hi) - lift(lo));
    let u = lift(lo) + offset;
    if u >= 0x8000_0000_0000_0000_0000_0000_0000_0000 {
        (u - 0x8000_0000_0000_0000_0000_0000_0000_0000) as i128
    } else {
        u as i128 + i128::MIN
    }
}

/// The character with ASCII code `c`.
pub open spec fn ascii(c: int) -> char {
    (c as u8) as char
}

/// The `i`-th of `A`-`Z` followed by `a`-`z`.
pub open spec fn letter(i: int) -> char {
    if i < 26 {
        ascii('A' as int + i)
    } else {
        ascii('a' as int + i - 26)
    }
}

/// The `i`-th of `0`-`9` followed by `a`-`z`: the digit of value `i`.
pub open spec fn digit_char(i: int) -> char {
    if i < 10 {
        ascii('0' as int + i)
    } else {
        ascii('a' as int + i - 10)
    }
}

/// The `i`-th of `0`-`9`, `A`-`Z` and `a`-`z`.
pub open spec fn alphanumeric_char(i: int) -> char {
    if i < 10 {
        ascii('0' as int + i)
    } else {
        letter(i - 10)
    }
}

/// Whether `c` is one of `a`-`z` and `A`-`Z`.
pub open spec fn is_letter(c: char) -> bool {
    ('a' <= c <= 'z') || ('A' <= c <= 'Z')
}

/// Whether `c` is one of `0`-`9`, `a`-`z` and `A`-`Z`.
pub open spec fn is_alphanumeric(c: char) -> bool {
    ('0' <= c <= '9') || is_letter(c)
}

/// Draws a uniform letter of `a`-`z` and `A`-`Z`.
pub fn alphabetic(rng: &mut Rng) -> (r: char)
    ensures
        r == letter(pick(old(rng)@, 0, 51).0),
        final(rng)@ == pick(old(rng)@, 0, 51).1,
        is_letter(r),
{
    let i = between(rng, 0, 51) as u8;
    if i < 26 {
        (65u8 + i) as char
    } else {
        (97u8 + (i - 26)) as char
    }
}

/// Draws a uniform character of `a`-`z`, `A`-`Z` and `0`-`9`.
pub fn alphanumeric(rng: &mut Rng) -> (r: char)
    ensures
        r == alphanumeric_char(pick(old(rng)@, 0, 61).0),
        final(rng)@ == pick(old(rng)@, 0, 61).1,
        is_alphanumeric(r),
{
    let i = between(rng, 0, 61) as u8;
    if i < 10 {
        (48u8 + i) as char
    } else if i < 36 {
        (65u8 + (i - 10)) as char
    } else {
        (97u8 + (i - 36)) as char
    }
}

/// Draws a uniform letter of `a`-`z`.
pub fn lowercase(rng: &mut Rng) -> (r: char)
    ensures
        r == ascii('a' as int + pick(old(rng)@, 0, 25).0),
        final(rng)@ == pick(old(rng)@, 0, 25).1,
        'a' <= r <= 'z',
{
    let i = between(rng, 0, 25) as u8;
    (97u8 + i) as char
}

/// Draws a uniform letter of `A`-`Z`.
pub fn uppercase(rng: &mut Rng) -> (r: char)
    ensures
        r == ascii('A' as int + pick(old(rng)@, 0, 25).0),
        final(rng)@ == pick(old(rng)@, 0, 25).1,
        'A' <= r <= 'Z',
{
    let i = between(rng, 0, 25) as u8;
    (65u8 + i) as char
}

/// Draws a uniform digit below `base`, written with `0`-`9` and then `a`-`z`.
/// A base of zero or above 36 has no digits to draw from.
pub fn digit(rng: &mut Rng, base: u32) -> (r: char)
    requires
        1 <= base <= 36,
    ensures
        r == digit_char(pick(old(rng)@, 0, base - 1).0),
        final(rng)@ == pick(old(rng)@, 0, base - 1).1,
        ('0' <= r <= '9' && (r as int) - ('0' as int) < base) || ('a' <= r <= 'z' && (r as int)
            - ('a' as int) + 10 < base),
{
    let i = between(rng, 0, base as i128 - 1) as u8;
    if i < 10 {
        (48u8 + i) as char
    } else {
        (97u8 + (i - 10)) as char
    }
}

/// Draws the bits of an `f32` in `1.0..2.0`: the exponent of 1.0 and the top
/// 23 bits of the next output as the mantissa. Less one, it is uniform in
/// `0.0..1.0`.
pub fn f32_bits(rng: &mut Rng) -> (r: u32)
    ensures
        final(rng)@ == next(old(rng)@),
        r as int == 0x3F80_0000 + mix(next(old(rng)@)) as int / 0x200_0000_0000,
        0x3F80_0000 <= r <= 0x3FFF_FFFF,
{
    let out = rng.gen_u64();
    (0x3F80_0000u64 + out / 0x200_0000_0000) as u32
}

/// Draws the bits of an `f64` in `1.0..2.0`: the exponent of 1.0 and the top
/// 52 bits of the next output as the mantissa. Less one, it is uniform in
/// `0.0..1.0`.
pub fn f64_bits(rng: &mut Rng) -> (r: u64)
    ensures
        final(rng)@ == next(old(rng)@),
        r as int == 0x3FF0_0000_0000_0000 + mix(next(old(rng)@)) as int / 0x1000,
        0x3FF0_0000_0000_0000 <= r <= 0x3FFF_FFFF_FFFF_FFFF,
{
    let out = rng.gen_u64();
    0x3FF0_0000_0000_0000u64 + out / 0x1000
}

/// `v` with the elements at `i` and `j` exchanged.
pub open spec fn swapped<T>(v: Seq<T>, i: int, j: int) -> Seq<T> {
    v.update(i, v[j]).update(j, v[i])
}

/// What shuffling leaves of `v` from position `i` on, and the generator state
/// after it: each position, from `i` to the last, is exchanged with one drawn
/// uniformly among those up to and including it.
pub open spec fn shuffled<T>(s: u64, v: Seq<T>, i: nat) -> (Seq<T>, u64)
    decreases v.len() - i,
    via shuffled_decreases::<T>
{
    if i >= v.len() {
        (v, s)
    } else {
        let (j, s1) = pick(s, 0, i as int);
        shuffled(s1, swapped(v, i as int, j), i + 1)
    }
}

#[via_fn]
proof fn shuffled_decreases<T>(s: u64, v: Seq<T>, i: nat) {
    if i < v.len() {
        crate::rng::lemma_pick_bound(s, 0, i as int);
        let j = pick(s, 0, i as int).0;
        assert(swapped(v, i as int, j).len() == v.len());
    }
}

/// Relies on `<[T]>::swap`: exchanges the elements at `i` and `j`; it panics
/// where either is out of bounds.
#[verifier::external_body]
fn swap_at<T>(v: &mut [T], i: usize, j: usize)
    requires
        i < old(v)@.len(),
        j < old(v)@.len(),
    ensures
        final(v)@ == swapped(old(v)@, i as int, j as int),
{
    v.swap(i, j)
}

/// Exchanging two elements keeps the multiset of elements.
proof fn lemma_swapped_multiset<T>(v: Seq<T>, i: int, j: int)
    requires
        0 <= i < v.len(),
        0 <= j < v.len(),
    ensures
        swapped(v, i, j).to_multiset() =~= v.to_multiset(),
{
    broadcast use vstd::seq_lib::to_multiset_update, vstd::multiset::group_multiset_axioms;

    let w = v.update(i, v[j]);
    assert(w.to_multiset() =~= v.to_multiset().insert(v[j]).remove(v[i]));
    assert(w.update(j, v[i]).to_multiset() =~= w.to_multiset().insert(v[i]).remove(w[j]));
    v.to_multiset_ensures();
    if i == j {
        assert(swapped(v, i, j) =~= v);
    } else {
        assert(w[j] == v[j]);
    }
}

/// Shuffles `slice` in place: for each position from the second to the last,
/// the element there is exchanged with one drawn uniformly among it and those
/// before it, so that every order is equally likely.
pub fn shuffle<T>(rng: &mut Rng, slice: &mut [T])
    ensures
        (final(slice)@, final(rng)@) == shuffled(old(rng)@, old(slice)@, 1),
        final(slice)@.to_multiset() == old(slice)@.to_multiset(),
        old(slice)@.len() <= 1 ==> final(slice)@ == old(slice)@ && final(rng)@ == old(rng)@,
{
    let len = slice.len();
    let ghost goal = shuffled(rng@, slice@, 1);
    let mut i: usize = 1;
    while i < len
        invariant
            1 <= i,
            len == slice@.len(),
            shuffled(rng@, slice@, i as nat) == goal,
            goal == shuffled(old(rng)@, old(slice)@, 1),
            slice@.to_multiset() == old(slice)@.to_multiset(),
            len <= 1 ==> slice@ == old(slice)@ && rng@ == old(rng)@,
        decreases len - i,
    {
        let ghost before = slice@;
        let j = between(rng, 0, i as i128) as usize;
        swap_at(slice, i, j);
        proof {
            lemma_swapped_multiset(before, i as int, j as int);
        }
        i = i + 1;
    }
    proof {
        if len <= 1 {
            assert(shuffled(old(rng)@, old(slice)@, 1) == (old(slice)@, old(rng)@));
        }
    }
}

/// The values drawn by successive draws in the inclusive ranges `ranges`
/// from state `s`, and the state after the last of them.
pub open spec fn draws(s: u64, ranges: Seq<(int, int)>) -> (Seq<int>, u64)
    decreases ranges.len(),
{
    if ranges.len() == 0 {
        (Seq::empty(), s)
    } else {
        let (x, s1) = pick(s, ranges[0].0, ranges[0].1);
        let (rest, s2) = draws(s1, ranges.drop_first());
        (seq![x].add(rest), s2)
    }
}

/// Seeding is deterministic: whatever two generators held before, once both
/// are seeded with `v` the same draws give the same values from each, and
/// leave them in the same state.
pub proof fn lemma_seed_replays(a: Rng, b: Rng, v: u64, ranges: Seq<(int, int)>)
    requires
        a@ == v,
        b@ == v,
    ensures
        draws(a@, ranges) == draws(b@, ranges),
{
}

/// Every value of a run of draws lies in the range it was drawn in.
pub proof fn lemma_draws_in_range(s: u64, ranges: Seq<(int, int)>)
    requires
        forall|k: int| 0 <= k < ranges.len() ==> ranges[k].0 <= #[trigger] ranges[k].1,
    ensures
        draws(s, ranges).0.len() == ranges.len(),
        forall|k: int|
            0 <= k < ranges.len() ==> ranges[k].0 <= #[trigger] draws(s, ranges).0[k]
                <= ranges[k].1,
    decreases ranges.len(),
{
    if ranges.len() > 0 {
        let (x, s1) = pick(s, ranges[0].0, ranges[0].1);
        let tail = ranges.drop_first();
        assert forall|k: int| 0 <= k < tail.len() implies tail[k].0 <= #[trigger] tail[k].1 by {
            assert(tail[k] == ranges[k + 1]);
        }
        lemma_draws_in_range(s1, tail);
        crate::rng::lemma_pick_bound(s, ranges[0].0, ranges[0].1);
        let all = draws(s, ranges).0;
        assert forall|k: int| 0 <= k < ranges.len() implies ranges[k].0 <= #[trigger] all[k]
            <= ranges[k].1 by {
            if k > 0 {
                assert(ranges[k] == tail[k - 1]);
                assert(all[k] == draws(s1, tail).0[k - 1]);
            }
        }
    }
}

/// Two generators created one after the other, each from the next output of
/// the same one, are seeded from the outputs of two distinct states.
pub proof fn lemma_successive_seeds_from_distinct_states(s: u64)
    ensures
        next(s) != next(next(s)),
{
}

} // verus!
