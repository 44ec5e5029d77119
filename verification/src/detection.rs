//! Telling photos from the scanner bed: the colour of the bed, how much it
//! varies, and which pixels differ from it by more than that.

use crate::decimals;
use crate::binary64::Binary64;
use crate::big::Big;
use crate::rounding;
use vstd::arithmetic::power2::{
    lemma2_to64, lemma2_to64_rest, lemma_pow2_adds, lemma_pow2_pos, lemma_pow2_strictly_increases,
    lemma_pow2_unfold, pow2,
};
use vstd::prelude::*;

verus! {

/// A pixel: its lightness and its two colour values.
#[derive(Clone, Copy, Debug, PartialEq, Eq, Structural)]
pub struct Pixel {
    /// The lightness.
    pub l: u8,
    /// From green to red.
    pub a: u8,
    /// From blue to yellow.
    pub b: u8,
}

/// The largest squared distance of two pixels.
pub const MAX_DISTANCE: u32 = 195075;

/// The shorter of two sides.
pub open spec fn shorter(rows: int, cols: int) -> int {
    if rows < cols {
        rows
    } else {
        cols
    }
}

/// The shorter of two sides.
fn short_side(rows: u32, cols: u32) -> (r: u32)
    ensures
        r == shorter(rows as int, cols as int),
{
    if rows < cols {
        rows
    } else {
        cols
    }
}

/// A share of a length in ten-thousandths, to the nearest whole number; halves
/// are rounded up.
pub open spec fn share(length: int, ten_thousandths: int) -> int {
    (2 * length * ten_thousandths + 10000) / 20000
}

/// A share of a length in ten-thousandths.
fn share_of(length: u32, ten_thousandths: u32) -> (r: u32)
    requires
        length <= 40000,
        ten_thousandths <= 10000,
    ensures
        r == share(length as int, ten_thousandths as int),
        r <= 40000,
{
    assert(0 <= length * ten_thousandths <= 40000 * 10000) by (nonlinear_arith)
        requires
            length <= 40000,
            ten_thousandths <= 10000,
    ;
    assert(2 * length * ten_thousandths == 2 * (length * ten_thousandths)) by (nonlinear_arith);
    (2 * (length * ten_thousandths) + 10000) / 20000
}

/// The width of the margin that shows the scanner bed: 1.5 percent of the
/// shorter side, but at least two pixels.
pub fn strip_width(rows: u32, cols: u32) -> (r: u32)
    requires
        rows <= 40000,
        cols <= 40000,
    ensures
        r == strip_of(rows as int, cols as int),
{
    let width: u32 = share_of(short_side(rows, cols), 150);
    if width < 2 {
        2
    } else {
        width
    }
}

/// The width of the margin in which nothing is taken for a photo.
pub open spec fn border_of(rows: int, cols: int) -> int {
    if share(shorter(rows, cols), 100) < 3 {
        3
    } else {
        share(shorter(rows, cols), 100)
    }
}

/// The width of the margin in which nothing is taken for a photo: one percent
/// of the shorter side, but at least three pixels.
pub fn border_width(rows: u32, cols: u32) -> (r: u32)
    requires
        rows <= 40000,
        cols <= 40000,
    ensures
        r == border_of(rows as int, cols as int),
{
    let width: u32 = share_of(short_side(rows, cols), 100);
    if width < 3 {
        3
    } else {
        width
    }
}

/// The size of a brush: the next odd number to a share, but at least three.
pub open spec fn odd_size(length: int, ten_thousandths: int) -> int {
    let size = if share(length, ten_thousandths) < 3 {
        3
    } else {
        share(length, ten_thousandths)
    };
    if size % 2 == 0 {
        size + 1
    } else {
        size
    }
}

/// The size of a brush.
fn brush_size(length: u32, ten_thousandths: u32) -> (r: u32)
    requires
        length <= 40000,
        ten_thousandths <= 10000,
    ensures
        r == odd_size(length as int, ten_thousandths as int),
        r % 2 == 1,
{
    let part: u32 = share_of(length, ten_thousandths);
    let size: u32 = if part < 3 {
        3
    } else {
        part
    };
    if size % 2 == 0 {
        size + 1
    } else {
        size
    }
}

/// The size of the brush that closes gaps in photos.
pub open spec fn close_size_of(rows: int, cols: int) -> int {
    odd_size(shorter(rows, cols), 40)
}

/// The size of the brush that removes dust.
pub open spec fn open_size_of(rows: int, cols: int) -> int {
    odd_size(shorter(rows, cols), 25)
}

/// The size of the brush that closes gaps in photos.
pub fn close_size(rows: u32, cols: u32) -> (r: u32)
    requires
        rows <= 40000,
        cols <= 40000,
    ensures
        r == close_size_of(rows as int, cols as int),
        r % 2 == 1,
{
    brush_size(short_side(rows, cols), 40)
}

/// The size of the brush that removes dust.
pub fn open_size(rows: u32, cols: u32) -> (r: u32)
    requires
        rows <= 40000,
        cols <= 40000,
    ensures
        r == open_size_of(rows as int, cols as int),
        r % 2 == 1,
{
    brush_size(short_side(rows, cols), 25)
}

/// Whether a pixel lies in the margin of an image.
pub open spec fn in_margin(x: int, y: int, rows: int, cols: int, width: int) -> bool {
    y < width || y >= rows - width || x < width || x >= cols - width
}

/// Whether the pixel with an index, counted row by row, lies in the margin.
pub open spec fn index_in_margin(i: int, rows: int, cols: int, width: int) -> bool {
    in_margin(i % cols, i / cols, rows, cols, width)
}

/// Whether the pixel with an index lies in the margin.
fn is_in_margin(i: usize, rows: u32, cols: u32, width: u32) -> (r: bool)
    requires
        cols > 0,
        i < rows * cols,
    ensures
        r == index_in_margin(i as int, rows as int, cols as int, width as int),
{
    let x: u64 = i as u64 % cols as u64;
    let y: u64 = i as u64 / cols as u64;
    assert(y < rows) by (nonlinear_arith)
        requires
            y as int == i as int / cols as int,
            i < rows * cols,
            cols > 0,
    ;
    y < width as u64 || y + width as u64 >= rows as u64 || x < width as u64 || x + width as u64
        >= cols as u64
}

/// The pixels in the margin among the first `count`.
pub open spec fn margin(pixels: Seq<Pixel>, rows: int, cols: int, width: int, count: nat) -> Seq<
    Pixel,
>
    decreases count,
{
    if count == 0 {
        Seq::empty()
    } else {
        let before = margin(pixels, rows, cols, width, (count - 1) as nat);
        if index_in_margin(count - 1, rows, cols, width) {
            before.push(pixels[count - 1])
        } else {
            before
        }
    }
}

/// The pixels in the margin of an image that is given row by row.
pub fn border_samples(pixels: &Vec<Pixel>, rows: u32, cols: u32, width: u32) -> (r: Vec<Pixel>)
    requires
        cols > 0,
        pixels.len() == rows * cols,
    ensures
        r@ == margin(pixels@, rows as int, cols as int, width as int, pixels@.len()),
{
    let mut out: Vec<Pixel> = Vec::new();
    let mut i: usize = 0;
    while i < pixels.len()
        invariant
            i <= pixels.len(),
            cols > 0,
            pixels.len() == rows * cols,
            out@ == margin(pixels@, rows as int, cols as int, width as int, i as nat),
        decreases pixels.len() - i,
    {
        if is_in_margin(i, rows, cols, width) {
            out.push(pixels[i]);
        }
        i += 1;
    }
    out
}

/// How many values are at most `limit`.
pub open spec fn count_at_most(values: Seq<u32>, limit: int) -> nat
    decreases values.len(),
{
    if values.len() == 0 {
        0
    } else {
        count_at_most(values.drop_last(), limit) + if values.last() <= limit {
            1nat
        } else {
            0
        }
    }
}

/// Whether `value` stands at a position of the values in order: no more than
/// `rank` of them are less, and more than `rank` are at most as large.
pub open spec fn has_rank(values: Seq<u32>, rank: nat, value: int) -> bool {
    count_at_most(values, value) > rank && count_at_most(values, value - 1) <= rank
}

proof fn lemma_count_monotone(values: Seq<u32>, low: int, high: int)
    requires
        low <= high,
    ensures
        count_at_most(values, low) <= count_at_most(values, high) <= values.len(),
    decreases values.len(),
{
    if values.len() > 0 {
        lemma_count_monotone(values.drop_last(), low, high);
    }
}

/// Only one value stands at a position.
pub proof fn lemma_rank_unique(values: Seq<u32>, rank: nat, a: int, b: int)
    requires
        has_rank(values, rank, a),
        has_rank(values, rank, b),
    ensures
        a == b,
{
    if a < b {
        lemma_count_monotone(values, a, b - 1);
    } else if b < a {
        lemma_count_monotone(values, b, a - 1);
    }
}

/// Where values are in ascending order, the one at a position has its rank.
pub proof fn lemma_rank_in_order(values: Seq<u32>, rank: nat)
    requires
        rank < values.len(),
        forall|i: int, j: int| 0 <= i <= j < values.len() ==> values[i] <= values[j],
    ensures
        has_rank(values, rank, values[rank as int] as int),
{
    lemma_count_in_order(values, rank);
}

proof fn lemma_count_in_order(values: Seq<u32>, rank: nat)
    requires
        rank < values.len(),
        forall|i: int, j: int| 0 <= i <= j < values.len() ==> values[i] <= values[j],
    ensures
        count_at_most(values, values[rank as int] as int) > rank,
        count_at_most(values, values[rank as int] - 1) <= rank,
    decreases values.len(),
{
    let v = values[rank as int] as int;
    let shorter = values.drop_last();
    if rank < shorter.len() {
        assert(shorter[rank as int] == values[rank as int]);
        lemma_count_in_order(shorter, rank);
        assert(values.last() >= v);
    } else {
        lemma_count_all(shorter, v);
        lemma_count_monotone(shorter, v - 1, v);
    }
}

proof fn lemma_count_all(values: Seq<u32>, limit: int)
    requires
        forall|i: int| 0 <= i < values.len() ==> values[i] <= limit,
    ensures
        count_at_most(values, limit) == values.len(),
    decreases values.len(),
{
    if values.len() > 0 {
        assert(values.last() == values[values.len() - 1]);
        assert forall|i: int| 0 <= i < values.drop_last().len() implies values.drop_last()[i]
            <= limit by {
            assert(values.drop_last()[i] == values[i]);
        }
        lemma_count_all(values.drop_last(), limit);
    }
}

/// How many values are at most `limit`.
fn count(values: &Vec<u32>, limit: u32) -> (r: usize)
    ensures
        r == count_at_most(values@, limit as int),
{
    let mut found: usize = 0;
    let mut i: usize = 0;
    assert(values@.take(0) =~= Seq::<u32>::empty());
    while i < values.len()
        invariant
            i <= values.len(),
            found <= i,
            found == count_at_most(values@.take(i as int), limit as int),
        decreases values.len() - i,
    {
        assert(values@.take(i + 1).drop_last() =~= values@.take(i as int));
        if values[i] <= limit {
            found += 1;
        }
        i += 1;
    }
    assert(values@.take(values@.len() as int) =~= values@);
    found
}

/// The value at a position of the values in order.
pub fn ranked(values: &Vec<u32>, rank: usize, limit: u32) -> (r: u32)
    requires
        rank < values.len(),
        forall|i: int| 0 <= i < values.len() ==> values@[i] <= limit,
    ensures
        has_rank(values@, rank as nat, r as int),
        r <= limit,
{
    let mut low: u32 = 0;
    let mut high: u32 = limit;
    proof {
        lemma_count_all(values@, limit as int);
        lemma_count_none(values@);
    }
    while low < high
        invariant
            low <= high <= limit,
            count_at_most(values@, high as int) > rank,
            count_at_most(values@, low - 1) <= rank,
        decreases high - low,
    {
        let middle: u32 = low + (high - low) / 2;
        if count(values, middle) > rank {
            high = middle;
        } else {
            low = middle + 1;
        }
    }
    low
}

proof fn lemma_count_none(values: Seq<u32>)
    ensures
        count_at_most(values, -1) == 0,
    decreases values.len(),
{
    if values.len() > 0 {
        lemma_count_none(values.drop_last());
    }
}

/// The lightnesses of pixels.
pub open spec fn channel_l(samples: Seq<Pixel>) -> Seq<u32> {
    samples.map_values(|p: Pixel| p.l as u32)
}

/// The first colour values of pixels.
pub open spec fn channel_a(samples: Seq<Pixel>) -> Seq<u32> {
    samples.map_values(|p: Pixel| p.a as u32)
}

/// The second colour values of pixels.
pub open spec fn channel_b(samples: Seq<Pixel>) -> Seq<u32> {
    samples.map_values(|p: Pixel| p.b as u32)
}

/// Whether a colour is the median of samples, in each of its values.
pub open spec fn is_background(samples: Seq<Pixel>, colour: Pixel) -> bool {
    let middle = samples.len() / 2;
    &&& has_rank(channel_l(samples), middle, colour.l as int)
    &&& has_rank(channel_a(samples), middle, colour.a as int)
    &&& has_rank(channel_b(samples), middle, colour.b as int)
}

/// The colour of the scanner bed: the median of the samples, in each of its
/// values.
pub fn background(samples: &Vec<Pixel>) -> (r: Pixel)
    requires
        samples.len() > 0,
    ensures
        is_background(samples@, r),
{
    let middle: usize = samples.len() / 2;
    let mut light: Vec<u32> = Vec::new();
    let mut first: Vec<u32> = Vec::new();
    let mut second: Vec<u32> = Vec::new();
    let mut i: usize = 0;
    while i < samples.len()
        invariant
            i <= samples.len(),
            light.len() == i,
            first.len() == i,
            second.len() == i,
            forall|j: int| 0 <= j < i ==> light@[j] == samples@[j].l,
            forall|j: int| 0 <= j < i ==> first@[j] == samples@[j].a,
            forall|j: int| 0 <= j < i ==> second@[j] == samples@[j].b,
        decreases samples.len() - i,
    {
        light.push(samples[i].l as u32);
        first.push(samples[i].a as u32);
        second.push(samples[i].b as u32);
        i += 1;
    }
    assert(light@ =~= channel_l(samples@));
    assert(first@ =~= channel_a(samples@));
    assert(second@ =~= channel_b(samples@));
    let l: u32 = ranked(&light, middle, 255);
    let a: u32 = ranked(&first, middle, 255);
    let b: u32 = ranked(&second, middle, 255);
    Pixel { l: l as u8, a: a as u8, b: b as u8 }
}

/// The square of a number.
pub open spec fn square(n: int) -> int {
    n * n
}

/// The squared distance of two pixels.
pub open spec fn distance(p: Pixel, q: Pixel) -> int {
    square(p.l - q.l) + square(p.a - q.a) + square(p.b - q.b)
}

/// The squared difference of two values.
fn squared_difference(p: u8, q: u8) -> (r: u32)
    ensures
        r == square(p - q),
        r <= 65025,
{
    let d: u32 = if p < q {
        (q - p) as u32
    } else {
        (p - q) as u32
    };
    assert(d * d <= 255 * 255) by (nonlinear_arith)
        requires
            d <= 255,
    ;
    assert(d * d == square(p - q)) by (nonlinear_arith)
        requires
            d == p - q || d == q - p,
            square(p - q) == (p - q) * (p - q),
    ;
    d * d
}

/// The squared distance of two pixels.
fn squared_distance(p: Pixel, q: Pixel) -> (r: u32)
    ensures
        r == distance(p, q),
        r <= MAX_DISTANCE,
{
    squared_difference(p.l, q.l) + squared_difference(p.a, q.a) + squared_difference(p.b, q.b)
}

/// The squared distances of pixels from a colour.
pub open spec fn distances(samples: Seq<Pixel>, colour: Pixel) -> Seq<u32> {
    samples.map_values(|p: Pixel| distance(p, colour) as u32)
}

/// How many binary digits a number has.
pub open spec fn bit_length(n: nat) -> nat
    decreases n,
{
    if n == 0 {
        0
    } else {
        1 + bit_length(n / 2)
    }
}

/// The whole number nearest to a fraction; of two that are equally near, the
/// even one.
pub open spec fn half_even(num: nat, den: nat) -> nat {
    let whole = num / den;
    let rest = num % den;
    if 2 * rest < den || 2 * rest == den && whole % 2 == 0 {
        whole
    } else {
        whole + 1
    }
}

/// The single-precision number nearest to a whole number of units: 24 binary
/// digits of it are kept.
pub open spec fn single(units: nat) -> nat {
    if bit_length(units) <= 24 {
        units
    } else {
        let step = pow2((bit_length(units) - 24) as nat);
        half_even(units, step) * step
    }
}

proof fn lemma_bit_length(n: nat, k: nat)
    requires
        pow2(k) <= n < pow2(k + 1),
    ensures
        bit_length(n) == k + 1,
    decreases k,
{
    lemma_pow2_pos(k);
    lemma_pow2_unfold(k + 1);
    if k == 0 {
        lemma2_to64();
        assert(n == 1);
        reveal_with_fuel(bit_length, 2);
    } else {
        lemma_pow2_unfold(k);
        lemma_bit_length(n / 2, (k - 1) as nat);
    }
}

/// The whole number nearest to a fraction; of two that are equally near, the
/// even one.
fn round_half_even(num: u64, den: u64) -> (r: u64)
    requires
        den > 0,
        num < 0x8000_0000_0000_0000,
    ensures
        r == half_even(num as nat, den as nat),
        r <= num / den + 1,
{
    let whole: u64 = num / den;
    let rest: u64 = num % den;
    assert(rest < den);
    assert(whole <= num) by (nonlinear_arith)
        requires
            whole as int == num as int / den as int,
            den > 0,
    ;
    if rest < den - rest || (rest == den - rest && whole % 2 == 0) {
        whole
    } else {
        whole + 1
    }
}

/// The single-precision number nearest to a whole number of units.
fn round_single(units: u64) -> (r: u64)
    requires
        units < 0x2_0000_0000_0000,
    ensures
        r == single(units as nat),
        r <= 2 * units,
{
    if units == 0 {
        return 0;
    }
    let mut power: u64 = 1;
    let mut k: u64 = 0;
    proof {
        lemma2_to64();
        lemma2_to64_rest();
    }
    while power <= units / 2
        invariant
            power == pow2(k as nat),
            1 <= power <= units,
            units < 0x2_0000_0000_0000,
            k <= 49,
        decreases units - power,
    {
        proof {
            lemma_pow2_unfold((k + 1) as nat);
            lemma2_to64();
            lemma2_to64_rest();
            if k == 49 {
                assert(power == 0x2_0000_0000_0000);
            }
        }
        power = power * 2;
        k = k + 1;
    }
    proof {
        lemma_pow2_unfold((k + 1) as nat);
        lemma_bit_length(units as nat, k as nat);
    }
    if k < 24 {
        return units;
    }
    let step: u64 = power / 0x80_0000;
    proof {
        lemma2_to64();
        lemma2_to64_rest();
        lemma_pow2_adds(23, (k - 23) as nat);
        lemma_pow2_pos((k - 23) as nat);
        let s = pow2((k - 23) as nat);
        assert(step == s) by (nonlinear_arith)
            requires
                step as int == power as int / 0x80_0000,
                power == 0x80_0000 * s,
        ;
    }
    let steps: u64 = round_half_even(units, step);
    proof {
        vstd::arithmetic::div_mod::lemma_fundamental_div_mod(units as int, step as int);
        let q = units as int / step as int;
        assert(steps * step <= 2 * units) by (nonlinear_arith)
            requires
                steps <= q + 1,
                units == step * q + units as int % step as int,
                units as int % step as int >= 0,
                step <= units,
        ;
    }
    steps * step
}

/// The share that lies below the 95th percentile, in units of 2 to the power of
/// -24: the single-precision number nearest to 0.95.
pub const PERCENTILE_95: u32 = 15938355;

/// The share that lies below the median, in units of 2 to the power of -24.
pub const PERCENTILE_50: u32 = 8388608;

/// The position of a percentile among so many values in order: the share of the
/// highest position, in single precision, to the nearest whole number.
pub open spec fn percentile_rank(count: int, share: int) -> int {
    let position = (single(((count - 1) * share) as nat) + 0x80_0000) as int / 0x100_0000;
    if position < count - 1 {
        position
    } else {
        count - 1
    }
}

/// The position of a percentile among so many values in order.
pub fn percentile_index(count: usize, share: u32) -> (r: usize)
    requires
        0 < count <= 0x100_0000,
        share <= 0x100_0000,
    ensures
        r == percentile_rank(count as int, share as int),
        r < count,
{
    let highest: u64 = count as u64 - 1;
    assert(highest * share <= 0xff_ffff * 0x100_0000) by (nonlinear_arith)
        requires
            highest <= 0xff_ffff,
            share <= 0x100_0000,
    ;
    let position: u64 = (round_single(highest * share as u64) + 0x80_0000) / 0x100_0000;
    if position < highest {
        position as usize
    } else {
        highest as usize
    }
}

/// Whether a squared distance is the 95th percentile of those of the samples.
pub open spec fn is_noise(samples: Seq<Pixel>, colour: Pixel, noise: int) -> bool {
    has_rank(
        distances(samples, colour),
        percentile_rank(samples.len() as int, PERCENTILE_95 as int) as nat,
        noise,
    )
}

/// How much the scanner bed varies: the 95th percentile of the squared distances
/// of the samples from its colour.
pub fn noise(samples: &Vec<Pixel>, colour: Pixel) -> (r: u32)
    requires
        0 < samples.len() <= 0x100_0000,
    ensures
        is_noise(samples@, colour, r as int),
        r <= MAX_DISTANCE,
{
    let mut values: Vec<u32> = Vec::new();
    let mut i: usize = 0;
    while i < samples.len()
        invariant
            i <= samples.len(),
            values.len() == i,
            forall|j: int|
                0 <= j < i ==> values@[j] == distance(samples@[j], colour) && values@[j]
                    <= MAX_DISTANCE,
        decreases samples.len() - i,
    {
        values.push(squared_distance(samples[i], colour));
        i += 1;
    }
    assert(values@ =~= distances(samples@, colour));
    let rank: usize = percentile_index(samples.len(), PERCENTILE_95);
    ranked(&values, rank, MAX_DISTANCE)
}

/// Whether a square root lies from 2 to the power of `k` up to the next power.
pub open spec fn has_root_scale(n: nat, k: nat) -> bool {
    pow2(2 * k) <= n < pow2(2 * k + 2)
}

/// Whether `r`, in units of 2 to the power of -24, is the single-precision
/// number that is nearest to the square root of `n`. Single precision has 24
/// bits, so these numbers are multiples of a step that grows with the scale. No
/// square root lies just between two of them.
pub open spec fn is_root(n: nat, k: nat, r: nat) -> bool {
    let step = pow2(k + 1);
    &&& has_root_scale(n, k)
    &&& r % step == 0
    &&& r >= step
    &&& square(2 * r - step) < n * pow2(50) < square((2 * r + step) as int)
}

/// Whether `r` is the single-precision number nearest to a square root, at
/// whatever scale.
pub open spec fn is_single_root(n: nat, r: nat) -> bool {
    exists|k: nat| is_root(n, k, r)
}

/// The single-precision number nearest to a square root, in units of 2 to the
/// power of -24.
pub open spec fn root(n: nat) -> nat {
    if n == 0 {
        0
    } else {
        choose|r: nat| is_single_root(n, r)
    }
}

proof fn lemma_scale_unique(n: nat, j: nat, k: nat)
    requires
        has_root_scale(n, j),
        has_root_scale(n, k),
    ensures
        j == k,
{
    if j < k {
        if 2 * j + 2 < 2 * k {
            lemma_pow2_strictly_increases(2 * j + 2, 2 * k);
        }
    } else if k < j {
        if 2 * k + 2 < 2 * j {
            lemma_pow2_strictly_increases(2 * k + 2, 2 * j);
        }
    }
}

proof fn lemma_root_not_less(n: nat, k: nat, a: nat, b: nat)
    requires
        is_root(n, k, a),
        is_root(n, k, b),
    ensures
        a >= b,
{
    if a < b {
        let step = pow2(k + 1);
        lemma_pow2_pos(k + 1);
        vstd::arithmetic::div_mod::lemma_fundamental_div_mod(a as int, step as int);
        vstd::arithmetic::div_mod::lemma_fundamental_div_mod(b as int, step as int);
        let (x, y) = (a / step, b / step);
        assert(b >= a + step) by (nonlinear_arith)
            requires
                a == step * x,
                b == step * y,
                a < b,
                step > 0,
        ;
        assert(square((2 * a + step) as int) <= square(2 * b - step)) by (nonlinear_arith)
            requires
                square((2 * a + step) as int) == (2 * a + step) * (2 * a + step),
                square(2 * b - step) == (2 * b - step) * (2 * b - step),
                2 * a + step <= 2 * b - step,
        ;
    }
}

proof fn lemma_root_unique(n: nat, k: nat, r: nat)
    requires
        n > 0,
        is_root(n, k, r),
    ensures
        root(n) == r,
{
    let other = root(n);
    assert(is_single_root(n, r));
    assert(is_single_root(n, other));
    let j = choose|j: nat| is_root(n, j, other);
    lemma_scale_unique(n, j, k);
    lemma_root_not_less(n, k, r, other);
    lemma_root_not_less(n, k, other, r);
}

/// The nearest whole number to the square root of a number below 2 to the power
/// of 50.
fn nearest_root(n: u64) -> (r: u64)
    requires
        0 < n < 0x4_0000_0000_0000,
    ensures
        1 <= r <= 0x200_0000,
        (2 * r - 1) * (2 * r - 1) < 4 * n < (2 * r + 1) * (2 * r + 1),
{
    let mut low: u64 = 1;
    let mut high: u64 = 0x200_0001;
    assert((2 * high - 1) * (2 * high - 1) >= 4 * n) by (nonlinear_arith)
        requires
            high == 0x200_0001,
            n < 0x4_0000_0000_0000,
    ;
    assert((2 * low - 1) * (2 * low - 1) == 1) by (nonlinear_arith)
        requires
            low == 1,
    ;
    while high - low > 1
        invariant
            1 <= low < high <= 0x200_0001,
            0 < n < 0x4_0000_0000_0000,
            (2 * low - 1) * (2 * low - 1) < 4 * n,
            (2 * high - 1) * (2 * high - 1) >= 4 * n,
        decreases high - low,
    {
        let middle: u64 = low + (high - low) / 2;
        let odd: u64 = 2 * middle - 1;
        assert(odd * odd <= 0x400_0001 * 0x400_0001) by (nonlinear_arith)
            requires
                odd <= 0x400_0001,
        ;
        if odd * odd < 4 * n {
            low = middle;
        } else {
            high = middle;
        }
    }
    assert(2 * high - 1 == 2 * low + 1);
    assert((2 * low + 1) * (2 * low + 1) == 4 * (low * low + low) + 1) by (nonlinear_arith);
    low
}

/// The single-precision number nearest to the square root of a squared
/// distance, in units of 2 to the power of -24.
pub fn single_root(n: u32) -> (r: u64)
    requires
        n <= MAX_DISTANCE,
    ensures
        r == root(n as nat),
        r <= 0x4_0000_0000,
{
    if n == 0 {
        return 0;
    }
    proof {
        lemma2_to64();
        lemma2_to64_rest();
    }
    let mut k: u64 = 0;
    let mut next: u64 = 4;
    while next <= n as u64
        invariant
            k <= 8,
            n <= MAX_DISTANCE,
            pow2((2 * k) as nat) <= n,
            next == pow2((2 * k + 2) as nat),
            next <= 0x4_0000,
        decreases 8 - k,
    {
        proof {
            lemma_pow2_unfold((2 * k + 3) as nat);
            lemma_pow2_unfold((2 * k + 4) as nat);
            lemma2_to64();
            lemma2_to64_rest();
            if 2 * k + 2 < 16 {
                lemma_pow2_strictly_increases((2 * k + 2) as nat, 16);
            }
        }
        k = k + 1;
        next = next * 4;
    }
    // The shift brings the root into the range of 24-bit numbers.
    let shift: u64 = 46 - 2 * k;
    proof {
        vstd::bits::lemma_u64_pow2_no_overflow(shift as nat);
        vstd::bits::lemma_u64_shl_is_mul(1, shift);
        vstd::bits::lemma_u64_pow2_no_overflow((k + 1) as nat);
        vstd::bits::lemma_u64_shl_is_mul(1, (k + 1) as u64);
        lemma_pow2_adds((2 * k + 2) as nat, shift as nat);
        lemma2_to64_rest();
        let a = pow2((2 * k + 2) as nat);
        let b = pow2(shift as nat);
        assert(n * b < 0x1_0000_0000_0000) by (nonlinear_arith)
            requires
                n < a,
                a * b == 0x1_0000_0000_0000,
                b > 0,
        ;
        lemma_pow2_pos(shift as nat);
        assert(n * b > 0) by (nonlinear_arith)
            requires
                n > 0,
                b > 0,
        ;
    }
    let scaled: u64 = n as u64 * (1u64 << shift);
    let steps: u64 = nearest_root(scaled);
    let step: u64 = 1u64 << (k + 1);
    proof {
        let s = step as nat;
        if k < 8 {
            lemma_pow2_strictly_increases((k + 1) as nat, 9);
        }
        lemma2_to64();
        lemma2_to64_rest();
        assert(steps * step <= 0x200_0000 * 512) by (nonlinear_arith)
            requires
                steps <= 0x200_0000,
                step <= 512,
        ;
    }
    let r: u64 = steps * step;
    proof {
        let s = step as nat;
        let m = steps as int;
        lemma_pow2_pos((k + 1) as nat);
        lemma_pow2_adds((k + 1) as nat, (k + 1) as nat);
        lemma_pow2_adds((2 * k + 2) as nat, (shift + 2) as nat);
        lemma_pow2_adds(shift as nat, 2);
        vstd::arithmetic::div_mod::lemma_mod_multiples_basic(m, s as int);
        assert(m * s == s * m) by (nonlinear_arith);
        assert(r >= s) by (nonlinear_arith)
            requires
                r == m * s,
                m >= 1,
        ;
        let w = pow2((2 * k + 2) as nat) as int;
        assert(s * s == w);
        assert(n * pow2(50) == w * (4 * scaled)) by (nonlinear_arith)
            requires
                pow2(50) == w * pow2((shift + 2) as nat),
                pow2((shift + 2) as nat) == pow2(shift as nat) * 4,
                scaled == n * pow2(shift as nat),
        ;
        assert(square(2 * r - s) == w * ((2 * m - 1) * (2 * m - 1))) by (nonlinear_arith)
            requires
                square(2 * r - s) == (2 * r - s) * (2 * r - s),
                r == m * s,
                s * s == w,
        ;
        assert(square((2 * r + s) as int) == w * ((2 * m + 1) * (2 * m + 1))) by (nonlinear_arith)
            requires
                square((2 * r + s) as int) == (2 * r + s) * (2 * r + s),
                r == m * s,
                s * s == w,
        ;
        lemma_pow2_pos((2 * k + 2) as nat);
        assert(w * ((2 * m - 1) * (2 * m - 1)) < w * (4 * scaled)) by (nonlinear_arith)
            requires
                (2 * m - 1) * (2 * m - 1) < 4 * scaled,
                w > 0,
        ;
        assert(w * (4 * scaled) < w * ((2 * m + 1) * (2 * m + 1))) by (nonlinear_arith)
            requires
                4 * scaled < (2 * m + 1) * (2 * m + 1),
                w > 0,
        ;
        lemma_root_unique(n as nat, k as nat, r as nat);
    }
    r
}

/// The lowest threshold that is chosen automatically, in units of 2 to the power
/// of -24: twelve.
pub const MIN_AUTOMATIC: u64 = 0xc00_0000;

/// The highest threshold that is chosen automatically, in units of 2 to the
/// power of -24: forty-eight.
pub const MAX_AUTOMATIC: u64 = 0x3000_0000;

/// The threshold for a bed whose squared variation is `noise`, in units of 2 to
/// the power of -24: two and a half times the variation, within limits.
pub open spec fn automatic_units(noise: nat) -> nat {
    let wide = 5 * root(noise) / 2;
    if wide < MIN_AUTOMATIC {
        MIN_AUTOMATIC as nat
    } else if wide > MAX_AUTOMATIC {
        MAX_AUTOMATIC as nat
    } else {
        wide
    }
}

/// The double-precision number for units of 2 to the power of -24.
pub open spec fn units_value(units: nat) -> Binary64 {
    Binary64 { bits: rounding::rounded(units * pow2(1050), 1) as u64 }
}

/// A chosen threshold as a single-precision number, in units of 2 to the power
/// of -24: its leading 24 binary digits, rounded.
pub open spec fn chosen_units(threshold: Binary64) -> nat {
    let exponent = threshold.magnitude() / 0x10_0000_0000_0000;
    let digits = 0x10_0000_0000_0000 + threshold.magnitude() % 0x10_0000_0000_0000;
    half_even(digits, 0x2000_0000) * pow2((exponent - 1022) as nat)
}

/// Whether a threshold is one that can be chosen: from 1 to 255.
pub open spec fn can_be_chosen(threshold: Binary64) -> bool {
    0x3ff0_0000_0000_0000 <= threshold.bits <= 0x406f_e000_0000_0000
}

/// A threshold: as it is reported, and as pixels are compared with it.
#[derive(Clone, Copy, Debug, PartialEq, Eq, Structural)]
pub struct Threshold {
    /// The threshold.
    pub value: Binary64,
    /// The threshold in single precision, in units of 2 to the power of -24.
    pub units: u64,
}

/// Chooses the threshold for a bed whose squared variation is `noise`.
pub fn automatic_threshold(noise: u32) -> (r: Threshold)
    requires
        noise <= MAX_DISTANCE,
    ensures
        r.value == units_value(automatic_units(noise as nat)),
        r.units == single(automatic_units(noise as nat)),
{
    let variation: u64 = single_root(noise);
    let wide: u64 = 5 * variation / 2;
    let units: u64 = if wide < MIN_AUTOMATIC {
        MIN_AUTOMATIC
    } else if wide > MAX_AUTOMATIC {
        MAX_AUTOMATIC
    } else {
        wide
    };
    let scaled = decimals::times_two_to(&Big::of64(units), 1050);
    let bits: u64 = rounding::round(&scaled, &Big::of(1));
    Threshold { value: Binary64 { bits }, units: round_single(units) }
}

/// Takes over a threshold that was chosen by hand.
pub fn chosen_threshold(threshold: Binary64) -> (r: Threshold)
    requires
        can_be_chosen(threshold),
    ensures
        r.value == threshold,
        r.units == chosen_units(threshold),
{
    let exponent: u64 = threshold.bits / 0x10_0000_0000_0000;
    let digits: u64 = 0x10_0000_0000_0000 + threshold.bits % 0x10_0000_0000_0000;
    let kept: u64 = round_half_even(digits, 0x2000_0000);
    proof {
        assert(threshold.magnitude() == threshold.bits);
        vstd::bits::lemma_u64_pow2_no_overflow((exponent - 1022) as nat);
        vstd::bits::lemma_u64_shl_is_mul(1, (exponent - 1022) as u64);
        lemma2_to64();
        if exponent - 1022 < 8 {
            lemma_pow2_strictly_increases((exponent - 1022) as nat, 8);
        }
        assert(kept * pow2((exponent - 1022) as nat) <= 0x100_0001 * 256) by (nonlinear_arith)
            requires
                kept <= 0x100_0001,
                pow2((exponent - 1022) as nat) <= 256,
        ;
    }
    Threshold { value: threshold, units: kept * (1u64 << (exponent - 1022)) }
}

/// Whether a pixel differs from the bed by at least a threshold, given in units
/// of 2 to the power of -24.
pub open spec fn is_foreground(pixel: Pixel, colour: Pixel, threshold: int) -> bool {
    root(distance(pixel, colour) as nat) >= threshold
}

/// Which squared distances reach a threshold.
fn reached(threshold: u64) -> (r: Vec<bool>)
    ensures
        r.len() == MAX_DISTANCE + 1,
        forall|d: int| 0 <= d <= MAX_DISTANCE ==> r@[d] == (root(d as nat) >= threshold),
{
    let mut out: Vec<bool> = Vec::new();
    let mut d: u32 = 0;
    while d <= MAX_DISTANCE
        invariant
            d <= MAX_DISTANCE + 1,
            out.len() == d,
            forall|i: int| 0 <= i < d ==> out@[i] == (root(i as nat) >= threshold),
        decreases MAX_DISTANCE + 1 - d,
    {
        out.push(single_root(d) >= threshold);
        d += 1;
    }
    out
}

/// What a mask holds for a pixel: 255 where it differs enough from the bed, else
/// zero.
pub open spec fn mask_value(pixel: Pixel, colour: Pixel, threshold: int) -> u8 {
    if is_foreground(pixel, colour, threshold) {
        255
    } else {
        0
    }
}

/// The pixels that differ enough from the bed.
pub fn mask(pixels: &Vec<Pixel>, colour: Pixel, threshold: u64) -> (r: Vec<u8>)
    ensures
        r.len() == pixels.len(),
        forall|i: int|
            0 <= i < pixels.len() ==> r@[i] == mask_value(pixels@[i], colour, threshold as int),
{
    let table = reached(threshold);
    let mut out: Vec<u8> = Vec::new();
    let mut i: usize = 0;
    while i < pixels.len()
        invariant
            i <= pixels.len(),
            out.len() == i,
            table.len() == MAX_DISTANCE + 1,
            forall|d: int| 0 <= d <= MAX_DISTANCE ==> table@[d] == (root(d as nat) >= threshold),
            forall|j: int|
                0 <= j < i ==> out@[j] == mask_value(pixels@[j], colour, threshold as int),
        decreases pixels.len() - i,
    {
        let d: u32 = squared_distance(pixels[i], colour);
        if table[d as usize] {
            out.push(255);
        } else {
            out.push(0);
        }
        i += 1;
    }
    out
}

proof fn lemma_margin_length(pixels: Seq<Pixel>, rows: int, cols: int, width: int, count: nat)
    ensures
        margin(pixels, rows, cols, width, count).len() <= count,
        count > 0 && width > 0 && cols > 0 ==> margin(pixels, rows, cols, width, count).len() > 0,
    decreases count,
{
    if count > 0 {
        lemma_margin_length(pixels, rows, cols, width, (count - 1) as nat);
        if count == 1 && width > 0 && cols > 0 {
            assert(0int / cols == 0) by (nonlinear_arith)
                requires
                    cols > 0,
            ;
            assert(index_in_margin(0, rows, cols, width));
        }
    }
}

/// The width of the margin that shows the bed.
pub open spec fn strip_of(rows: int, cols: int) -> int {
    if share(shorter(rows, cols), 150) < 2 {
        2
    } else {
        share(shorter(rows, cols), 150)
    }
}

/// Whether a mask and a threshold are the right ones for an image, given row by
/// row: the bed's colour is the median of the margin; the threshold is the
/// chosen one, or follows from how much the margin varies; and the mask marks
/// the pixels that differ at least that much from the bed.
pub open spec fn is_foreground_mask(
    pixels: Seq<Pixel>,
    rows: int,
    cols: int,
    chosen: Option<Binary64>,
    marked: Seq<u8>,
    value: Binary64,
) -> bool {
    exists|colour: Pixel, variation: int|
        #![trigger is_noise(margin(pixels, rows, cols, strip_of(rows, cols), pixels.len()), colour, variation)]
        {
            let samples = margin(pixels, rows, cols, strip_of(rows, cols), pixels.len());
            let threshold = match chosen {
                Some(threshold) => chosen_units(threshold),
                None => single(automatic_units(variation as nat)),
            };
            &&& is_background(samples, colour)
            &&& is_noise(samples, colour, variation)
            &&& value == match chosen {
                Some(threshold) => threshold,
                None => units_value(automatic_units(variation as nat)),
            }
            &&& marked.len() == pixels.len()
            &&& forall|i: int|
                0 <= i < pixels.len() ==> marked[i] == mask_value(
                    pixels[i],
                    colour,
                    threshold as int,
                )
        }
}

/// Marks the pixels of an image, given row by row, that differ from the scanner
/// bed, and tells the threshold that was used.
pub fn foreground_mask(pixels: &Vec<Pixel>, rows: u32, cols: u32, chosen: Option<Binary64>) -> (r: (
    Vec<u8>,
    Binary64,
))
    requires
        0 < rows <= 4096,
        0 < cols <= 4096,
        pixels.len() == rows * cols,
        chosen matches Some(threshold) ==> can_be_chosen(threshold),
    ensures
        is_foreground_mask(pixels@, rows as int, cols as int, chosen, r.0@, r.1),
{
    let width: u32 = strip_width(rows, cols);
    let samples = border_samples(pixels, rows, cols, width);
    proof {
        lemma_margin_length(pixels@, rows as int, cols as int, width as int, pixels@.len());
        assert(0 < rows * cols <= 4096 * 4096) by (nonlinear_arith)
            requires
                0 < rows <= 4096,
                0 < cols <= 4096,
        ;
    }
    let colour = background(&samples);
    let variation: u32 = noise(&samples, colour);
    let threshold = match chosen {
        Some(threshold) => chosen_threshold(threshold),
        None => automatic_threshold(variation),
    };
    let marked = mask(pixels, colour, threshold.units);
    assert(is_noise(
        margin(
            pixels@,
            rows as int,
            cols as int,
            strip_of(rows as int, cols as int),
            pixels@.len(),
        ),
        colour,
        variation as int,
    ));
    (marked, threshold.value)
}

/// Removes everything in the margin from a mask, so that the edge of the
/// scanner joins no photos.
pub fn clear_border(marked: &Vec<u8>, rows: u32, cols: u32, width: u32) -> (r: Vec<u8>)
    requires
        cols > 0,
        marked.len() == rows * cols,
    ensures
        r.len() == marked.len(),
        forall|i: int|
            0 <= i < marked.len() ==> r@[i] == if index_in_margin(
                i,
                rows as int,
                cols as int,
                width as int,
            ) {
                0
            } else {
                marked@[i]
            },
{
    let mut out: Vec<u8> = Vec::new();
    let mut i: usize = 0;
    while i < marked.len()
        invariant
            i <= marked.len(),
            out.len() == i,
            cols > 0,
            marked.len() == rows * cols,
            forall|j: int|
                0 <= j < i ==> out@[j] == if index_in_margin(
                    j,
                    rows as int,
                    cols as int,
                    width as int,
                ) {
                    0
                } else {
                    marked@[j]
                },
        decreases marked.len() - i,
    {
        if is_in_margin(i, rows, cols, width) {
            out.push(0);
        } else {
            out.push(marked[i]);
        }
        i += 1;
    }
    out
}

/// A threshold that is chosen automatically lies between 12 and 48.
pub proof fn lemma_automatic_threshold_is_bounded(noise: nat)
    ensures
        MIN_AUTOMATIC <= automatic_units(noise) <= MAX_AUTOMATIC,
        MIN_AUTOMATIC == 12 * pow2(24),
        MAX_AUTOMATIC == 48 * pow2(24),
{
    lemma2_to64();
}

/// How far a fraction has to be doubled to have 24 binary digits before the
/// point.
pub open spec fn quotient_shift(num: nat, den: nat) -> nat
    decreases den * 0x100_0000 - num,
{
    if num == 0 || num >= den * 0x80_0000 {
        0
    } else {
        1 + quotient_shift(2 * num, den)
    }
}

/// The scale that makes an edge of the length `from` as long as `to`, in single
/// precision: its 24 binary digits. They count in units of 2 to the power of
/// minus the shift.
pub open spec fn scale_digits(to: nat, from: nat) -> nat {
    half_even(to * pow2(quotient_shift(to, from)), from)
}

/// The length of an edge at a scale, both in single precision: the nearest whole
/// number, halves rounded up, but at least one.
pub open spec fn scaled_length(edge: nat, digits: nat, shift: nat) -> nat {
    let length = (2 * single(edge * digits) + pow2(shift)) / pow2(shift + 1);
    if length < 1 {
        1
    } else {
        length
    }
}

/// The size of the image that photos are looked for in, whose edges may be no
/// longer than `maximum`; none where the image is small enough as it is.
pub open spec fn detection_size_of(width: nat, height: nat, maximum: nat) -> Option<(nat, nat)> {
    let largest = if width < height {
        height
    } else {
        width
    };
    if largest <= maximum {
        None
    } else {
        let shift = quotient_shift(maximum, largest);
        let digits = scale_digits(maximum, largest);
        Some((scaled_length(width, digits, shift), scaled_length(height, digits, shift)))
    }
}

proof fn lemma_half_even(num: nat, den: nat)
    requires
        den > 0,
    ensures
        2 * (half_even(num, den) * den) <= 2 * num + den,
        2 * num <= 2 * (half_even(num, den) * den) + den,
{
    let whole = num / den;
    let rest = num % den;
    vstd::arithmetic::div_mod::lemma_fundamental_div_mod(num as int, den as int);
    assert(num == whole * den + rest) by (nonlinear_arith)
        requires
            num == den * (num / den) + num % den,
            whole == num / den,
            rest == num % den,
    ;
    assert((whole + 1) * den == whole * den + den) by (nonlinear_arith);
}

proof fn lemma_bit_length_bound(n: nat, k: nat)
    requires
        n < pow2(k),
    ensures
        bit_length(n) <= k,
    decreases k,
{
    if k == 0 {
        lemma2_to64();
    } else if n > 0 {
        lemma_pow2_unfold(k);
        lemma_bit_length_bound(n / 2, (k - 1) as nat);
    }
}

/// Rounding to single precision changes a number below 2 to the power of `k` by
/// little.
proof fn lemma_single_error(n: nat, k: nat)
    requires
        n < pow2(k),
        k >= 25,
    ensures
        2 * single(n) <= 2 * n + pow2((k - 24) as nat),
        2 * n <= 2 * single(n) + pow2((k - 24) as nat),
{
    lemma_bit_length_bound(n, k);
    let b = bit_length(n);
    lemma_pow2_pos((k - 24) as nat);
    if b > 24 {
        let step = pow2((b - 24) as nat);
        lemma_pow2_pos((b - 24) as nat);
        lemma_half_even(n, step);
        if b < k {
            lemma_pow2_strictly_increases((b - 24) as nat, (k - 24) as nat);
        }
    }
}

proof fn lemma_quotient_shift(num: nat, den: nat)
    requires
        0 < num < den * 0x80_0000,
    ensures
        quotient_shift(num, den) >= 1,
        den * 0x80_0000 <= num * pow2(quotient_shift(num, den)) < den * 0x100_0000,
    decreases den * 0x100_0000 - num,
{
    let s = quotient_shift(num, den);
    lemma_pow2_unfold(s);
    lemma2_to64();
    if 2 * num < den * 0x80_0000 {
        lemma_quotient_shift(2 * num, den);
        let t = quotient_shift(2 * num, den);
        assert(num * (2 * pow2(t)) == 2 * num * pow2(t)) by (nonlinear_arith);
    } else {
        assert(quotient_shift(2 * num, den) == 0);
        assert(num * (2 * 1) == 2 * num) by (nonlinear_arith);
    }
}

/// The scaled length of an edge is not longer than the length that the longest
/// edge is made to have, and the longest edge has that length.
proof fn lemma_scaled_length(edge: nat, largest: nat, maximum: nat)
    requires
        0 < maximum <= 4096,
        maximum < largest <= 30000,
        0 < edge <= largest,
    ensures
        1 <= scaled_length(
            edge,
            scale_digits(maximum, largest),
            quotient_shift(maximum, largest),
        ) <= maximum,
        edge == largest ==> scaled_length(
            edge,
            scale_digits(maximum, largest),
            quotient_shift(maximum, largest),
        ) == maximum,
{
    let s = quotient_shift(maximum, largest);
    let digits = scale_digits(maximum, largest);
    let p = pow2(s);
    let exact = maximum * p;
    lemma_quotient_shift(maximum, largest);
    lemma_half_even(exact, largest);
    lemma2_to64();
    lemma2_to64_rest();
    // The shift is at least 24, since the scale is less than one.
    assert(p > 0x80_0000) by (nonlinear_arith)
        requires
            largest * 0x80_0000 <= maximum * p,
            maximum < largest,
            largest > 0,
    ;
    if s < 24 {
        if s < 23 {
            lemma_pow2_strictly_increases(s, 23);
        }
    }
    let product = edge * digits;
    assert(product <= largest * digits) by (nonlinear_arith)
        requires
            product == edge * digits,
            edge <= largest,
    ;
    assert(digits * largest == largest * digits) by (nonlinear_arith);
    assert(2 * product <= 2 * exact + largest);
    // A bound on the product bounds the error of its rounding.
    lemma_pow2_adds(13, s);
    assert(product < pow2(s + 13)) by (nonlinear_arith)
        requires
            2 * product <= 2 * exact + largest,
            exact == maximum * p,
            maximum <= 4096,
            largest <= 30000,
            p > 0x80_0000,
            pow2(s + 13) == 8192 * p,
    ;
    lemma_single_error(product, s + 13);
    let slack = pow2((s - 11) as nat);
    lemma_pow2_adds(11, (s - 11) as nat);
    assert(2048 * slack == p);
    let rounded = single(product);
    lemma_pow2_unfold(s + 1);
    let doubled = 2 * rounded + p;
    // Not longer.
    assert(doubled < (maximum + 1) * (2 * p)) by (nonlinear_arith)
        requires
            doubled == 2 * rounded + p,
            2 * rounded <= 2 * product + slack,
            2 * product <= 2 * exact + largest,
            exact == maximum * p,
            2048 * slack == p,
            largest <= 30000,
            p > 0x80_0000,
    ;
    let length = doubled / (2 * p);
    vstd::arithmetic::div_mod::lemma_fundamental_div_mod(doubled as int, (2 * p) as int);
    assert(length < maximum + 1) by (nonlinear_arith)
        requires
            doubled == (2 * p) * length + doubled % (2 * p),
            doubled % (2 * p) >= 0,
            doubled < (maximum + 1) * (2 * p),
            p > 0,
    ;
    if edge == largest {
        assert(doubled >= maximum * (2 * p)) by (nonlinear_arith)
            requires
                doubled == 2 * rounded + p,
                2 * product <= 2 * rounded + slack,
                2 * exact <= 2 * product + largest,
                exact == maximum * p,
                2048 * slack == p,
                largest <= 30000,
                p > 0x80_0000,
        ;
        assert(length >= maximum) by (nonlinear_arith)
            requires
                doubled == (2 * p) * length + doubled % (2 * p),
                doubled % (2 * p) < 2 * p,
                doubled >= maximum * (2 * p),
                p > 0,
        ;
    }
}

/// The image that photos are looked for in is bounded: its longer edge is as
/// long as is allowed, and the other is not longer and does not vanish.
pub proof fn lemma_detection_image_is_bounded(width: nat, height: nat, maximum: nat)
    requires
        0 < width <= 30000,
        0 < height <= 30000,
        0 < maximum <= 4096,
        detection_size_of(width, height, maximum) is Some,
    ensures
        ({
            let (w, h) = detection_size_of(width, height, maximum)->0;
            &&& 1 <= w <= maximum
            &&& 1 <= h <= maximum
            &&& width >= height ==> w == maximum
            &&& height >= width ==> h == maximum
        }),
{
    let largest = if width < height {
        height
    } else {
        width
    };
    lemma_scaled_length(width, largest, maximum);
    lemma_scaled_length(height, largest, maximum);
}

/// The single-precision number nearest to four hundredths, in units of the
/// twenty-eighth binary place.
pub const EDGE_SHARE: u64 = 10737418;

/// Twelve pixels, in units of the twenty-eighth binary place.
pub const LEAST_EDGE: u64 = 3221225472;

/// How long the shorter side of a photo has to be on a detection image of this
/// size: four hundredths of the image's shorter side, in single precision, but
/// at least twelve pixels; in units of the twenty-eighth binary place.
pub open spec fn shortest_edge(rows: int, cols: int) -> nat {
    let share = single((shorter(rows, cols) * EDGE_SHARE) as nat);
    if share < LEAST_EDGE {
        LEAST_EDGE as nat
    } else {
        share
    }
}

/// Whether the shorter side of an outline, in units of the twenty-eighth binary
/// place, is long enough for a photo.
pub fn accepts_edge(length: u64, rows: u32, cols: u32) -> (r: bool)
    requires
        rows <= 40000,
        cols <= 40000,
    ensures
        r == (length >= shortest_edge(rows as int, cols as int)),
{
    let share: u64 = round_single(short_side(rows, cols) as u64 * EDGE_SHARE);
    length >= LEAST_EDGE && length >= share
}

/// The size of the image that photos are looked for in.
pub fn detection_size(width: u32, height: u32, maximum: u32) -> (r: Option<(u32, u32)>)
    requires
        0 < width <= 30000,
        0 < height <= 30000,
        0 < maximum <= 4096,
    ensures
        match r {
            Some((w, h)) => detection_size_of(width as nat, height as nat, maximum as nat) == Some(
                (w as nat, h as nat),
            ),
            None => detection_size_of(width as nat, height as nat, maximum as nat) is None,
        },
{
    let largest: u32 = if width < height {
        height
    } else {
        width
    };
    if largest <= maximum {
        return None;
    }
    let mut num: u64 = maximum as u64;
    let mut shift: u64 = 0;
    let mut unit: u64 = 1;
    let den: u64 = largest as u64;
    proof {
        lemma2_to64();
        lemma2_to64_rest();
        assert(maximum * pow2(0) == maximum) by (nonlinear_arith)
            requires
                pow2(0) == 1,
        ;
    }
    while num < den * 0x80_0000
        invariant
            den == largest,
            0 < maximum < largest <= 30000,
            unit == pow2(shift as nat),
            num == maximum * pow2(shift as nat),
            0 < num < den * 0x100_0000,
            unit <= num,
            shift + quotient_shift(num as nat, den as nat) == quotient_shift(
                maximum as nat,
                largest as nat,
            ),
            shift <= 60,
        decreases den * 0x100_0000 - num,
    {
        proof {
            lemma_pow2_unfold((shift + 1) as nat);
            assert(maximum * (2 * pow2(shift as nat)) == 2 * (maximum * pow2(shift as nat)))
                by (nonlinear_arith);
            lemma2_to64();
            lemma2_to64_rest();
            if shift >= 60 {
                assert(pow2(60) == 0x1000_0000_0000_0000);
            }
        }
        num = num * 2;
        unit = unit * 2;
        shift = shift + 1;
    }
    let digits: u64 = round_half_even(num, den);
    proof {
        assert(num / den <= 0x100_0000) by (nonlinear_arith)
            requires
                num < den * 0x100_0000,
                den > 0,
        ;
        assert(width * digits <= 30000 * 0x100_0001) by (nonlinear_arith)
            requires
                width <= 30000,
                digits <= 0x100_0001,
        ;
        assert(height * digits <= 30000 * 0x100_0001) by (nonlinear_arith)
            requires
                height <= 30000,
                digits <= 0x100_0001,
        ;
        lemma_pow2_unfold((shift + 1) as nat);
        lemma_scaled_length(width as nat, largest as nat, maximum as nat);
        lemma_scaled_length(height as nat, largest as nat, maximum as nat);
    }
    let across: u64 = (2 * round_single(width as u64 * digits) + unit) / (2 * unit);
    let down: u64 = (2 * round_single(height as u64 * digits) + unit) / (2 * unit);
    let w: u32 = if across < 1 {
        1
    } else {
        across as u32
    };
    let h: u32 = if down < 1 {
        1
    } else {
        down as u32
    };
    Some((w, h))
}

/// The distance of two pixels is the Euclidean one over all three channels: a
/// difference in a single channel counts with its square, differences in several
/// channels add up, it is the same in both directions, and it is zero for equal
/// pixels only.
pub proof fn lemma_distance_is_euclidean(p: Pixel, q: Pixel)
    ensures
        distance(p, q) == distance(q, p),
        distance(p, q) == 0 <==> p == q,
        distance(p, Pixel { l: q.l, ..p }) == (p.l - q.l) * (p.l - q.l),
        distance(p, Pixel { a: q.a, ..p }) == (p.a - q.a) * (p.a - q.a),
        distance(p, Pixel { b: q.b, ..p }) == (p.b - q.b) * (p.b - q.b),
        distance(p, q) == distance(p, Pixel { l: q.l, ..p }) + distance(p, Pixel { a: q.a, ..p })
            + distance(p, Pixel { b: q.b, ..p }),
        distance(p, q) >= (p.l - q.l) * (p.l - q.l),
        distance(p, q) >= (p.a - q.a) * (p.a - q.a),
        distance(p, q) >= (p.b - q.b) * (p.b - q.b),
        distance(p, q) <= 3 * 255 * 255,
{
    let (x, y, z) = (p.l - q.l, p.a - q.a, p.b - q.b);
    lemma_square(x);
    lemma_square(y);
    lemma_square(z);
    lemma_square(0);
}

proof fn lemma_square(n: int)
    ensures
        square(n) == n * n,
        square(n) == square(-n),
        square(n) >= 0,
        square(n) == 0 <==> n == 0,
        -255 <= n <= 255 ==> square(n) <= 255 * 255,
{
    assert(n * n == (-n) * (-n)) by (nonlinear_arith);
    assert(n * n >= 0) by (nonlinear_arith);
    assert(n * n == 0 <==> n == 0) by (nonlinear_arith);
    if -255 <= n <= 255 {
        assert(n * n <= 255 * 255) by (nonlinear_arith)
            requires
                -255 <= n <= 255,
        ;
    }
}

proof fn lemma_nearest_exists(n: nat, m: nat)
    requires
        n > 0,
        m >= 1,
        (2 * m - 1) * (2 * m - 1) < 4 * n,
    ensures
        exists|r: nat|
            r >= 1 && #[trigger] square(2 * r - 1) < 4 * n && 4 * n < square((2 * r + 1) as int),
    decreases 4 * n - (2 * m - 1),
{
    lemma_square(2 * m - 1);
    lemma_square((2 * m + 1) as int);
    if 4 * n < square((2 * m + 1) as int) {
        assert(m >= 1 && square(2 * m - 1) < 4 * n && 4 * n < square((2 * m + 1) as int));
    } else {
        assert((2 * m + 1) * (2 * m + 1) == 4 * (m * m + m) + 1) by (nonlinear_arith);
        assert((2 * (m + 1) - 1) * (2 * (m + 1) - 1) < 4 * n);
        assert(2 * m + 1 <= (2 * m + 1) * (2 * m + 1)) by (nonlinear_arith);
        lemma_nearest_exists(n, m + 1);
    }
}

proof fn lemma_root_scale(n: nat) -> (k: nat)
    requires
        0 < n <= MAX_DISTANCE,
    ensures
        k <= 8,
        has_root_scale(n, k),
{
    lemma2_to64();
    if n < 4 {
        0
    } else if n < 16 {
        1
    } else if n < 64 {
        2
    } else if n < 256 {
        3
    } else if n < 1024 {
        4
    } else if n < 4096 {
        5
    } else if n < 16384 {
        6
    } else if n < 65536 {
        7
    } else {
        8
    }
}

proof fn lemma_root_exists(n: nat) -> (k: nat)
    requires
        0 < n <= MAX_DISTANCE,
    ensures
        k <= 8,
        is_root(n, k, root(n)),
{
    let k = lemma_root_scale(n);
    let shift = (46 - 2 * k) as nat;
    let scaled = n * pow2(shift);
    lemma_pow2_pos(shift);
    assert(scaled > 0) by (nonlinear_arith)
        requires
            scaled == n * pow2(shift),
            n > 0,
            pow2(shift) > 0,
    ;
    assert((2 * 1 - 1) * (2 * 1 - 1) == 1) by (nonlinear_arith);
    lemma_nearest_exists(scaled, 1);
    let m = choose|m: nat|
        m >= 1 && #[trigger] square(2 * m - 1) < 4 * scaled && 4 * scaled < square(
            (2 * m + 1) as int,
        );
    let s = pow2(k + 1);
    let w = pow2(2 * k + 2);
    let r = m * s;
    lemma2_to64();
    lemma2_to64_rest();
    lemma_pow2_pos(k + 1);
    lemma_pow2_pos(2 * k + 2);
    lemma_pow2_adds(k + 1, k + 1);
    lemma_pow2_adds(2 * k + 2, shift + 2);
    lemma_pow2_adds(shift, 2);
    assert(s * s == w);
    vstd::arithmetic::div_mod::lemma_mod_multiples_basic(m as int, s as int);
    assert(r >= s) by (nonlinear_arith)
        requires
            r == m * s,
            m >= 1,
    ;
    assert(n * pow2(50) == w * (4 * scaled)) by (nonlinear_arith)
        requires
            pow2(50) == w * pow2(shift + 2),
            pow2(shift + 2) == pow2(shift) * 4,
            scaled == n * pow2(shift),
    ;
    assert(square(2 * r - s) == w * square(2 * m - 1)) by (nonlinear_arith)
        requires
            square(2 * r - s) == (2 * r - s) * (2 * r - s),
            square(2 * m - 1) == (2 * m - 1) * (2 * m - 1),
            r == m * s,
            s * s == w,
    ;
    assert(square((2 * r + s) as int) == w * square((2 * m + 1) as int)) by (nonlinear_arith)
        requires
            square((2 * r + s) as int) == (2 * r + s) * (2 * r + s),
            square((2 * m + 1) as int) == (2 * m + 1) * (2 * m + 1),
            r == m * s,
            s * s == w,
    ;
    let (low, high) = (square(2 * m - 1), square((2 * m + 1) as int));
    assert(w * low < w * (4 * scaled)) by (nonlinear_arith)
        requires
            low < 4 * scaled,
            w > 0,
    ;
    assert(w * (4 * scaled) < w * high) by (nonlinear_arith)
        requires
            4 * scaled < high,
            w > 0,
    ;
    lemma_root_unique(n, k, r);
    k
}

proof fn lemma_whole_steps(d: nat, k: nat, r: nat)
    requires
        k <= 8,
        r % pow2(k + 1) == 0,
    ensures
        2 * r + pow2(k + 1) > d * 0x200_0000 ==> r >= d * 0x100_0000,
        2 * r < d * 0x200_0000 + pow2(k + 1) ==> r <= d * 0x100_0000,
{
    let step = pow2(k + 1);
    let more = pow2((23 - k) as nat);
    lemma_pow2_pos(k + 1);
    lemma2_to64();
    lemma_pow2_adds(k + 1, (23 - k) as nat);
    vstd::arithmetic::div_mod::lemma_fundamental_div_mod(r as int, step as int);
    let x = r / step;
    let y = d * more;
    assert(d * 0x100_0000 == y * step) by (nonlinear_arith)
        requires
            y == d * more,
            step * more == 0x100_0000,
    ;
    assert(r == x * step) by (nonlinear_arith)
        requires
            r == step * x,
    ;
    if x < y {
        assert(x * step + step <= y * step) by (nonlinear_arith)
            requires
                x + 1 <= y,
                step > 0,
        ;
    }
    if y < x {
        assert(y * step + step <= x * step) by (nonlinear_arith)
            requires
                y + 1 <= x,
                step > 0,
        ;
    }
}

proof fn lemma_root_against_whole(n: nat, d: nat)
    requires
        n <= MAX_DISTANCE,
        d <= 442,
    ensures
        n >= d * d ==> root(n) >= d * 0x100_0000,
        n <= d * d ==> root(n) <= d * 0x100_0000,
        n < d * d ==> root(n) < d * 0x100_0000,
{
    if n == 0 {
        assert(d * d == 0 ==> d == 0) by (nonlinear_arith);
        assert(d > 0 ==> d * 0x100_0000 > 0);
    } else {
        let k = lemma_root_exists(n);
        let r = root(n);
        let step = pow2(k + 1);
        lemma2_to64();
        lemma2_to64_rest();
        lemma_pow2_pos(k + 1);
        if k < 8 {
            lemma_pow2_strictly_increases(k + 1, 9);
        }
        lemma_whole_steps(d, k, r);
        let e = d * 0x200_0000;
        assert(e * e == (d * d) * pow2(50)) by (nonlinear_arith)
            requires
                e == d * 0x200_0000,
                pow2(50) == 0x4_0000_0000_0000,
        ;
        let (lower, upper) = (2 * r - step, (2 * r + step) as int);
        lemma_square(lower);
        lemma_square(upper);
        if n >= d * d {
            assert(n * pow2(50) >= (d * d) * pow2(50)) by (nonlinear_arith)
                requires
                    n >= d * d,
            ;
            assert(upper > e) by (nonlinear_arith)
                requires
                    upper * upper > e * e,
                    upper >= 0,
                    e >= 0,
            ;
        }
        if n <= d * d {
            assert(n * pow2(50) <= (d * d) * pow2(50)) by (nonlinear_arith)
                requires
                    n <= d * d,
            ;
            assert(lower < e) by (nonlinear_arith)
                requires
                    lower * lower < e * e,
                    lower >= 0,
                    e >= 0,
            ;
        }
        if n < d * d && r >= d * 0x100_0000 {
            assert(n * pow2(50) <= (d * d) * pow2(50) - pow2(50)) by (nonlinear_arith)
                requires
                    n + 1 <= d * d,
            ;
            assert(lower >= e - step);
            assert(e >= step) by (nonlinear_arith)
                requires
                    e == d * 0x200_0000,
                    d >= 1,
                    step <= 512,
            ;
            assert(lower * lower >= (e - step) * (e - step)) by (nonlinear_arith)
                requires
                    lower >= e - step,
                    e - step >= 0,
            ;
            assert((e - step) * (e - step) >= e * e - 2 * (e * step)) by (nonlinear_arith);
            assert(e * step <= (442 * 0x200_0000) * 512) by (nonlinear_arith)
                requires
                    e <= 442 * 0x200_0000,
                    0 <= step <= 512,
                    e >= 0,
            ;
        }
    }
}

proof fn lemma_root_monotone(m: nat, n: nat)
    requires
        m <= n <= MAX_DISTANCE,
    ensures
        root(m) <= root(n),
{
    if m > 0 {
        let j = lemma_root_exists(m);
        let k = lemma_root_exists(n);
        lemma2_to64();
        if j < k {
            let d = pow2(k);
            lemma_pow2_pos(k);
            if 2 * j + 2 < 2 * k {
                lemma_pow2_strictly_increases(2 * j + 2, 2 * k);
            }
            lemma_pow2_adds(k, k);
            if k < 8 {
                lemma_pow2_strictly_increases(k, 8);
            }
            lemma_root_against_whole(m, d);
            lemma_root_against_whole(n, d);
        } else if k < j {
            if 2 * k + 2 < 2 * j {
                lemma_pow2_strictly_increases(2 * k + 2, 2 * j);
            }
        } else if root(m) > root(n) {
            let step = pow2(k + 1);
            let (a, b) = (root(n), root(m));
            lemma_pow2_pos(k + 1);
            vstd::arithmetic::div_mod::lemma_fundamental_div_mod(a as int, step as int);
            vstd::arithmetic::div_mod::lemma_fundamental_div_mod(b as int, step as int);
            let (x, y) = (a / step, b / step);
            assert(b >= a + step) by (nonlinear_arith)
                requires
                    a == step * x,
                    b == step * y,
                    a < b,
                    step > 0,
            ;
            let (low, high) = (2 * b - step, (2 * a + step) as int);
            lemma_square(low);
            lemma_square(high);
            assert(low * low >= high * high) by (nonlinear_arith)
                requires
                    low >= high,
                    high >= 0,
            ;
            assert(m * pow2(50) <= n * pow2(50)) by (nonlinear_arith)
                requires
                    m <= n,
            ;
        }
    }
}

/// A pixel is marked exactly if it is far enough from the bed: at a whole
/// threshold, if the squares of the differences in lightness and in the two
/// colours together reach the square of the threshold. In particular a pixel that
/// differs that much in a single channel is marked, and one with the colour of
/// the bed is not.
pub proof fn lemma_far_pixels_are_marked(pixel: Pixel, bed: Pixel, threshold: int)
    requires
        1 <= threshold <= 255,
    ensures
        mask_value(pixel, bed, threshold * 0x100_0000) == if (pixel.l - bed.l) * (pixel.l - bed.l)
            + (pixel.a - bed.a) * (pixel.a - bed.a) + (pixel.b - bed.b) * (pixel.b - bed.b)
            >= threshold * threshold {
            255u8
        } else {
            0u8
        },
        pixel.l - bed.l >= threshold || bed.l - pixel.l >= threshold ==> mask_value(
            pixel,
            bed,
            threshold * 0x100_0000,
        ) == 255,
        pixel.a - bed.a >= threshold || bed.a - pixel.a >= threshold ==> mask_value(
            pixel,
            bed,
            threshold * 0x100_0000,
        ) == 255,
        pixel.b - bed.b >= threshold || bed.b - pixel.b >= threshold ==> mask_value(
            pixel,
            bed,
            threshold * 0x100_0000,
        ) == 255,
        mask_value(bed, bed, threshold * 0x100_0000) == 0,
{
    let (x, y, z) = (pixel.l - bed.l, pixel.a - bed.a, pixel.b - bed.b);
    lemma_distance_is_euclidean(pixel, bed);
    lemma_distance_is_euclidean(bed, bed);
    lemma_root_against_whole(distance(pixel, bed) as nat, threshold as nat);
    lemma_root_against_whole(0, threshold as nat);
    assert(threshold * threshold > 0) by (nonlinear_arith)
        requires
            threshold >= 1,
    ;
    lemma_reaches(x, threshold);
    lemma_reaches(y, threshold);
    lemma_reaches(z, threshold);
    lemma_square(x);
    lemma_square(y);
    lemma_square(z);
}

proof fn lemma_reaches(x: int, threshold: int)
    requires
        threshold >= 0,
    ensures
        x >= threshold || -x >= threshold ==> x * x >= threshold * threshold,
{
    if x >= threshold || -x >= threshold {
        assert(x * x >= threshold * threshold) by (nonlinear_arith)
            requires
                x >= threshold || -x >= threshold,
                threshold >= 0,
        ;
    }
}

/// At any threshold, a pixel that is as far from the bed as a marked one is
/// marked as well, and a marked pixel stays marked at a lower threshold.
pub proof fn lemma_marking_is_monotone(near: Pixel, far: Pixel, bed: Pixel, low: int, high: int)
    requires
        distance(near, bed) <= distance(far, bed),
        low <= high,
        mask_value(near, bed, high) == 255,
    ensures
        mask_value(far, bed, low) == 255,
{
    lemma_distance_is_euclidean(near, bed);
    lemma_distance_is_euclidean(far, bed);
    lemma_root_monotone(distance(near, bed) as nat, distance(far, bed) as nat);
}

/// What is counted are the values that are not above the limit.
pub proof fn lemma_count_is_of_values(values: Seq<u32>, limit: int)
    ensures
        count_at_most(values, limit) == values.filter(|v: u32| v <= limit).len(),
    decreases values.len(),
{
    reveal(Seq::filter);
    if values.len() > 0 {
        lemma_count_is_of_values(values.drop_last(), limit);
    }
}

/// A value that stands at a position has at most that many smaller values beside
/// it, and with the equal ones there are more: the middle position gives the
/// median.
pub proof fn lemma_rank_counts(values: Seq<u32>, rank: nat, value: int)
    requires
        has_rank(values, rank, value),
    ensures
        values.filter(|v: u32| v <= value - 1).len() <= rank,
        values.filter(|v: u32| v <= value).len() > rank,
{
    lemma_count_is_of_values(values, value);
    lemma_count_is_of_values(values, value - 1);
}

proof fn lemma_count_constant(values: Seq<u32>, value: int, limit: int)
    requires
        forall|i: int| 0 <= i < values.len() ==> #[trigger] values[i] == value,
    ensures
        count_at_most(values, limit) == if value <= limit {
            values.len()
        } else {
            0
        },
    decreases values.len(),
{
    if values.len() > 0 {
        let shorter = values.drop_last();
        assert forall|i: int| 0 <= i < shorter.len() implies #[trigger] shorter[i] == value by {
            assert(shorter[i] == values[i]);
        }
        assert(values.last() == values[values.len() - 1]);
        lemma_count_constant(shorter, value, limit);
    }
}

proof fn lemma_rank_of_constant(values: Seq<u32>, value: int, rank: nat, found: int)
    requires
        forall|i: int| 0 <= i < values.len() ==> #[trigger] values[i] == value,
        has_rank(values, rank, found),
    ensures
        found == value,
{
    lemma_count_constant(values, value, found);
    lemma_count_constant(values, value, found - 1);
}

/// Whether an image, given row by row, has this pixel in a column and a row.
pub open spec fn has_pixel(pixels: Seq<Pixel>, cols: int, x: int, y: int, pixel: Pixel) -> bool {
    pixels[y * cols + x] == pixel
}

/// The samples of the bed are the pixels of the margin: all that lie less than
/// its width from one of the four edges, and no others.
pub proof fn lemma_margin_is_along_the_edges(
    pixels: Seq<Pixel>,
    rows: int,
    cols: int,
    width: int,
    count: nat,
    pixel: Pixel,
)
    requires
        rows > 0,
        cols > 0,
        count <= pixels.len(),
    ensures
        margin(pixels, rows, cols, width, count).contains(pixel) <==> exists|x: int, y: int|
            0 <= x < cols && 0 <= y && y * cols + x < count && (x < width || y < width || cols - x
                <= width || rows - y <= width) && #[trigger] has_pixel(pixels, cols, x, y, pixel),
    decreases count,
{
    let now = margin(pixels, rows, cols, width, count);
    if count > 0 {
        let less = (count - 1) as nat;
        lemma_margin_is_along_the_edges(pixels, rows, cols, width, less, pixel);
        let before = margin(pixels, rows, cols, width, less);
        let last = count - 1;
        vstd::arithmetic::div_mod::lemma_fundamental_div_mod(last, cols);
        assert(cols * (last / cols) == (last / cols) * cols) by (nonlinear_arith);
        let (u, v) = (last % cols, last / cols);
        assert(v >= 0) by (nonlinear_arith)
            requires
                v == last / cols,
                last >= 0,
                cols > 0,
        ;
        assert(v * cols + u == last);
        if now.contains(pixel) {
            let j = choose|j: int| 0 <= j < now.len() && now[j] == pixel;
            if j < before.len() {
                assert(before[j] == pixel);
            } else {
                assert(has_pixel(pixels, cols, u, v, pixel));
            }
        }
        if exists|x: int, y: int|
            0 <= x < cols && 0 <= y && y * cols + x < count && (x < width || y < width || cols - x
                <= width || rows - y <= width) && #[trigger] has_pixel(pixels, cols, x, y, pixel) {
            let (x, y) = choose|x: int, y: int|
                0 <= x < cols && 0 <= y && y * cols + x < count && (x < width || y < width || cols
                    - x <= width || rows - y <= width) && #[trigger] has_pixel(
                    pixels,
                    cols,
                    x,
                    y,
                    pixel,
                );
            if y * cols + x < less {
                let i = choose|i: int| 0 <= i < before.len() && before[i] == pixel;
                assert(now[i] == before[i]);
            } else {
                vstd::arithmetic::div_mod::lemma_fundamental_div_mod_converse(last, cols, y, x);
                assert(now.last() == pixels[last]);
            }
        }
    } else {
        assert forall|x: int, y: int|
            0 <= x < cols && 0 <= y && #[trigger] has_pixel(
                pixels,
                cols,
                x,
                y,
                pixel,
            ) implies y * cols + x >= 0 by {
            assert(y * cols >= 0) by (nonlinear_arith)
                requires
                    y >= 0,
                    cols > 0,
            ;
        }
    }
}

/// A threshold that is a whole number is compared with as that number.
pub proof fn lemma_whole_thresholds(threshold: Binary64, n: nat)
    requires
        can_be_chosen(threshold),
        threshold.value() == n * pow2(1074),
    ensures
        1 <= n <= 255,
        chosen_units(threshold) == n * 0x100_0000,
{
    let unit = 0x10_0000_0000_0000nat;
    let magnitude = threshold.magnitude();
    let exponent = magnitude / unit;
    let digits = unit + magnitude % unit;
    assert(1023 <= exponent <= 1030);
    let low = (exponent - 1) as nat;
    let shift = (1075 - exponent) as nat;
    lemma_pow2_adds(low, shift);
    lemma_pow2_pos(low);
    assert(digits == n * pow2(shift)) by (nonlinear_arith)
        requires
            digits * pow2(low) == n * (pow2(low) * pow2(shift)),
            pow2(low) > 0,
    ;
    let rest = (1046 - exponent) as nat;
    lemma_pow2_adds(29, rest);
    lemma2_to64();
    let part = n * pow2(rest);
    assert(digits == part * 0x2000_0000) by (nonlinear_arith)
        requires
            digits == n * (0x2000_0000 * pow2(rest)),
            part == n * pow2(rest),
    ;
    vstd::arithmetic::div_mod::lemma_div_multiples_vanish(part as int, 0x2000_0000);
    vstd::arithmetic::div_mod::lemma_mod_multiples_basic(part as int, 0x2000_0000);
    assert(half_even(digits, 0x2000_0000) == part);
    let more = (exponent - 1022) as nat;
    lemma_pow2_adds(rest, more);
    assert(part * pow2(more) == n * 0x100_0000) by (nonlinear_arith)
        requires
            part == n * pow2(rest),
            pow2(rest) * pow2(more) == 0x100_0000,
    ;
    lemma2_to64_rest();
    if n == 0 {
        assert(digits == 0) by (nonlinear_arith)
            requires
                digits == n * pow2(shift),
                n == 0,
        ;
    }
    if n >= 256 {
        if exponent < 1030 {
            lemma_pow2_strictly_increases(45, shift);
        }
        assert(pow2(45) == 0x2000_0000_0000);
        assert(digits >= 0x20_0000_0000_0000) by (nonlinear_arith)
            requires
                digits == n * pow2(shift),
                n >= 256,
                pow2(shift) >= 0x2000_0000_0000,
        ;
    }
}

proof fn lemma_uniform_bed(
    pixels: Seq<Pixel>,
    rows: int,
    cols: int,
    width: int,
    bed: Pixel,
    colour: Pixel,
    variation: int,
)
    requires
        rows > 0,
        cols > 0,
        pixels.len() == rows * cols,
        forall|x: int, y: int|
            #![trigger has_pixel(pixels, cols, x, y, bed)]
            0 <= x < cols && 0 <= y < rows && (x < width || y < width || cols - x <= width || rows
                - y <= width) ==> has_pixel(pixels, cols, x, y, bed),
        is_background(margin(pixels, rows, cols, width, pixels.len()), colour),
        is_noise(margin(pixels, rows, cols, width, pixels.len()), colour, variation),
    ensures
        colour == bed,
        variation == 0,
{
    let samples = margin(pixels, rows, cols, width, pixels.len());
    assert forall|j: int| 0 <= j < samples.len() implies #[trigger] samples[j] == bed by {
        lemma_margin_is_along_the_edges(pixels, rows, cols, width, pixels.len(), samples[j]);
        assert(samples.contains(samples[j]));
        let (x, y) = choose|x: int, y: int|
            0 <= x < cols && 0 <= y && y * cols + x < pixels.len() && (x < width || y < width
                || cols - x <= width || rows - y <= width) && #[trigger] has_pixel(
                pixels,
                cols,
                x,
                y,
                samples[j],
            );
        assert(y < rows) by (nonlinear_arith)
            requires
                y * cols + x < rows * cols,
                x >= 0,
                cols > 0,
        ;
        assert(has_pixel(pixels, cols, x, y, bed));
    }
    let middle = samples.len() / 2;
    lemma_rank_of_constant(channel_l(samples), bed.l as int, middle, colour.l as int);
    lemma_rank_of_constant(channel_a(samples), bed.a as int, middle, colour.a as int);
    lemma_rank_of_constant(channel_b(samples), bed.b as int, middle, colour.b as int);
    lemma_distance_is_euclidean(bed, bed);
    lemma_rank_of_constant(
        distances(samples, colour),
        0,
        percentile_rank(samples.len() as int, PERCENTILE_95 as int) as nat,
        variation,
    );
}

/// Photos stand out from an even bed: where the margin of a scan has the bed's
/// colour throughout and no threshold is chosen, the threshold is twelve, and
/// exactly the pixels are marked that differ from the bed by twelve or more.
pub proof fn lemma_photos_on_an_even_bed(
    pixels: Seq<Pixel>,
    rows: int,
    cols: int,
    width: int,
    bed: Pixel,
    marked: Seq<u8>,
    value: Binary64,
    i: int,
)
    requires
        rows > 0,
        cols > 0,
        pixels.len() == rows * cols,
        width >= 2,
        2000 * width >= 30 * rows + 1000 || 2000 * width >= 30 * cols + 1000,
        forall|x: int, y: int|
            #![trigger has_pixel(pixels, cols, x, y, bed)]
            0 <= x < cols && 0 <= y < rows && (x < width || y < width || cols - x <= width || rows
                - y <= width) ==> has_pixel(pixels, cols, x, y, bed),
        is_foreground_mask(pixels, rows, cols, None, marked, value),
        0 <= i < pixels.len(),
    ensures
        value.bits == 0x4028_0000_0000_0000,
        marked.len() == pixels.len(),
        marked[i] == if (pixels[i].l - bed.l) * (pixels[i].l - bed.l) + (pixels[i].a - bed.a) * (
        pixels[i].a - bed.a) + (pixels[i].b - bed.b) * (pixels[i].b - bed.b) >= 144 {
            255u8
        } else {
            0u8
        },
{
    let strip = strip_of(rows, cols);
    let samples = margin(pixels, rows, cols, strip, pixels.len());
    let (colour, variation) = choose|colour: Pixel, variation: int|
        #![trigger is_noise(samples, colour, variation)]
        {
            &&& is_background(samples, colour)
            &&& is_noise(samples, colour, variation)
            &&& value == units_value(automatic_units(variation as nat))
            &&& marked.len() == pixels.len()
            &&& forall|i: int|
                0 <= i < pixels.len() ==> marked[i] == mask_value(
                    pixels[i],
                    colour,
                    single(automatic_units(variation as nat)) as int,
                )
        };
    lemma_strip_width(rows, cols);
    assert(strip <= width);
    assert forall|x: int, y: int|
        #![trigger has_pixel(pixels, cols, x, y, bed)]
        0 <= x < cols && 0 <= y < rows && (x < strip || y < strip || cols - x <= strip || rows - y
            <= strip) implies has_pixel(pixels, cols, x, y, bed) by {}
    lemma_uniform_bed(pixels, rows, cols, strip, bed, colour, variation);
    assert(automatic_units(0) == 12 * 0x100_0000);
    lemma_twelve();
    lemma_far_pixels_are_marked(pixels[i], bed, 12);
}

proof fn lemma_twelve()
    ensures
        single(12 * 0x100_0000) == 12 * 0x100_0000,
        units_value(12 * 0x100_0000).bits == 0x4028_0000_0000_0000,
{
    let n = 12 * 0x100_0000nat;
    lemma2_to64();
    lemma2_to64_rest();
    lemma_bit_length_bound(n, 28);
    if bit_length(n) > 24 {
        let d = (bit_length(n) - 24) as nat;
        let step = pow2(d);
        lemma_pow2_pos(d);
        lemma_pow2_adds(d, (24 - d) as nat);
        let part = 12 * pow2((24 - d) as nat);
        assert(n == part * step) by (nonlinear_arith)
            requires
                n == 12 * 0x100_0000,
                step * pow2((24 - d) as nat) == 0x100_0000,
                part == 12 * pow2((24 - d) as nat),
        ;
        vstd::arithmetic::div_mod::lemma_div_multiples_vanish(part as int, step as int);
        vstd::arithmetic::div_mod::lemma_mod_multiples_basic(part as int, step as int);
        assert(step * part == part * step) by (nonlinear_arith);
    }
    let magnitude = 0x4028_0000_0000_0000nat;
    let exponent = magnitude / 0x10_0000_0000_0000;
    assert(exponent == 0x402);
    assert(magnitude % 0x10_0000_0000_0000 == 0x8_0000_0000_0000);
    lemma_pow2_adds(25, 1050);
    lemma_pow2_adds(49, 1025);
    lemma_pow2_adds(24, 1025);
    lemma_pow2_adds(24, 1050);
    lemma_pow2_adds(49, 1026);
    assert(crate::binary64::units(magnitude) == 0x18_0000_0000_0000 * pow2(1025));
    assert(0x18_0000_0000_0000 == 12 * pow2(49));
    lemma_pow2_adds(49, 1025);
    assert(pow2(1074) == pow2(24) * pow2(1050));
    assert(pow2(1074) == pow2(49) * pow2(1025));
    assert(n * pow2(1050) == 0x18_0000_0000_0000 * pow2(1025)) by (nonlinear_arith)
        requires
            n == 12 * pow2(24),
            0x18_0000_0000_0000 == 12 * pow2(49),
            pow2(24) * pow2(1050) == pow2(49) * pow2(1025),
    ;
    rounding::lemma_exact(magnitude, 1);
    assert(crate::binary64::units(magnitude) * 1 == crate::binary64::units(magnitude));
}

/// Photos stand out at a chosen threshold: where the margin of a scan has the
/// bed's colour throughout, exactly the pixels are marked that differ from it by
/// the threshold or more, and the threshold is reported as it was chosen.
pub proof fn lemma_photos_at_a_chosen_threshold(
    pixels: Seq<Pixel>,
    rows: int,
    cols: int,
    width: int,
    bed: Pixel,
    chosen: Binary64,
    n: nat,
    marked: Seq<u8>,
    value: Binary64,
    i: int,
)
    requires
        rows > 0,
        cols > 0,
        pixels.len() == rows * cols,
        width >= 2,
        2000 * width >= 30 * rows + 1000 || 2000 * width >= 30 * cols + 1000,
        forall|x: int, y: int|
            #![trigger has_pixel(pixels, cols, x, y, bed)]
            0 <= x < cols && 0 <= y < rows && (x < width || y < width || cols - x <= width || rows
                - y <= width) ==> has_pixel(pixels, cols, x, y, bed),
        can_be_chosen(chosen),
        chosen.value() == n * pow2(1074),
        is_foreground_mask(pixels, rows, cols, Some(chosen), marked, value),
        0 <= i < pixels.len(),
    ensures
        value == chosen,
        marked.len() == pixels.len(),
        marked[i] == if (pixels[i].l - bed.l) * (pixels[i].l - bed.l) + (pixels[i].a - bed.a) * (
        pixels[i].a - bed.a) + (pixels[i].b - bed.b) * (pixels[i].b - bed.b) >= n * n {
            255u8
        } else {
            0u8
        },
{
    let strip = strip_of(rows, cols);
    let samples = margin(pixels, rows, cols, strip, pixels.len());
    let (colour, variation) = choose|colour: Pixel, variation: int|
        #![trigger is_noise(samples, colour, variation)]
        {
            &&& is_background(samples, colour)
            &&& is_noise(samples, colour, variation)
            &&& value == chosen
            &&& marked.len() == pixels.len()
            &&& forall|i: int|
                0 <= i < pixels.len() ==> marked[i] == mask_value(
                    pixels[i],
                    colour,
                    chosen_units(chosen) as int,
                )
        };
    lemma_strip_width(rows, cols);
    assert(strip <= width);
    assert forall|x: int, y: int|
        #![trigger has_pixel(pixels, cols, x, y, bed)]
        0 <= x < cols && 0 <= y < rows && (x < strip || y < strip || cols - x <= strip || rows - y
            <= strip) implies has_pixel(pixels, cols, x, y, bed) by {}
    lemma_uniform_bed(pixels, rows, cols, strip, bed, colour, variation);
    lemma_whole_thresholds(chosen, n);
    lemma_far_pixels_are_marked(pixels[i], bed, n as int);
}

/// A share of a length is its nearest whole number: it is off by half a unit at
/// most.
pub proof fn lemma_share(length: int, ten_thousandths: int)
    ensures
        2 * (10000 * share(length, ten_thousandths) - length * ten_thousandths) <= 10000,
        2 * (length * ten_thousandths - 10000 * share(length, ten_thousandths)) < 10000,
{
    assert(2 * length * ten_thousandths == 2 * (length * ten_thousandths)) by (nonlinear_arith);
}

/// The margin that shows the bed is three two-hundredths of the shorter side
/// wide, to the nearest pixel, but never less than two pixels.
pub proof fn lemma_strip_width(rows: int, cols: int)
    requires
        rows > 0,
        cols > 0,
    ensures
        strip_of(rows, cols) >= 2,
        strip_of(rows, cols) > 2 ==> 200 * (2 * strip_of(rows, cols) - 1) <= 6 * rows && 200 * (2
            * strip_of(rows, cols) - 1) <= 6 * cols,
        6 * rows < 200 * (2 * strip_of(rows, cols) + 1) || 6 * cols < 200 * (2 * strip_of(rows, cols)
            + 1),
{
    lemma_share(rows, 150);
    lemma_share(cols, 150);
}

/// The margin in which nothing is taken for a photo is a hundredth of the shorter
/// side wide, to the nearest pixel, but never less than three pixels.
pub proof fn lemma_border_width(rows: int, cols: int)
    requires
        rows > 0,
        cols > 0,
    ensures
        border_of(rows, cols) >= 3,
        border_of(rows, cols) > 3 ==> 50 * (2 * border_of(rows, cols) - 1) <= rows && 50 * (2
            * border_of(rows, cols) - 1) <= cols,
        rows < 50 * (2 * border_of(rows, cols) + 1) || cols < 50 * (2 * border_of(rows, cols) + 1),
{
    lemma_share(rows, 100);
    lemma_share(cols, 100);
}

/// The brushes are odd and at least three pixels wide; beyond that, they are four
/// and two and a half thousandths of the shorter side wide, to a pixel and a
/// half.
pub proof fn lemma_brush_sizes(rows: int, cols: int)
    requires
        rows > 0,
        cols > 0,
    ensures
        close_size_of(rows, cols) % 2 == 1,
        close_size_of(rows, cols) >= 3,
        close_size_of(rows, cols) > 3 ==> 250 * (2 * close_size_of(rows, cols) - 3) <= 2 * rows && 250
            * (2 * close_size_of(rows, cols) - 3) <= 2 * cols,
        2 * rows < 250 * (2 * close_size_of(rows, cols) + 1) || 2 * cols < 250 * (2 * close_size_of(
            rows,
            cols,
        ) + 1),
        open_size_of(rows, cols) % 2 == 1,
        open_size_of(rows, cols) >= 3,
        open_size_of(rows, cols) > 3 ==> 200 * (2 * open_size_of(rows, cols) - 3) <= rows && 200 * (2
            * open_size_of(rows, cols) - 3) <= cols,
        rows < 200 * (2 * open_size_of(rows, cols) + 1) || cols < 200 * (2 * open_size_of(rows, cols)
            + 1),
{
    lemma_share(rows, 40);
    lemma_share(cols, 40);
    lemma_share(rows, 25);
    lemma_share(cols, 25);
}

/// A pixel is in the margin exactly if it lies less than the width of the margin
/// from one of the four edges.
pub proof fn lemma_margin_by_place(x: int, y: int, rows: int, cols: int, width: int)
    requires
        0 <= x < cols,
        0 <= y < rows,
    ensures
        index_in_margin(y * cols + x, rows, cols, width) <==> x < width || y < width || cols - x
            <= width || rows - y <= width,
{
    vstd::arithmetic::div_mod::lemma_fundamental_div_mod_converse(y * cols + x, cols, y, x);
}

/// The automatic threshold is two and a half times the variation of the bed,
/// but neither less than twelve nor more than forty-eight.
pub proof fn lemma_threshold_follows_variation(variation: nat)
    requires
        variation <= 255,
    ensures
        5 * variation <= 24 ==> automatic_units(variation * variation) == 12 * 0x100_0000,
        24 <= 5 * variation <= 96 ==> 2 * automatic_units(variation * variation) == 5 * variation
            * 0x100_0000,
        5 * variation >= 96 ==> automatic_units(variation * variation) == 48 * 0x100_0000,
{
    assert(variation * variation <= 255 * 255) by (nonlinear_arith)
        requires
            variation <= 255,
    ;
    lemma_root_against_whole(variation * variation, variation);
}

/// A noisier bed never lowers the automatic threshold.
pub proof fn lemma_threshold_grows_with_noise(less: nat, more: nat)
    requires
        less <= more <= MAX_DISTANCE,
    ensures
        automatic_units(less) <= automatic_units(more),
{
    lemma_root_monotone(less, more);
}

/// The variation of the bed is taken at nineteen twentieths of the samples: the
/// position is off by little more than one.
pub proof fn lemma_percentile_position(count: int)
    requires
        0 < count <= 0x100_0000,
    ensures
        0 <= percentile_rank(count, PERCENTILE_95 as int) < count,
        -24 <= 20 * percentile_rank(count, PERCENTILE_95 as int) - 19 * (count - 1) <= 24,
{
    let exact = ((count - 1) * PERCENTILE_95) as nat;
    lemma2_to64();
    lemma2_to64_rest();
    assert(exact < pow2(48)) by (nonlinear_arith)
        requires
            exact == (count - 1) * 15938355,
            count <= 0x100_0000,
            pow2(48) == 0x1_0000_0000_0000,
    ;
    lemma_single_error(exact, 48);
}

/// The shortest side of a photo is four hundredths of the shorter side of the
/// image, up to far less than a hundredth of a pixel, but never less than twelve
/// pixels; lengths are in units of the twenty-eighth binary place.
pub proof fn lemma_shortest_edge(rows: int, cols: int)
    requires
        0 < rows <= 40000,
        0 < cols <= 40000,
    ensures
        shortest_edge(rows, cols) >= 12 * 0x1000_0000,
        rows <= cols && rows <= 299 ==> shortest_edge(rows, cols) == 12 * 0x1000_0000,
        cols <= rows && cols <= 299 ==> shortest_edge(rows, cols) == 12 * 0x1000_0000,
        301 <= rows <= cols ==> -0x10_0000 <= 25 * shortest_edge(rows, cols) - rows * 0x1000_0000
            <= 0x10_0000,
        301 <= cols <= rows ==> -0x10_0000 <= 25 * shortest_edge(rows, cols) - cols * 0x1000_0000
            <= 0x10_0000,
{
    let side = shorter(rows, cols);
    let exact = (side * EDGE_SHARE) as nat;
    lemma2_to64();
    lemma2_to64_rest();
    assert(pow2(39) == 0x80_0000_0000);
    assert(pow2(15) == 0x8000);
    lemma_single_error(exact, 39);
}

proof fn lemma_scaled_length_is_near(edge: nat, largest: nat, maximum: nat)
    requires
        0 < maximum <= 4096,
        maximum < largest <= 30000,
        0 < edge <= largest,
    ensures
        ({
            let length = scaled_length(
                edge,
                scale_digits(maximum, largest),
                quotient_shift(maximum, largest),
            );
            -(largest as int) <= length * largest - edge * maximum <= largest
        }),
{
    let s = quotient_shift(maximum, largest);
    let digits = scale_digits(maximum, largest);
    let p = pow2(s);
    let exact = maximum * p;
    lemma_quotient_shift(maximum, largest);
    lemma_half_even(exact, largest);
    lemma2_to64();
    lemma2_to64_rest();
    assert(p > 0x80_0000) by (nonlinear_arith)
        requires
            largest * 0x80_0000 <= maximum * p,
            maximum < largest,
            largest > 0,
    ;
    if s < 24 {
        if s < 23 {
            lemma_pow2_strictly_increases(s, 23);
        }
    }
    let product = edge * digits;
    assert(product <= largest * digits) by (nonlinear_arith)
        requires
            product == edge * digits,
            edge <= largest,
    ;
    assert(digits * largest == largest * digits) by (nonlinear_arith);
    lemma_pow2_adds(13, s);
    assert(product < pow2(s + 13)) by (nonlinear_arith)
        requires
            2 * product <= 2 * exact + largest,
            exact == maximum * p,
            maximum <= 4096,
            largest <= 30000,
            p > 0x80_0000,
            pow2(s + 13) == 8192 * p,
    ;
    lemma_single_error(product, s + 13);
    let slack = pow2((s - 11) as nat);
    lemma_pow2_adds(11, (s - 11) as nat);
    let rounded = single(product);
    lemma_pow2_unfold(s + 1);
    let doubled = 2 * rounded + p;
    let length = doubled / (2 * p);
    vstd::arithmetic::div_mod::lemma_fundamental_div_mod(doubled as int, (2 * p) as int);
    let rest = doubled % (2 * p);
    let whole = 2 * (length * p);
    assert(doubled == whole + rest) by (nonlinear_arith)
        requires
            doubled == (2 * p) * length + rest,
            whole == 2 * (length * p),
    ;
    assert(-(p as int) - slack <= whole - 2 * product <= p + slack);
    let span = largest * product;
    let aim = edge * exact;
    assert(span == edge * (digits * largest)) by (nonlinear_arith)
        requires
            span == largest * product,
            product == edge * digits,
    ;
    let gap = digits * largest;
    assert(-(edge * largest) <= 2 * span - 2 * aim <= edge * largest) by (nonlinear_arith)
        requires
            span == edge * gap,
            aim == edge * exact,
            2 * gap <= 2 * exact + largest,
            2 * exact <= 2 * gap + largest,
            edge >= 0,
    ;
    let reach = largest * whole;
    assert(-(largest * (p + slack)) <= reach - 2 * span <= largest * (p + slack)) by (nonlinear_arith)
        requires
            reach == largest * whole,
            span == largest * product,
            -(p as int) - slack <= whole - 2 * product <= p + slack,
            largest > 0,
    ;
    let off = length * largest - edge * maximum;
    assert(reach - 2 * aim == 2 * (off * p)) by (nonlinear_arith)
        requires
            reach == largest * whole,
            whole == 2 * (length * p),
            aim == edge * exact,
            exact == maximum * p,
            off == length * largest - edge * maximum,
    ;
    assert(largest * (p + slack) + edge * largest < 2 * (largest * p)) by (nonlinear_arith)
        requires
            edge <= 30000,
            2048 * slack == p,
            p > 0x80_0000,
            largest > 0,
    ;
    assert(-(largest as int) < off < largest) by (nonlinear_arith)
        requires
            -(2 * (largest * p)) < 2 * (off * p) < 2 * (largest * p),
            p > 0,
    ;
    if length < 1 {
        assert(length * largest == 0) by (nonlinear_arith)
            requires
                length == 0,
        ;
        assert(edge * maximum >= 0) by (nonlinear_arith)
            requires
                edge >= 0,
                maximum >= 0,
        ;
    }
}

/// The image that photos are looked for in has the shape of the scan: both edges
/// are scaled alike, to within a pixel. An image that is small enough is taken
/// as it is.
pub proof fn lemma_detection_image_keeps_its_shape(width: nat, height: nat, maximum: nat)
    requires
        0 < width <= 30000,
        0 < height <= 30000,
        0 < maximum <= 4096,
    ensures
        detection_size_of(width, height, maximum) is None <==> width <= maximum && height
            <= maximum,
        detection_size_of(width, height, maximum) matches Some((w, h)) ==> {
            &&& width >= height ==> -(width as int) <= h * width - height * maximum <= width
            &&& height >= width ==> -(height as int) <= w * height - width * maximum <= height
        },
{
    let largest = if width < height {
        height
    } else {
        width
    };
    if largest > maximum {
        lemma_scaled_length_is_near(width, largest, maximum);
        lemma_scaled_length_is_near(height, largest, maximum);
    }
}

proof fn lemma_channel_counts(samples: Seq<Pixel>, colour: Pixel, limit: int)
    ensures
        count_at_most(channel_l(samples), limit) == samples.filter(
            |p: Pixel| p.l <= limit,
        ).len(),
        count_at_most(channel_a(samples), limit) == samples.filter(
            |p: Pixel| p.a <= limit,
        ).len(),
        count_at_most(channel_b(samples), limit) == samples.filter(
            |p: Pixel| p.b <= limit,
        ).len(),
        count_at_most(distances(samples, colour), limit) == samples.filter(
            |p: Pixel| distance(p, colour) <= limit,
        ).len(),
    decreases samples.len(),
{
    reveal(Seq::filter);
    if samples.len() > 0 {
        let before = samples.drop_last();
        lemma_channel_counts(before, colour, limit);
        lemma_distance_is_euclidean(samples.last(), colour);
        assert(channel_l(samples).drop_last() =~= channel_l(before));
        assert(channel_a(samples).drop_last() =~= channel_a(before));
        assert(channel_b(samples).drop_last() =~= channel_b(before));
        assert(distances(samples, colour).drop_last() =~= distances(before, colour));
    }
}

/// The colour of the bed is in the middle of the samples in each of its three
/// parts: no more than half of them have less of it, and more than half have no
/// more.
pub proof fn lemma_bed_colour_is_in_the_middle(samples: Seq<Pixel>, bed: Pixel)
    requires
        is_background(samples, bed),
    ensures
        2 * samples.filter(|p: Pixel| p.l <= bed.l - 1).len() <= samples.len(),
        2 * samples.filter(|p: Pixel| p.l <= bed.l as int).len() > samples.len() - 1,
        2 * samples.filter(|p: Pixel| p.a <= bed.a - 1).len() <= samples.len(),
        2 * samples.filter(|p: Pixel| p.a <= bed.a as int).len() > samples.len() - 1,
        2 * samples.filter(|p: Pixel| p.b <= bed.b - 1).len() <= samples.len(),
        2 * samples.filter(|p: Pixel| p.b <= bed.b as int).len() > samples.len() - 1,
{
    lemma_channel_counts(samples, bed, bed.l as int);
    lemma_channel_counts(samples, bed, bed.l - 1);
    lemma_channel_counts(samples, bed, bed.a as int);
    lemma_channel_counts(samples, bed, bed.a - 1);
    lemma_channel_counts(samples, bed, bed.b as int);
    lemma_channel_counts(samples, bed, bed.b - 1);
}

/// The variation of the bed is what 95 of 100 samples stay within, give or take
/// a few samples: about as many are nearer to its colour, and no fewer stay within
/// it.
pub proof fn lemma_variation_of_most_samples(samples: Seq<Pixel>, bed: Pixel, variation: int)
    requires
        0 < samples.len() <= 0x100_0000,
        is_noise(samples, bed, variation),
    ensures
        20 * samples.filter(|p: Pixel| distance(p, bed) <= variation - 1).len() <= 19 * (
        samples.len() - 1) + 24,
        20 * samples.filter(|p: Pixel| distance(p, bed) <= variation).len() > 19 * (samples.len()
            - 1) - 24,
{
    lemma_channel_counts(samples, bed, variation);
    lemma_channel_counts(samples, bed, variation - 1);
    lemma_percentile_position(samples.len() as int);
}

/// A chosen threshold is used as the nearest number of 24 binary digits.
pub proof fn lemma_chosen_threshold_is_near(threshold: Binary64)
    requires
        can_be_chosen(threshold),
    ensures
        0x100_0000 * (chosen_units(threshold) * pow2(1050) - threshold.value())
            <= threshold.value(),
        0x100_0000 * (threshold.value() - chosen_units(threshold) * pow2(1050))
            <= threshold.value(),
{
    let magnitude = threshold.magnitude();
    let exponent = magnitude / 0x10_0000_0000_0000;
    let digits = 0x10_0000_0000_0000 + magnitude % 0x10_0000_0000_0000;
    let whole = half_even(digits, 0x2000_0000);
    assert(magnitude == threshold.bits);
    assert(1023 <= exponent <= 1030);
    let unit = pow2((exponent - 1) as nat);
    lemma2_to64();
    lemma_pow2_pos((exponent - 1) as nat);
    lemma_pow2_adds((exponent - 1022) as nat, 1050);
    lemma_pow2_adds(29, (exponent - 1) as nat);
    assert(threshold.value() == digits * unit);
    let near = 0x2000_0000 * whole;
    assert(chosen_units(threshold) * pow2(1050) == near * unit) by (nonlinear_arith)
        requires
            chosen_units(threshold) == whole * pow2((exponent - 1022) as nat),
            pow2((exponent - 1022) as nat) * pow2(1050) == pow2((exponent + 28) as nat),
            pow2((exponent + 28) as nat) == 0x2000_0000 * unit,
            near == 0x2000_0000 * whole,
    ;
    assert(-0x1000_0000 <= near - digits <= 0x1000_0000);
    assert(0x100_0000 * (near * unit - digits * unit) <= digits * unit) by (nonlinear_arith)
        requires
            near - digits <= 0x1000_0000,
            digits >= 0x10_0000_0000_0000,
            unit > 0,
    ;
    assert(0x100_0000 * (digits * unit - near * unit) <= digits * unit) by (nonlinear_arith)
        requires
            digits - near <= 0x1000_0000,
            digits >= 0x10_0000_0000_0000,
            unit > 0,
    ;
}

/// The threshold that is told is the automatic one, to the nearest of the numbers
/// of 53 binary digits.
pub proof fn lemma_told_threshold(noise: nat)
    ensures
        0x20_0000_0000_0000 * (automatic_units(noise) * pow2(1050) - units_value(
            automatic_units(noise),
        ).value()) <= units_value(automatic_units(noise)).value(),
        0x20_0000_0000_0000 * (units_value(automatic_units(noise)).value() - automatic_units(noise)
            * pow2(1050)) <= units_value(automatic_units(noise)).value(),
        !units_value(automatic_units(noise)).is_nan(),
{
    let units = automatic_units(noise);
    let num = units * pow2(1050);
    lemma2_to64();
    lemma2_to64_rest();
    lemma_pow2_pos(997);
    lemma_pow2_adds(53, 997);
    lemma_pow2_pos(1000);
    lemma_pow2_adds(1050, 47);
    lemma_pow2_adds(1097, 1000);
    lemma_pow2_pos(1050);
    let big = pow2(1050);
    let small = pow2(997);
    let large = pow2(1000);
    assert(num >= 0x20_0000_0000_0000) by (nonlinear_arith)
        requires
            num == units * big,
            units >= 1,
            big == 0x20_0000_0000_0000 * small,
            small >= 1,
    ;
    assert(num < pow2(2097)) by (nonlinear_arith)
        requires
            num == units * big,
            units < 0x8000_0000_0000,
            pow2(1097) == big * 0x8000_0000_0000,
            pow2(2097) == pow2(1097) * large,
            large >= 1,
            big > 0,
    ;
    rounding::lemma_rounding_exists(num, 1);
    let magnitude = rounding::rounded(num, 1);
    rounding::lemma_rounding_error(num, 1, magnitude);
    assert(units_value(units).magnitude() == magnitude);
}

/// An edge is accepted from the shortest accepted length on.
pub proof fn lemma_accepted_edges(length: u64, rows: u32, cols: u32, accepted: bool)
    requires
        rows <= 40000,
        cols <= 40000,
        call_ensures(accepts_edge, (length, rows, cols), accepted),
    ensures
        accepted <==> !(length < shortest_edge(rows as int, cols as int)),
{
}

/// Marks along the edges of the image are cleared, and no others.
pub proof fn lemma_cleared_marks(
    marked: &Vec<u8>,
    rows: u32,
    cols: u32,
    width: u32,
    cleared: Vec<u8>,
    x: int,
    y: int,
)
    requires
        cols > 0,
        marked.len() == rows * cols,
        call_ensures(clear_border, (marked, rows, cols, width), cleared),
        0 <= x < cols,
        0 <= y < rows,
    ensures
        cleared@.len() == marked@.len(),
        x < width || y < width || cols - x <= width || rows - y <= width ==> cleared@[y * cols + x]
            == 0,
        !(x < width || y < width || cols - x <= width || rows - y <= width) ==> cleared@[y * cols
            + x] == marked@[y * cols + x],
{
    lemma_margin_by_place(x, y, rows as int, cols as int, width as int);
    assert(0 <= y * cols + x < rows * cols) by (nonlinear_arith)
        requires
            0 <= x < cols,
            0 <= y < rows,
    ;
}

} // verus!
