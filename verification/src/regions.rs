//! The photos found on a scan: which outlines count, how corners and photos are
//! ordered, and which cut-outs are kept.

use crate::arithmetic;
use crate::binary64;
use crate::binary64::Binary64;
use crate::rounding;
use crate::splitter;
use crate::splitter::SplitError;
use vstd::arithmetic::power2::{lemma2_to64_rest, lemma_pow2_adds, lemma_pow2_pos, pow2};
use vstd::prelude::*;

verus! {

/// The encoding of the number nearest to 0.97: the share of a scan beyond which
/// an outline is the scan itself.
pub const LARGEST_SHARE: u64 = 0x3fef_0a3d_70a3_d70a;

/// The smallest area that counts as a photo: a percentage of the scan.
pub open spec fn minimum_area(pixels: nat, percent: Binary64) -> nat {
    let share = arithmetic::multiple(percent.magnitude(), pixels);
    if share < rounding::INFINITE {
        arithmetic::quotient(share, arithmetic::whole(100))
    } else {
        rounding::INFINITE as nat
    }
}

/// The largest area that counts as a photo.
pub open spec fn maximum_area(pixels: nat) -> nat {
    arithmetic::multiple(LARGEST_SHARE as nat, pixels)
}

/// Whether an outline of this area counts as a photo on a scan of so many
/// pixels.
pub open spec fn is_photo_area(area: Binary64, pixels: nat, percent: Binary64) -> bool {
    minimum_area(pixels, percent) <= area.magnitude() <= maximum_area(pixels)
}

/// Whether an outline of this area counts as a photo on a scan of so many
/// pixels, where photos take at least the given percentage of the scan.
pub fn accepts_area(area: Binary64, pixels: u32, percent: Binary64) -> (r: bool)
    requires
        area.is_amount(),
        percent.is_amount(),
    ensures
        r == is_photo_area(area, pixels as nat, percent),
{
    assert(percent.magnitude() == percent.bits && area.magnitude() == area.bits);
    let share: u64 = arithmetic::multiply_whole(percent.bits, pixels);
    proof {
        arithmetic::lemma_whole_positive(100);
    }
    if share == rounding::INFINITE {
        return false;
    }
    let hundred: u64 = arithmetic::of_whole(100);
    let low: u64 = arithmetic::divide(share, hundred);
    let high: u64 = arithmetic::multiply_whole(LARGEST_SHARE, pixels);
    low <= area.bits && area.bits <= high
}

/// What an area is of a scan of so many pixels, in percent.
pub fn area_percent(area: Binary64, pixels: u32) -> (r: Binary64)
    requires
        area.is_amount(),
        pixels > 0,
    ensures
        r.bits == arithmetic::multiple(
            arithmetic::quotient(area.magnitude(), arithmetic::whole(pixels as nat)),
            100,
        ),
{
    assert(area.magnitude() == area.bits);
    proof {
        arithmetic::lemma_whole_positive(pixels as nat);
        arithmetic::lemma_quotient_not_more(area.magnitude(), pixels as nat);
    }
    let all: u64 = arithmetic::of_whole(pixels);
    let share: u64 = arithmetic::divide(area.bits, all);
    Binary64 { bits: arithmetic::multiply_whole(share, 100) }
}

/// Whether a position holds the first of the smallest keys.
pub open spec fn is_first_smallest(keys: Seq<i64>, at: int) -> bool {
    &&& 0 <= at < keys.len()
    &&& forall|i: int| 0 <= i < keys.len() ==> keys[at] <= keys[i]
    &&& forall|i: int| 0 <= i < at ==> keys[at] < keys[i]
}

/// Whether a position holds the last of the largest keys.
pub open spec fn is_last_largest(keys: Seq<i64>, at: int) -> bool {
    &&& 0 <= at < keys.len()
    &&& forall|i: int| 0 <= i < keys.len() ==> keys[i] <= keys[at]
    &&& forall|i: int| at < i < keys.len() ==> keys[i] < keys[at]
}

/// The position of the first of the smallest keys.
fn first_smallest(keys: &[i64; 4]) -> (r: usize)
    ensures
        is_first_smallest(keys@, r as int),
{
    let mut best: usize = 0;
    let mut i: usize = 1;
    while i < 4
        invariant
            best < i <= 4,
            forall|j: int| 0 <= j < i ==> keys@[best as int] <= keys@[j],
            forall|j: int| 0 <= j < best ==> keys@[best as int] < keys@[j],
        decreases 4 - i,
    {
        if keys[i] < keys[best] {
            best = i;
        }
        i += 1;
    }
    best
}

/// The position of the last of the largest keys.
fn last_largest(keys: &[i64; 4]) -> (r: usize)
    ensures
        is_last_largest(keys@, r as int),
{
    let mut best: usize = 0;
    let mut i: usize = 1;
    while i < 4
        invariant
            best < i <= 4,
            forall|j: int| 0 <= j < i ==> keys@[j] <= keys@[best as int],
            forall|j: int| best < j < i ==> keys@[j] < keys@[best as int],
        decreases 4 - i,
    {
        if keys[i] >= keys[best] {
            best = i;
        }
        i += 1;
    }
    best
}

/// The order of four corners, from the upper left clockwise, as their positions:
/// the corner with the smallest sum of its coordinates, the one with the
/// smallest difference, the one with the largest sum, the one with the largest
/// difference. The keys are ordered as the sums and the differences (downwards
/// less across) are.
pub fn order_box(sums: &[i64; 4], differences: &[i64; 4]) -> (r: [usize; 4])
    ensures
        is_first_smallest(sums@, r@[0] as int),
        is_first_smallest(differences@, r@[1] as int),
        is_last_largest(sums@, r@[2] as int),
        is_last_largest(differences@, r@[3] as int),
{
    [
        first_smallest(sums),
        first_smallest(differences),
        last_largest(sums),
        last_largest(differences),
    ]
}

/// Corners that are in order stay in order, unless two of them tie.
pub proof fn lemma_order_is_stable(
    sums: Seq<i64>,
    differences: Seq<i64>,
    order: Seq<usize>,
    again: Seq<usize>,
)
    requires
        sums.len() == 4,
        differences.len() == 4,
        order.len() == 4,
        again.len() == 4,
        is_first_smallest(sums, order[0] as int),
        is_first_smallest(differences, order[1] as int),
        is_last_largest(sums, order[2] as int),
        is_last_largest(differences, order[3] as int),
        forall|i: int, j: int|
            0 <= i < j < 4 ==> sums[order[i] as int] != sums[order[j] as int]
                && differences[order[i] as int] != differences[order[j] as int],
        is_first_smallest(Seq::new(4, |i: int| sums[order[i] as int]), again[0] as int),
        is_first_smallest(Seq::new(4, |i: int| differences[order[i] as int]), again[1] as int),
        is_last_largest(Seq::new(4, |i: int| sums[order[i] as int]), again[2] as int),
        is_last_largest(Seq::new(4, |i: int| differences[order[i] as int]), again[3] as int),
    ensures
        again[0] == 0,
        again[1] == 1,
        again[2] == 2,
        again[3] == 3,
{
    let s = Seq::new(4, |i: int| sums[order[i] as int]);
    let d = Seq::new(4, |i: int| differences[order[i] as int]);
    assert(s[again[0] as int] <= s[0]);
    assert(s[again[2] as int] >= s[2]);
    assert(d[again[1] as int] <= d[1]);
    assert(d[again[3] as int] >= d[3]);
    assert(sums[order[0] as int] <= sums[order[again[0] as int] as int]);
    assert(sums[order[2] as int] >= sums[order[again[2] as int] as int]);
    assert(differences[order[1] as int] <= differences[order[again[1] as int] as int]);
    assert(differences[order[3] as int] >= differences[order[again[3] as int] as int]);
}

/// Whether one photo is read before another: it is in an earlier row, or further
/// left in the same row, or was found earlier at the same place.
pub open spec fn is_before(keys: Seq<(i32, i64)>, a: int, b: int) -> bool {
    ||| keys[a].0 < keys[b].0
    ||| keys[a].0 == keys[b].0 && keys[a].1 < keys[b].1
    ||| keys[a] == keys[b] && a < b
}

/// Whether `order` lists the first `count` photos in reading order.
pub open spec fn is_reading_order(keys: Seq<(i32, i64)>, order: Seq<usize>, count: int) -> bool {
    &&& order.len() == count
    &&& forall|i: int| 0 <= i < count ==> #[trigger] order[i] < count
    &&& forall|i: int, j: int|
        0 <= i < j < count ==> is_before(
            keys,
            #[trigger] order[i] as int,
            #[trigger] order[j] as int,
        )
}

/// The photos in reading order: row by row, from left to right. The keys are the
/// row of each photo and a number that is ordered as its place across.
pub fn reading_order(keys: &Vec<(i32, i64)>) -> (r: Vec<usize>)
    ensures
        is_reading_order(keys@, r@, keys@.len() as int),
{
    let mut order: Vec<usize> = Vec::new();
    let mut i: usize = 0;
    while i < keys.len()
        invariant
            i <= keys.len(),
            is_reading_order(keys@, order@, i as int),
        decreases keys.len() - i,
    {
        let row: i32 = keys[i].0;
        let place: i64 = keys[i].1;
        let mut at: usize = order.len();
        let ghost before = order@;
        while at > 0 && (keys[order[at - 1]].0 > row || (keys[order[at - 1]].0 == row
            && keys[order[at - 1]].1 > place))
            invariant
                i < keys.len(),
                at <= order.len(),
                order@ == before,
                is_reading_order(keys@, before, i as int),
                row == keys@[i as int].0,
                place == keys@[i as int].1,
                forall|j: int|
                    at <= j < before.len() ==> is_before(
                        keys@,
                        i as int,
                        #[trigger] before[j] as int,
                    ),
            decreases at,
        {
            at -= 1;
        }
        proof {
            if at > 0 {
                assert(is_before(keys@, before[at - 1] as int, i as int)) by {
                    assert(before[at - 1] < i);
                }
            }
        }
        order.insert(at, i);
        proof {
            let after = order@;
            assert forall|j: int| 0 <= j < i + 1 implies #[trigger] after[j] < i + 1 by {
                if j < at {
                    assert(after[j] == before[j]);
                } else if j > at {
                    assert(after[j] == before[j - 1]);
                }
            }
            assert forall|j: int, k: int| 0 <= j < k < i + 1 implies is_before(
                keys@,
                #[trigger] after[j] as int,
                #[trigger] after[k] as int,
            ) by {
                if k < at {
                    assert(after[j] == before[j] && after[k] == before[k]);
                } else if k == at {
                    assert(after[j] == before[j]);
                    if j < at - 1 {
                        assert(is_before(keys@, before[j] as int, before[at - 1] as int));
                        assert(before[j] < i && before[at - 1] < i);
                    }
                } else {
                    assert(after[k] == before[k - 1]);
                    if j < at {
                        assert(after[j] == before[j]);
                    } else if j == at {
                        assert(is_before(keys@, i as int, before[k - 1] as int));
                    } else {
                        assert(after[j] == before[j - 1]);
                    }
                }
            }
        }
        i += 1;
    }
    order
}

/// Reading order leaves out no photo and names none twice.
pub proof fn lemma_reading_order_is_complete(
    keys: Seq<(i32, i64)>,
    order: Seq<usize>,
    photo: int,
)
    requires
        is_reading_order(keys, order, keys.len() as int),
        0 <= photo < keys.len(),
    ensures
        exists|i: int| 0 <= i < order.len() && order[i] == photo,
        forall|i: int, j: int| 0 <= i < j < order.len() ==> order[i] != order[j],
{
    let n = keys.len() as int;
    assert forall|i: int, j: int| 0 <= i < j < order.len() implies order[i] != order[j] by {
        assert(is_before(keys, order[i] as int, order[j] as int));
    }
    assert(order.no_duplicates());
    if forall|i: int| 0 <= i < order.len() ==> order[i] != photo {
        // All photos but one would fill every place.
        let named = order.to_set();
        order.unique_seq_to_set();
        let others = vstd::set_lib::set_int_range(0, n).remove(photo);
        vstd::set_lib::lemma_int_range(0, n);
        let mapped = named.map(|i: usize| i as int);
        vstd::set_lib::lemma_map_size(named, mapped, |i: usize| i as int);
        assert(mapped.subset_of(others)) by {
            assert forall|x: int| mapped.contains(x) implies others.contains(x) by {
                let i = choose|i: usize| named.contains(i) && i as int == x;
                assert(order.contains(i));
                let k = choose|k: int| 0 <= k < order.len() && order[k] == i;
                assert(order[k] < n);
            }
        }
        vstd::set_lib::lemma_len_subset(mapped, others);
    }
}

/// A place on a scan, in single-precision coordinates, as their bits.
#[derive(Clone, Copy, Debug, PartialEq, Eq, Structural)]
pub struct Place {
    /// The distance from the left edge.
    pub x: u32,
    /// The distance from the upper edge.
    pub y: u32,
}

/// A photo found on a scan.
#[derive(Clone, Copy, Debug, PartialEq, Eq)]
pub struct DetectedRegion {
    /// Its centre.
    pub center: Place,
    /// Its corners, in order.
    pub source_box: [Place; 4],
    /// What it takes of the scan, in percent.
    pub area_percent: Binary64,
}

/// A photo found on a scan and cut out of it.
#[derive(Clone, Copy, Debug, PartialEq, Eq)]
pub struct DetectedPhoto {
    /// Where it was found.
    pub region: DetectedRegion,
    /// The height of the cut-out.
    pub rows: i32,
    /// The width of the cut-out.
    pub cols: i32,
}

/// A scan that photos have been found on.
#[derive(Debug)]
pub struct AnalyzedScan {
    /// The photos, in reading order.
    pub regions: Vec<DetectedRegion>,
    /// The threshold that was used.
    pub threshold: Binary64,
    /// The resolution that the scan came with.
    pub embedded_dpi: Option<u32>,
}

/// A scan with the photos that were found on it, of which there must be one.
pub fn analyze_scan(
    regions: Vec<DetectedRegion>,
    threshold: Binary64,
    embedded_dpi: Option<u32>,
) -> (r: Result<AnalyzedScan, SplitError>)
    ensures
        match r {
            Ok(scan) => regions@.len() > 0 && scan == (AnalyzedScan {
                regions,
                threshold,
                embedded_dpi,
            }),
            Err(error) => regions@.len() == 0 && error is NothingDetected,
        },
{
    if regions.len() == 0 {
        return Err(SplitError::NothingDetected);
    }
    Ok(AnalyzedScan { regions, threshold, embedded_dpi })
}

/// The cut-outs that are large enough, in order.
pub fn detect_photos(photos: &Vec<DetectedPhoto>) -> (r: Vec<DetectedPhoto>)
    ensures
        r@ == photos@.filter(
            |photo: DetectedPhoto| splitter::is_large_enough(photo.rows, photo.cols),
        ),
{
    let ghost large = |photo: DetectedPhoto| splitter::is_large_enough(photo.rows, photo.cols);
    let mut out: Vec<DetectedPhoto> = Vec::new();
    let mut i: usize = 0;
    proof {
        reveal(Seq::filter);
        assert(photos@.take(0) =~= Seq::<DetectedPhoto>::empty());
    }
    while i < photos.len()
        invariant
            i <= photos.len(),
            large == |photo: DetectedPhoto| splitter::is_large_enough(photo.rows, photo.cols),
            out@ == photos@.take(i as int).filter(large),
        decreases photos.len() - i,
    {
        proof {
            reveal(Seq::filter);
            assert(photos@.take(i + 1).drop_last() =~= photos@.take(i as int));
        }
        if splitter::keeps_photo(photos[i].rows, photos[i].cols) {
            out.push(photos[i]);
        }
        i += 1;
    }
    assert(photos@.take(photos@.len() as int) =~= photos@);
    out
}

/// Which cut-outs of a scan are exported, and whether a preview shows them.
#[derive(Debug)]
pub struct SplitPlan {
    /// The exported photos, in order.
    pub photos: Vec<DetectedPhoto>,
    /// How many regions the preview shows, if there is one.
    pub preview_regions: Option<usize>,
}

/// What to export of a scan: the cut-outs that are large enough, and, if it is
/// wanted, a preview that shows just these.
pub fn split_scan(photos: &Vec<DetectedPhoto>, create_preview: bool) -> (r: SplitPlan)
    ensures
        r.photos@ == photos@.filter(
            |photo: DetectedPhoto| splitter::is_large_enough(photo.rows, photo.cols),
        ),
        r.preview_regions == if create_preview {
            Some(r.photos.len())
        } else {
            None
        },
{
    let photos = detect_photos(photos);
    let preview_regions = if create_preview {
        Some(photos.len())
    } else {
        None
    };
    SplitPlan { photos, preview_regions }
}

/// An outline is taken for a photo from its smallest share of the image up to
/// ninety-seven hundredths of it: on an image of so many hundred pixels and at a
/// whole percentage, an area of whole pixels is accepted exactly if it is not
/// less than that percentage, and not more than that share, to a pixel.
pub proof fn lemma_accepted_areas(k: nat, percent: nat, area: nat)
    requires
        0 < k <= 10_000_000,
        0 < percent <= 50,
        area <= u32::MAX,
        k * 100 * percent <= u32::MAX,
    ensures
        area < percent * k ==> !is_photo_area(
            (Binary64 { bits: arithmetic::whole(area) as u64 }),
            100 * k,
            (Binary64 { bits: arithmetic::whole(percent) as u64 }),
        ),
        percent * k <= area && area + 1 <= 97 * k ==> is_photo_area(
            (Binary64 { bits: arithmetic::whole(area) as u64 }),
            100 * k,
            (Binary64 { bits: arithmetic::whole(percent) as u64 }),
        ),
        area > 97 * k ==> !is_photo_area(
            (Binary64 { bits: arithmetic::whole(area) as u64 }),
            100 * k,
            (Binary64 { bits: arithmetic::whole(percent) as u64 }),
        ),
{
    let pixels = 100 * k;
    let unit = pow2(1074);
    lemma_pow2_pos(1074);
    assert(percent * pixels == k * 100 * percent) by (nonlinear_arith)
        requires
            pixels == 100 * k,
    ;
    assert((percent * k) * 100 == percent * pixels) by (nonlinear_arith)
        requires
            pixels == 100 * k,
    ;
    arithmetic::lemma_whole_results(percent, pixels);
    arithmetic::lemma_whole_results(percent * k, 100);
    arithmetic::lemma_whole_results(area, 1);
    let a = arithmetic::whole(area);
    let p = arithmetic::whole(percent);
    let least = arithmetic::whole(percent * k);
    crate::decimals::lemma_whole_numbers_are_exact(area);
    crate::decimals::lemma_whole_numbers_are_exact(percent);
    crate::decimals::lemma_whole_numbers_are_exact(percent * k);
    crate::decimals::lemma_whole_numbers_are_exact(percent * pixels);
    let x = Binary64 { bits: a as u64 };
    let y = Binary64 { bits: p as u64 };
    assert(x.magnitude() == a && y.magnitude() == p);
    assert(minimum_area(pixels, y) == least);
    if area < percent * k {
        lemma_ordered_wholes(area, percent * k);
    }
    if percent * k < area {
        lemma_ordered_wholes(percent * k, area);
    }
    lemma_largest_share(k, area);
}

proof fn lemma_ordered_wholes(m: nat, n: nat)
    requires
        m < n <= u32::MAX,
    ensures
        arithmetic::whole(m) < arithmetic::whole(n),
{
    crate::decimals::lemma_whole_numbers_are_exact(m);
    crate::decimals::lemma_whole_numbers_are_exact(n);
    lemma_pow2_pos(1074);
    let unit = pow2(1074);
    assert(m * unit < n * unit) by (nonlinear_arith)
        requires
            m < n,
            unit > 0,
    ;
    if arithmetic::whole(m) >= arithmetic::whole(n) {
        binary64::lemma_units_increase(arithmetic::whole(n), arithmetic::whole(m));
    }
}

proof fn lemma_largest_share(k: nat, area: nat)
    requires
        0 < k <= 10_000_000,
        area <= u32::MAX,
    ensures
        area + 1 <= 97 * k ==> arithmetic::whole(area) <= maximum_area(100 * k),
        area > 97 * k ==> arithmetic::whole(area) > maximum_area(100 * k),
{
    let magnitude = LARGEST_SHARE as nat;
    let digits = 0x1f_0a3d_70a3_d70anat;
    let half = pow2(1021);
    lemma2_to64_rest();
    lemma_pow2_adds(53, 1021);
    assert(magnitude / 0x10_0000_0000_0000 == 1022);
    assert(magnitude % 0x10_0000_0000_0000 == 0xf_0a3d_70a3_d70a);
    assert(binary64::units(magnitude) == digits * half);
    assert(pow2(1074) == 0x20_0000_0000_0000 * half);
    let num = binary64::units(magnitude) * (100 * k);
    let top = maximum_area(100 * k);
    crate::decimals::lemma_whole_numbers_are_exact(area);
    let w = arithmetic::whole(area);
    rounding::lemma_rounding_exists(num, 1);
    rounding::lemma_exact(w, 1);
    let mine = binary64::units(w) * 1;
    rounding::lemma_rounding_exists(mine, 1);
    assert(mine == (area * 0x20_0000_0000_0000) * half) by (nonlinear_arith)
        requires
            mine == area * (0x20_0000_0000_0000 * half) * 1,
    ;
    assert(num == (digits * 100 * k) * half) by (nonlinear_arith)
        requires
            num == digits * half * (100 * k),
    ;
    if area + 1 <= 97 * k {
        assert(area * 0x20_0000_0000_0000 <= digits * 100 * k) by (nonlinear_arith)
            requires
                digits * 100 == 97 * 0x20_0000_0000_0000 - 24,
                area + 1 <= 97 * k,
                k <= 10_000_000,
        ;
        assert(mine <= num) by (nonlinear_arith)
            requires
                mine == (area * 0x20_0000_0000_0000) * half,
                num == (digits * 100 * k) * half,
                area * 0x20_0000_0000_0000 <= digits * 100 * k,
        ;
        rounding::lemma_rounding_monotone(mine, num, 1, w, top);
    }
    if area > 97 * k {
        lemma_share_below(k, area, num, half, digits);
    }
}

proof fn lemma_share_below(k: nat, area: nat, num: nat, half: nat, digits: nat)
    requires
        0 < k <= 10_000_000,
        97 * k < area <= u32::MAX,
        half == pow2(1021),
        digits == 0x1f_0a3d_70a3_d70a,
        num == (digits * 100 * k) * half,
        pow2(1074) == 0x20_0000_0000_0000 * half,
    ensures
        rounding::rounded(num, 1) < arithmetic::whole(area),
{
    let w = arithmetic::whole(area);
    let top = rounding::rounded(num, 1);
    crate::decimals::lemma_whole_numbers_are_exact(area);
    rounding::lemma_rounding_exists(num, 1);
    lemma_pow2_pos(1021);
    if top >= w {
        // The middle below the area is above the share.
        let below = binary64::units((top - 1) as nat);
        let here = binary64::units(top);
        assert(w > 0) by {
            lemma_ordered_wholes(0, area);
        }
        binary64::lemma_units_increase(w, top);
        assert(here >= area * pow2(1074));
        crate::decimals::lemma_whole_numbers_are_exact((area - 1) as nat);
        lemma_ordered_wholes((area - 1) as nat, area);
        binary64::lemma_units_increase(arithmetic::whole((area - 1) as nat), (top - 1) as nat);
        assert(below >= (area - 1) * pow2(1074));
        assert(2 * (digits * 100 * k) < (2 * area - 1) * 0x20_0000_0000_0000) by (nonlinear_arith)
            requires
                digits * 100 == 97 * 0x20_0000_0000_0000 - 24,
                area >= 97 * k + 1,
                k > 0,
        ;
        assert((below + here) * 1 > 2 * num) by (nonlinear_arith)
            requires
                here >= area * (0x20_0000_0000_0000 * half),
                below >= (area - 1) * (0x20_0000_0000_0000 * half),
                num == (digits * 100 * k) * half,
                2 * (digits * 100 * k) < (2 * area - 1) * 0x20_0000_0000_0000,
                half > 0,
        ;
    }
}

/// Photos are put in the order of reading: by rows, within a row by columns, and
/// those at the same place stay in their order.
pub proof fn lemma_rows_before_columns(
    keys: Seq<(i32, i64)>,
    order: Seq<usize>,
    i: int,
    j: int,
)
    requires
        is_reading_order(keys, order, keys.len() as int),
        0 <= i < j < order.len(),
    ensures
        keys[order[i] as int].0 <= keys[order[j] as int].0,
        keys[order[i] as int].0 == keys[order[j] as int].0 ==> keys[order[i] as int].1
            <= keys[order[j] as int].1,
        keys[order[i] as int] == keys[order[j] as int] ==> order[i] < order[j],
{
    assert(is_before(keys, order[i] as int, order[j] as int));
}

/// The corners of a photo are ordered from the upper left clockwise: for a
/// rectangle of any width and height, whichever corner comes first, the result is
/// the upper left, upper right, lower right and lower left one. The sums are of
/// both coordinates, the differences of the vertical one less the horizontal.
pub proof fn lemma_corners_of_a_rectangle(
    left: i64,
    top: i64,
    width: i64,
    height: i64,
    place: Seq<int>,
    sums: &[i64; 4],
    differences: &[i64; 4],
    order: [usize; 4],
)
    requires
        0 < width,
        0 < height,
        call_ensures(order_box, (sums, differences), order),
        place.len() == 4,
        forall|i: int| 0 <= i < 4 ==> 0 <= #[trigger] place[i] < 4,
        forall|i: int, j: int|
            0 <= i < j < 4 ==> #[trigger] place[i] != #[trigger] place[j],
        sums@[place[0]] == left + top && differences@[place[0]] == top - left,
        sums@[place[1]] == left + width + top && differences@[place[1]] == top - left - width,
        sums@[place[2]] == left + width + top + height && differences@[place[2]] == top + height - left
            - width,
        sums@[place[3]] == left + top + height && differences@[place[3]] == top + height - left,
    ensures
        order@[0] == place[0],
        order@[1] == place[1],
        order@[2] == place[2],
        order@[3] == place[3],
{
    assert forall|k: int|
        #![trigger sums@[k]]
        0 <= k < 4 implies k == place[0] || k == place[1] || k == place[2] || k
        == place[3] by {
        assert(place[0] != place[1] && place[0] != place[2] && place[0] != place[3] && place[1]
            != place[2] && place[1] != place[3] && place[2] != place[3]);
    }
    assert(sums@[place[0]] <= sums@[order@[0] as int]);
}

/// The photos of a scan are those cut-outs that are large enough, in order; a
/// preview marks just as many.
pub proof fn lemma_split_plans(photos: &Vec<DetectedPhoto>, plan: SplitPlan, preview: bool, i: int)
    requires
        call_ensures(split_scan, (photos, preview), plan),
        0 <= i < photos@.len(),
    ensures
        photos@[i].rows >= 10 && photos@[i].cols >= 10 ==> plan.photos@.contains(photos@[i]),
        forall|j: int|
            0 <= j < plan.photos@.len() ==> (#[trigger] plan.photos@[j]).rows >= 10
                && plan.photos@[j].cols >= 10 && photos@.contains(plan.photos@[j]),
        preview ==> plan.preview_regions == Some(plan.photos@.len() as usize),
        !preview ==> plan.preview_regions is None,
{
    let keep = |photo: DetectedPhoto| splitter::is_large_enough(photo.rows, photo.cols);
    assert(plan.photos@ == photos@.filter(keep));
    assert forall|j: int| 0 <= j < plan.photos@.len() implies (#[trigger] plan.photos@[j]).rows >= 10
        && plan.photos@[j].cols >= 10 && photos@.contains(plan.photos@[j]) by {
        photos@.lemma_filter_pred(keep, j);
        assert(photos@.filter(keep).contains(plan.photos@[j]));
        photos@.lemma_filter_contains_rev(keep, plan.photos@[j]);
    }
    if photos@[i].rows >= 10 && photos@[i].cols >= 10 {
        assert(keep(photos@[i]));
        photos@.lemma_filter_contains(keep, i);
    }
}

/// A scan without photos is an error; with photos it is as it was found.
pub proof fn lemma_analysed_scans(
    regions: Vec<DetectedRegion>,
    threshold: Binary64,
    dpi: Option<u32>,
    result: Result<AnalyzedScan, SplitError>,
)
    requires
        call_ensures(analyze_scan, (regions, threshold, dpi), result),
    ensures
        regions@.len() == 0 ==> (result matches Err(error) && error is NothingDetected),
        regions@.len() > 0 ==> (result matches Ok(scan) && scan.regions == regions && scan.threshold
            == threshold && scan.embedded_dpi == dpi),
{
}

/// The whole image is a hundred percent of itself.
pub proof fn lemma_whole_area(pixels: u32, area: Binary64, percent: Binary64)
    requires
        pixels > 0,
        area.bits == arithmetic::whole(pixels as nat),
        call_ensures(area_percent, (area, pixels), percent),
    ensures
        percent.value() == 100 * pow2(1074),
{
    let n = pixels as nat;
    crate::decimals::lemma_whole_numbers_are_exact(n);
    crate::decimals::lemma_whole_numbers_are_exact(100);
    arithmetic::lemma_whole_results(1, n);
    assert(1 * n == n);
    arithmetic::lemma_whole_results(1, 100);
    assert(area.magnitude() == arithmetic::whole(n));
    assert(percent.bits == arithmetic::whole(100));
}

/// Where corners tie, the first of them is taken for the smallest sum and the
/// smallest difference, and the last of them for the largest.
pub proof fn lemma_tied_corners(
    sums: &[i64; 4],
    differences: &[i64; 4],
    order: [usize; 4],
    i: int,
    j: int,
)
    requires
        call_ensures(order_box, (sums, differences), order),
        0 <= i < j < 4,
    ensures
        sums@[i] == sums@[j] ==> order@[0] != j && order@[2] != i,
        differences@[i] == differences@[j] ==> order@[1] != j && order@[3] != i,
        sums@[order@[0] as int] <= sums@[i],
        sums@[order@[2] as int] >= sums@[i],
        differences@[order@[1] as int] <= differences@[i],
        differences@[order@[3] as int] >= differences@[i],
{
}

} // verus!
