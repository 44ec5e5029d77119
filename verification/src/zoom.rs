//! Zooming the preview and the photos under review.

use crate::arithmetic;
use crate::binary64;
use crate::binary64::Binary64;
use crate::rounding;
use vstd::arithmetic::power2::{
    lemma2_to64, lemma2_to64_rest, lemma_pow2_adds, lemma_pow2_pos, pow2,
};
use vstd::prelude::*;

verus! {

/// The encoding of 1, the zoom at which a picture has its own size.
pub const UNZOOMED: u64 = 0x3ff0_0000_0000_0000;

/// The encoding of 1.25, the factor of one step towards larger.
pub const ZOOM_IN_STEP: u64 = 0x3ff4_0000_0000_0000;

/// The encoding of the number nearest to 0.8, the factor of one step towards
/// smaller.
pub const ZOOM_OUT_STEP: u64 = 0x3fe9_9999_9999_999a;

/// The encoding of the number nearest to 0.02, the smallest zoom of the preview.
pub const MIN_PICTURE_ZOOM: u64 = 0x3f94_7ae1_47ae_147b;

/// The encoding of 4, the largest zoom of the preview.
pub const MAX_PICTURE_ZOOM: u64 = 0x4010_0000_0000_0000;

/// The encoding of 0.5, the smallest zoom of the review.
pub const MIN_REVIEW_ZOOM: u64 = 0x3fe0_0000_0000_0000;

/// The encoding of 2, the largest zoom of the review.
pub const MAX_REVIEW_ZOOM: u64 = 0x4000_0000_0000_0000;

/// Bits below the sign, within limits.
pub open spec fn limited(magnitude: nat, low: u64, high: u64) -> nat {
    if magnitude < low {
        low as nat
    } else if magnitude > high {
        high as nat
    } else {
        magnitude
    }
}

/// The zoom at which a picture just fits into its place: the smaller of the
/// ratios of the sides.
pub open spec fn fitting(image: (i32, i32), viewport: (i32, i32)) -> nat {
    let across = arithmetic::quotient(
        arithmetic::whole(viewport.0 as nat),
        arithmetic::whole(image.0 as nat),
    );
    let down = arithmetic::quotient(
        arithmetic::whole(viewport.1 as nat),
        arithmetic::whole(image.1 as nat),
    );
    if down < across {
        down
    } else {
        across
    }
}

/// The zoom that zooming starts from: the present one; or, where the picture is
/// fitted into its place, the one at which it fits.
pub open spec fn zoom_base(current: Binary64, image: (i32, i32), viewport: (i32, i32)) -> nat {
    if current.bits > 0 {
        current.bits as nat
    } else if image.0 > 0 && image.1 > 0 && viewport.0 > 0 && viewport.1 > 0 {
        fitting(image, viewport)
    } else {
        UNZOOMED as nat
    }
}

/// The ratio of two lengths.
fn ratio(to: i32, from: i32) -> (r: u64)
    requires
        to > 0,
        from > 0,
    ensures
        r == arithmetic::quotient(arithmetic::whole(to as nat), arithmetic::whole(from as nat)),
        r < rounding::INFINITE,
{
    proof {
        arithmetic::lemma_divided_and_multiplied(to as nat, from as nat);
        arithmetic::lemma_whole_positive(from as nat);
    }
    arithmetic::divide(arithmetic::of_whole(to as u32), arithmetic::of_whole(from as u32))
}

/// Bits below the sign, within limits.
fn limit(magnitude: u64, low: u64, high: u64) -> (r: u64)
    ensures
        r == limited(magnitude as nat, low, high),
{
    if magnitude < low {
        low
    } else if magnitude > high {
        high
    } else {
        magnitude
    }
}

/// The zoom of the preview after zooming by a factor. A zoom of zero stands for
/// a picture that is fitted into its place.
pub fn next_picture_zoom(
    current: Binary64,
    factor: Binary64,
    image: (i32, i32),
    viewport: (i32, i32),
) -> (r: Binary64)
    requires
        current.is_amount(),
        factor.is_amount(),
    ensures
        r.bits == limited(
            arithmetic::product(zoom_base(current, image, viewport), factor.bits as nat),
            MIN_PICTURE_ZOOM,
            MAX_PICTURE_ZOOM,
        ),
{
    let base: u64 = if current.bits > 0 {
        current.bits
    } else if image.0 > 0 && image.1 > 0 && viewport.0 > 0 && viewport.1 > 0 {
        let across: u64 = ratio(viewport.0, image.0);
        let down: u64 = ratio(viewport.1, image.1);
        if down < across {
            down
        } else {
            across
        }
    } else {
        UNZOOMED
    };
    let zoomed: u64 = arithmetic::multiply(base, factor.bits);
    Binary64 { bits: limit(zoomed, MIN_PICTURE_ZOOM, MAX_PICTURE_ZOOM) }
}

/// The zoom of the review after zooming by a factor.
pub fn next_review_zoom(current: Binary64, factor: Binary64) -> (r: Binary64)
    requires
        current.is_amount(),
        factor.is_amount(),
    ensures
        r.bits == limited(
            arithmetic::product(current.bits as nat, factor.bits as nat),
            MIN_REVIEW_ZOOM,
            MAX_REVIEW_ZOOM,
        ),
{
    let zoomed: u64 = arithmetic::multiply(current.bits, factor.bits);
    Binary64 { bits: limit(zoomed, MIN_REVIEW_ZOOM, MAX_REVIEW_ZOOM) }
}

/// Which zoom actions make sense.
#[derive(Clone, Copy, Debug, PartialEq, Eq, Structural)]
pub struct ZoomActions {
    /// Whether zooming in does.
    pub zoom_in: bool,
    /// Whether zooming out does.
    pub zoom_out: bool,
}

/// Which zoom actions make sense for the preview at a zoom.
pub fn picture_zoom_actions(zoom: Binary64) -> (r: ZoomActions)
    requires
        zoom.is_amount(),
    ensures
        r.zoom_in == zoom.lt(Binary64 { bits: MAX_PICTURE_ZOOM }),
        r.zoom_out == (zoom.value() == 0 || (Binary64 { bits: MIN_PICTURE_ZOOM }).lt(zoom)),
{
    let fitted: bool = zoom.bits == 0;
    proof {
        binary64::lemma_units_increase(0, zoom.bits as nat);
    }
    ZoomActions {
        zoom_in: zoom.is_less(Binary64 { bits: MAX_PICTURE_ZOOM }),
        zoom_out: fitted || (Binary64 { bits: MIN_PICTURE_ZOOM }).is_less(zoom),
    }
}

/// Which zoom actions make sense for the review at a zoom.
pub fn review_zoom_actions(zoom: Binary64) -> (r: ZoomActions)
    ensures
        r.zoom_in == zoom.lt(Binary64 { bits: MAX_REVIEW_ZOOM }),
        r.zoom_out == (Binary64 { bits: MIN_REVIEW_ZOOM }).lt(zoom),
{
    ZoomActions {
        zoom_in: zoom.is_less(Binary64 { bits: MAX_REVIEW_ZOOM }),
        zoom_out: (Binary64 { bits: MIN_REVIEW_ZOOM }).is_less(zoom),
    }
}

/// The length of an edge at a zoom, in whole pixels and at least one.
pub open spec fn zoomed(edge: int, zoom: Binary64) -> int {
    arithmetic::pixels(arithmetic::multiple(zoom.bits as nat, edge as nat))
}

/// The size of a picture at a zoom.
pub fn zoomed_size(width: i32, height: i32, zoom: Binary64) -> (r: (i32, i32))
    requires
        width > 0,
        height > 0,
        zoom.is_amount(),
    ensures
        r.0 == zoomed(width as int, zoom),
        r.1 == zoomed(height as int, zoom),
{
    (
        arithmetic::to_pixels(arithmetic::multiply_whole(zoom.bits, width as u32)),
        arithmetic::to_pixels(arithmetic::multiply_whole(zoom.bits, height as u32)),
    )
}

/// A zoom that came about by zooming is within its limits.
pub proof fn lemma_zoom_stays_limited(magnitude: nat, low: u64, high: u64)
    requires
        low <= high,
    ensures
        low <= limited(magnitude, low, high) <= high,
{
}

proof fn lemma_limits()
    ensures
        binary64::units(UNZOOMED as nat) == pow2(1074),
        binary64::units(MAX_PICTURE_ZOOM as nat) == 4 * pow2(1074),
        2 * binary64::units(MIN_REVIEW_ZOOM as nat) == pow2(1074),
        binary64::units(MAX_REVIEW_ZOOM as nat) == 2 * pow2(1074),
        4 * binary64::units(ZOOM_IN_STEP as nat) == 5 * pow2(1074),
        MIN_PICTURE_ZOOM == 0x3f94_7ae1_47ae_147b,
        ZOOM_OUT_STEP == 0x3fe9_9999_9999_999a,
{
    lemma2_to64();
    lemma2_to64_rest();
    binary64::lemma_whole_number(UNZOOMED as nat, 0, 1);
    binary64::lemma_whole_number(MAX_PICTURE_ZOOM as nat, 2, 4);
    binary64::lemma_whole_number(MAX_REVIEW_ZOOM as nat, 1, 2);
    assert(MIN_REVIEW_ZOOM / 0x10_0000_0000_0000 == 1022);
    assert(MIN_REVIEW_ZOOM % 0x10_0000_0000_0000 == 0);
    lemma_pow2_adds(53, 1021);
    assert(ZOOM_IN_STEP / 0x10_0000_0000_0000 == 1023);
    assert(ZOOM_IN_STEP % 0x10_0000_0000_0000 == 0x4_0000_0000_0000);
    lemma_pow2_adds(52, 1022);
    let unit = pow2(1022);
    assert(binary64::units(ZOOM_IN_STEP as nat) == 0x14_0000_0000_0000 * unit);
    assert(pow2(1074) == 0x10_0000_0000_0000 * unit);
}

/// The preview is zoomed up to four times, the photos under review from half to
/// twice their size, and one step is a quarter larger.
pub proof fn lemma_zoom_limits(zoom: Binary64, actions: ZoomActions, review_actions: ZoomActions)
    requires
        zoom.is_amount(),
        call_ensures(picture_zoom_actions, (zoom,), actions),
        call_ensures(review_zoom_actions, (zoom,), review_actions),
    ensures
        actions.zoom_in <==> zoom.value() < 4 * pow2(1074),
        zoom.value() == 0 ==> actions.zoom_out,
        zoom.bits > 0 ==> (actions.zoom_out <==> zoom.bits > 0x3f94_7ae1_47ae_147b),
        review_actions.zoom_in <==> zoom.value() < 2 * pow2(1074),
        review_actions.zoom_out <==> 2 * zoom.value() > pow2(1074),
        4 * binary64::units(ZOOM_IN_STEP as nat) == 5 * pow2(1074),
{
    lemma_limits();
    assert(zoom.magnitude() == zoom.bits);
    binary64::lemma_units_increase(zoom.bits as nat, MIN_PICTURE_ZOOM as nat);
    binary64::lemma_units_increase(MIN_PICTURE_ZOOM as nat, zoom.bits as nat);
    binary64::lemma_units_increase(0, zoom.bits as nat);
    let least = Binary64 { bits: MIN_PICTURE_ZOOM };
    assert(least.magnitude() == MIN_PICTURE_ZOOM);
}

/// Zooming by a factor of one changes nothing within the limits; a larger factor
/// never gives less than a smaller one, and a larger zoom never gives less than a
/// smaller one by the same factor.
pub proof fn lemma_zooming(
    current: Binary64,
    larger: Binary64,
    factor: Binary64,
    same: Binary64,
    next: Binary64,
    more: Binary64,
)
    requires
        current.is_amount(),
        larger.is_amount(),
        factor.is_amount(),
        0 < factor.value(),
        current.bits <= larger.bits,
        MIN_REVIEW_ZOOM <= current.bits <= MAX_REVIEW_ZOOM,
        call_ensures(next_review_zoom, (current, (Binary64 { bits: UNZOOMED })), same),
        call_ensures(next_review_zoom, (current, factor), next),
        call_ensures(next_review_zoom, (larger, factor), more),
    ensures
        same == current,
        next.bits <= more.bits,
        MIN_REVIEW_ZOOM <= next.bits <= MAX_REVIEW_ZOOM,
{
    lemma_limits();
    lemma_pow2_pos(1074);
    rounding::lemma_exact(current.bits as nat, pow2(1074));
    assert(factor.magnitude() == factor.bits);
    arithmetic::lemma_arithmetic_is_monotone(
        current.bits as nat,
        larger.bits as nat,
        factor.bits as nat,
    );
}

/// A picture that is fitted into its place is as large as both sides allow: where
/// the place is a whole number of times as wide and as high, the smaller of these
/// numbers. A chosen zoom is kept as the one to start from.
pub proof fn lemma_fitting(width: i32, height: i32, m: nat, n: nat, zoom: Binary64)
    requires
        0 < width,
        0 < height,
        0 < m,
        0 < n,
        m * width <= i32::MAX,
        n * height <= i32::MAX,
        zoom.bits > 0,
    ensures
        fitting((width, height), ((m * width) as i32, (n * height) as i32)) == arithmetic::whole(
            if n < m {
                n
            } else {
                m
            },
        ),
        zoom_base(
            (Binary64 { bits: 0 }),
            (width, height),
            ((m * width) as i32, (n * height) as i32),
        ) == fitting((width, height), ((m * width) as i32, (n * height) as i32)),
        zoom_base(zoom, (width, height), ((m * width) as i32, (n * height) as i32)) == zoom.bits,
        zoom_base((Binary64 { bits: 0 }), (0, height), (width, height)) == UNZOOMED,
        zoom_base((Binary64 { bits: 0 }), (width, 0), (width, height)) == UNZOOMED,
        zoom_base((Binary64 { bits: 0 }), (width, height), (0, height)) == UNZOOMED,
        zoom_base((Binary64 { bits: 0 }), (width, height), (width, 0)) == UNZOOMED,
{
    assert(m <= m * width) by (nonlinear_arith)
        requires
            width >= 1,
            m >= 0,
    ;
    assert(n <= n * height) by (nonlinear_arith)
        requires
            height >= 1,
            n >= 0,
    ;
    assert(0 < m * width) by (nonlinear_arith)
        requires
            width >= 1,
            m >= 1,
    ;
    assert(0 < n * height) by (nonlinear_arith)
        requires
            height >= 1,
            n >= 1,
    ;
    arithmetic::lemma_whole_results(m, width as nat);
    arithmetic::lemma_whole_results(n, height as nat);
    lemma_wholes_in_order(m, n);
    lemma_wholes_in_order(n, m);
}

proof fn lemma_wholes_in_order(m: nat, n: nat)
    requires
        m <= u32::MAX,
        n <= u32::MAX,
    ensures
        m < n ==> arithmetic::whole(m) < arithmetic::whole(n),
{
    if m < n {
        arithmetic::lemma_whole_results(m, 1);
        arithmetic::lemma_whole_results(n, 1);
        lemma_pow2_pos(1074);
        let unit = pow2(1074);
        assert(m * unit < n * unit) by (nonlinear_arith)
            requires
                m < n,
                unit > 0,
        ;
        if arithmetic::whole(m) >= arithmetic::whole(n) {
            binary64::lemma_units_increase(arithmetic::whole(n), arithmetic::whole(m));
        }
    }
}

/// A picture zoomed by a whole number has sides that many times as long.
pub proof fn lemma_zoomed_sides(width: i32, height: i32, n: nat, size: (i32, i32))
    requires
        0 < width,
        0 < height,
        0 < n,
        n * width <= i32::MAX,
        n * height <= i32::MAX,
        call_ensures(
            zoomed_size,
            (width, height, (Binary64 { bits: arithmetic::whole(n) as u64 })),
            size,
        ),
    ensures
        size.0 == n * width,
        size.1 == n * height,
{
    assert(n <= n * width) by (nonlinear_arith)
        requires
            width >= 1,
            n >= 0,
    ;
    assert(0 < n * width && 0 < n * height) by (nonlinear_arith)
        requires
            width >= 1,
            height >= 1,
            n >= 1,
    ;
    crate::decimals::lemma_whole_numbers_are_exact(n);
    arithmetic::lemma_whole_results(n, width as nat);
    arithmetic::lemma_whole_results(n, height as nat);
    arithmetic::lemma_pixels((n * width) as nat);
    arithmetic::lemma_pixels((n * height) as nat);
}

/// Zooming multiplies the zoom by the factor: the result is the nearest number to
/// the product, and it is a limit only where the product has reached it.
pub proof fn lemma_zoom_is_multiplied(
    current: Binary64,
    factor: Binary64,
    image: (i32, i32),
    viewport: (i32, i32),
    picture: Binary64,
    review: Binary64,
)
    requires
        current.is_amount(),
        factor.is_amount(),
        pow2(1060) <= current.value() < pow2(1106),
        pow2(1060) <= factor.value() < pow2(1106),
        call_ensures(next_picture_zoom, (current, factor, image, viewport), picture),
        call_ensures(next_review_zoom, (current, factor), review),
    ensures
        ({
            let exact = current.value() * factor.value();
            let shown = picture.value() * pow2(1074);
            let reviewed = review.value() * pow2(1074);
            &&& picture.value() < 4 * pow2(1074) ==> 0x20_0000_0000_0000 * (exact - shown) <= shown
            &&& picture.bits > MIN_PICTURE_ZOOM ==> 0x20_0000_0000_0000 * (shown - exact) <= shown
            &&& review.value() < 2 * pow2(1074) ==> 0x20_0000_0000_0000 * (exact - reviewed)
                <= reviewed
            &&& 2 * review.value() > pow2(1074) ==> 0x20_0000_0000_0000 * (reviewed - exact)
                <= reviewed
        }),
{
    lemma_limits();
    let unit = pow2(1074);
    lemma_pow2_pos(1074);
    lemma_pow2_pos(1060);
    assert(current.magnitude() == current.bits && factor.magnitude() == factor.bits);
    assert(current.bits > 0) by {
        if current.bits == 0 {
            assert(binary64::units(0) == 0);
        }
    }
    arithmetic::lemma_results_are_near(current.bits as nat, factor.bits as nat);
    let magnitude = arithmetic::product(current.bits as nat, factor.bits as nat);
    let p = binary64::units(magnitude);
    let exact = current.value() * factor.value();
    assert(picture.magnitude() == picture.bits && review.magnitude() == review.bits);
    binary64::lemma_units_increase(magnitude, picture.bits as nat);
    binary64::lemma_units_increase(magnitude, review.bits as nat);
    binary64::lemma_units_increase(picture.bits as nat, magnitude);
    binary64::lemma_units_increase(review.bits as nat, magnitude);
    binary64::lemma_units_increase(magnitude, MIN_REVIEW_ZOOM as nat);
    assert forall|r: nat| r >= p implies 0x20_0000_0000_0000 * (exact - r * unit) <= #[trigger] (r
        * unit) by {
        assert(r * unit >= p * unit) by (nonlinear_arith)
            requires
                r >= p,
        ;
    }
    assert forall|r: nat| r <= p implies 0x20_0000_0000_0000 * (#[trigger] (r * unit) - exact) <= r
        * unit by {
        assert(r * unit <= p * unit) by (nonlinear_arith)
            requires
                r <= p,
        ;
    }
    let shown = binary64::units(picture.bits as nat);
    let reviewed = binary64::units(review.bits as nat);
    assert(picture.value() == shown && review.value() == reviewed);
    assert(picture.value() < 4 * unit ==> shown >= p);
    assert(picture.bits > MIN_PICTURE_ZOOM ==> shown <= p);
    assert(review.value() < 2 * unit ==> reviewed >= p);
    assert(2 * review.value() > unit ==> reviewed <= p);
    assert(shown * unit >= 0 && reviewed * unit >= 0) by (nonlinear_arith);
}

} // verus!
