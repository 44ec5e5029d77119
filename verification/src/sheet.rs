//! The sizes of previews and thumbnails, and the places of several previews on
//! one sheet.

use crate::arithmetic;
use crate::binary64;
use crate::i18n;
use crate::rounding;
use vstd::arithmetic::power2::{
    lemma2_to64, lemma2_to64_rest, lemma_pow2_adds, lemma_pow2_pos, pow2,
};
use vstd::prelude::*;

verus! {

/// The largest edge of a preview.
pub const PREVIEW_MAX_EDGE: i32 = 3200;

/// The largest edge of a thumbnail.
pub const THUMBNAIL_MAX_EDGE: i32 = 360;

/// The JPEG quality of sheets.
pub const SHEET_QUALITY: i32 = 88;

/// The JPEG quality of thumbnails and of what is shown after work.
pub const SHOWN_QUALITY: i32 = 86;

/// The width of a sheet of previews.
pub const SHEET_WIDTH: i32 = 1200;

/// The height of a sheet of previews.
pub const SHEET_HEIGHT: i32 = 900;

/// The space that is left free at each side of a cell of a sheet.
pub const CELL_PADDING: i32 = 16;

/// The scale that makes an edge of the length `from` as long as `to`, as the
/// bits of a double-precision number.
pub open spec fn scale_of(to: int, from: int) -> nat {
    arithmetic::quotient(arithmetic::whole(to as nat), arithmetic::whole(from as nat))
}

/// The length of an edge at a scale, in whole pixels.
pub open spec fn scaled(edge: int, scale: nat) -> int {
    arithmetic::pixels(arithmetic::multiple(scale, edge as nat))
}

/// The scale that makes one edge as long as another.
fn scale(to: i32, from: i32) -> (r: u64)
    requires
        to > 0,
        from > 0,
    ensures
        r == scale_of(to as int, from as int),
        r < rounding::INFINITE,
{
    let num: u64 = arithmetic::of_whole(to as u32);
    let den: u64 = arithmetic::of_whole(from as u32);
    proof {
        arithmetic::lemma_divided_and_multiplied(to as nat, from as nat);
        arithmetic::lemma_whole_positive(from as nat);
    }
    arithmetic::divide(num, den)
}

/// The length of an edge at a scale.
fn scaled_edge(edge: i32, scale: u64) -> (r: i32)
    requires
        edge > 0,
        scale < rounding::INFINITE,
    ensures
        r == scaled(edge as int, scale as nat),
{
    arithmetic::to_pixels(arithmetic::multiply_whole(scale, edge as u32))
}

/// The longer of two edges.
pub open spec fn longer(width: int, height: int) -> int {
    if width < height {
        height
    } else {
        width
    }
}

/// The size of a preview or thumbnail of an image whose edges may be no longer
/// than `maximum`; none where the image is small enough as it is.
pub fn bounded_size(width: i32, height: i32, maximum: i32) -> (r: Option<(i32, i32)>)
    requires
        width > 0,
        height > 0,
        maximum > 0,
    ensures
        r == if longer(width as int, height as int) <= maximum {
            None
        } else {
            let scale = scale_of(maximum as int, longer(width as int, height as int));
            Some((scaled(width as int, scale) as i32, scaled(height as int, scale) as i32))
        },
{
    let largest: i32 = if width < height {
        height
    } else {
        width
    };
    if largest <= maximum {
        return None;
    }
    let factor: u64 = scale(maximum, largest);
    Some((scaled_edge(width, factor), scaled_edge(height, factor)))
}

proof fn lemma_scaled_is_bounded(edge: int, from: int, to: int, factor: nat)
    requires
        0 < edge <= from <= i32::MAX,
        0 < to <= i32::MAX,
        factor <= scale_of(to, from),
    ensures
        1 <= scaled(edge, factor) <= to,
        edge == from && factor == scale_of(to, from) ==> scaled(edge, factor) == to,
{
    arithmetic::lemma_divided_and_multiplied(to as nat, from as nat);
    let whole = arithmetic::multiple(scale_of(to, from), from as nat);
    let part = arithmetic::multiple(factor, edge as nat);
    arithmetic::lemma_multiple_monotone(factor, scale_of(to, from), edge as nat, from as nat);
    arithmetic::lemma_nearest_whole_monotone(part, whole);
}

/// A preview is bounded: its longer edge is as long as is allowed, and the other
/// is not longer and does not vanish.
pub proof fn lemma_preview_is_bounded(width: int, height: int, maximum: int)
    requires
        0 < width <= i32::MAX,
        0 < height <= i32::MAX,
        0 < maximum < longer(width, height),
    ensures
        ({
            let scale = scale_of(maximum, longer(width, height));
            &&& scaled(longer(width, height), scale) == maximum
            &&& 1 <= scaled(width, scale) <= maximum
            &&& 1 <= scaled(height, scale) <= maximum
        }),
{
    let largest = longer(width, height);
    let scale = scale_of(maximum, largest);
    lemma_scaled_is_bounded(largest, largest, maximum, scale);
    lemma_scaled_is_bounded(width, largest, maximum, scale);
    lemma_scaled_is_bounded(height, largest, maximum, scale);
}

/// How a sheet is divided for a number of previews: as many columns as make it
/// nearly square, and as many rows as are needed then.
pub open spec fn is_grid(count: int, columns: int, rows: int) -> bool {
    &&& 0 < columns
    &&& (columns - 1) * (columns - 1) < count
    &&& count <= columns * columns
    &&& (rows - 1) * columns < count
    &&& count <= rows * columns
}

/// How a sheet is divided for a number of previews, as columns and rows.
pub fn grid(count: u32) -> (r: (i32, i32))
    requires
        0 < count <= i32::MAX,
    ensures
        is_grid(count as int, r.0 as int, r.1 as int),
        0 < r.0 <= 46341,
        0 < r.1 <= r.0,
{
    let mut columns: u32 = 1;
    while columns * columns < count
        invariant
            0 < columns <= 46341,
            count <= i32::MAX,
            (columns - 1) * (columns - 1) < count,
            columns * columns <= 46341 * 46341,
        decreases 46341 - columns,
    {
        assert(columns < 46341) by (nonlinear_arith)
            requires
                columns * columns < count,
                count <= 0x7fff_ffff,
                columns <= 46341,
        ;
        assert((columns + 1) * (columns + 1) <= 46341 * 46341) by (nonlinear_arith)
            requires
                columns < 46341,
        ;
        columns = columns + 1;
    }
    let rows: u32 = (count - 1) / columns + 1;
    proof {
        let q = (count - 1) / columns as int;
        vstd::arithmetic::div_mod::lemma_fundamental_div_mod(count - 1, columns as int);
        vstd::arithmetic::div_mod::lemma_mod_bound(count - 1, columns as int);
        assert((q + 1) * columns == q * columns + columns) by (nonlinear_arith);
        assert(columns * q == q * columns) by (nonlinear_arith);
        assert(q < columns) by (nonlinear_arith)
            requires
                q * columns < columns * columns,
                columns > 0,
        ;
    }
    (columns as i32, rows as i32)
}

/// The file that a sheet of several images is written to.
pub const SHEET_FILE: &'static str = "overview_batch.jpg";

/// How some images are shown as one.
#[derive(Debug)]
pub enum SheetPlan {
    /// Not at all, because there are none.
    Missing,
    /// The only image is shown as it is, and nothing is written.
    Single(String),
    /// They are put on a sheet, which is written to this file.
    Composed(String),
}

/// How some images are shown as one, where a sheet would be written to this
/// directory.
pub fn compose_image_sheet(images: &Vec<String>, directory: &str) -> (r: SheetPlan)
    ensures
        images@.len() == 0 <==> r is Missing,
        images@.len() == 1 <==> r is Single,
        r matches SheetPlan::Single(image) ==> image@ == images@[0]@,
        r matches SheetPlan::Composed(file) ==> file@ == i18n::joined(
            directory@,
            "overview_batch.jpg"@,
        ),
{
    if images.len() == 0 {
        SheetPlan::Missing
    } else if images.len() == 1 {
        SheetPlan::Single(images[0].clone())
    } else {
        SheetPlan::Composed(i18n::join(directory, "overview_batch.jpg"))
    }
}

/// A place on a sheet.
#[derive(Clone, Copy, Debug, PartialEq, Eq, Structural)]
pub struct Cell {
    /// The left edge.
    pub x: i32,
    /// The upper edge.
    pub y: i32,
    /// The width.
    pub width: i32,
    /// The height.
    pub height: i32,
}

/// Half of a number, rounded towards zero.
pub open spec fn half(n: int) -> int {
    if n >= 0 {
        n / 2
    } else {
        -((-n) / 2)
    }
}

/// How much of a cell's edge a preview may take.
pub open spec fn available(edge: int) -> int {
    if edge - 2 * CELL_PADDING < 1 {
        1
    } else {
        edge - 2 * CELL_PADDING
    }
}

/// The smaller of two scales.
pub open spec fn smaller(a: nat, b: nat) -> nat {
    if b < a {
        b
    } else {
        a
    }
}

/// Where a preview of the given size comes to lie on a sheet of so many columns
/// and rows: in the middle of its cell, as large as fits.
pub open spec fn cell_for(columns: int, rows: int, index: int, width: int, height: int) -> (
    int,
    int,
    int,
    int,
) {
    let cell_width = SHEET_WIDTH as int / columns;
    let cell_height = SHEET_HEIGHT as int / rows;
    let scale = smaller(
        scale_of(available(cell_width), width),
        scale_of(available(cell_height), height),
    );
    let w = scaled(width, scale);
    let h = scaled(height, scale);
    (
        (index % columns) * cell_width + half(cell_width - w),
        (index / columns) * cell_height + half(cell_height - h),
        w,
        h,
    )
}

proof fn lemma_cell_size(columns: int, rows: int, width: int, height: int)
    requires
        0 < columns,
        0 < rows,
        0 < width <= i32::MAX,
        0 < height <= i32::MAX,
    ensures
        ({
            let cell_width = SHEET_WIDTH as int / columns;
            let cell_height = SHEET_HEIGHT as int / rows;
            let scale = smaller(
                scale_of(available(cell_width), width),
                scale_of(available(cell_height), height),
            );
            &&& 0 <= cell_width <= SHEET_WIDTH
            &&& 0 <= cell_height <= SHEET_HEIGHT
            &&& 1 <= scaled(width, scale) <= available(cell_width)
            &&& 1 <= scaled(height, scale) <= available(cell_height)
        }),
{
    let cell_width = SHEET_WIDTH as int / columns;
    let cell_height = SHEET_HEIGHT as int / rows;
    assert(0 <= cell_width <= SHEET_WIDTH) by (nonlinear_arith)
        requires
            cell_width == SHEET_WIDTH as int / columns,
            columns > 0,
            SHEET_WIDTH == 1200,
    ;
    assert(0 <= cell_height <= SHEET_HEIGHT) by (nonlinear_arith)
        requires
            cell_height == SHEET_HEIGHT as int / rows,
            rows > 0,
            SHEET_HEIGHT == 900,
    ;
    let scale = smaller(
        scale_of(available(cell_width), width),
        scale_of(available(cell_height), height),
    );
    lemma_scaled_is_bounded(width, width, available(cell_width), scale);
    lemma_scaled_is_bounded(height, height, available(cell_height), scale);
}

/// Where a preview of the given size comes to lie on a sheet for `count`
/// previews.
pub fn sheet_cell(count: u32, index: u32, width: i32, height: i32) -> (r: Cell)
    requires
        index < count <= i32::MAX,
        width > 0,
        height > 0,
    ensures
        exists|columns: int, rows: int| #[trigger]
            is_grid(count as int, columns, rows) && (
            r.x as int,
            r.y as int,
            r.width as int,
            r.height as int,
        ) == cell_for(columns, rows, index as int, width as int, height as int),
{
    let (columns, rows) = grid(count);
    proof {
        lemma_cell_size(columns as int, rows as int, width as int, height as int);
    }
    let cell_width: i32 = SHEET_WIDTH / columns;
    let cell_height: i32 = SHEET_HEIGHT / rows;
    let room_across: i32 = if cell_width - 2 * CELL_PADDING < 1 {
        1
    } else {
        cell_width - 2 * CELL_PADDING
    };
    let room_down: i32 = if cell_height - 2 * CELL_PADDING < 1 {
        1
    } else {
        cell_height - 2 * CELL_PADDING
    };
    let across: u64 = scale(room_across, width);
    let down: u64 = scale(room_down, height);
    let factor: u64 = if down < across {
        down
    } else {
        across
    };
    let w: i32 = scaled_edge(width, factor);
    let h: i32 = scaled_edge(height, factor);
    let column: i32 = index as i32 % columns;
    let row: i32 = index as i32 / columns;
    proof {
        let i = index as int;
        let c = columns as int;
        vstd::arithmetic::div_mod::lemma_fundamental_div_mod(i, c);
        vstd::arithmetic::div_mod::lemma_mod_bound(i, c);
        assert(row <= 46341) by (nonlinear_arith)
            requires
                row as int == i / c,
                i < count,
                count <= rows * c,
                rows <= 46341,
                c > 0,
        ;
        assert(0 <= column * cell_width <= 46341 * 1200) by (nonlinear_arith)
            requires
                0 <= column <= 46341,
                0 <= cell_width <= 1200,
        ;
        assert(0 <= row * cell_height <= 46341 * 900) by (nonlinear_arith)
            requires
                0 <= row <= 46341,
                0 <= cell_height <= 900,
        ;
    }
    let spare_across: i32 = cell_width - w;
    let spare_down: i32 = cell_height - h;
    let left: i32 = if spare_across >= 0 {
        spare_across / 2
    } else {
        -((-spare_across) / 2)
    };
    let up: i32 = if spare_down >= 0 {
        spare_down / 2
    } else {
        -((-spare_down) / 2)
    };
    let cell = Cell {
        x: column * cell_width + left,
        y: row * cell_height + up,
        width: w,
        height: h,
    };
    assert(is_grid(count as int, columns as int, rows as int));
    cell
}

/// Previews on a sheet do not leave their cells: each lies within the sheet, in
/// the column and the row that its index stands for, so that no two of them
/// overlap.
pub proof fn lemma_previews_stay_in_their_cells(
    count: int,
    columns: int,
    rows: int,
    index: int,
    width: int,
    height: int,
)
    requires
        0 <= index < count,
        is_grid(count, columns, rows),
        columns <= SHEET_WIDTH,
        rows <= SHEET_HEIGHT,
        0 < width <= i32::MAX,
        0 < height <= i32::MAX,
    ensures
        ({
            let (x, y, w, h) = cell_for(columns, rows, index, width, height);
            let cell_width = SHEET_WIDTH as int / columns;
            let cell_height = SHEET_HEIGHT as int / rows;
            let column = index % columns;
            let row = index / columns;
            &&& 0 <= column < columns
            &&& 0 <= row < rows
            &&& column * cell_width <= x
            &&& x + w <= (column + 1) * cell_width <= SHEET_WIDTH
            &&& row * cell_height <= y
            &&& y + h <= (row + 1) * cell_height <= SHEET_HEIGHT
        }),
{
    let cell_width = SHEET_WIDTH as int / columns;
    let cell_height = SHEET_HEIGHT as int / rows;
    let column = index % columns;
    let row = index / columns;
    assert(rows > 0) by (nonlinear_arith)
        requires
            count <= rows * columns,
            count > 0,
            columns > 0,
    ;
    lemma_cell_size(columns, rows, width, height);
    vstd::arithmetic::div_mod::lemma_fundamental_div_mod(index, columns);
    vstd::arithmetic::div_mod::lemma_mod_bound(index, columns);
    assert(0 <= row < rows) by (nonlinear_arith)
        requires
            index == columns * row + column,
            0 <= column < columns,
            0 <= index < rows * columns,
    ;
    assert(cell_width >= 1 && columns * cell_width <= SHEET_WIDTH) by (nonlinear_arith)
        requires
            cell_width == SHEET_WIDTH as int / columns,
            0 < columns <= SHEET_WIDTH,
            SHEET_WIDTH == 1200,
    ;
    assert(cell_height >= 1 && rows * cell_height <= SHEET_HEIGHT) by (nonlinear_arith)
        requires
            cell_height == SHEET_HEIGHT as int / rows,
            0 < rows <= SHEET_HEIGHT,
            SHEET_HEIGHT == 900,
    ;
    assert((column + 1) * cell_width <= columns * cell_width) by (nonlinear_arith)
        requires
            column < columns,
            cell_width >= 0,
    ;
    assert((row + 1) * cell_height <= rows * cell_height) by (nonlinear_arith)
        requires
            row < rows,
            cell_height >= 0,
    ;
    assert((column + 1) * cell_width == column * cell_width + cell_width) by (nonlinear_arith);
    assert((row + 1) * cell_height == row * cell_height + cell_height) by (nonlinear_arith);
}

/// The side at which labels have their own size.
pub const LABEL_SIDE: u32 = 1400;

/// The encoding of the number nearest to 0.7, the smallest scale of labels.
pub const MIN_LABEL_SCALE: u64 = 0x3fe6_6666_6666_6666;

/// The encoding of 4, the largest scale of labels.
pub const MAX_LABEL_SCALE: u64 = 0x4010_0000_0000_0000;

/// The scale of the labels on a preview with this shorter side: in proportion to
/// it, within limits.
pub open spec fn label_scale_of(side: nat) -> nat {
    let scale = arithmetic::quotient(
        arithmetic::whole(side),
        arithmetic::whole(LABEL_SIDE as nat),
    );
    if scale < MIN_LABEL_SCALE {
        MIN_LABEL_SCALE as nat
    } else if scale > MAX_LABEL_SCALE {
        MAX_LABEL_SCALE as nat
    } else {
        scale
    }
}

/// The scale of the labels on a preview of this size, as the bits of a
/// double-precision number.
pub fn label_scale(width: u32, height: u32) -> (r: u64)
    ensures
        r == label_scale_of(
            if width < height {
                width as nat
            } else {
                height as nat
            },
        ),
        r <= MAX_LABEL_SCALE,
{
    let side: u32 = if width < height {
        width
    } else {
        height
    };
    proof {
        arithmetic::lemma_whole_positive(LABEL_SIDE as nat);
    }
    let scale: u64 = arithmetic::divide(
        arithmetic::of_whole(side),
        arithmetic::of_whole(LABEL_SIDE),
    );
    if scale < MIN_LABEL_SCALE {
        MIN_LABEL_SCALE
    } else if scale > MAX_LABEL_SCALE {
        MAX_LABEL_SCALE
    } else {
        scale
    }
}

/// The thickness of lines on a preview whose labels have this scale: twice the
/// scale, to the nearest whole number, but at least two.
pub fn line_thickness(scale: u64) -> (r: i32)
    requires
        scale <= MAX_LABEL_SCALE,
    ensures
        r == longer(arithmetic::pixels(arithmetic::multiple(scale as nat, 2)), 2),
{
    let thickness: i32 = arithmetic::to_pixels(arithmetic::multiply_whole(scale, 2));
    if thickness < 2 {
        2
    } else {
        thickness
    }
}

/// Whether a corner is the first of those nearest to the upper left.
pub open spec fn is_anchor(corners: Seq<(i32, i32)>, at: int) -> bool {
    &&& 0 <= at < corners.len()
    &&& forall|i: int|
        0 <= i < corners.len() ==> corners[at].0 + corners[at].1 <= #[trigger] corners[i].0
            + corners[i].1
    &&& forall|i: int|
        0 <= i < at ==> corners[at].0 + corners[at].1 < #[trigger] corners[i].0 + corners[i].1
}

/// Where the number of a photo is written on a preview: just inside its upper
/// left corner.
pub fn label_position(corners: &Vec<(i32, i32)>) -> (r: (i32, i32))
    requires
        forall|i: int|
            0 <= i < corners@.len() ==> i32::MIN <= #[trigger] corners@[i].0 + corners@[i].1
                <= i32::MAX,
        forall|at: int| #[trigger]
            is_anchor(corners@, at) ==> corners@[at].0 + 8 <= i32::MAX && corners@[at].1 + 28
                <= i32::MAX,
    ensures
        if corners@.len() == 0 {
            r == (8i32, 28i32)
        } else {
            exists|at: int| #[trigger]
                is_anchor(corners@, at) && r == (
                    (corners@[at].0 + 8) as i32,
                    (corners@[at].1 + 28) as i32,
                )
        },
{
    if corners.len() == 0 {
        return (8, 28);
    }
    let mut best: usize = 0;
    let mut i: usize = 1;
    while i < corners.len()
        invariant
            best < i <= corners.len(),
            forall|j: int|
                0 <= j < corners@.len() ==> i32::MIN <= #[trigger] corners@[j].0 + corners@[j].1
                    <= i32::MAX,
            forall|j: int|
                0 <= j < i ==> corners@[best as int].0 + corners@[best as int].1
                    <= #[trigger] corners@[j].0 + corners@[j].1,
            forall|j: int|
                0 <= j < best ==> corners@[best as int].0 + corners@[best as int].1
                    < #[trigger] corners@[j].0 + corners@[j].1,
        decreases corners.len() - i,
    {
        let here: i32 = corners[i].0 + corners[i].1;
        let there: i32 = corners[best].0 + corners[best].1;
        if here < there {
            best = i;
        }
        i += 1;
    }
    assert(is_anchor(corners@, best as int));
    (corners[best].0 + 8, corners[best].1 + 28)
}

proof fn lemma_scaled_is_near(edge: int, to: int, from: int)
    requires
        0 < to <= i32::MAX,
        0 < from <= i32::MAX,
        0 < edge <= i32::MAX,
        edge * to <= from * i32::MAX,
    ensures
        scaled(edge, scale_of(to, from)) <= i32::MAX,
        scaled(edge, scale_of(to, from)) < i32::MAX ==> -from <= scaled(edge, scale_of(to, from))
            * from - edge * to <= from,
{
    let unit = pow2(1074);
    lemma_pow2_pos(1074);
    let (t, f, e) = (to as nat, from as nat, edge as nat);
    arithmetic::lemma_whole_results(t, 1);
    arithmetic::lemma_whole_results(f, 1);
    let q = scale_of(to, from);
    let num = (t * unit) * unit;
    let den = f * unit;
    let big = 0x20_0000_0000_0000nat;
    lemma2_to64();
    lemma2_to64_rest();
    lemma_pow2_adds(53, 31);
    lemma_pow2_adds(84, 990);
    lemma_pow2_pos(990);
    assert(unit >= big * 0x8000_0000) by (nonlinear_arith)
        requires
            unit == pow2(84) * pow2(990),
            pow2(84) == pow2(53) * pow2(31),
            pow2(53) == big,
            pow2(31) == 0x8000_0000,
            pow2(990) >= 1,
    ;
    assert(den > 0) by (nonlinear_arith)
        requires
            den == f * unit,
            f > 0,
            unit > 0,
    ;
    assert(num >= big * den) by (nonlinear_arith)
        requires
            num == (t * unit) * unit,
            den == f * unit,
            t >= 1,
            f <= 0x8000_0000,
            unit >= big * 0x8000_0000,
    ;
    lemma_pow2_adds(1074, 1023);
    lemma_pow2_adds(31, 992);
    lemma_pow2_pos(992);
    assert(num < pow2(2097) * den) by (nonlinear_arith)
        requires
            num == (t * unit) * unit,
            den == f * unit,
            t < 0x8000_0000,
            f >= 1,
            unit > 0,
            pow2(2097) == unit * pow2(1023),
            pow2(1023) == 0x8000_0000 * pow2(992),
            pow2(992) >= 1,
    ;
    rounding::lemma_rounding_exists(num, den);
    rounding::lemma_rounding_error(num, den, q);
    let scale = binary64::units(q);
    // The scale is off by little.
    let ideal = t * unit;
    let taken = scale * f;
    assert(big * (ideal - taken) <= taken && big * (taken - ideal) <= taken) by (nonlinear_arith)
        requires
            big * (num - scale * den) <= scale * den,
            big * (scale * den - num) <= scale * den,
            num == ideal * unit,
            den == f * unit,
            taken == scale * f,
            unit > 0,
    ;
    assert(taken <= 2 * ideal);
    let m = arithmetic::multiple(q, e);
    let exact = scale * e;
    rounding::lemma_rounding_exists(exact, 1);
    assert(ideal >= unit) by (nonlinear_arith)
        requires
            ideal == t * unit,
            t >= 1,
    ;
    assert(scale <= scale * f) by (nonlinear_arith)
        requires
            f >= 1,
    ;
    lemma_pow2_adds(63, 960);
    lemma_pow2_pos(960);
    assert(pow2(1023) >= 0x8000_0000 * 0x8000_0000 * 2) by (nonlinear_arith)
        requires
            pow2(1023) == pow2(63) * pow2(960),
            pow2(63) == 0x8000_0000_0000_0000,
            pow2(960) >= 1,
    ;
    assert(scale >= big) by (nonlinear_arith)
        requires
            big * (ideal - scale * f) <= scale * f,
            ideal >= unit,
            unit >= big * 0x8000_0000,
            f < 0x8000_0000,
            big >= 2,
            scale >= 0,
    ;
    assert(exact >= big * 1) by (nonlinear_arith)
        requires
            exact == scale * e,
            scale >= big,
            e >= 1,
    ;
    assert(exact < pow2(2097) * 1) by (nonlinear_arith)
        requires
            exact == scale * e,
            scale <= scale * f,
            scale * f <= 2 * ideal,
            ideal == t * unit,
            t < 0x8000_0000,
            e < 0x8000_0000,
            pow2(2097) == unit * pow2(1023),
            pow2(1023) >= 0x8000_0000 * 0x8000_0000 * 2,
            unit > 0,
    ;
    rounding::lemma_rounding_error(exact, 1, m);
    let value = binary64::units(m);
    arithmetic::lemma_nearest_whole_is_near(m);
    let n = arithmetic::nearest_whole(m);
    // Everything together, in units.
    let off = n * f - e * t;
    assert(-f <= off <= f) by {
        lemma_errors_add_up(n, f, e, t, unit, scale, taken, ideal, exact, value, big);
    }
    if n < 1 {
        assert(n * f == 0) by (nonlinear_arith)
            requires
                n == 0,
        ;
        assert(e * t >= 0) by (nonlinear_arith);
    }
}

proof fn lemma_errors_add_up(
    n: nat,
    f: nat,
    e: nat,
    t: nat,
    unit: nat,
    scale: nat,
    taken: nat,
    ideal: nat,
    exact: nat,
    value: nat,
    big: nat,
)
    requires
        unit > 0,
        0 < f <= i32::MAX,
        0 < e <= i32::MAX,
        0 < t <= i32::MAX,
        e * t <= f * i32::MAX,
        big == 0x20_0000_0000_0000,
        ideal == t * unit,
        taken == scale * f,
        exact == scale * e,
        big * (ideal - taken) <= taken,
        big * (taken - ideal) <= taken,
        taken <= 2 * ideal,
        big * (exact - value * 1) <= value * 1,
        big * (value * 1 - exact) <= value * 1,
        2 * (n * unit) <= 2 * value + unit,
        2 * value < 2 * (n * unit) + unit,
    ensures
        -f <= n * f - e * t <= f,
{
    let a = n * unit;
    let whole = f * unit;
    // Scaling the edge: e * ideal against f * value.
    let aim = e * ideal;
    let got = f * value;
    let mid = f * exact;
    assert(mid == e * taken) by (nonlinear_arith)
        requires
            mid == f * exact,
            exact == scale * e,
            taken == scale * f,
    ;
    assert(big * (aim - mid) <= mid && big * (mid - aim) <= mid) by (nonlinear_arith)
        requires
            mid == e * taken,
            aim == e * ideal,
            big * (ideal - taken) <= taken,
            big * (taken - ideal) <= taken,
            e > 0,
    ;
    assert(big * (mid - got) <= got && big * (got - mid) <= got) by (nonlinear_arith)
        requires
            mid == f * exact,
            got == f * value,
            big * (exact - value * 1) <= value * 1,
            big * (value * 1 - exact) <= value * 1,
            f > 0,
    ;
    assert(mid <= 2 * aim);
    assert(got <= 2 * mid);
    assert(big * (aim - got) <= 6 * aim && big * (got - aim) <= 6 * aim);
    assert(aim == (e * t) * unit) by (nonlinear_arith)
        requires
            aim == e * ideal,
            ideal == t * unit,
    ;
    assert(aim <= 0x8000_0000 * whole) by (nonlinear_arith)
        requires
            aim == (e * t) * unit,
            e * t <= f * 0x7fff_ffff,
            whole == f * unit,
    ;
    assert(8 * (aim - got) <= whole && 8 * (got - aim) <= whole);
    let reach = f * a;
    assert(2 * reach <= 2 * got + whole && 2 * got <= 2 * reach + whole) by (nonlinear_arith)
        requires
            reach == f * a,
            got == f * value,
            whole == f * unit,
            2 * a <= 2 * value + unit,
            2 * value <= 2 * a + unit,
    ;
    let off = n * f - e * t;
    assert(reach - aim == off * unit) by (nonlinear_arith)
        requires
            reach == f * a,
            a == n * unit,
            aim == (e * t) * unit,
            off == n * f - e * t,
    ;
    assert(-f <= off <= f) by (nonlinear_arith)
        requires
            -whole <= off * unit <= whole,
            whole == f * unit,
            unit > 0,
    ;
}

/// A preview has the shape of the image: both edges are scaled alike, to within a
/// pixel. An image that is small enough is shown as it is.
pub proof fn lemma_preview_keeps_its_shape(
    width: i32,
    height: i32,
    maximum: i32,
    size: Option<(i32, i32)>,
)
    requires
        width > 0,
        height > 0,
        maximum > 0,
        call_ensures(bounded_size, (width, height, maximum), size),
    ensures
        size is None <==> width <= maximum && height <= maximum,
        size matches Some((w, h)) ==> {
            &&& width >= height ==> w == maximum && -width <= h * width - height * maximum <= width
            &&& height >= width ==> h == maximum && -height <= w * height - width * maximum <= height
        },
{
    if width > maximum || height > maximum {
        let longest = longer(width as int, height as int);
        lemma_preview_is_bounded(width as int, height as int, maximum as int);
        assert(width * maximum <= longest * i32::MAX) by (nonlinear_arith)
            requires
                0 < width <= longest,
                0 < maximum <= i32::MAX,
        ;
        assert(height * maximum <= longest * i32::MAX) by (nonlinear_arith)
            requires
                0 < height <= longest,
                0 < maximum <= i32::MAX,
        ;
        lemma_scaled_is_near(width as int, maximum as int, longest);
        lemma_scaled_is_near(height as int, maximum as int, longest);
    }
}

/// A sheet has about as many rows as columns, and as few of both as hold all
/// images.
pub proof fn lemma_grids(count: int, columns: int, rows: int)
    requires
        is_grid(count, columns, rows),
        count > 0,
    ensures
        columns * columns >= count > (columns - 1) * (columns - 1),
        rows * columns >= count > (rows - 1) * columns,
        0 < rows <= columns,
{
    assert(rows > 0) by (nonlinear_arith)
        requires
            rows * columns >= count,
            count > 0,
            columns > 0,
    ;
    assert(rows <= columns) by (nonlinear_arith)
        requires
            count > (rows - 1) * columns,
            columns * columns >= count,
            columns > 0,
    ;
}

/// Images are put on a sheet row by row from the left, each in the middle of its
/// cell, with 16 pixels of space around it where there is room; a sheet is 1200
/// pixels wide and 900 high.
pub proof fn lemma_images_are_centred(
    columns: int,
    rows: int,
    index: int,
    width: int,
    height: int,
)
    requires
        0 < columns <= 1200,
        0 < rows <= 900,
        0 <= index,
        0 < width <= i32::MAX,
        0 < height <= i32::MAX,
    ensures
        ({
            let (x, y, w, h) = cell_for(columns, rows, index, width, height);
            let cell_width = 1200int / columns;
            let cell_height = 900int / rows;
            let left = (index % columns) * cell_width;
            let top = (index / columns) * cell_height;
            &&& -1 <= (x - left) - (left + cell_width - x - w) <= 1
            &&& -1 <= (y - top) - (top + cell_height - y - h) <= 1
        }),
        available(300) == 268,
        available(20) == 1,
{
    let (x, y, w, h) = cell_for(columns, rows, index, width, height);
}

/// Photos are numbered on a preview in a size that follows the shorter side of
/// the image, and lines are drawn twice as thick, but never thinner than two
/// pixels.
pub proof fn lemma_label_sizes(n: nat, thickness: i32)
    requires
        1 <= n <= 4,
        call_ensures(line_thickness, (arithmetic::whole(n) as u64,), thickness),
    ensures
        label_scale_of(1400 * n) == arithmetic::whole(n),
        label_scale_of(0) == 0x3fe6_6666_6666_6666,
        label_scale_of(1_000_000) == arithmetic::whole(4),
        thickness == 2 * n,
{
    assert(n * 1 == n && (2 * n) * 1 == 2 * n) by (nonlinear_arith);
    arithmetic::lemma_whole_results(n, 1400);
    arithmetic::lemma_whole_results(4, 1);
    arithmetic::lemma_whole_results(n, 2);
    arithmetic::lemma_whole_results(n, 1);
    arithmetic::lemma_whole_results(2 * n, 1);
    arithmetic::lemma_whole_results(0, 1400);
    arithmetic::lemma_whole_results(714, 1400);
    lemma2_to64();
    binary64::lemma_whole_number(MAX_LABEL_SCALE as nat, 2, 4);
    crate::decimals::lemma_whole_numbers_are_exact(4);
    crate::decimals::lemma_whole_numbers_are_exact(n);
    crate::decimals::lemma_whole_numbers_are_exact(0);
    lemma_same_units(arithmetic::whole(4), MAX_LABEL_SCALE as nat);
    lemma_pow2_pos(1074);
    lemma_wholes_in_order(n, 4);
    lemma_wholes_in_order(1, n);
    arithmetic::lemma_whole_results(1, 1);
    crate::decimals::lemma_whole_numbers_are_exact(1);
    binary64::lemma_whole_number(0x3ff0_0000_0000_0000, 0, 1);
    lemma_same_units(arithmetic::whole(1), 0x3ff0_0000_0000_0000);
    assert(0 * pow2(1074) == 0) by (nonlinear_arith);
    if arithmetic::whole(0) > 0 {
        binary64::lemma_units_increase(0, arithmetic::whole(0));
    }
    // A million is more than four times 1400.
    let many = arithmetic::quotient(arithmetic::whole(1_000_000), arithmetic::whole(1400));
    crate::decimals::lemma_whole_numbers_are_exact(1_000_000);
    crate::decimals::lemma_whole_numbers_are_exact(999_600);
    crate::decimals::lemma_whole_numbers_are_exact(1400);
    lemma_wholes_in_order(999_600, 1_000_000);
    assert(1400 * pow2(1074) > 0) by (nonlinear_arith)
        requires
            pow2(1074) > 0,
    ;
    arithmetic::lemma_arithmetic_is_monotone(
        arithmetic::whole(999_600),
        arithmetic::whole(1_000_000),
        arithmetic::whole(1400),
    );
    crate::decimals::lemma_whole_numbers_are_exact(714);
    lemma_wholes_in_order(4, 714);
    arithmetic::lemma_pixels(2 * n);
}

proof fn lemma_same_units(a: nat, b: nat)
    requires
        binary64::units(a) == binary64::units(b),
    ensures
        a == b,
{
    binary64::lemma_units_increase(a, b);
    binary64::lemma_units_increase(b, a);
}

proof fn lemma_wholes_in_order(m: nat, n: nat)
    requires
        m <= n <= u32::MAX,
    ensures
        arithmetic::whole(m) <= arithmetic::whole(n),
        m < n ==> arithmetic::whole(m) < arithmetic::whole(n),
{
    crate::decimals::lemma_whole_numbers_are_exact(m);
    crate::decimals::lemma_whole_numbers_are_exact(n);
    lemma_pow2_pos(1074);
    let unit = pow2(1074);
    assert(m * unit <= n * unit) by (nonlinear_arith)
        requires
            m <= n,
    ;
    if m < n {
        assert(m * unit < n * unit) by (nonlinear_arith)
            requires
                m < n,
                unit > 0,
        ;
        if arithmetic::whole(m) >= arithmetic::whole(n) {
            binary64::lemma_units_increase(arithmetic::whole(n), arithmetic::whole(m));
        }
    }
}

/// The number of a photo stands just inside the corner that is nearest to the
/// upper left, the first of those that are as near: eight pixels to the right of
/// it and 28 below.
pub proof fn lemma_label_places(corners: &Vec<(i32, i32)>, at: int, place: (i32, i32))
    requires
        0 <= at < corners@.len(),
        forall|i: int|
            0 <= i < at ==> corners@[at].0 + corners@[at].1 < #[trigger] corners@[i].0
                + corners@[i].1,
        forall|i: int|
            at < i < corners@.len() ==> corners@[at].0 + corners@[at].1 <= #[trigger] corners@[i].0
                + corners@[i].1,
        call_ensures(label_position, (corners,), place),
        corners@[at].0 + 8 <= i32::MAX,
        corners@[at].1 + 28 <= i32::MAX,
    ensures
        place.0 == corners@[at].0 + 8,
        place.1 == corners@[at].1 + 28,
{
    let found = choose|found: int| #[trigger]
        is_anchor(corners@, found) && place == (
            (corners@[found].0 + 8) as i32,
            (corners@[found].1 + 28) as i32,
        );
    assert(found == at) by {
        if found != at {
            assert(corners@[at].0 + corners@[at].1 <= corners@[found].0 + corners@[found].1);
            assert(corners@[found].0 + corners@[found].1 <= corners@[at].0 + corners@[at].1);
        }
    }
}

/// Without images there is no sheet; a single image is shown as it is; and two or
/// more are put on a sheet of its own name in the directory.
pub proof fn lemma_sheet_plans(images: &Vec<String>, directory: &str, plan: SheetPlan)
    requires
        call_ensures(compose_image_sheet, (images, directory), plan),
        directory@.len() > 0,
        directory@.last() != '/',
    ensures
        images@.len() == 0 ==> plan is Missing,
        images@.len() == 1 ==> (plan matches SheetPlan::Single(image) && image@ == images@[0]@),
        images@.len() >= 2 ==> (plan matches SheetPlan::Composed(file) && file@ == directory@ + "/"@
            + "overview_batch.jpg"@),
{
    i18n::lemma_joining(directory@, "overview_batch.jpg"@);
}

/// An image is made smaller exactly if one of its sides is longer than allowed.
pub proof fn lemma_small_images_are_kept(
    width: i32,
    height: i32,
    maximum: i32,
    size: Option<(i32, i32)>,
)
    requires
        width > 0,
        height > 0,
        maximum > 0,
        call_ensures(bounded_size, (width, height, maximum), size),
    ensures
        size is None <==> width <= maximum && height <= maximum,
{
}

} // verus!
