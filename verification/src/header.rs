//! Image dimensions from the first bytes of a PNG, JPEG or TIFF file, read
//! before the file is decoded.

use crate::splitter::SplitError;
use vstd::prelude::*;

verus! {

/// How far into a file its dimensions are looked for.
pub const MAX_IMAGE_HEADER_BYTES: usize = 16777216;

/// No byte at or after this position is ever looked at.
pub const MAX_HEADER_PREFIX: usize = 16777223;

/// What the bytes of an image file say about its size.
#[derive(Clone, Copy, Debug, PartialEq, Eq, Structural)]
pub enum Dimensions {
    /// Width and height in pixels.
    Known(u32, u32),
    /// The bytes follow no supported format, or say nothing within the limit.
    Unknown,
    /// The file ends where more bytes are needed.
    CutShort,
}

/// Two bytes as a number, the most significant byte first.
pub open spec fn be16(s: Seq<u8>, at: int) -> int {
    s[at] * 0x100 + s[at + 1]
}

/// Four bytes as a number, the most significant byte first.
pub open spec fn be32(s: Seq<u8>, at: int) -> int {
    be16(s, at) * 0x1_0000 + be16(s, at + 2)
}

/// Two bytes as a number in the given byte order.
pub open spec fn number16(s: Seq<u8>, at: int, little_endian: bool) -> int {
    if little_endian {
        s[at + 1] * 0x100 + s[at]
    } else {
        be16(s, at)
    }
}

/// Four bytes as a number in the given byte order.
pub open spec fn number32(s: Seq<u8>, at: int, little_endian: bool) -> int {
    if little_endian {
        number16(s, at + 2, true) * 0x1_0000 + number16(s, at, true)
    } else {
        be32(s, at)
    }
}

/// Reads two bytes in the given byte order.
pub fn read_u16(bytes: &[u8], at: usize, little_endian: bool) -> (r: u16)
    requires
        at + 2 <= bytes.len(),
    ensures
        r == number16(bytes@, at as int, little_endian),
{
    if little_endian {
        bytes[at + 1] as u16 * 0x100 + bytes[at] as u16
    } else {
        bytes[at] as u16 * 0x100 + bytes[at + 1] as u16
    }
}

/// Reads four bytes in the given byte order.
pub fn read_u32(bytes: &[u8], at: usize, little_endian: bool) -> (r: u32)
    requires
        at + 4 <= bytes.len(),
    ensures
        r == number32(bytes@, at as int, little_endian),
{
    let first: u32 = read_u16(bytes, at, little_endian) as u32;
    let second: u32 = read_u16(bytes, at + 2, little_endian) as u32;
    if little_endian {
        second * 0x1_0000 + first
    } else {
        first * 0x1_0000 + second
    }
}

/// The eight bytes every PNG file starts with.
pub open spec fn png_signature() -> Seq<u8> {
    seq![0x89, 0x50, 0x4e, 0x47, 0x0d, 0x0a, 0x1a, 0x0a]
}

/// Whether the bytes start like a PNG file.
pub open spec fn is_png(s: Seq<u8>) -> bool {
    s.len() >= 8 && s.take(8) == png_signature()
}

/// Whether the bytes start like a JPEG file.
pub open spec fn is_jpeg(s: Seq<u8>) -> bool {
    s.len() >= 2 && s[0] == 0xff && s[1] == 0xd8
}

/// Whether four bytes at a position are those of a chunk type.
pub open spec fn has_type(s: Seq<u8>, at: int, a: u8, b: u8, c: u8, d: u8) -> bool {
    s[at] == a && s[at + 1] == b && s[at + 2] == c && s[at + 3] == d
}

/// Tells whether the bytes start like a PNG file.
pub fn starts_as_png(bytes: &[u8]) -> (r: bool)
    ensures
        r == is_png(bytes@),
{
    if bytes.len() < 8 {
        return false;
    }
    let r = bytes[0] == 0x89 && bytes[1] == 0x50 && bytes[2] == 0x4e && bytes[3] == 0x47
        && bytes[4] == 0x0d && bytes[5] == 0x0a && bytes[6] == 0x1a && bytes[7] == 0x0a;
    proof {
        let head = bytes@.take(8);
        let signature = png_signature();
        if r {
            assert(head =~= signature);
        } else {
            assert forall|i: int| 0 <= i < 8 implies head[i] == bytes@[i] by {}
            if head == signature {
                assert(head[0] == signature[0] && head[1] == signature[1] && head[2]
                    == signature[2] && head[3] == signature[3] && head[4] == signature[4]
                    && head[5] == signature[5] && head[6] == signature[6] && head[7]
                    == signature[7]);
            }
        }
    }
    r
}

/// The first position from `from` on whose byte is 0xff, or is not.
pub open spec fn next_position(s: Seq<u8>, from: int, filler: bool) -> int
    decreases s.len() - from,
{
    if from >= s.len() || (s[from] == 0xff) == filler {
        from
    } else {
        next_position(s, from + 1, filler)
    }
}

/// The position of the marker code at or after `from`: the first byte that is
/// not 0xff behind the first 0xff.
pub open spec fn marker_position(s: Seq<u8>, from: int) -> int {
    next_position(s, next_position(s, from, true), false)
}

/// The markers that stand alone, without a length.
pub open spec fn is_bare_marker(marker: u8) -> bool {
    marker == 0xd8 || marker == 0x01 || 0xd0 <= marker <= 0xd7
}

/// The markers that open a frame header, which holds the dimensions.
pub open spec fn is_frame_marker(marker: u8) -> bool {
    0xc0 <= marker <= 0xcf && marker != 0xc4 && marker != 0xc8 && marker != 0xcc
}

/// The dimensions that the JPEG segments from `from` on give.
pub open spec fn jpeg_dimensions_from(s: Seq<u8>, from: int) -> Dimensions
    decreases MAX_IMAGE_HEADER_BYTES - from,
    via jpeg_decreases
{
    let at = marker_position(s, from);
    let length = be16(s, at + 1);
    if at >= MAX_IMAGE_HEADER_BYTES {
        Dimensions::Unknown
    } else if at >= s.len() {
        Dimensions::CutShort
    } else if s[at] == 0xd9 || s[at] == 0xda {
        Dimensions::Unknown
    } else if is_bare_marker(s[at]) {
        jpeg_dimensions_from(s, at + 1)
    } else if at + 3 > s.len() {
        Dimensions::CutShort
    } else if length < 2 {
        Dimensions::Unknown
    } else if is_frame_marker(s[at]) {
        if length < 7 {
            Dimensions::Unknown
        } else if at + 8 > s.len() {
            Dimensions::CutShort
        } else {
            Dimensions::Known(be16(s, at + 6) as u32, be16(s, at + 4) as u32)
        }
    } else if at + 1 + length <= MAX_IMAGE_HEADER_BYTES {
        jpeg_dimensions_from(s, at + 1 + length)
    } else {
        Dimensions::Unknown
    }
}

pub proof fn lemma_next_position(s: Seq<u8>, from: int, filler: bool)
    ensures
        next_position(s, from, filler) >= from,
        from <= s.len() ==> next_position(s, from, filler) <= s.len(),
        next_position(s, from, filler) < s.len() ==> (s[next_position(s, from, filler)] == 0xff)
            == filler,
        forall|i: int|
            from <= i < next_position(s, from, filler) ==> (#[trigger] s[i] == 0xff) != filler,
    decreases s.len() - from,
{
    if from < s.len() && (s[from] == 0xff) != filler {
        lemma_next_position(s, from + 1, filler);
    }
}

#[via_fn]
proof fn jpeg_decreases(s: Seq<u8>, from: int) {
    lemma_next_position(s, from, true);
    lemma_next_position(s, next_position(s, from, true), false);
}

/// What one entry of a TIFF directory adds to the dimensions found so far:
/// nothing where it cannot be used.
pub open spec fn tiff_entry_value(s: Seq<u8>, at: int, little_endian: bool) -> Option<int> {
    let kind = number16(s, at + 2, little_endian);
    if number32(s, at + 4, little_endian) != 1 {
        None
    } else if kind == 3 {
        Some(number16(s, at + 8, little_endian))
    } else if kind == 4 {
        Some(number32(s, at + 8, little_endian))
    } else {
        None
    }
}

/// The dimensions that `count` TIFF directory entries from `at` on give, where
/// `width` and `height` are known from the entries before them.
pub open spec fn tiff_entries(
    s: Seq<u8>,
    at: int,
    count: nat,
    little_endian: bool,
    width: Option<int>,
    height: Option<int>,
) -> Dimensions
    decreases count,
{
    let tag = number16(s, at, little_endian);
    let value = tiff_entry_value(s, at, little_endian);
    if width is Some && height is Some {
        Dimensions::Known(width->0 as u32, height->0 as u32)
    } else if count == 0 {
        Dimensions::Unknown
    } else if at + 12 > s.len() {
        Dimensions::CutShort
    } else if tag != 256 && tag != 257 {
        tiff_entries(s, at + 12, (count - 1) as nat, little_endian, width, height)
    } else if value is None {
        Dimensions::Unknown
    } else if tag == 256 {
        tiff_entries(s, at + 12, (count - 1) as nat, little_endian, value, height)
    } else {
        tiff_entries(s, at + 12, (count - 1) as nat, little_endian, width, value)
    }
}

/// Whether the bytes start with the little-endian TIFF mark.
pub open spec fn is_little_endian_tiff(s: Seq<u8>) -> bool {
    s[0] == 0x49 && s[1] == 0x49
}

/// Whether the bytes start with the big-endian TIFF mark.
pub open spec fn is_big_endian_tiff(s: Seq<u8>) -> bool {
    s[0] == 0x4d && s[1] == 0x4d
}

/// The dimensions that a TIFF file gives in its first directory.
pub open spec fn tiff_dimensions_of(s: Seq<u8>) -> Dimensions {
    let little_endian = is_little_endian_tiff(s);
    let directory = number32(s, 4, little_endian);
    let count = number16(s, directory, little_endian);
    if (!little_endian && !is_big_endian_tiff(s)) || number16(s, 2, little_endian) != 42 {
        Dimensions::Unknown
    } else if directory + 2 > MAX_IMAGE_HEADER_BYTES {
        Dimensions::Unknown
    } else if directory + 2 > s.len() {
        Dimensions::CutShort
    } else if directory + 2 + count * 12 > MAX_IMAGE_HEADER_BYTES {
        Dimensions::Unknown
    } else {
        tiff_entries(s, directory + 2, count as nat, little_endian, None, None)
    }
}

/// A stored number, if there is one.
pub open spec fn optional(value: Option<u32>) -> Option<int> {
    match value {
        Some(n) => Some(n as int),
        None => None,
    }
}

/// The dimensions that the bytes of a PNG, JPEG or TIFF file give.
pub open spec fn dimensions_of(s: Seq<u8>) -> Dimensions {
    if is_png(s) {
        if has_type(s, 12, 0x49, 0x48, 0x44, 0x52) {
            Dimensions::Known(be32(s, 16) as u32, be32(s, 20) as u32)
        } else {
            Dimensions::Unknown
        }
    } else if is_jpeg(s) {
        jpeg_dimensions_from(s, 2)
    } else if is_little_endian_tiff(s) || is_big_endian_tiff(s) {
        tiff_dimensions_of(s)
    } else {
        Dimensions::Unknown
    }
}

/// How far the search for the dimensions has come, and what has to be read next.
#[derive(Clone, Copy, Debug, PartialEq, Eq)]
pub enum HeaderStage {
    /// The first bytes, which tell the formats apart.
    Start,
    /// A byte of a JPEG file, to find the next 0xff.
    JpegSearch {
        /// Where it is.
        position: usize,
    },
    /// A byte of a JPEG file behind a 0xff, to find the marker code.
    JpegMarker {
        /// Where it is.
        position: usize,
    },
    /// The length of a JPEG segment.
    JpegLength {
        /// Where it is.
        position: usize,
        /// The marker code before it.
        marker: u8,
    },
    /// The dimensions in a JPEG frame header.
    JpegFrame {
        /// Where they are, with one byte before them.
        position: usize,
    },
    /// The number of entries of the TIFF directory.
    TiffCount {
        /// Where it is.
        directory: usize,
        /// Whether the least significant byte comes first.
        little_endian: bool,
    },
    /// An entry of the TIFF directory.
    TiffEntry {
        /// Where it is.
        at: usize,
        /// How many entries are left, with this one.
        left: u16,
        /// Whether the least significant byte comes first.
        little_endian: bool,
        /// The width, if it is known.
        width: Option<u32>,
        /// The height, if it is known.
        height: Option<u32>,
    },
    /// Nothing more: the dimensions, if the file gives them.
    Finished(Option<(u32, u32)>),
}

/// What a JPEG segment gives whose marker code stands at `at`.
pub open spec fn jpeg_segment(s: Seq<u8>, at: int, marker: u8) -> Dimensions {
    let length = be16(s, at + 1);
    if at + 3 > s.len() {
        Dimensions::CutShort
    } else if length < 2 {
        Dimensions::Unknown
    } else if is_frame_marker(marker) {
        if length < 7 {
            Dimensions::Unknown
        } else {
            jpeg_frame(s, at + 3)
        }
    } else if at + 1 + length <= MAX_IMAGE_HEADER_BYTES {
        jpeg_dimensions_from(s, at + 1 + length)
    } else {
        Dimensions::Unknown
    }
}

/// The dimensions in a JPEG frame header, behind its length.
pub open spec fn jpeg_frame(s: Seq<u8>, at: int) -> Dimensions {
    if at + 5 > s.len() {
        Dimensions::CutShort
    } else {
        Dimensions::Known(be16(s, at + 3) as u32, be16(s, at + 1) as u32)
    }
}

/// What a JPEG file gives from the marker code at `at` on.
pub open spec fn jpeg_marker(s: Seq<u8>, at: int) -> Dimensions {
    if at >= MAX_IMAGE_HEADER_BYTES {
        Dimensions::Unknown
    } else if at >= s.len() {
        Dimensions::CutShort
    } else if s[at] == 0xd9 || s[at] == 0xda {
        Dimensions::Unknown
    } else if is_bare_marker(s[at]) {
        jpeg_dimensions_from(s, at + 1)
    } else {
        jpeg_segment(s, at, s[at])
    }
}

/// What the directory of a TIFF file gives.
pub open spec fn tiff_directory(s: Seq<u8>, directory: int, little_endian: bool) -> Dimensions {
    let count = number16(s, directory, little_endian);
    if directory + 2 > s.len() {
        Dimensions::CutShort
    } else if directory + 2 + count * 12 > MAX_IMAGE_HEADER_BYTES {
        Dimensions::Unknown
    } else {
        tiff_entries(s, directory + 2, count as nat, little_endian, None, None)
    }
}

/// The search for the next 0xff from a position on, which may be at the limit.
pub open spec fn searched_from(position: int) -> HeaderStage {
    if position >= MAX_IMAGE_HEADER_BYTES {
        HeaderStage::Finished(None)
    } else {
        HeaderStage::JpegSearch { position: position as usize }
    }
}

/// The search for a marker code from a position on, which may be at the limit.
pub open spec fn marked_from(position: int) -> HeaderStage {
    if position >= MAX_IMAGE_HEADER_BYTES {
        HeaderStage::Finished(None)
    } else {
        HeaderStage::JpegMarker { position: position as usize }
    }
}

/// The stage at `left` entries of the TIFF directory from `at` on, where `width`
/// and `height` are known from the entries before them.
pub open spec fn listed_from(
    at: int,
    left: int,
    little_endian: bool,
    width: Option<u32>,
    height: Option<u32>,
) -> HeaderStage {
    if width is Some && height is Some {
        HeaderStage::Finished(Some((width->0, height->0)))
    } else if left <= 0 {
        HeaderStage::Finished(None)
    } else {
        HeaderStage::TiffEntry {
            at: at as usize,
            left: left as u16,
            little_endian,
            width,
            height,
        }
    }
}

/// The stage after the first bytes of a file.
pub open spec fn after_start(bytes: Seq<u8>) -> HeaderStage {
    let little_endian = is_little_endian_tiff(bytes);
    let directory = number32(bytes, 4, little_endian);
    if is_png(bytes) {
        if has_type(bytes, 12, 0x49, 0x48, 0x44, 0x52) {
            HeaderStage::Finished(Some((be32(bytes, 16) as u32, be32(bytes, 20) as u32)))
        } else {
            HeaderStage::Finished(None)
        }
    } else if is_jpeg(bytes) {
        searched_from(2)
    } else if !little_endian && !is_big_endian_tiff(bytes) {
        HeaderStage::Finished(None)
    } else if number16(bytes, 2, little_endian) != 42 || directory + 2 > MAX_IMAGE_HEADER_BYTES {
        HeaderStage::Finished(None)
    } else {
        HeaderStage::TiffCount { directory: directory as usize, little_endian }
    }
}

impl HeaderStage {
    /// Where the bytes are that have to be read.
    pub open spec fn offset(self) -> int {
        match self {
            HeaderStage::Start => 0,
            HeaderStage::JpegSearch { position } => position as int,
            HeaderStage::JpegMarker { position } => position as int,
            HeaderStage::JpegLength { position, marker } => position as int,
            HeaderStage::JpegFrame { position } => position as int,
            HeaderStage::TiffCount { directory, little_endian } => directory as int,
            HeaderStage::TiffEntry { at, left, little_endian, width, height } => at as int,
            HeaderStage::Finished(_) => 0,
        }
    }

    /// How many bytes have to be read.
    pub open spec fn count(self) -> int {
        match self {
            HeaderStage::Start => 24,
            HeaderStage::JpegSearch { position } => 1,
            HeaderStage::JpegMarker { position } => 1,
            HeaderStage::JpegLength { position, marker } => 2,
            HeaderStage::JpegFrame { position } => 5,
            HeaderStage::TiffCount { directory, little_endian } => 2,
            HeaderStage::TiffEntry { at, left, little_endian, width, height } => 12,
            HeaderStage::Finished(_) => 0,
        }
    }

    /// Whether the search is within the header limit.
    pub open spec fn well_formed(self) -> bool {
        match self {
            HeaderStage::Start => true,
            HeaderStage::JpegSearch { position } => 2 <= position < MAX_IMAGE_HEADER_BYTES,
            HeaderStage::JpegMarker { position } => 2 <= position < MAX_IMAGE_HEADER_BYTES,
            HeaderStage::JpegLength { position, marker } => 2 < position <= MAX_IMAGE_HEADER_BYTES,
            HeaderStage::JpegFrame { position } => 2 < position <= MAX_IMAGE_HEADER_BYTES + 2,
            HeaderStage::TiffCount { directory, little_endian } => directory + 2
                <= MAX_IMAGE_HEADER_BYTES,
            HeaderStage::TiffEntry { at, left, little_endian, width, height } => {
                &&& left > 0
                &&& at + left * 12 <= MAX_IMAGE_HEADER_BYTES
                &&& !(width is Some && height is Some)
            },
            HeaderStage::Finished(_) => true,
        }
    }

    /// How many reads there can be at most.
    pub open spec fn reads_left(self) -> nat {
        match self {
            HeaderStage::Start => (MAX_IMAGE_HEADER_BYTES + 10) as nat,
            HeaderStage::JpegSearch { position } => (MAX_IMAGE_HEADER_BYTES + 10 - position) as nat,
            HeaderStage::JpegMarker { position } => (MAX_IMAGE_HEADER_BYTES + 10 - position) as nat,
            HeaderStage::JpegLength { position, marker } => (MAX_IMAGE_HEADER_BYTES + 10
                - position) as nat,
            HeaderStage::JpegFrame { position } => (MAX_IMAGE_HEADER_BYTES + 10 - position) as nat,
            HeaderStage::TiffCount { directory, little_endian } => 0x1_0001,
            HeaderStage::TiffEntry { at, left, little_endian, width, height } => left as nat,
            HeaderStage::Finished(_) => 0,
        }
    }

    /// What a file with these bytes gives in the end.
    pub open spec fn promises(self, s: Seq<u8>) -> Dimensions {
        match self {
            HeaderStage::Start => dimensions_of(s),
            HeaderStage::JpegSearch { position } => jpeg_dimensions_from(s, position as int),
            HeaderStage::JpegMarker { position } => jpeg_marker(
                s,
                next_position(s, position as int, false),
            ),
            HeaderStage::JpegLength { position, marker } => jpeg_segment(s, position - 1, marker),
            HeaderStage::JpegFrame { position } => jpeg_frame(s, position as int),
            HeaderStage::TiffCount { directory, little_endian } => tiff_directory(
                s,
                directory as int,
                little_endian,
            ),
            HeaderStage::TiffEntry { at, left, little_endian, width, height } => tiff_entries(
                s,
                at as int,
                left as nat,
                little_endian,
                optional(width),
                optional(height),
            ),
            HeaderStage::Finished(Some((width, height))) => Dimensions::Known(width, height),
            HeaderStage::Finished(None) => Dimensions::Unknown,
        }
    }

    /// Whether a file with these bytes has those at the place that is asked for.
    pub open spec fn reads(self, s: Seq<u8>, bytes: Seq<u8>) -> bool {
        self.offset() + self.count() <= s.len() && bytes == s.subrange(
            self.offset(),
            self.offset() + self.count(),
        )
    }

    /// The stage after the bytes that were asked for.
    pub open spec fn after(self, bytes: Seq<u8>) -> HeaderStage {
        match self {
            HeaderStage::Start => after_start(bytes),
            HeaderStage::JpegSearch { position } => if bytes[0] == 0xff {
                marked_from(position + 1)
            } else {
                searched_from(position + 1)
            },
            HeaderStage::JpegMarker { position } => if bytes[0] == 0xff {
                marked_from(position + 1)
            } else if bytes[0] == 0xd9 || bytes[0] == 0xda {
                HeaderStage::Finished(None)
            } else if is_bare_marker(bytes[0]) {
                searched_from(position + 1)
            } else {
                HeaderStage::JpegLength { position: (position + 1) as usize, marker: bytes[0] }
            },
            HeaderStage::JpegLength { position, marker } => {
                let length = be16(bytes, 0);
                if length < 2 || is_frame_marker(marker) && length < 7 {
                    HeaderStage::Finished(None)
                } else if is_frame_marker(marker) {
                    HeaderStage::JpegFrame { position: (position + 2) as usize }
                } else {
                    searched_from(position + length)
                }
            },
            HeaderStage::JpegFrame { position } => HeaderStage::Finished(
                Some((be16(bytes, 3) as u32, be16(bytes, 1) as u32)),
            ),
            HeaderStage::TiffCount { directory, little_endian } => {
                let count = number16(bytes, 0, little_endian);
                if directory + 2 + count * 12 > MAX_IMAGE_HEADER_BYTES {
                    HeaderStage::Finished(None)
                } else {
                    listed_from(directory + 2, count, little_endian, None, None)
                }
            },
            HeaderStage::TiffEntry { at, left, little_endian, width, height } => {
                let tag = number16(bytes, 0, little_endian);
                let value = tiff_entry_value(bytes, 0, little_endian);
                if tag != 256 && tag != 257 {
                    listed_from(at + 12, left - 1, little_endian, width, height)
                } else if value is None {
                    HeaderStage::Finished(None)
                } else if tag == 256 {
                    listed_from(at + 12, left - 1, little_endian, Some(value->0 as u32), height)
                } else {
                    listed_from(at + 12, left - 1, little_endian, width, Some(value->0 as u32))
                }
            },
            HeaderStage::Finished(_) => self,
        }
    }

    /// Where the bytes are that have to be read, and how many they are.
    pub fn wanted(&self) -> (r: (usize, usize))
        ensures
            r.0 == self.offset(),
            r.1 == self.count(),
    {
        match *self {
            HeaderStage::Start => (0, 24),
            HeaderStage::JpegSearch { position } => (position, 1),
            HeaderStage::JpegMarker { position } => (position, 1),
            HeaderStage::JpegLength { position, marker: _ } => (position, 2),
            HeaderStage::JpegFrame { position } => (position, 5),
            HeaderStage::TiffCount { directory, little_endian: _ } => (directory, 2),
            HeaderStage::TiffEntry { at, .. } => (at, 12),
            HeaderStage::Finished(_) => (0, 0),
        }
    }

    /// Takes the bytes that were asked for.
    pub fn advance(self, bytes: &[u8]) -> (r: HeaderStage)
        requires
            self.well_formed(),
            bytes.len() == self.count(),
        ensures
            r == self.after(bytes@),
            r.well_formed(),
    {
        match self {
            HeaderStage::Start => start_step(bytes),
            HeaderStage::JpegSearch { position } => if bytes[0] == 0xff {
                marker_search(position + 1)
            } else {
                filler_search(position + 1)
            },
            HeaderStage::JpegMarker { position } => {
                let marker: u8 = bytes[0];
                if marker == 0xff {
                    marker_search(position + 1)
                } else if marker == 0xd9 || marker == 0xda {
                    HeaderStage::Finished(None)
                } else if marker == 0xd8 || marker == 0x01 || (0xd0 <= marker && marker <= 0xd7) {
                    filler_search(position + 1)
                } else {
                    HeaderStage::JpegLength { position: position + 1, marker }
                }
            },
            HeaderStage::JpegLength { position, marker } => {
                let length: usize = read_u16(bytes, 0, false) as usize;
                let frame = 0xc0 <= marker && marker <= 0xcf && marker != 0xc4 && marker != 0xc8
                    && marker != 0xcc;
                if length < 2 || (frame && length < 7) {
                    HeaderStage::Finished(None)
                } else if frame {
                    HeaderStage::JpegFrame { position: position + 2 }
                } else {
                    filler_search(position + length)
                }
            },
            HeaderStage::JpegFrame { position: _ } => {
                let height: u32 = read_u16(bytes, 1, false) as u32;
                let width: u32 = read_u16(bytes, 3, false) as u32;
                HeaderStage::Finished(Some((width, height)))
            },
            HeaderStage::TiffCount { directory, little_endian } => {
                let count: u16 = read_u16(bytes, 0, little_endian);
                if directory + 2 + count as usize * 12 > MAX_IMAGE_HEADER_BYTES {
                    HeaderStage::Finished(None)
                } else {
                    entry_search(directory + 2, count, little_endian, None, None)
                }
            },
            HeaderStage::TiffEntry { at, left, little_endian, width, height } => {
                let tag: u16 = read_u16(bytes, 0, little_endian);
                if tag != 256 && tag != 257 {
                    return entry_search(at + 12, left - 1, little_endian, width, height);
                }
                if read_u32(bytes, 4, little_endian) != 1 {
                    return HeaderStage::Finished(None);
                }
                let kind: u16 = read_u16(bytes, 2, little_endian);
                let value: u32 = if kind == 3 {
                    read_u16(bytes, 8, little_endian) as u32
                } else if kind == 4 {
                    read_u32(bytes, 8, little_endian)
                } else {
                    return HeaderStage::Finished(None);
                };
                if tag == 256 {
                    entry_search(at + 12, left - 1, little_endian, Some(value), height)
                } else {
                    entry_search(at + 12, left - 1, little_endian, width, Some(value))
                }
            },
            HeaderStage::Finished(_) => self,
        }
    }
}

fn filler_search(position: usize) -> (r: HeaderStage)
    requires
        2 <= position,
    ensures
        r == searched_from(position as int),
        r.well_formed(),
{
    if position >= MAX_IMAGE_HEADER_BYTES {
        HeaderStage::Finished(None)
    } else {
        HeaderStage::JpegSearch { position }
    }
}

fn marker_search(position: usize) -> (r: HeaderStage)
    requires
        2 <= position,
    ensures
        r == marked_from(position as int),
        r.well_formed(),
{
    if position >= MAX_IMAGE_HEADER_BYTES {
        HeaderStage::Finished(None)
    } else {
        HeaderStage::JpegMarker { position }
    }
}

fn entry_search(
    at: usize,
    left: u16,
    little_endian: bool,
    width: Option<u32>,
    height: Option<u32>,
) -> (r: HeaderStage)
    requires
        at + left * 12 <= MAX_IMAGE_HEADER_BYTES,
    ensures
        r == listed_from(at as int, left as int, little_endian, width, height),
        r.well_formed(),
{
    match (width, height) {
        (Some(width), Some(height)) => HeaderStage::Finished(Some((width, height))),
        _ => if left == 0 {
            HeaderStage::Finished(None)
        } else {
            HeaderStage::TiffEntry { at, left, little_endian, width, height }
        },
    }
}

fn start_step(bytes: &[u8]) -> (r: HeaderStage)
    requires
        bytes.len() == 24,
    ensures
        r == after_start(bytes@),
        r.well_formed(),
{
    if starts_as_png(bytes) {
        if bytes[12] == 0x49 && bytes[13] == 0x48 && bytes[14] == 0x44 && bytes[15] == 0x52 {
            HeaderStage::Finished(Some((read_u32(bytes, 16, false), read_u32(bytes, 20, false))))
        } else {
            HeaderStage::Finished(None)
        }
    } else if bytes[0] == 0xff && bytes[1] == 0xd8 {
        filler_search(2)
    } else {
        let little_endian = bytes[0] == 0x49 && bytes[1] == 0x49;
        if !little_endian && !(bytes[0] == 0x4d && bytes[1] == 0x4d) {
            return HeaderStage::Finished(None);
        }
        let directory: u32 = read_u32(bytes, 4, little_endian);
        if read_u16(bytes, 2, little_endian) != 42 || directory > MAX_IMAGE_HEADER_BYTES as u32
            - 2 {
            HeaderStage::Finished(None)
        } else {
            HeaderStage::TiffCount { directory: directory as usize, little_endian }
        }
    }
}

proof fn lemma_jpeg_from(s: Seq<u8>, from: int)
    ensures
        jpeg_dimensions_from(s, from) == jpeg_marker(s, marker_position(s, from)),
{
    lemma_next_position(s, from, true);
    lemma_next_position(s, next_position(s, from, true), false);
}

proof fn lemma_start_piece(stage: HeaderStage, s: Seq<u8>, bytes: Seq<u8>)
    requires
        stage.well_formed(),
        stage is Start,
        stage.reads(s, bytes),
    ensures
        stage.after(bytes).well_formed(),
        stage.after(bytes).promises(s) == stage.promises(s),
        stage.after(bytes).reads_left() < stage.reads_left(),
{
    let at = stage.offset();
    assert forall|i: int| 0 <= i < bytes.len() implies #[trigger] bytes[i] == s[at + i] by {}
    assert(bytes.take(8) =~= s.take(8));
    assert(number32(bytes, 4, true) == number32(s, 4, true));
    assert(number32(bytes, 4, false) == number32(s, 4, false));
}

proof fn lemma_jpeg_search_piece(stage: HeaderStage, s: Seq<u8>, bytes: Seq<u8>)
    requires
        stage.well_formed(),
        stage is JpegSearch,
        stage.reads(s, bytes),
    ensures
        stage.after(bytes).well_formed(),
        stage.after(bytes).promises(s) == stage.promises(s),
        stage.after(bytes).reads_left() < stage.reads_left(),
{
    let at = stage.offset();
    assert forall|i: int| 0 <= i < bytes.len() implies #[trigger] bytes[i] == s[at + i] by {}
    lemma_jpeg_from(s, at);
    lemma_jpeg_from(s, at + 1);
    lemma_next_position(s, at + 1, true);
    lemma_next_position(s, at + 1, false);
    lemma_next_position(s, next_position(s, at + 1, true), false);
}

proof fn lemma_jpeg_marker_piece(stage: HeaderStage, s: Seq<u8>, bytes: Seq<u8>)
    requires
        stage.well_formed(),
        stage is JpegMarker,
        stage.reads(s, bytes),
    ensures
        stage.after(bytes).well_formed(),
        stage.after(bytes).promises(s) == stage.promises(s),
        stage.after(bytes).reads_left() < stage.reads_left(),
{
    let at = stage.offset();
    assert forall|i: int| 0 <= i < bytes.len() implies #[trigger] bytes[i] == s[at + i] by {}
    lemma_jpeg_from(s, at + 1);
    lemma_next_position(s, at + 1, true);
    lemma_next_position(s, at + 1, false);
    lemma_next_position(s, next_position(s, at + 1, true), false);
}

proof fn lemma_jpeg_length_piece(stage: HeaderStage, s: Seq<u8>, bytes: Seq<u8>)
    requires
        stage.well_formed(),
        stage is JpegLength,
        stage.reads(s, bytes),
    ensures
        stage.after(bytes).well_formed(),
        stage.after(bytes).promises(s) == stage.promises(s),
        stage.after(bytes).reads_left() < stage.reads_left(),
{
    let at = stage.offset();
    assert forall|i: int| 0 <= i < bytes.len() implies #[trigger] bytes[i] == s[at + i] by {}
    let next = at + be16(s, at);
    lemma_jpeg_from(s, next);
    lemma_next_position(s, next, true);
    lemma_next_position(s, next_position(s, next, true), false);
}

proof fn lemma_tiff_count_piece(stage: HeaderStage, s: Seq<u8>, bytes: Seq<u8>)
    requires
        stage.well_formed(),
        stage is TiffCount,
        stage.reads(s, bytes),
    ensures
        stage.after(bytes).well_formed(),
        stage.after(bytes).promises(s) == stage.promises(s),
        stage.after(bytes).reads_left() < stage.reads_left(),
{
    let at = stage.offset();
    assert forall|i: int| 0 <= i < bytes.len() implies #[trigger] bytes[i] == s[at + i] by {}
}

proof fn lemma_tiff_entry_piece(stage: HeaderStage, s: Seq<u8>, bytes: Seq<u8>)
    requires
        stage.well_formed(),
        stage is TiffEntry,
        stage.reads(s, bytes),
    ensures
        stage.after(bytes).well_formed(),
        stage.after(bytes).promises(s) == stage.promises(s),
        stage.after(bytes).reads_left() < stage.reads_left(),
{
    let at = stage.offset();
    assert forall|i: int| 0 <= i < bytes.len() implies #[trigger] bytes[i] == s[at + i] by {}
    if let HeaderStage::TiffEntry { at: _, left, little_endian, width, height } = stage {
        assert(tiff_entry_value(bytes, 0, little_endian) == tiff_entry_value(
            s,
            at,
            little_endian,
        ));
        reveal_with_fuel(tiff_entries, 2);
    }
}

/// Reading the header in pieces gives what the whole file does: the bytes of a
/// file at the place that is asked for do not change what it gives in the end,
/// and there are fewer reads left.
pub proof fn lemma_pieces_give_the_whole(stage: HeaderStage, s: Seq<u8>, bytes: Seq<u8>)
    requires
        stage.well_formed(),
        !(stage is Finished),
        stage.reads(s, bytes),
    ensures
        stage.after(bytes).well_formed(),
        stage.after(bytes).promises(s) == stage.promises(s),
        stage.after(bytes).reads_left() < stage.reads_left(),
{
    match stage {
        HeaderStage::Start => lemma_start_piece(stage, s, bytes),
        HeaderStage::JpegSearch { .. } => lemma_jpeg_search_piece(stage, s, bytes),
        HeaderStage::JpegMarker { .. } => lemma_jpeg_marker_piece(stage, s, bytes),
        HeaderStage::JpegLength { .. } => lemma_jpeg_length_piece(stage, s, bytes),
        HeaderStage::TiffCount { .. } => lemma_tiff_count_piece(stage, s, bytes),
        HeaderStage::TiffEntry { .. } => lemma_tiff_entry_piece(stage, s, bytes),
        _ => {},
    }
}

/// A file that ends before the place that is asked for is cut short there, unless
/// it is not even as long as the first bytes.
pub proof fn lemma_missing_bytes_cut_short(stage: HeaderStage, s: Seq<u8>)
    requires
        stage.well_formed(),
        !(stage is Finished),
        !(stage is Start),
        stage.offset() + stage.count() > s.len(),
    ensures
        stage.promises(s) == Dimensions::CutShort,
{
    let at = stage.offset();
    if stage is JpegSearch {
        lemma_jpeg_from(s, at);
    }
}

/// The header is never read beyond its limit.
pub proof fn lemma_header_reads_are_limited(stage: HeaderStage)
    requires
        stage.well_formed(),
    ensures
        stage.offset() + stage.count() <= MAX_HEADER_PREFIX,
{
}

/// Width and height of the image whose file has these bytes.
pub fn image_dimensions(bytes: &[u8]) -> (r: Result<(u32, u32), SplitError>)
    ensures
        match r {
            Ok((width, height)) => bytes.len() >= 24 && dimensions_of(bytes@)
                == Dimensions::Known(width, height),
            Err(SplitError::InvalidConfig(message)) => {
                ||| bytes.len() < 24 && message@
                    == "Bildkopf konnte nicht gelesen werden: failed to fill whole buffer"@
                ||| bytes.len() >= 24 && dimensions_of(bytes@) == Dimensions::Unknown && message@
                    == "Bildabmessungen konnten vor dem Laden nicht sicher geprüft werden. Unterstützt werden PNG, JPEG und TIFF."@
            },
            Err(SplitError::Io(message)) => bytes.len() >= 24 && dimensions_of(bytes@)
                == Dimensions::CutShort && message@ == "failed to fill whole buffer"@,
            Err(_) => false,
        },
{
    if bytes.len() < 24 {
        return Err(
            SplitError::InvalidConfig(
                "Bildkopf konnte nicht gelesen werden: failed to fill whole buffer".to_string(),
            ),
        );
    }
    let mut stage = HeaderStage::Start;
    loop
        invariant
            bytes.len() >= 24,
            stage.well_formed(),
            stage.promises(bytes@) == dimensions_of(bytes@),
        decreases stage.reads_left(),
    {
        if let HeaderStage::Finished(dimensions) = stage {
            return match dimensions {
                Some(dimensions) => Ok(dimensions),
                None => Err(
                    SplitError::InvalidConfig(
                        "Bildabmessungen konnten vor dem Laden nicht sicher geprüft werden. Unterstützt werden PNG, JPEG und TIFF.".to_string(),
                    ),
                ),
            };
        }
        let (offset, count) = stage.wanted();
        proof {
            lemma_header_reads_are_limited(stage);
        }
        if offset + count > bytes.len() {
            proof {
                lemma_missing_bytes_cut_short(stage, bytes@);
            }
            return Err(SplitError::Io("failed to fill whole buffer".to_string()));
        }
        let piece = vstd::slice::slice_subrange(bytes, offset, offset + count);
        proof {
            lemma_pieces_give_the_whole(stage, bytes@, piece@);
        }
        stage = stage.advance(piece);
    }
}

proof fn lemma_next_position_in_prefix(s: Seq<u8>, limit: int, from: int, filler: bool)
    requires
        0 <= from,
        0 <= limit <= s.len(),
    ensures
        next_position(s, from, filler) < limit ==> next_position(s.take(limit), from, filler)
            == next_position(s, from, filler),
        next_position(s, from, filler) >= limit ==> next_position(s.take(limit), from, filler)
            >= limit,
    decreases s.len() - from,
{
    let t = s.take(limit);
    if from < limit {
        assert(t[from] == s[from]);
        if (s[from] == 0xff) != filler {
            lemma_next_position_in_prefix(s, limit, from + 1, filler);
        }
    } else {
        lemma_next_position(s, from, filler);
    }
}

proof fn lemma_marker_in_prefix(s: Seq<u8>, limit: int, from: int)
    requires
        0 <= from,
        0 <= limit <= s.len(),
    ensures
        marker_position(s, from) < limit ==> marker_position(s.take(limit), from)
            == marker_position(s, from),
        marker_position(s, from) >= limit ==> marker_position(s.take(limit), from) >= limit,
{
    let t = s.take(limit);
    let fill = next_position(s, from, true);
    lemma_next_position(s, from, true);
    lemma_next_position(s, fill, false);
    lemma_next_position_in_prefix(s, limit, from, true);
    if fill < limit {
        lemma_next_position_in_prefix(s, limit, fill, false);
    } else {
        lemma_next_position(t, next_position(t, from, true), false);
    }
}

proof fn lemma_jpeg_prefix(s: Seq<u8>, from: int)
    requires
        2 <= from <= MAX_IMAGE_HEADER_BYTES,
        s.len() >= MAX_HEADER_PREFIX,
    ensures
        jpeg_dimensions_from(s.take(MAX_HEADER_PREFIX as int), from) == jpeg_dimensions_from(
            s,
            from,
        ),
    decreases MAX_IMAGE_HEADER_BYTES - from,
{
    let t = s.take(MAX_HEADER_PREFIX as int);
    let at = marker_position(s, from);
    lemma_next_position(s, from, true);
    lemma_next_position(s, next_position(s, from, true), false);
    lemma_marker_in_prefix(s, MAX_HEADER_PREFIX as int, from);
    if at < MAX_IMAGE_HEADER_BYTES {
        assert forall|i: int| at <= i < at + 8 implies t[i] == s[i] by {}
        assert(be16(t, at + 1) == be16(s, at + 1));
        if is_bare_marker(s[at]) {
            lemma_jpeg_prefix(s, at + 1);
        } else if be16(s, at + 1) >= 2 && at + 1 + be16(s, at + 1) <= MAX_IMAGE_HEADER_BYTES {
            lemma_jpeg_prefix(s, at + 1 + be16(s, at + 1));
        }
    }
}

proof fn lemma_tiff_entries_prefix(
    s: Seq<u8>,
    at: int,
    count: nat,
    little_endian: bool,
    width: Option<int>,
    height: Option<int>,
)
    requires
        0 <= at,
        at + count * 12 <= MAX_IMAGE_HEADER_BYTES,
        s.len() >= MAX_HEADER_PREFIX,
    ensures
        tiff_entries(
            s.take(MAX_HEADER_PREFIX as int),
            at,
            count,
            little_endian,
            width,
            height,
        ) == tiff_entries(s, at, count, little_endian, width, height),
    decreases count,
{
    if count > 0 {
        let t = s.take(MAX_HEADER_PREFIX as int);
        assert forall|i: int| at <= i < at + 12 implies t[i] == s[i] by {}
        let value = tiff_entry_value(s, at, little_endian);
        assert(tiff_entry_value(t, at, little_endian) == value);
        let rest = (count - 1) as nat;
        lemma_tiff_entries_prefix(s, at + 12, rest, little_endian, width, height);
        lemma_tiff_entries_prefix(s, at + 12, rest, little_endian, value, height);
        lemma_tiff_entries_prefix(s, at + 12, rest, little_endian, width, value);
    }
}

/// The dimensions never depend on bytes behind the header limit: of a longer
/// file it is enough to read the first `MAX_HEADER_PREFIX` bytes.
pub proof fn lemma_header_prefix_suffices(s: Seq<u8>)
    requires
        s.len() >= MAX_HEADER_PREFIX,
    ensures
        dimensions_of(s.take(MAX_HEADER_PREFIX as int)) == dimensions_of(s),
{
    let t = s.take(MAX_HEADER_PREFIX as int);
    assert forall|i: int| 0 <= i < 24 implies t[i] == s[i] by {}
    assert(t.take(8) =~= s.take(8));
    if is_png(s) {
    } else if is_jpeg(s) {
        lemma_jpeg_prefix(s, 2);
    } else if is_little_endian_tiff(s) || is_big_endian_tiff(s) {
        let little_endian = is_little_endian_tiff(s);
        let directory = number32(s, 4, little_endian);
        assert(number32(t, 4, little_endian) == directory);
        if directory + 2 <= MAX_IMAGE_HEADER_BYTES {
            assert(t[directory] == s[directory] && t[directory + 1] == s[directory + 1]);
            let count = number16(s, directory, little_endian);
            if directory + 2 + count * 12 <= MAX_IMAGE_HEADER_BYTES {
                lemma_tiff_entries_prefix(
                    s,
                    directory + 2,
                    count as nat,
                    little_endian,
                    None,
                    None,
                );
            }
        }
    }
}

/// Numbers are read with the most significant byte first, or last where the
/// least significant one comes first.
pub proof fn lemma_byte_order(s: Seq<u8>, at: int)
    ensures
        number16(s, at, false) == 256 * s[at] + s[at + 1],
        number16(s, at, true) == s[at] + 256 * s[at + 1],
        number32(s, at, false) == 0x100_0000 * s[at] + 0x1_0000 * s[at + 1] + 0x100 * s[at + 2] + s[
        at + 3],
        number32(s, at, true) == s[at] + 0x100 * s[at + 1] + 0x1_0000 * s[at + 2] + 0x100_0000 * s[at
            + 3],
        be16(s, at) == 256 * s[at] + s[at + 1],
        be32(s, at) == 0x100_0000 * s[at] + 0x1_0000 * s[at + 1] + 0x100 * s[at + 2] + s[at + 3],
{
}

/// Whether the segment of a JPEG file behind this marker code holds something
/// else than the dimensions and is passed over by its length: it stands for
/// neither the start of a frame, nor the start or end of the image, nor the start
/// of the image data, nor a marker without a length.
pub open spec fn is_passed_over(marker: u8) -> bool {
    &&& marker != 0xff
    &&& marker != 0xd8
    &&& marker != 0xd9
    &&& marker != 0xda
    &&& marker != 0x01
    &&& !(marker == 0xd0 || marker == 0xd1 || marker == 0xd2 || marker == 0xd3 || marker == 0xd4
        || marker == 0xd5 || marker == 0xd6 || marker == 0xd7)
    &&& !starts_frame(marker)
}

/// Whether a marker code starts a frame, of whatever kind: baseline, extended,
/// progressive, lossless, and the hierarchical and arithmetic-coded ones.
pub open spec fn starts_frame(marker: u8) -> bool {
    ||| marker == 0xc0
    ||| marker == 0xc1
    ||| marker == 0xc2
    ||| marker == 0xc3
    ||| marker == 0xc5
    ||| marker == 0xc6
    ||| marker == 0xc7
    ||| marker == 0xc9
    ||| marker == 0xca
    ||| marker == 0xcb
    ||| marker == 0xcd
    ||| marker == 0xce
    ||| marker == 0xcf
}

/// Whether the segments of a JPEG file start at these places, one right behind
/// the other, and all but the last are passed over.
pub open spec fn has_segments(s: Seq<u8>, places: Seq<int>) -> bool {
    &&& places.len() > 0
    &&& s.len() >= 2 && s[0] == 0xff && s[1] == 0xd8
    &&& places[0] == 2
    &&& forall|i: int|
        #![trigger places[i]]
        0 <= i < places.len() - 1 ==> {
            &&& places[i] + 4 <= s.len()
            &&& s[places[i]] == 0xff
            &&& is_passed_over(s[places[i] + 1])
            &&& 256 * s[places[i] + 2] + s[places[i] + 3] >= 2
            &&& places[i + 1] == places[i] + 2 + 256 * s[places[i] + 2] + s[places[i] + 3]
        }
    &&& places.last() + 2 <= s.len()
    &&& places.last() + 1 < 16 * 1024 * 1024
    &&& s[places.last()] == 0xff
}

proof fn lemma_marker_here(s: Seq<u8>, at: int)
    requires
        0 <= at,
        at + 2 <= s.len(),
        s[at] == 0xff,
        s[at + 1] != 0xff,
    ensures
        jpeg_dimensions_from(s, at) == jpeg_marker(s, at + 1),
{
    lemma_jpeg_from(s, at);
    reveal_with_fuel(next_position, 2);
}

proof fn lemma_places_increase(s: Seq<u8>, places: Seq<int>, i: int)
    requires
        has_segments(s, places),
        0 <= i < places.len(),
    ensures
        2 <= places[i] <= places.last(),
    decreases places.len() - i,
{
    lemma_places_from_start(s, places, i);
    if i < places.len() - 1 {
        lemma_places_increase(s, places, i + 1);
    }
}

proof fn lemma_places_from_start(s: Seq<u8>, places: Seq<int>, i: int)
    requires
        has_segments(s, places),
        0 <= i < places.len(),
    ensures
        places[i] >= 2,
    decreases i,
{
    if i > 0 {
        lemma_places_from_start(s, places, i - 1);
        assert(places[i - 1 + 1] == places[i]);
    }
}

proof fn lemma_segments_are_passed_over(s: Seq<u8>, places: Seq<int>, i: int)
    requires
        has_segments(s, places),
        0 <= i < places.len(),
    ensures
        jpeg_dimensions_from(s, places[i]) == jpeg_dimensions_from(s, places.last()),
    decreases places.len() - i,
{
    if i < places.len() - 1 {
        let at = places[i];
        let next = places[i + 1];
        lemma_places_increase(s, places, i);
        lemma_places_increase(s, places, i + 1);
        lemma_marker_here(s, at);
        lemma_byte_order(s, at + 2);
        lemma_segments_are_passed_over(s, places, i + 1);
    }
}

/// A JPEG file has the dimensions in its first frame header, of whatever kind of
/// frame, behind any number of other segments.
pub proof fn lemma_frame_header_is_found(s: Seq<u8>, places: Seq<int>)
    requires
        has_segments(s, places),
        starts_frame(s[places.last() + 1]),
        256 * s[places.last() + 2] + s[places.last() + 3] >= 7,
        places.last() + 9 <= s.len(),
    ensures
        ({
            let at = places.last();
            dimensions_of(s) == Dimensions::Known(
                (256 * s[at + 7] + s[at + 8]) as u32,
                (256 * s[at + 5] + s[at + 6]) as u32,
            )
        }),
{
    let at = places.last();
    lemma_places_increase(s, places, places.len() - 1);
    lemma_segments_are_passed_over(s, places, 0);
    lemma_marker_here(s, at);
    lemma_byte_order(s, at + 2);
    lemma_byte_order(s, at + 5);
    lemma_byte_order(s, at + 7);
    assert(!is_png(s)) by {
        if is_png(s) {
            assert(s.take(8)[0] == png_signature()[0]);
        }
    }
}

/// A JPEG file whose image data or end comes before any frame header does not
/// give its dimensions.
pub proof fn lemma_no_frame_header(s: Seq<u8>, places: Seq<int>)
    requires
        has_segments(s, places),
        s[places.last() + 1] == 0xda || s[places.last() + 1] == 0xd9,
    ensures
        dimensions_of(s) == Dimensions::Unknown,
{
    let at = places.last();
    lemma_places_increase(s, places, places.len() - 1);
    lemma_segments_are_passed_over(s, places, 0);
    lemma_marker_here(s, at);
    assert(!is_png(s)) by {
        if is_png(s) {
            assert(s.take(8)[0] == png_signature()[0]);
        }
    }
}

/// Between the segments of a JPEG file, bytes that start no marker are passed
/// over, and so are the repeated first bytes of a marker and the markers without
/// a length.
pub proof fn lemma_filling_is_passed_over(s: Seq<u8>, at: int)
    requires
        0 <= at,
        at + 2 <= s.len(),
        at + 2 < 16 * 1024 * 1024,
    ensures
        s[at] != 0xff ==> jpeg_dimensions_from(s, at) == jpeg_dimensions_from(s, at + 1),
        s[at] == 0xff && s[at + 1] == 0xff ==> jpeg_dimensions_from(s, at) == jpeg_dimensions_from(
            s,
            at + 1,
        ),
        s[at] == 0xff && (s[at + 1] == 0xd8 || s[at + 1] == 0x01 || 0xd0 <= s[at + 1] <= 0xd7)
            ==> jpeg_dimensions_from(s, at) == jpeg_dimensions_from(s, at + 2),
{
    lemma_jpeg_from(s, at);
    lemma_jpeg_from(s, at + 1);
    lemma_jpeg_from(s, at + 2);
    if s[at] == 0xff && s[at + 1] != 0xff {
        lemma_marker_here(s, at);
    }
}

/// A PNG file has the dimensions in its first chunk, right behind the signature
/// and the chunk's type.
pub proof fn lemma_png_dimensions(s: Seq<u8>)
    requires
        s.len() >= 24,
        s[0] == 0x89 && s[1] == 0x50 && s[2] == 0x4e && s[3] == 0x47,
        s[4] == 0x0d && s[5] == 0x0a && s[6] == 0x1a && s[7] == 0x0a,
    ensures
        s[12] == 0x49 && s[13] == 0x48 && s[14] == 0x44 && s[15] == 0x52 ==> dimensions_of(s)
            == Dimensions::Known(
            (0x100_0000 * s[16] + 0x1_0000 * s[17] + 0x100 * s[18] + s[19]) as u32,
            (0x100_0000 * s[20] + 0x1_0000 * s[21] + 0x100 * s[22] + s[23]) as u32,
        ),
        !(s[12] == 0x49 && s[13] == 0x48 && s[14] == 0x44 && s[15] == 0x52) ==> dimensions_of(s)
            == Dimensions::Unknown,
{
    assert(s.take(8) =~= png_signature());
    lemma_byte_order(s, 16);
    lemma_byte_order(s, 20);
}

/// Whether an entry of a TIFF directory gives one number, in two or four bytes.
pub open spec fn tiff_entry_is(
    s: Seq<u8>,
    at: int,
    little_endian: bool,
    tag: int,
    value: int,
) -> bool {
    &&& number16(s, at, little_endian) == tag
    &&& number32(s, at + 4, little_endian) == 1
    &&& {
        ||| number16(s, at + 2, little_endian) == 3 && number16(s, at + 8, little_endian) == value
        ||| number16(s, at + 2, little_endian) == 4 && number32(s, at + 8, little_endian) == value
    }
}

proof fn lemma_tiff_entries_found(
    s: Seq<u8>,
    base: int,
    count: int,
    little_endian: bool,
    a: int,
    b: int,
    width: u32,
    height: u32,
    i: int,
)
    requires
        0 <= base,
        base + 12 * count <= s.len(),
        0 <= a < count,
        0 <= b < count,
        0 <= i <= count,
        i <= a || i <= b,
        tiff_entry_is(s, base + 12 * a, little_endian, 256, width as int),
        tiff_entry_is(s, base + 12 * b, little_endian, 257, height as int),
        forall|e: int|
            0 <= e < count && e != a && e != b ==> {
                let tag = number16(s, #[trigger] (base + 12 * e), little_endian);
                tag != 256 && tag != 257
            },
    ensures
        tiff_entries(
            s,
            base + 12 * i,
            (count - i) as nat,
            little_endian,
            if i > a {
                Some(width as int)
            } else {
                None
            },
            if i > b {
                Some(height as int)
            } else {
                None
            },
        ) == Dimensions::Known(width, height),
    decreases count - i,
{
    let at = base + 12 * i;
    assert(at == base + 12 * i);
    if i + 1 <= a || i + 1 <= b {
        lemma_tiff_entries_found(
            s,
            base,
            count,
            little_endian,
            a,
            b,
            width,
            height,
            i + 1,
        );
        assert(base + 12 * (i + 1) == at + 12);
    } else {
        reveal_with_fuel(tiff_entries, 2);
    }
}

/// A TIFF file, in either byte order, has the width and the height that the two
/// entries of its first directory give that are tagged so, in whichever order
/// and among whichever other entries they stand.
pub proof fn lemma_tiff_dimensions(
    s: Seq<u8>,
    little_endian: bool,
    directory: int,
    count: int,
    a: int,
    b: int,
    width: u32,
    height: u32,
)
    requires
        s.len() >= 8,
        little_endian ==> s[0] == 0x49 && s[1] == 0x49 && s[2] == 42 && s[3] == 0,
        !little_endian ==> s[0] == 0x4d && s[1] == 0x4d && s[2] == 0 && s[3] == 42,
        number32(s, 4, little_endian) == directory,
        directory + 2 <= s.len(),
        number16(s, directory, little_endian) == count,
        directory + 2 + 12 * count <= s.len(),
        directory + 2 + 12 * count <= 16 * 1024 * 1024,
        0 <= a < count,
        0 <= b < count,
        tiff_entry_is(s, directory + 2 + 12 * a, little_endian, 256, width as int),
        tiff_entry_is(s, directory + 2 + 12 * b, little_endian, 257, height as int),
        forall|e: int|
            0 <= e < count && e != a && e != b ==> {
                let tag = number16(s, #[trigger] (directory + 2 + 12 * e), little_endian);
                tag != 256 && tag != 257
            },
    ensures
        dimensions_of(s) == Dimensions::Known(width, height),
{
    assert(!is_png(s)) by {
        if is_png(s) {
            assert(s.take(8)[0] == png_signature()[0]);
        }
    }
    let base = directory + 2;
    assert forall|e: int| 0 <= e < count && e != a && e != b implies {
        let tag = number16(s, #[trigger] (base + 12 * e), little_endian);
        tag != 256 && tag != 257
    } by {
        assert(base + 12 * e == directory + 2 + 12 * e);
    }
    lemma_tiff_entries_found(s, base, count, little_endian, a, b, width, height, 0);
    assert(base + 12 * 0 == base);
}

/// What is neither PNG nor JPEG nor TIFF by its first bytes does not give its
/// dimensions.
pub proof fn lemma_other_files(s: Seq<u8>)
    requires
        s.len() >= 24,
        s[0] != 0x89,
        !(s[0] == 0xff && s[1] == 0xd8),
        !(s[0] == 0x49 && s[1] == 0x49),
        !(s[0] == 0x4d && s[1] == 0x4d),
    ensures
        dimensions_of(s) == Dimensions::Unknown,
{
    if is_png(s) {
        assert(s.take(8)[0] == png_signature()[0]);
    }
}

/// A file of fewer than 24 bytes has no header that can be read; a header that is
/// cut off is a failure to read it; and one without dimensions is told to be of an
/// unknown kind.
pub proof fn lemma_told_dimensions(bytes: &[u8], told: Result<(u32, u32), SplitError>)
    requires
        call_ensures(image_dimensions, (bytes,), told),
    ensures
        bytes@.len() < 24 ==> (told matches Err(SplitError::InvalidConfig(message)) && message@
            == "Bildkopf konnte nicht gelesen werden: failed to fill whole buffer"@),
        bytes@.len() >= 24 ==> match dimensions_of(bytes@) {
            Dimensions::Known(width, height) => told matches Ok(size) && size == (width, height),
            Dimensions::CutShort => told matches Err(error) && error is Io,
            Dimensions::Unknown => told matches Err(SplitError::InvalidConfig(message)) && message@
                == "Bildabmessungen konnten vor dem Laden nicht sicher geprüft werden. Unterstützt werden PNG, JPEG und TIFF."@,
        },
{
    assert(bytes.len() == bytes@.len());
}

} // verus!
