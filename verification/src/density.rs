//! Print resolution in the containers of PNG and JPEG files.

use crate::header;
use crate::splitter::{OutputFormat, SplitError};
use vstd::prelude::*;

verus! {

/// How many bytes of a file are searched for a resolution.
pub const DENSITY_PREFIX: usize = 1048576;

/// How many bytes the signature and the first chunk of a PNG file take.
pub const PNG_START: usize = 33;

/// The register of the checksum after so many binary digits have left it, each
/// one that was set taking the polynomial with it.
pub open spec fn crc_shifted(register: u32, digits: nat) -> u32
    decreases digits,
{
    if digits == 0 {
        register
    } else {
        let before = crc_shifted(register, (digits - 1) as nat);
        if before & 1 == 1 {
            (before >> 1) ^ 0xedb8_8320
        } else {
            before >> 1
        }
    }
}

/// The register of the checksum after some bytes: it starts with all digits set,
/// and each byte is added to its lowest eight, which then leave it.
pub open spec fn crc_register(data: Seq<u8>) -> u32
    decreases data.len(),
{
    if data.len() == 0 {
        0xffff_ffff
    } else {
        crc_shifted(crc_register(data.drop_last()) ^ (data.last() as u32), 8)
    }
}

/// The CRC-32 checksum of some bytes, as PNG and others use it: all digits of
/// the register inverted.
pub open spec fn crc32(data: Seq<u8>) -> u32 {
    crc_register(data) ^ 0xffff_ffff
}

/// `crc32fast::hash` gives the CRC-32 checksum with the polynomial of IEEE 802.3.
#[verifier::external_body]
fn checksum(data: &[u8]) -> (r: u32)
    ensures
        r == crc32(data@),
{
    crc32fast::hash(data)
}

/// Dots per inch as pixels per metre, rounded to the nearest whole number and
/// kept within 32 bits. An inch is 254 tenths of a millimetre.
pub open spec fn per_metre(dpi: nat) -> nat {
    let rounded = (dpi * 10000 + 127) / 254;
    if rounded <= u32::MAX {
        rounded
    } else {
        u32::MAX as nat
    }
}

/// Pixels per metre as dots per inch, rounded to the nearest whole number,
/// halves upwards.
pub open spec fn per_inch(pixels_per_metre: nat) -> nat {
    (pixels_per_metre * 254 + 5000) / 10000
}

/// The resolution that the PNG chunks from `at` on give: that of the first
/// usable `pHYs` chunk before the image data.
pub open spec fn png_density_from(s: Seq<u8>, at: int) -> Option<nat>
    decreases s.len() - at,
{
    let length = header::be32(s, at);
    if at < 0 || at + 12 > s.len() || length < 0 || at + 12 + length > s.len() {
        None
    } else if header::has_type(s, at + 4, 0x70, 0x48, 0x59, 0x73) && length >= 9 && s[at + 16] == 1 {
        Some(per_inch(header::be32(s, at + 8) as nat))
    } else if header::has_type(s, at + 4, 0x49, 0x44, 0x41, 0x54) {
        None
    } else {
        png_density_from(s, at + 12 + length)
    }
}

/// Whether the JFIF mark stands at a position.
pub open spec fn has_jfif(s: Seq<u8>, at: int) -> bool {
    at + 5 <= s.len() && header::has_type(s, at, 0x4a, 0x46, 0x49, 0x46) && s[at + 4] == 0
}

/// Whether `at` is the position of the first JFIF mark.
pub open spec fn is_first_jfif(s: Seq<u8>, at: int) -> bool {
    0 <= at && has_jfif(s, at) && forall|i: int| 0 <= i < at ==> !#[trigger] has_jfif(s, i)
}

/// Whether the first JFIF mark has all bytes of its resolution behind it.
pub open spec fn has_whole_jfif(s: Seq<u8>) -> bool {
    exists|at: int| #[trigger] is_first_jfif(s, at) && at + 12 <= s.len()
}

/// The resolution that the first bytes of an image file give.
pub open spec fn density_of(s: Seq<u8>) -> Option<nat> {
    if header::is_png(s) {
        png_density_from(s, 8)
    } else if header::is_jpeg(s) && exists|at: int|
        is_first_jfif(s, at) && at + 12 <= s.len() && s[at + 7] == 1 {
        let at = choose|at: int| is_first_jfif(s, at) && at + 12 <= s.len() && s[at + 7] == 1;
        Some(header::be16(s, at + 8) as nat)
    } else {
        None
    }
}

/// The position of the first JFIF mark.
fn jfif_position(bytes: &[u8]) -> (r: Option<usize>)
    ensures
        match r {
            Some(at) => is_first_jfif(bytes@, at as int),
            None => forall|i: int| 0 <= i ==> !#[trigger] has_jfif(bytes@, i),
        },
{
    if bytes.len() < 5 {
        return None;
    }
    let mut at: usize = 0;
    while at <= bytes.len() - 5
        invariant
            5 <= bytes.len(),
            at <= bytes.len() - 4,
            forall|i: int| 0 <= i < at ==> !#[trigger] has_jfif(bytes@, i),
        decreases bytes.len() - at,
    {
        if bytes[at] == 0x4a && bytes[at + 1] == 0x46 && bytes[at + 2] == 0x49 && bytes[at + 3]
            == 0x46 && bytes[at + 4] == 0 {
            return Some(at);
        }
        at += 1;
    }
    None
}

proof fn lemma_first_jfif_unique(s: Seq<u8>, a: int, b: int)
    requires
        is_first_jfif(s, a),
        is_first_jfif(s, b),
    ensures
        a == b,
{
    if a < b {
        assert(!has_jfif(s, a));
    }
    if b < a {
        assert(!has_jfif(s, b));
    }
}

/// The resolution in the first bytes of an image file, in dots per inch.
pub fn container_dpi(prefix: &[u8]) -> (r: Option<u32>)
    ensures
        match r {
            Some(dpi) => density_of(prefix@) == Some(dpi as nat),
            None => density_of(prefix@) is None,
        },
{
    if header::starts_as_png(prefix) {
        let mut at: usize = 8;
        while prefix.len() >= 12 && at <= prefix.len() - 12
            invariant
                8 <= at <= prefix.len(),
                header::is_png(prefix@),
                density_of(prefix@) == png_density_from(prefix@, at as int),
            decreases prefix.len() - at,
        {
            let length: u32 = header::read_u32(prefix, at, false);
            if length as usize > prefix.len() - at - 12 {
                return None;
            }
            let length: usize = length as usize;
            if prefix[at + 4] == 0x70 && prefix[at + 5] == 0x48 && prefix[at + 6] == 0x59
                && prefix[at + 7] == 0x73 && length >= 9 && prefix[at + 16] == 1 {
                let pixels_per_metre: u32 = header::read_u32(prefix, at + 8, false);
                let dpi: u64 = (pixels_per_metre as u64 * 254 + 5000) / 10000;
                return Some(dpi as u32);
            }
            if prefix[at + 4] == 0x49 && prefix[at + 5] == 0x44 && prefix[at + 6] == 0x41
                && prefix[at + 7] == 0x54 {
                return None;
            }
            at = at + 12 + length;
        }
        return None;
    }
    if prefix.len() >= 2 && prefix[0] == 0xff && prefix[1] == 0xd8 {
        if let Some(at) = jfif_position(prefix) {
            if prefix.len() - at >= 12 && prefix[at + 7] == 1 {
                proof {
                    let chosen = choose|p: int|
                        is_first_jfif(prefix@, p) && p + 12 <= prefix@.len() && prefix@[p + 7] == 1;
                    lemma_first_jfif_unique(prefix@, at as int, chosen);
                }
                return Some(header::read_u16(prefix, at + 8, false) as u32);
            }
            proof {
                assert forall|p: int| is_first_jfif(prefix@, p) implies !(p + 12 <= prefix@.len()
                    && prefix@[p + 7] == 1) by {
                    lemma_first_jfif_unique(prefix@, at as int, p);
                }
            }
        }
    }
    None
}

/// Five bytes that replace those of a file from `offset` on.
#[derive(Clone, Copy, Debug)]
pub struct DensityPatch {
    /// Where the first replaced byte stands.
    pub offset: usize,
    /// The unit, then the horizontal and the vertical resolution.
    pub bytes: [u8; 5],
}

/// The bytes of a file after a patch.
pub open spec fn patched(s: Seq<u8>, patch: DensityPatch) -> Seq<u8> {
    s.take(patch.offset as int) + patch.bytes@ + s.skip(patch.offset + 5)
}

/// The resolution a JPEG file can hold for a wanted one.
pub open spec fn jpeg_density(dpi: u32) -> nat {
    if dpi <= u16::MAX {
        dpi as nat
    } else {
        u16::MAX as nat
    }
}

/// The bytes of a JFIF density in dots per inch.
pub open spec fn jfif_density(dpi: u32) -> Seq<u8> {
    let high = (jpeg_density(dpi) / 256) as u8;
    let low = (jpeg_density(dpi) % 256) as u8;
    seq![1, high, low, high, low]
}

/// Where and how the first bytes of a JPEG file change to hold a resolution.
/// A file without a complete JFIF header stays as it is.
pub fn write_jpeg_density(prefix: &[u8], dpi: u32) -> (r: Option<DensityPatch>)
    ensures
        match r {
            Some(patch) => {
                &&& patch.offset >= 7
                &&& is_first_jfif(prefix@, patch.offset - 7)
                &&& patch.offset + 5 <= prefix.len()
                &&& patch.bytes@ == jfif_density(dpi)
            },
            None => forall|at: int|
                #[trigger] is_first_jfif(prefix@, at) ==> at + 12 > prefix.len(),
        },
{
    match jfif_position(prefix) {
        None => {
            assert forall|at: int| #[trigger] is_first_jfif(prefix@, at) implies at + 12
                > prefix.len() by {
                assert(!has_jfif(prefix@, at));
            }
            None
        },
        Some(at) => {
            if prefix.len() - at < 12 {
                proof {
                    assert forall|p: int| #[trigger] is_first_jfif(prefix@, p) implies p + 12
                        > prefix.len() by {
                        lemma_first_jfif_unique(prefix@, p, at as int);
                    }
                }
                return None;
            }
            let density: u32 = if dpi <= 0xffff {
                dpi
            } else {
                0xffff
            };
            let high: u8 = (density / 256) as u8;
            let low: u8 = (density % 256) as u8;
            let bytes: [u8; 5] = [1, high, low, high, low];
            assert(bytes@ =~= jfif_density(dpi));
            Some(DensityPatch { offset: at + 7, bytes })
        },
    }
}

/// A resolution written into a JPEG file is read back from it, as far as
/// sixteen bits can hold it, and no other byte of the file changes.
pub proof fn lemma_jpeg_density_read_back(s: Seq<u8>, patch: DensityPatch, dpi: u32)
    requires
        header::is_jpeg(s),
        patch.offset >= 7,
        is_first_jfif(s, patch.offset - 7),
        patch.offset + 5 <= s.len(),
        patch.bytes@ == jfif_density(dpi),
    ensures
        density_of(patched(s, patch)) == Some(jpeg_density(dpi)),
        patched(s, patch).len() == s.len(),
        forall|i: int|
            0 <= i < s.len() && !(patch.offset <= i < patch.offset + 5) ==> #[trigger] patched(
                s,
                patch,
            )[i] == s[i],
{
    let t = patched(s, patch);
    let at = patch.offset - 7;
    assert forall|i: int| 0 <= i < s.len() && !(patch.offset <= i < patch.offset + 5) implies t[i]
        == s[i] by {}
    assert(t[at + 7] == jfif_density(dpi)[0]);
    assert(t[at + 8] == jfif_density(dpi)[1]);
    assert(t[at + 9] == jfif_density(dpi)[2]);
    assert(has_jfif(t, at));
    assert forall|i: int| 0 <= i < at implies !#[trigger] has_jfif(t, i) by {
        assert(!has_jfif(s, i));
    }
    assert(is_first_jfif(t, at));
    assert(!header::is_png(t)) by {
        if header::is_png(t) {
            assert(t.take(8)[0] == header::png_signature()[0]);
        }
    }
    let chosen = choose|p: int| is_first_jfif(t, p) && p + 12 <= t.len() && t[p + 7] == 1;
    lemma_first_jfif_unique(t, at, chosen);
}

/// Four bytes of a number, the most significant byte first.
pub open spec fn be32_bytes(n: nat) -> Seq<u8> {
    seq![
        (n / 0x100_0000 % 256) as u8,
        (n / 0x1_0000 % 256) as u8,
        (n / 0x100 % 256) as u8,
        (n % 256) as u8,
    ]
}

/// Appends the four bytes of a number, the most significant byte first.
fn push_be32(out: &mut Vec<u8>, n: u32)
    ensures
        final(out)@ == old(out)@ + be32_bytes(n as nat),
{
    let ghost before = out@;
    out.push((n / 0x100_0000 % 256) as u8);
    out.push((n / 0x1_0000 % 256) as u8);
    out.push((n / 0x100 % 256) as u8);
    out.push((n % 256) as u8);
    assert(out@ =~= before + be32_bytes(n as nat));
}

/// Type and contents of the PNG chunk that holds a resolution.
pub open spec fn png_density_data(dpi: u32) -> Seq<u8> {
    seq![0x70u8, 0x48, 0x59, 0x73] + be32_bytes(per_metre(dpi as nat)) + be32_bytes(
        per_metre(dpi as nat),
    ) + seq![1u8]
}

/// The whole PNG chunk that holds a resolution.
pub open spec fn png_density_chunk(dpi: u32) -> Seq<u8> {
    be32_bytes(9) + png_density_data(dpi) + be32_bytes(crc32(png_density_data(dpi)) as nat)
}

/// Whether the bytes start with a PNG signature and an image header chunk.
pub open spec fn has_png_header(s: Seq<u8>) -> bool {
    s.len() >= 33 && header::is_png(s) && header::has_type(s, 12, 0x49, 0x48, 0x44, 0x52)
}

/// The bytes of a PNG file with a resolution put in behind its image header.
pub open spec fn with_png_density(s: Seq<u8>, dpi: u32) -> Seq<u8> {
    s.take(33) + png_density_chunk(dpi) + s.skip(33)
}

/// The bytes that take the place of the first 33 of a PNG file so that it holds
/// a resolution, or nothing where the file is no PNG file.
pub fn write_png_density(prefix: &[u8], dpi: u32) -> (r: Result<Option<Vec<u8>>, SplitError>)
    ensures
        match r {
            Ok(Some(start)) => has_png_header(prefix@) && start@ == prefix@.take(33)
                + png_density_chunk(dpi),
            Ok(None) => prefix.len() >= 33 && !has_png_header(prefix@),
            Err(SplitError::Io(message)) => prefix.len() < 33 && message@
                == "failed to fill whole buffer"@,
            Err(_) => false,
        },
{
    if prefix.len() < 33 {
        return Err(SplitError::Io("failed to fill whole buffer".to_string()));
    }
    if !header::starts_as_png(prefix) || !(prefix[12] == 0x49 && prefix[13] == 0x48 && prefix[14]
        == 0x44 && prefix[15] == 0x52) {
        return Ok(None);
    }
    let rounded: u64 = (dpi as u64 * 10000 + 127) / 254;
    let pixels_per_metre: u32 = if rounded <= u32::MAX as u64 {
        rounded as u32
    } else {
        u32::MAX
    };
    let mut data: Vec<u8> = Vec::new();
    data.push(0x70);
    data.push(0x48);
    data.push(0x59);
    data.push(0x73);
    assert(data@ =~= seq![0x70u8, 0x48, 0x59, 0x73]);
    push_be32(&mut data, pixels_per_metre);
    push_be32(&mut data, pixels_per_metre);
    data.push(1);
    assert(data@ =~= png_density_data(dpi));
    let crc: u32 = checksum(&data);

    let mut start: Vec<u8> = Vec::new();
    let mut i: usize = 0;
    while i < 33
        invariant
            i <= 33 <= prefix.len(),
            start@ == prefix@.take(i as int),
        decreases 33 - i,
    {
        assert(prefix@.take(i + 1) =~= prefix@.take(i as int).push(prefix@[i as int]));
        start.push(prefix[i]);
        i += 1;
    }
    push_be32(&mut start, 9);
    let ghost before = start@;
    let mut i: usize = 0;
    assert(before + data@.take(0) =~= before);
    while i < data.len()
        invariant
            i <= data.len(),
            start@ == before + data@.take(i as int),
        decreases data.len() - i,
    {
        assert(before + data@.take(i + 1) =~= (before + data@.take(i as int)).push(data@[i as int]));
        start.push(data[i]);
        i += 1;
    }
    assert(data@.take(data@.len() as int) =~= data@);
    push_be32(&mut start, crc);
    assert(start@ =~= prefix@.take(33) + png_density_chunk(dpi));
    Ok(Some(start))
}

proof fn lemma_be32_bytes_read_back(s: Seq<u8>, at: int, n: nat)
    requires
        n <= u32::MAX,
        0 <= at,
        at + 4 <= s.len(),
        s.subrange(at, at + 4) == be32_bytes(n),
    ensures
        header::be32(s, at) == n,
{
    let b = be32_bytes(n);
    let part = s.subrange(at, at + 4);
    assert(part[0] == s[at] && part[1] == s[at + 1] && part[2] == s[at + 2] && part[3]
        == s[at + 3]);
    assert(n == (n / 0x100_0000 % 256) * 0x100_0000 + (n / 0x1_0000 % 256) * 0x1_0000 + (n / 0x100
        % 256) * 0x100 + n % 256);
}

/// Every resolution that fits the unit of a PNG file survives the conversion to
/// pixels per metre and back.
pub proof fn lemma_per_metre_read_back(dpi: nat)
    requires
        (dpi * 10000 + 127) / 254 <= u32::MAX,
    ensures
        per_inch(per_metre(dpi)) == dpi,
{
}

/// A resolution written into a PNG file is read back from it.
pub proof fn lemma_png_density_read_back(s: Seq<u8>, dpi: u32)
    requires
        has_png_header(s),
        header::be32(s, 8) == 13,
        (dpi * 10000 + 127) / 254 <= u32::MAX,
    ensures
        density_of(with_png_density(s, dpi)) == Some(dpi as nat),
{
    let t = with_png_density(s, dpi);
    let data = png_density_data(dpi);
    let chunk = png_density_chunk(dpi);
    assert(data.len() == 13 && chunk.len() == 21);
    assert forall|i: int| 0 <= i < 33 implies t[i] == s[i] by {}
    assert forall|i: int| 0 <= i < 21 implies t[33 + i] == chunk[i] by {}
    assert(t.take(8) =~= s.take(8));
    assert(chunk.subrange(4, 17) =~= data);
    assert(t.subrange(33, 37) =~= be32_bytes(9));
    assert(t.subrange(41, 45) =~= be32_bytes(per_metre(dpi as nat))) by {
        assert(data.subrange(4, 8) =~= be32_bytes(per_metre(dpi as nat)));
        assert forall|i: int| 0 <= i < 13 implies t[37 + i] == data[i] by {
            assert(chunk[4 + i] == data[i]);
        }
    }
    lemma_be32_bytes_read_back(t, 33, 9);
    lemma_be32_bytes_read_back(t, 41, per_metre(dpi as nat));
    assert(t[37] == data[0] && t[38] == data[1] && t[39] == data[2] && t[40] == data[3]) by {
        assert(chunk[4] == data[0] && chunk[5] == data[1] && chunk[6] == data[2] && chunk[7]
            == data[3]);
    }
    assert(t[49] == 1) by {
        assert(chunk[16] == data[12]);
    }
    assert(header::has_type(t, 37, 0x70, 0x48, 0x59, 0x73));
    assert(header::be32(t, 8) == 13);
    assert(header::has_type(t, 12, 0x49, 0x48, 0x44, 0x52));
    lemma_per_metre_read_back(dpi as nat);
    assert(png_density_from(t, 33) == Some(dpi as nat));
    assert(png_density_from(t, 8) == png_density_from(t, 33));
}

/// Writing a resolution into a PNG file leaves its dimensions as they are.
pub proof fn lemma_png_density_keeps_dimensions(s: Seq<u8>, dpi: u32)
    requires
        has_png_header(s),
    ensures
        header::dimensions_of(with_png_density(s, dpi)) == header::dimensions_of(s),
{
    let t = with_png_density(s, dpi);
    assert forall|i: int| 0 <= i < 33 implies t[i] == s[i] by {}
    assert(t.take(8) =~= s.take(8));
}

/// How the bytes of a file change so that it holds a resolution.
#[derive(Debug)]
pub enum DensityChange {
    /// They stay as they are.
    Unchanged,
    /// Some of them are replaced.
    Patch(DensityPatch),
    /// The first 33 are replaced by these.
    Start(Vec<u8>),
}

/// How a file of the given format, which starts with `prefix`, changes so that
/// its container holds a resolution. TIFF files get theirs when they are written.
pub fn write_container_dpi(prefix: &[u8], format: OutputFormat, dpi: u32) -> (r: Result<
    DensityChange,
    SplitError,
>)
    ensures
        match r {
            Ok(DensityChange::Unchanged) => match format {
                OutputFormat::Tiff => true,
                OutputFormat::Png => prefix.len() >= 33 && !has_png_header(prefix@),
                OutputFormat::Jpeg => forall|at: int|
                    #[trigger] is_first_jfif(prefix@, at) ==> at + 12 > prefix.len(),
            },
            Ok(DensityChange::Patch(patch)) => {
                &&& format == OutputFormat::Jpeg
                &&& patch.offset >= 7
                &&& is_first_jfif(prefix@, patch.offset - 7)
                &&& patch.offset + 5 <= prefix.len()
                &&& patch.bytes@ == jfif_density(dpi)
            },
            Ok(DensityChange::Start(start)) => format == OutputFormat::Png && has_png_header(
                prefix@,
            ) && start@ == prefix@.take(33) + png_density_chunk(dpi),
            Err(SplitError::Io(message)) => format == OutputFormat::Png && prefix.len() < 33
                && message@ == "failed to fill whole buffer"@,
            Err(_) => false,
        },
        format == OutputFormat::Jpeg && has_whole_jfif(prefix@) ==> r matches Ok(
            DensityChange::Patch(_),
        ),
{
    match format {
        OutputFormat::Jpeg => match write_jpeg_density(prefix, dpi) {
            Some(patch) => Ok(DensityChange::Patch(patch)),
            None => Ok(DensityChange::Unchanged),
        },
        OutputFormat::Png => match write_png_density(prefix, dpi) {
            Ok(Some(start)) => Ok(DensityChange::Start(start)),
            Ok(None) => Ok(DensityChange::Unchanged),
            Err(error) => Err(error),
        },
        OutputFormat::Tiff => Ok(DensityChange::Unchanged),
    }
}

/// Whether the chunks of a PNG file start at these places, each complete and
/// right behind the one before, and all but the last are neither image data nor
/// a resolution in pixels per metre.
pub open spec fn has_chunks(s: Seq<u8>, places: Seq<int>) -> bool {
    &&& s.len() >= 8
    &&& s[0] == 0x89 && s[1] == 0x50 && s[2] == 0x4e && s[3] == 0x47
    &&& s[4] == 0x0d && s[5] == 0x0a && s[6] == 0x1a && s[7] == 0x0a
    &&& places.len() > 0
    &&& places[0] == 8
    &&& forall|i: int|
        #![trigger places[i]]
        0 <= i < places.len() - 1 ==> {
            let at = places[i];
            let length = 0x100_0000 * s[at] + 0x1_0000 * s[at + 1] + 0x100 * s[at + 2] + s[at + 3];
            &&& places[i + 1] == at + 12 + length
            &&& places[i + 1] <= s.len()
            &&& !(s[at + 4] == 'I' as u8 && s[at + 5] == 'D' as u8 && s[at + 6] == 'A' as u8
                && s[at + 7] == 'T' as u8)
            &&& !(s[at + 4] == 'p' as u8 && s[at + 5] == 'H' as u8 && s[at + 6] == 'Y' as u8
                && s[at + 7] == 's' as u8 && length >= 9 && s[at + 16] == 1)
        }
}

proof fn lemma_chunks_are_passed_over(s: Seq<u8>, places: Seq<int>, i: int)
    requires
        has_chunks(s, places),
        0 <= i < places.len(),
    ensures
        places[i] >= 8,
        png_density_from(s, 8) == png_density_from(s, places[i]),
    decreases i,
{
    if i > 0 {
        lemma_chunks_are_passed_over(s, places, i - 1);
        assert(places[i - 1 + 1] == places[i]);
        header::lemma_byte_order(s, places[i - 1]);
    }
}

/// A PNG file has the resolution that its first usable chunk for it gives before
/// the image data, behind any number of other chunks: the pixels per metre in
/// inches, to the nearest whole number.
pub proof fn lemma_resolution_chunk_is_found(s: Seq<u8>, places: Seq<int>)
    requires
        has_chunks(s, places),
        places.last() + 12 <= s.len(),
        ({
            let at = places.last();
            let length = 0x100_0000 * s[at] + 0x1_0000 * s[at + 1] + 0x100 * s[at + 2] + s[at + 3];
            &&& length >= 9
            &&& at + 12 + length <= s.len()
            &&& s[at + 4] == 'p' as u8 && s[at + 5] == 'H' as u8 && s[at + 6] == 'Y' as u8
                && s[at + 7] == 's' as u8
            &&& s[at + 16] == 1
        }),
    ensures
        ({
            let at = places.last();
            let per_metre = 0x100_0000 * s[at + 8] + 0x1_0000 * s[at + 9] + 0x100 * s[at + 10] + s[
            at + 11];
            &&& density_of(s) matches Some(dpi)
            &&& 10000 * dpi <= 254 * per_metre + 5000
            &&& 254 * per_metre < 10000 * dpi + 5000
        }),
{
    let at = places.last();
    lemma_chunks_are_passed_over(s, places, places.len() - 1);
    header::lemma_byte_order(s, at);
    header::lemma_byte_order(s, at + 8);
    assert(s.take(8) =~= header::png_signature());
}

/// A PNG file whose image data comes first, or whose data ends, before a usable
/// resolution has none.
pub proof fn lemma_no_resolution_chunk(s: Seq<u8>, places: Seq<int>)
    requires
        has_chunks(s, places),
        ({
            let at = places.last();
            let length = 0x100_0000 * s[at] + 0x1_0000 * s[at + 1] + 0x100 * s[at + 2] + s[at + 3];
            ||| at + 12 > s.len()
            ||| at + 12 + length > s.len()
            ||| s[at + 4] == 'I' as u8 && s[at + 5] == 'D' as u8 && s[at + 6] == 'A' as u8
                && s[at + 7] == 'T' as u8
        }),
    ensures
        density_of(s) is None,
{
    let at = places.last();
    lemma_chunks_are_passed_over(s, places, places.len() - 1);
    header::lemma_byte_order(s, at);
    assert(s.take(8) =~= header::png_signature());
}

/// A JPEG file has the resolution behind its first JFIF mark, if that is in dots
/// per inch, and none else.
pub proof fn lemma_jfif_resolution(s: Seq<u8>, at: int)
    requires
        s.len() >= 2,
        s[0] == 0xff && s[1] == 0xd8,
        0 <= at,
        at + 12 <= s.len(),
        s[at] == 'J' as u8 && s[at + 1] == 'F' as u8 && s[at + 2] == 'I' as u8 && s[at + 3] == 'F'
            as u8 && s[at + 4] == 0,
        forall|i: int|
            0 <= i < at ==> !(#[trigger] s[i] == 'J' as u8 && s[i + 1] == 'F' as u8 && s[i + 2]
                == 'I' as u8 && s[i + 3] == 'F' as u8 && s[i + 4] == 0),
    ensures
        s[at + 7] == 1 ==> density_of(s) == Some((256 * s[at + 8] + s[at + 9]) as nat),
        s[at + 7] != 1 ==> density_of(s) is None,
{
    assert(!header::is_png(s)) by {
        if header::is_png(s) {
            assert(s.take(8)[0] == header::png_signature()[0]);
        }
    }
    assert(has_jfif(s, at));
    assert forall|i: int| 0 <= i < at implies !#[trigger] has_jfif(s, i) by {
        assert(s[i] == s[i]);
    }
    assert(is_first_jfif(s, at));
    header::lemma_byte_order(s, at + 8);
    assert forall|p: int| is_first_jfif(s, p) implies p == at by {
        lemma_first_jfif_unique(s, p, at);
    }
}

/// A file without a JFIF mark, and a file that is neither PNG nor JPEG, has no
/// resolution.
pub proof fn lemma_no_container_resolution(s: Seq<u8>)
    requires
        s.len() == 0 || s[0] != 0x89,
        s.len() < 2 || !(s[0] == 0xff && s[1] == 0xd8) || forall|i: int|
            0 <= i && i + 5 <= s.len() ==> !(#[trigger] s[i] == 'J' as u8 && s[i + 1] == 'F' as u8
                && s[i + 2] == 'I' as u8 && s[i + 3] == 'F' as u8 && s[i + 4] == 0),
    ensures
        density_of(s) is None,
{
    if header::is_png(s) {
        assert(s.take(8)[0] == header::png_signature()[0]);
    }
    assert forall|at: int| #[trigger] is_first_jfif(s, at) implies !header::is_jpeg(s) by {
        assert(s[at] == 'J' as u8);
    }
}

/// The resolution of a PNG file is written as the nearest whole number of pixels
/// per metre, the same in both directions, in a complete chunk with its checksum;
/// that of a JPEG file is written in dots per inch, as far as two bytes can hold
/// it.
pub proof fn lemma_written_resolution(dpi: u32)
    requires
        dpi <= 100_000_000,
    ensures
        ({
            let chunk = png_density_chunk(dpi);
            let across = 0x100_0000 * chunk[8] + 0x1_0000 * chunk[9] + 0x100 * chunk[10]
                + chunk[11];
            &&& chunk.len() == 21
            &&& chunk[0] == 0 && chunk[1] == 0 && chunk[2] == 0 && chunk[3] == 9
            &&& chunk[4] == 'p' as u8 && chunk[5] == 'H' as u8 && chunk[6] == 'Y' as u8 && chunk[7]
                == 's' as u8
            &&& 254 * across <= 10000 * dpi + 127
            &&& 10000 * dpi <= 254 * across + 127
            &&& chunk.subrange(12, 16) == chunk.subrange(8, 12)
            &&& chunk[16] == 1
            &&& 0x100_0000 * chunk[17] + 0x1_0000 * chunk[18] + 0x100 * chunk[19] + chunk[20]
                == crc32(chunk.subrange(4, 17))
        }),
        jfif_density(dpi).len() == 5,
        jfif_density(dpi)[0] == 1,
        256 * jfif_density(dpi)[1] + jfif_density(dpi)[2] == if dpi <= 65535 { dpi as int } else {
            65535
        },
        jfif_density(dpi)[3] == jfif_density(dpi)[1],
        jfif_density(dpi)[4] == jfif_density(dpi)[2],
{
    let chunk = png_density_chunk(dpi);
    let data = png_density_data(dpi);
    let ppm = per_metre(dpi as nat);
    assert(data.len() == 13 && chunk.len() == 21);
    assert(chunk.subrange(4, 17) =~= data);
    assert forall|i: int| 0 <= i < 13 implies chunk[4 + i] == data[i] by {}
    assert(data.subrange(4, 8) =~= be32_bytes(ppm));
    assert(data.subrange(8, 12) =~= be32_bytes(ppm));
    assert(chunk.subrange(8, 12) =~= be32_bytes(ppm));
    assert(chunk.subrange(12, 16) =~= be32_bytes(ppm));
    assert(chunk.subrange(0, 4) =~= be32_bytes(9));
    assert(chunk[0] == be32_bytes(9)[0] && chunk[1] == be32_bytes(9)[1] && chunk[2] == be32_bytes(
        9,
    )[2] && chunk[3] == be32_bytes(9)[3]);
    lemma_be32_bytes_read_back(chunk, 8, ppm);
    assert(chunk.subrange(17, 21) =~= be32_bytes(crc32(data) as nat));
    lemma_be32_bytes_read_back(chunk, 17, crc32(data) as nat);
    header::lemma_byte_order(chunk, 8);
    header::lemma_byte_order(chunk, 17);
}

/// The bytes of a JPEG file behind the first JFIF mark are replaced by the
/// resolution, if they are there; a PNG file gets a chunk behind its header; and
/// nothing else is changed.
pub proof fn lemma_changed_containers(
    prefix: &[u8],
    at: int,
    dpi: u32,
    jpeg: Result<DensityChange, SplitError>,
    png: Result<DensityChange, SplitError>,
    tiff: Result<DensityChange, SplitError>,
)
    requires
        0 <= at,
        at + 5 <= prefix@.len(),
        prefix@[at] == 'J' as u8 && prefix@[at + 1] == 'F' as u8 && prefix@[at + 2] == 'I' as u8
            && prefix@[at + 3] == 'F' as u8 && prefix@[at + 4] == 0,
        forall|i: int|
            0 <= i < at ==> !(#[trigger] prefix@[i] == 'J' as u8 && prefix@[i + 1] == 'F' as u8
                && prefix@[i + 2] == 'I' as u8 && prefix@[i + 3] == 'F' as u8 && prefix@[i + 4]
                == 0),
        call_ensures(write_container_dpi, (prefix, OutputFormat::Jpeg, dpi), jpeg),
        call_ensures(write_container_dpi, (prefix, OutputFormat::Png, dpi), png),
        call_ensures(write_container_dpi, (prefix, OutputFormat::Tiff, dpi), tiff),
    ensures
        tiff matches Ok(DensityChange::Unchanged),
        at + 12 <= prefix@.len() ==> (jpeg matches Ok(DensityChange::Patch(patch)) && patch.offset
            == at + 7 && patch.bytes@ == jfif_density(dpi)),
        at + 12 > prefix@.len() ==> (jpeg matches Ok(DensityChange::Unchanged)),
        prefix@.len() < 33 <==> png is Err,
        has_png_header(prefix@) ==> (png matches Ok(DensityChange::Start(start)) && start@.len()
            == 54 && start@.take(33) == prefix@.take(33) && start@.skip(33) == png_density_chunk(
            dpi,
        )),
        prefix@.len() >= 33 && !has_png_header(prefix@) ==> (png matches Ok(
            DensityChange::Unchanged,
        )),
{
    let s = prefix@;
    assert(has_jfif(s, at));
    assert forall|i: int| 0 <= i < at implies !#[trigger] has_jfif(s, i) by {
        assert(s[i] == s[i]);
    }
    assert(is_first_jfif(s, at));
    assert forall|p: int| #[trigger] is_first_jfif(s, p) implies p == at by {
        lemma_first_jfif_unique(s, p, at);
    }
    assert(prefix.len() == s.len());
    if at + 12 <= s.len() {
        assert(has_whole_jfif(s));
    }
    if let Ok(DensityChange::Patch(patch)) = jpeg {
        assert(is_first_jfif(s, patch.offset - 7));
    }
    lemma_chunk_length(dpi);
    let joined = s.take(33) + png_density_chunk(dpi);
    if s.len() >= 33 {
        assert(joined.take(33) =~= s.take(33));
        assert(joined.skip(33) =~= png_density_chunk(dpi));
    }
}

proof fn lemma_chunk_length(dpi: u32)
    ensures
        png_density_chunk(dpi).len() == 21,
{
    assert(png_density_data(dpi).len() == 13);
}

/// A JFIF mark without all bytes of its resolution behind it gives none.
pub proof fn lemma_cut_off_resolution(s: Seq<u8>, at: int)
    requires
        0 <= at,
        at + 5 <= s.len() < at + 12,
        s[0] == 0xff && s[1] == 0xd8,
        s[at] == 'J' as u8 && s[at + 1] == 'F' as u8 && s[at + 2] == 'I' as u8 && s[at + 3] == 'F'
            as u8 && s[at + 4] == 0,
        forall|i: int|
            0 <= i < at ==> !(#[trigger] s[i] == 'J' as u8 && s[i + 1] == 'F' as u8 && s[i + 2]
                == 'I' as u8 && s[i + 3] == 'F' as u8 && s[i + 4] == 0),
    ensures
        density_of(s) is None,
{
    assert(!header::is_png(s)) by {
        if header::is_png(s) {
            assert(s.take(8)[0] == header::png_signature()[0]);
        }
    }
    assert(has_jfif(s, at));
    assert forall|i: int| 0 <= i < at implies !#[trigger] has_jfif(s, i) by {
        assert(s[i] == s[i]);
    }
    assert(is_first_jfif(s, at));
    assert forall|p: int| is_first_jfif(s, p) implies p == at by {
        lemma_first_jfif_unique(s, p, at);
    }
}

} // verus!
