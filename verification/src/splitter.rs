//! Photo separation and export: configuration, limits, names and errors.

use crate::binary64;
use crate::binary64::Binary64;
use crate::capture;
use crate::capture::{CaptureDate, CaptureTime};
use crate::metadata::MetadataError;
use crate::publish::StagedOutput;
use crate::text;
use vstd::arithmetic::power2::{lemma2_to64, lemma_pow2_pos, pow2};
use vstd::prelude::*;

verus! {

/// Why a scan could not be validated, analysed or exported.
#[derive(Debug)]
pub enum SplitError {
    /// A setting or a property of the input is invalid.
    InvalidConfig(String),
    /// The source file does not exist.
    MissingSource(String),
    /// The image library could not process an image.
    OpenCv(String),
    /// A file operation failed.
    Io(String),
    /// Metadata could not be read or written.
    Metadata(String),
    /// No single photo was found in the scan.
    NothingDetected,
    /// The capture date does not exist in the local time zone.
    InvalidDate,
}

impl SplitError {
    /// The error in words.
    pub open spec fn text(self) -> Seq<char> {
        match self {
            SplitError::InvalidConfig(message) => message@,
            SplitError::MissingSource(path) => "Die Eingabedatei existiert nicht: "@ + path@,
            SplitError::OpenCv(detail) => "Bild konnte nicht verarbeitet werden: "@ + detail@,
            SplitError::Io(detail) => "Dateioperation fehlgeschlagen: "@ + detail@,
            SplitError::Metadata(detail) => "Bildmetadaten konnten nicht verarbeitet werden: "@
                + detail@,
            SplitError::NothingDetected =>
            "Keine einzelnen Fotos erkannt. Lege zwischen den Fotos Abstand frei oder versuche einen kleineren Schwellwert."@,
            SplitError::InvalidDate =>
            "Das ausgewählte Aufnahmedatum ist in der lokalen Zeitzone ungültig."@,
        }
    }

    /// The error in words.
    pub fn message(&self) -> (r: String)
        ensures
            r@ == self.text(),
    {
        match self {
            SplitError::InvalidConfig(message) => message.clone(),
            SplitError::MissingSource(path) => text::concat(
                "Die Eingabedatei existiert nicht: ",
                path,
            ),
            SplitError::OpenCv(detail) => text::concat(
                "Bild konnte nicht verarbeitet werden: ",
                detail,
            ),
            SplitError::Io(detail) => text::concat("Dateioperation fehlgeschlagen: ", detail),
            SplitError::Metadata(detail) => text::concat(
                "Bildmetadaten konnten nicht verarbeitet werden: ",
                detail,
            ),
            SplitError::NothingDetected =>
            "Keine einzelnen Fotos erkannt. Lege zwischen den Fotos Abstand frei oder versuche einen kleineren Schwellwert.".to_string(),
            SplitError::InvalidDate =>
            "Das ausgewählte Aufnahmedatum ist in der lokalen Zeitzone ungültig.".to_string(),
        }
    }
}

/// The file formats that photos are exported in.
#[derive(Clone, Copy, Debug, PartialEq, Eq, Structural)]
pub enum OutputFormat {
    /// JPEG with adjustable quality.
    Jpeg,
    /// Lossless PNG.
    Png,
    /// Losslessly compressed TIFF.
    Tiff,
}

impl Default for OutputFormat {
    fn default() -> (r: Self)
        ensures
            r == OutputFormat::Jpeg,
    {
        OutputFormat::Jpeg
    }
}

impl OutputFormat {
    /// The file extension of the format, without a dot.
    pub open spec fn extension_text(self) -> Seq<char> {
        match self {
            OutputFormat::Jpeg => "jpg"@,
            OutputFormat::Png => "png"@,
            OutputFormat::Tiff => "tif"@,
        }
    }

    /// The file extension, without a dot.
    pub fn extension(self) -> (r: &'static str)
        ensures
            r@ == self.extension_text(),
    {
        match self {
            OutputFormat::Jpeg => "jpg",
            OutputFormat::Png => "png",
            OutputFormat::Tiff => "tif",
        }
    }

    /// The name under which users choose the format.
    pub open spec fn label_text(self) -> Seq<char> {
        match self {
            OutputFormat::Jpeg => "JPG"@,
            OutputFormat::Png => "PNG"@,
            OutputFormat::Tiff => "TIFF"@,
        }
    }

    /// The name under which users choose the format.
    pub fn label(self) -> (r: &'static str)
        ensures
            r@ == self.label_text(),
    {
        match self {
            OutputFormat::Jpeg => "JPG",
            OutputFormat::Png => "PNG",
            OutputFormat::Tiff => "TIFF",
        }
    }

    /// The format a name stands for, whatever the case of its letters.
    pub open spec fn named(name: Seq<char>) -> Option<OutputFormat> {
        let small = text::lowercase(name);
        if small == "jpg"@ || small == "jpeg"@ {
            Some(OutputFormat::Jpeg)
        } else if small == "png"@ {
            Some(OutputFormat::Png)
        } else if small == "tif"@ || small == "tiff"@ {
            Some(OutputFormat::Tiff)
        } else {
            None
        }
    }

    /// Reads a format name, whatever the case of its letters.
    pub fn from_str(value: &str) -> (r: Result<OutputFormat, SplitError>)
        ensures
            match r {
                Ok(format) => OutputFormat::named(value@) == Some(format),
                Err(SplitError::InvalidConfig(message)) => OutputFormat::named(value@) is None
                    && message@ == "Unterstützte Formate sind JPG, PNG und TIFF."@,
                Err(_) => false,
            },
    {
        let given = text::characters(value);
        let small = text::to_lowercase(&given);
        if text::equals(&small, "jpg") || text::equals(&small, "jpeg") {
            Ok(OutputFormat::Jpeg)
        } else if text::equals(&small, "png") {
            Ok(OutputFormat::Png)
        } else if text::equals(&small, "tif") || text::equals(&small, "tiff") {
            Ok(OutputFormat::Tiff)
        } else {
            Err(
                SplitError::InvalidConfig(
                    "Unterstützte Formate sind JPG, PNG und TIFF.".to_string(),
                ),
            )
        }
    }
}

/// Every format is found again under its own extension and under its label.
pub proof fn lemma_format_names_read_back(format: OutputFormat)
    ensures
        OutputFormat::named(format.extension_text()) == Some(format),
        OutputFormat::named(format.label_text()) == Some(format),
{
    reveal_strlit("jpg");
    reveal_strlit("jpeg");
    reveal_strlit("png");
    reveal_strlit("tif");
    reveal_strlit("tiff");
    reveal_strlit("JPG");
    reveal_strlit("PNG");
    reveal_strlit("TIFF");
    assert(text::lowercase("jpg"@) =~= "jpg"@);
    assert(text::lowercase("png"@) =~= "png"@);
    assert(text::lowercase("tif"@) =~= "tif"@);
    assert(text::lowercase("JPG"@) =~= "jpg"@);
    assert(text::lowercase("PNG"@) =~= "png"@);
    assert(text::lowercase("TIFF"@) =~= "tiff"@);
    assert("png"@[0] == 'p' && "jpg"@[0] == 'j' && "tif"@[0] == 't' && "tiff"@[0] == 't'
        && "jpeg"@[0] == 'j');
}

/// The smallest edge that detection images may be limited to.
pub const MIN_DETECTION_SIZE: i32 = 256;

/// The largest edge that detection images may be limited to.
pub const MAX_DETECTION_SIZE: i32 = 4096;

/// The largest edge of an image that is read.
pub const MAX_INPUT_DIMENSION: u32 = 30000;

/// The most pixels of an image that is read.
pub const MAX_INPUT_PIXELS: u64 = 180000000;

/// The most bytes of a file name prefix.
pub const MAX_PREFIX_BYTES: usize = 128;

/// The largest edge of a detection preview.
pub const MAX_PREVIEW_SIZE: i32 = 2000;

/// The JPEG quality of previews.
pub const PREVIEW_QUALITY: i32 = 88;

/// The encoding of 0.
pub const ZERO: u64 = 0x0000_0000_0000_0000;

/// The encoding of the number nearest to 0.1.
pub const ONE_TENTH: u64 = 0x3fb9_9999_9999_999a;

/// The encoding of 1.
pub const ONE: u64 = 0x3ff0_0000_0000_0000;

/// The encoding of the number nearest to 1.2.
pub const ONE_AND_ONE_FIFTH: u64 = 0x3ff3_3333_3333_3333;

/// The encoding of 2.
pub const TWO: u64 = 0x4000_0000_0000_0000;

/// The encoding of 15.
pub const FIFTEEN: u64 = 0x402e_0000_0000_0000;

/// The encoding of 50.
pub const FIFTY: u64 = 0x4049_0000_0000_0000;

/// The encoding of 255.
pub const TWO_HUNDRED_FIFTY_FIVE: u64 = 0x406f_e000_0000_0000;

/// The settings for detection and export.
#[derive(Clone, Copy, Debug)]
pub struct SplitConfig {
    /// The smallest accepted area of a photo, in percent of the scan.
    pub min_area_percent: Binary64,
    /// A threshold chosen by hand, or none to have it determined.
    pub threshold: Option<Binary64>,
    /// Extra space around each photo, in percent.
    pub padding_percent: Binary64,
    /// The largest edge of the image that detection works on.
    pub max_detection_size: i32,
    /// The format of exported files.
    pub output_format: OutputFormat,
    /// The JPEG quality, from 1 to 100.
    pub jpeg_quality: i32,
    /// The resolution to write, or none to take over that of the source.
    pub dpi: Option<u32>,
    /// The capture date, or none for today.
    pub capture_date: Option<CaptureDate>,
}

impl Default for SplitConfig {
    fn default() -> (r: Self)
        ensures
            r.min_area_percent.bits == TWO,
            r.threshold is None,
            r.padding_percent.bits == ONE_AND_ONE_FIFTH,
            r.max_detection_size == 1800,
            r.output_format == OutputFormat::Jpeg,
            r.jpeg_quality == 95,
            r.dpi is None,
            r.capture_date is None,
    {
        SplitConfig {
            min_area_percent: Binary64 { bits: TWO },
            threshold: None,
            padding_percent: Binary64 { bits: ONE_AND_ONE_FIFTH },
            max_detection_size: 1800,
            output_format: OutputFormat::Jpeg,
            jpeg_quality: 95,
            dpi: None,
            capture_date: None,
        }
    }
}

/// Whether a number lies between two encoded limits.
pub open spec fn between(low: u64, value: Binary64, high: u64) -> bool {
    (Binary64 { bits: low }).le(value) && value.le(Binary64 { bits: high })
}

impl SplitConfig {
    /// What is wrong with the settings: the message for the first setting
    /// outside its limits.
    pub open spec fn complaint(self) -> Option<Seq<char>> {
        if !between(ONE_TENTH, self.min_area_percent, FIFTY) {
            Some("Die Mindestfläche muss zwischen 0,1 und 50 Prozent liegen."@)
        } else if self.threshold is Some && !between(
            ONE,
            self.threshold->0,
            TWO_HUNDRED_FIFTY_FIVE,
        ) {
            Some("Der Schwellwert muss zwischen 1 und 255 liegen."@)
        } else if !between(ZERO, self.padding_percent, FIFTEEN) {
            Some("Der Rand muss zwischen 0 und 15 Prozent liegen."@)
        } else if !(MIN_DETECTION_SIZE <= self.max_detection_size <= MAX_DETECTION_SIZE) {
            Some(
                "Die maximale Erkennungsgröße muss zwischen 256 und 4096 Pixeln liegen."@,
            )
        } else if !(1 <= self.jpeg_quality <= 100) {
            Some("Die JPEG-Qualität muss zwischen 1 und 100 liegen."@)
        } else {
            None
        }
    }

    /// Checks all settings against their limits.
    pub fn validate(&self) -> (r: Result<(), SplitError>)
        ensures
            match r {
                Ok(()) => self.complaint() is None,
                Err(SplitError::InvalidConfig(message)) => self.complaint() == Some(message@),
                Err(_) => false,
            },
    {
        if !self.min_area_percent.is_within(Binary64 { bits: ONE_TENTH }, Binary64 { bits: FIFTY }) {
            return Err(
                SplitError::InvalidConfig(
                    "Die Mindestfläche muss zwischen 0,1 und 50 Prozent liegen.".to_string(),
                ),
            );
        }
        if let Some(threshold) = self.threshold {
            if !threshold.is_within(
                Binary64 { bits: ONE },
                Binary64 { bits: TWO_HUNDRED_FIFTY_FIVE },
            ) {
                return Err(
                    SplitError::InvalidConfig(
                        "Der Schwellwert muss zwischen 1 und 255 liegen.".to_string(),
                    ),
                );
            }
        }
        if !self.padding_percent.is_within(Binary64 { bits: ZERO }, Binary64 { bits: FIFTEEN }) {
            return Err(
                SplitError::InvalidConfig(
                    "Der Rand muss zwischen 0 und 15 Prozent liegen.".to_string(),
                ),
            );
        }
        if self.max_detection_size < MIN_DETECTION_SIZE || self.max_detection_size
            > MAX_DETECTION_SIZE {
            return Err(
                SplitError::InvalidConfig(
                    "Die maximale Erkennungsgröße muss zwischen 256 und 4096 Pixeln liegen.".to_string(),
                ),
            );
        }
        if self.jpeg_quality < 1 || self.jpeg_quality > 100 {
            return Err(
                SplitError::InvalidConfig(
                    "Die JPEG-Qualität muss zwischen 1 und 100 liegen.".to_string(),
                ),
            );
        }
        Ok(())
    }
}

/// Which characters are control characters: the code points up to 31 and from
/// 127 to 159.
pub open spec fn is_control(c: char) -> bool {
    c as u32 <= 31 || 127 <= c as u32 <= 159
}

/// Whether a text is one safe file name: it names one entry of a directory on
/// every system, has no control characters and is short enough.
pub open spec fn is_safe_prefix(prefix: &str) -> bool {
    &&& prefix@.len() > 0
    &&& prefix@ != seq!['.']
    &&& prefix@ != seq!['.', '.']
    &&& forall|i: int|
        0 <= i < prefix@.len() ==> #[trigger] prefix@[i] != '/' && prefix@[i] != '\\'
            && !is_control(prefix@[i])
    &&& vstd::utf8::encode_utf8(prefix@).len() <= MAX_PREFIX_BYTES
}

/// Checks that a prefix is one safe file name.
pub fn validate_prefix(prefix: &str) -> (r: Result<(), SplitError>)
    ensures
        match r {
            Ok(()) => is_safe_prefix(prefix),
            Err(SplitError::InvalidConfig(message)) => !is_safe_prefix(prefix) && message@
                == "Der Dateipräfix muss aus genau einem sicheren Dateinamen mit höchstens 128 Bytes bestehen."@,
            Err(_) => false,
        },
{
    if names_one_file(prefix) {
        Ok(())
    } else {
        Err(
            SplitError::InvalidConfig(
                "Der Dateipräfix muss aus genau einem sicheren Dateinamen mit höchstens 128 Bytes bestehen.".to_string(),
            ),
        )
    }
}

/// Whether a prefix is one safe file name.
fn names_one_file(prefix: &str) -> (r: bool)
    ensures
        r == is_safe_prefix(prefix),
{
    let chars = text::characters(prefix);
    if chars.len() == 0 {
        return false;
    }
    if chars.len() == 1 && chars[0] == '.' {
        assert(prefix@ =~= seq!['.']);
        return false;
    }
    if chars.len() == 2 && chars[0] == '.' && chars[1] == '.' {
        assert(prefix@ =~= seq!['.', '.']);
        return false;
    }
    if prefix.as_bytes().len() > MAX_PREFIX_BYTES {
        return false;
    }
    let mut i: usize = 0;
    while i < chars.len()
        invariant
            i <= chars.len(),
            chars@ == prefix@,
            forall|j: int|
                0 <= j < i ==> #[trigger] prefix@[j] != '/' && prefix@[j] != '\\' && !is_control(
                    prefix@[j],
                ),
        decreases chars.len() - i,
    {
        let c = chars[i];
        let code: u32 = c as u32;
        if c == '/' || c == '\\' || code <= 31 || (127 <= code && code <= 159) {
            assert(prefix@[i as int] == c);
            return false;
        }
        i += 1;
    }
    assert(prefix@ == seq!['.'] ==> prefix@[0] == '.' && prefix@.len() == 1);
    assert(prefix@ == seq!['.', '.'] ==> prefix@[0] == '.' && prefix@[1] == '.' && prefix@.len()
        == 2);
    true
}

/// What is wrong with the dimensions of an image, if anything.
pub open spec fn dimension_complaint(width: u32, height: u32) -> Option<Seq<char>> {
    if width < 20 || height < 20 {
        Some("Das Scanbild ist zu klein oder hat ein ungültiges Format."@)
    } else if width > MAX_INPUT_DIMENSION || height > MAX_INPUT_DIMENSION || width * height
        > MAX_INPUT_PIXELS {
        Some(
            "Das Bild ist mit "@ + text::decimal(width as nat) + "×"@ + text::decimal(
                height as nat,
            )
                + " Pixeln zu groß. Erlaubt sind höchstens 180000000 Pixel und 30000 Pixel je Kante."@,
        )
    } else {
        None
    }
}

/// Checks the dimensions of an image before it is decoded.
pub fn validate_image_dimensions(width: u32, height: u32) -> (r: Result<(), SplitError>)
    ensures
        match r {
            Ok(()) => dimension_complaint(width, height) is None,
            Err(SplitError::InvalidConfig(message)) => dimension_complaint(width, height) == Some(
                message@,
            ),
            Err(_) => false,
        },
{
    if width < 20 || height < 20 {
        return Err(
            SplitError::InvalidConfig(
                "Das Scanbild ist zu klein oder hat ein ungültiges Format.".to_string(),
            ),
        );
    }
    assert(width * height <= 0xffff_ffff * 0xffff_ffff) by (nonlinear_arith)
        requires
            width <= 0xffff_ffff,
            height <= 0xffff_ffff,
    ;
    let pixels: u64 = width as u64 * height as u64;
    if width > MAX_INPUT_DIMENSION || height > MAX_INPUT_DIMENSION || pixels > MAX_INPUT_PIXELS {
        let mut message = "Das Bild ist mit ".to_string();
        message.append(&text::text_of(&text::to_decimal(width as u64)));
        message.append("×");
        message.append(&text::text_of(&text::to_decimal(height as u64)));
        message.append(
            " Pixeln zu groß. Erlaubt sind höchstens 180000000 Pixel und 30000 Pixel je Kante.",
        );
        return Err(SplitError::InvalidConfig(message));
    }
    Ok(())
}

/// The error for metadata that could not be read or written.
pub fn metadata_error(error: &MetadataError) -> (r: SplitError)
    ensures
        r matches SplitError::Metadata(detail) && detail@ == error.text(),
{
    SplitError::Metadata(error.message())
}

/// The resolution of an image: the one in its metadata, or else the one in its
/// container.
pub fn image_dpi(metadata: Result<Option<u32>, MetadataError>, container: Option<u32>) -> (r:
    Result<Option<u32>, SplitError>)
    ensures
        match metadata {
            Ok(Some(dpi)) => r == Ok::<Option<u32>, SplitError>(Some(dpi)),
            Ok(None) => r == Ok::<Option<u32>, SplitError>(container),
            Err(error) => r matches Err(SplitError::Metadata(detail)) && detail@ == error.text(),
        },
{
    match metadata {
        Ok(Some(dpi)) => Ok(Some(dpi)),
        Ok(None) => Ok(container),
        Err(error) => Err(metadata_error(&error)),
    }
}

/// What an image decoder gave.
#[derive(Clone, Copy, Debug)]
pub struct DecodedImage {
    /// Whether there are no pixels.
    pub empty: bool,
    /// The height.
    pub rows: i32,
    /// The width.
    pub cols: i32,
}

/// Whether a decoded image is what its header announced, and not too small.
pub open spec fn matches_header(image: DecodedImage, width: u32, height: u32) -> bool {
    !image.empty && image.rows >= 20 && image.cols >= 20 && image.cols == width && image.rows
        == height
}

/// Checks a decoded image against the dimensions in its header.
pub fn check_decoded(image: DecodedImage, width: u32, height: u32) -> (r: Result<(), SplitError>)
    ensures
        match r {
            Ok(()) => matches_header(image, width, height),
            Err(SplitError::InvalidConfig(message)) => !matches_header(image, width, height)
                && message@
                == "Das Scanbild hat ein ungültiges Format oder widersprüchliche Abmessungen."@,
            Err(_) => false,
        },
{
    if image.empty || image.rows < 20 || image.cols < 20 || image.cols as u32 != width
        || image.rows as u32 != height {
        return Err(
            SplitError::InvalidConfig(
                "Das Scanbild hat ein ungültiges Format oder widersprüchliche Abmessungen.".to_string(),
            ),
        );
    }
    Ok(())
}

/// What has to be done to an image to set it upright.
#[derive(Clone, Copy, Debug, PartialEq, Eq, Structural)]
pub enum Transform {
    /// Nothing.
    Keep,
    /// Swap left and right.
    FlipHorizontally,
    /// Turn it upside down.
    Rotate180,
    /// Swap top and bottom.
    FlipVertically,
    /// Swap rows and columns.
    Transpose,
    /// Turn it a quarter clockwise.
    RotateClockwise,
    /// Swap rows and columns, then left and right, and top and bottom.
    TransposeAndFlip,
    /// Turn it a quarter counterclockwise.
    RotateCounterclockwise,
}

impl Transform {
    /// Whether the image's sides change places.
    pub open spec fn swaps_sides(self) -> bool {
        self is Transpose || self is RotateClockwise || self is TransposeAndFlip
            || self is RotateCounterclockwise
    }

    /// Where a pixel of an image of this size comes to lie, as its column and
    /// row.
    pub open spec fn moves(self, cols: int, rows: int, x: int, y: int) -> (int, int) {
        match self {
            Transform::Keep => (x, y),
            Transform::FlipHorizontally => (cols - 1 - x, y),
            Transform::Rotate180 => (cols - 1 - x, rows - 1 - y),
            Transform::FlipVertically => (x, rows - 1 - y),
            Transform::Transpose => (y, x),
            Transform::RotateClockwise => (rows - 1 - y, x),
            Transform::TransposeAndFlip => (rows - 1 - y, cols - 1 - x),
            Transform::RotateCounterclockwise => (y, cols - 1 - x),
        }
    }
}

/// What an orientation stands for: on which side of the upright image the first
/// row and the first column of the stored one lie.
pub open spec fn transform_for(orientation: int) -> Transform {
    if orientation == 2 {
        Transform::FlipHorizontally
    } else if orientation == 3 {
        Transform::Rotate180
    } else if orientation == 4 {
        Transform::FlipVertically
    } else if orientation == 5 {
        Transform::Transpose
    } else if orientation == 6 {
        Transform::RotateClockwise
    } else if orientation == 7 {
        Transform::TransposeAndFlip
    } else if orientation == 8 {
        Transform::RotateCounterclockwise
    } else {
        Transform::Keep
    }
}

/// What has to be done to an image with this orientation.
pub fn orientation_transform(orientation: Option<u16>) -> (r: Transform)
    ensures
        r == match orientation {
            Some(n) => transform_for(n as int),
            None => Transform::Keep,
        },
{
    match orientation {
        Some(2) => Transform::FlipHorizontally,
        Some(3) => Transform::Rotate180,
        Some(4) => Transform::FlipVertically,
        Some(5) => Transform::Transpose,
        Some(6) => Transform::RotateClockwise,
        Some(7) => Transform::TransposeAndFlip,
        Some(8) => Transform::RotateCounterclockwise,
        _ => Transform::Keep,
    }
}

/// Setting an image upright keeps all its pixels: they stay within the image,
/// whose sides change places or not, and no two come to lie on each other.
pub proof fn lemma_transform_keeps_pixels(
    orientation: int,
    cols: int,
    rows: int,
    x: int,
    y: int,
    u: int,
    v: int,
)
    requires
        0 <= x < cols,
        0 <= y < rows,
        0 <= u < cols,
        0 <= v < rows,
    ensures
        ({
            let transform = transform_for(orientation);
            let (a, b) = transform.moves(cols, rows, x, y);
            let width = if transform.swaps_sides() {
                rows
            } else {
                cols
            };
            let height = if transform.swaps_sides() {
                cols
            } else {
                rows
            };
            &&& 0 <= a < width
            &&& 0 <= b < height
            &&& transform.moves(cols, rows, u, v) == (a, b) ==> u == x && v == y
        }),
{
}

/// The resolution that is written to a file: the given one, or 72 for a TIFF
/// file, which has to have one.
pub fn metadata_dpi(format: OutputFormat, dpi: Option<u32>) -> (r: Option<u32>)
    ensures
        r == match dpi {
            Some(dpi) => Some(dpi),
            None => if format is Tiff {
                Some(72u32)
            } else {
                None
            },
        },
{
    match dpi {
        Some(dpi) => Some(dpi),
        None => match format {
            OutputFormat::Tiff => Some(72),
            OutputFormat::Jpeg => None,
            OutputFormat::Png => None,
        },
    }
}

/// A setting of an image encoder.
#[derive(Clone, Copy, Debug, PartialEq, Eq, Structural)]
pub enum EncoderSetting {
    /// The JPEG quality.
    JpegQuality(i32),
    /// Whether JPEG tables are optimised.
    JpegOptimize(bool),
    /// The effort of PNG compression.
    PngCompression(i32),
    /// LZW compression for TIFF.
    TiffLzw,
    /// Inches as the unit of the TIFF resolution.
    TiffInches,
    /// The horizontal TIFF resolution.
    TiffXDpi(i32),
    /// The vertical TIFF resolution.
    TiffYDpi(i32),
}

/// A number as the signed number with the same 32 bits.
pub open spec fn as_signed(n: u32) -> int {
    if n <= i32::MAX {
        n as int
    } else {
        n - 0x1_0000_0000
    }
}

/// A number as the signed number with the same 32 bits.
pub fn to_signed(n: u32) -> (r: i32)
    ensures
        r == as_signed(n),
{
    if n <= i32::MAX as u32 {
        n as i32
    } else {
        (n as i64 - 0x1_0000_0000) as i32
    }
}

/// The encoder settings for a file.
pub open spec fn settings_for(format: OutputFormat, quality: i32, dpi: Option<u32>) -> Seq<
    EncoderSetting,
> {
    match format {
        OutputFormat::Jpeg => seq![
            EncoderSetting::JpegQuality(quality),
            EncoderSetting::JpegOptimize(true),
        ],
        OutputFormat::Png => seq![EncoderSetting::PngCompression(4)],
        OutputFormat::Tiff => match dpi {
            Some(dpi) => seq![
                EncoderSetting::TiffLzw,
                EncoderSetting::TiffInches,
                EncoderSetting::TiffXDpi(as_signed(dpi) as i32),
                EncoderSetting::TiffYDpi(as_signed(dpi) as i32),
            ],
            None => seq![EncoderSetting::TiffLzw],
        },
    }
}

/// The encoder settings for a file, in order.
pub fn encoder_settings(format: OutputFormat, quality: i32, dpi: Option<u32>) -> (r: Vec<
    EncoderSetting,
>)
    ensures
        r@ == settings_for(format, quality, dpi),
{
    let mut out: Vec<EncoderSetting> = Vec::new();
    match format {
        OutputFormat::Jpeg => {
            out.push(EncoderSetting::JpegQuality(quality));
            out.push(EncoderSetting::JpegOptimize(true));
        },
        OutputFormat::Png => {
            out.push(EncoderSetting::PngCompression(4));
        },
        OutputFormat::Tiff => {
            out.push(EncoderSetting::TiffLzw);
            if let Some(dpi) = dpi {
                let signed: i32 = to_signed(dpi);
                out.push(EncoderSetting::TiffInches);
                out.push(EncoderSetting::TiffXDpi(signed));
                out.push(EncoderSetting::TiffYDpi(signed));
            }
        },
    }
    assert(out@ =~= settings_for(format, quality, dpi));
    out
}

/// How far the saving of an image has come.
#[derive(Debug)]
pub enum SaveStage {
    /// The image has to be encoded into the file.
    Encoding,
    /// The resolution has to be written into the container.
    Density(u32),
    /// The metadata has to be written.
    Metadata,
    /// The file has to be removed, because of this error.
    Removing(SplitError),
    /// The image is saved, or not.
    Finished(Result<(), SplitError>),
}

/// What the program did to save an image.
#[derive(Debug)]
pub enum SaveEvent {
    /// It encoded the image: whether the encoder could save it, or its failure.
    Encoded(Result<bool, SplitError>),
    /// It wrote the resolution, or failed to.
    DensityWritten(Result<(), SplitError>),
    /// It wrote the metadata, or failed to.
    MetadataWritten(Result<(), MetadataError>),
    /// It removed the file, as far as it could.
    Removed,
}

/// The saving of an image into a file.
#[derive(Debug)]
pub struct SaveRun {
    /// The file.
    pub path: String,
    /// The resolution to write, if any.
    pub dpi: Option<u32>,
    /// How far it has come.
    pub stage: SaveStage,
}

impl SaveRun {
    /// Whether an event is the outcome of what the saving asked for.
    pub open spec fn expects(self, event: SaveEvent) -> bool {
        match self.stage {
            SaveStage::Encoding => event is Encoded,
            SaveStage::Density(_) => event is DensityWritten,
            SaveStage::Metadata => event is MetadataWritten,
            SaveStage::Removing(_) => event is Removed,
            SaveStage::Finished(_) => false,
        }
    }

    /// Whether `next` is the stage after an event that the saving expects. A
    /// file without its resolution or its metadata is not kept.
    pub open spec fn stage_follows(self, event: SaveEvent, next: SaveStage) -> bool {
        match (self.stage, event) {
            (SaveStage::Encoding, SaveEvent::Encoded(Ok(saved))) => if !saved {
                &&& next matches SaveStage::Finished(Err(SplitError::InvalidConfig(message)))
                &&& message@ == "Bild konnte nicht gespeichert werden: "@ + self.path@
            } else {
                match self.dpi {
                    Some(dpi) => next == SaveStage::Density(dpi),
                    None => next is Metadata,
                }
            },
            (SaveStage::Encoding, SaveEvent::Encoded(Err(error))) => next == SaveStage::Finished(
                Err(error),
            ),
            (SaveStage::Density(_), SaveEvent::DensityWritten(Ok(_))) => next is Metadata,
            (SaveStage::Density(_), SaveEvent::DensityWritten(Err(error))) => next
                == SaveStage::Removing(error),
            (SaveStage::Metadata, SaveEvent::MetadataWritten(Ok(_))) => next matches
                SaveStage::Finished(Ok(_)),
            (SaveStage::Metadata, SaveEvent::MetadataWritten(Err(error))) => {
                &&& next matches SaveStage::Removing(SplitError::Metadata(detail))
                &&& detail@ == error.text()
            },
            (SaveStage::Removing(error), SaveEvent::Removed) => next == SaveStage::Finished(
                Err(error),
            ),
            _ => false,
        }
    }

    /// Takes the outcome of what the saving asked for.
    pub fn advance(self, event: SaveEvent) -> (r: SaveRun)
        requires
            self.expects(event),
        ensures
            r.path == self.path,
            r.dpi == self.dpi,
            self.stage_follows(event, r.stage),
    {
        let SaveRun { path, dpi, stage } = self;
        let stage = match event {
            SaveEvent::Encoded(Ok(saved)) => if !saved {
                SaveStage::Finished(
                    Err(
                        SplitError::InvalidConfig(
                            text::concat("Bild konnte nicht gespeichert werden: ", &path),
                        ),
                    ),
                )
            } else {
                match dpi {
                    Some(dpi) => SaveStage::Density(dpi),
                    None => SaveStage::Metadata,
                }
            },
            SaveEvent::Encoded(Err(error)) => SaveStage::Finished(Err(error)),
            SaveEvent::DensityWritten(Ok(())) => SaveStage::Metadata,
            SaveEvent::DensityWritten(Err(error)) => SaveStage::Removing(error),
            SaveEvent::MetadataWritten(Ok(())) => SaveStage::Finished(Ok(())),
            SaveEvent::MetadataWritten(Err(error)) => SaveStage::Removing(metadata_error(&error)),
            SaveEvent::Removed => match stage {
                SaveStage::Removing(error) => SaveStage::Finished(Err(error)),
                other => other,
            },
        };
        SaveRun { path, dpi, stage }
    }
}

/// The saving of an image into a file of this format.
pub fn save_image(path: &str, format: OutputFormat, dpi: Option<u32>) -> (r: SaveRun)
    ensures
        r.path@ == path@,
        r.stage is Encoding,
        dpi is Some ==> r.dpi == dpi,
        dpi is None ==> r.dpi == if format is Tiff {
            Some(72u32)
        } else {
            None
        },
{
    SaveRun { path: path.to_string(), dpi: metadata_dpi(format, dpi), stage: SaveStage::Encoding }
}

/// The base of the names of exported files: the prefix, or the moment of
/// capture.
pub open spec fn base_name(prefix: Option<Seq<char>>, time: CaptureTime) -> Seq<char> {
    match prefix {
        Some(prefix) => prefix,
        None => "scan_"@ + capture::name_text(time),
    }
}

/// The base of the names of exported files.
pub fn output_base(prefix: Option<&str>, time: CaptureTime) -> (r: String)
    requires
        time.is_valid(),
    ensures
        r@ == base_name(text::borrowed_view(prefix), time),
{
    match prefix {
        Some(prefix) => prefix.to_string(),
        None => text::concat("scan_", &capture::file_stamp(time)),
    }
}

/// The resolution of exported files: the configured one, or else that of the
/// source.
pub open spec fn export_dpi_of(configured: Option<u32>, embedded: Option<u32>) -> Option<u32> {
    match configured {
        Some(dpi) => Some(dpi),
        None => embedded,
    }
}

/// The resolution of exported files.
pub fn export_dpi(configured: Option<u32>, embedded: Option<u32>) -> (r: Option<u32>)
    ensures
        r == export_dpi_of(configured, embedded),
{
    match configured {
        Some(dpi) => Some(dpi),
        None => embedded,
    }
}

/// Whether a request for an export is refused before anything is written, and
/// with which words: the settings come first, then the prefix.
pub open spec fn request_complaint(config: SplitConfig, prefix: Option<&str>) -> Option<Seq<char>> {
    match config.complaint() {
        Some(message) => Some(message),
        None => match prefix {
            Some(prefix) => if is_safe_prefix(prefix) {
                None
            } else {
                Some(
                    "Der Dateipräfix muss aus genau einem sicheren Dateinamen mit höchstens 128 Bytes bestehen."@,
                )
            },
            None => None,
        },
    }
}

/// Checks a request for an export before anything is read or written.
pub fn check_request(config: &SplitConfig, prefix: Option<&str>) -> (r: Result<(), SplitError>)
    ensures
        match r {
            Ok(()) => request_complaint(*config, prefix) is None,
            Err(SplitError::InvalidConfig(message)) => request_complaint(*config, prefix) == Some(
                message@,
            ),
            Err(_) => false,
        },
{
    match config.validate() {
        Err(error) => Err(error),
        Ok(()) => match prefix {
            Some(prefix) => validate_prefix(prefix),
            None => Ok(()),
        },
    }
}

/// Checks a request to export so many photos, with a preview of so many regions
/// or none.
pub fn check_export(
    config: &SplitConfig,
    prefix: Option<&str>,
    photos: usize,
    preview_regions: Option<usize>,
) -> (r: Result<(), SplitError>)
    ensures
        match r {
            Ok(()) => request_complaint(*config, prefix) is None && photos > 0 && (preview_regions
                is None || preview_regions == Some(photos)),
            Err(SplitError::NothingDetected) => request_complaint(*config, prefix) is None
                && photos == 0,
            Err(SplitError::InvalidConfig(message)) => {
                ||| request_complaint(*config, prefix) == Some(message@)
                ||| {
                    &&& request_complaint(*config, prefix) is None
                    &&& photos > 0
                    &&& preview_regions is Some
                    &&& preview_regions != Some(photos)
                    &&& message@
                        == "Für jedes exportierte Foto muss genau eine Vorschauregion angegeben werden."@
                }
            },
            Err(_) => false,
        },
{
    match check_request(config, prefix) {
        Err(error) => {
            return Err(error);
        },
        Ok(()) => {},
    }
    if photos == 0 {
        return Err(SplitError::NothingDetected);
    }
    if let Some(regions) = preview_regions {
        if regions != photos {
            return Err(
                SplitError::InvalidConfig(
                    "Für jedes exportierte Foto muss genau eine Vorschauregion angegeben werden.".to_string(),
                ),
            );
        }
    }
    Ok(())
}

/// The name, without its extension, of the exported photo with an index.
pub open spec fn photo_stem(base: Seq<char>, index: nat) -> Seq<char> {
    base + "_"@ + text::padded(index + 1, 2)
}

/// Whether a waiting file has this name and extension.
pub open spec fn is_output(output: StagedOutput, stem: Seq<char>, extension: Seq<char>) -> bool {
    output.stem@ == stem && output.extension@ == extension
}

/// Whether these are the files of an export of so many photos: the photos,
/// numbered from one without gaps, and the preview.
pub open spec fn is_export_group(
    outputs: Seq<StagedOutput>,
    base: Seq<char>,
    format: OutputFormat,
    photos: nat,
    preview: bool,
) -> bool {
    &&& outputs.len() == photos + if preview { 1nat } else { 0 }
    &&& forall|i: int|
        0 <= i < photos ==> is_output(
            #[trigger] outputs[i],
            photo_stem(base, i as nat),
            format.extension_text(),
        )
    &&& preview ==> is_output(outputs[photos as int], base + "_vorschau"@, "jpg"@)
}

/// The files of an export of so many photos.
pub fn export_outputs(base: &str, format: OutputFormat, photos: usize, preview: bool) -> (r: Vec<
    StagedOutput,
>)
    requires
        photos < usize::MAX,
    ensures
        is_export_group(r@, base@, format, photos as nat, preview),
{
    let mut out: Vec<StagedOutput> = Vec::new();
    while out.len() < photos
        invariant
            out.len() <= photos < usize::MAX,
            forall|i: int|
                0 <= i < out.len() ==> is_output(
                    #[trigger] out@[i],
                    photo_stem(base@, i as nat),
                    format.extension_text(),
                ),
        decreases photos - out.len(),
    {
        let mut stem = text::concat(base, "_");
        stem.append(&text::text_of(&text::to_padded(out.len() as u64 + 1, 2)));
        out.push(StagedOutput { stem, extension: format.extension().to_string() });
    }
    if preview {
        out.push(
            StagedOutput {
                stem: text::concat(base, "_vorschau"),
                extension: "jpg".to_string(),
            },
        );
    }
    out
}

/// What an export gave.
#[derive(Debug)]
pub struct SplitResult {
    /// The names of the new files.
    pub files: Vec<String>,
    /// The name of the preview, if there is one.
    pub preview: Option<String>,
    /// The threshold that was used.
    pub threshold_used: Binary64,
}

/// The result of an export from the published names, of which the last is the
/// preview's if there is one.
pub fn export_result(published: Vec<String>, preview: bool, threshold: Binary64) -> (r: SplitResult)
    requires
        preview ==> published@.len() > 0,
    ensures
        r.threshold_used == threshold,
        r.preview is Some <==> preview,
        preview ==> r.files@ == published@.drop_last() && r.preview->0 == published@.last(),
        !preview ==> r.files@ == published@,
{
    let mut files = published;
    if preview {
        let last = files.pop();
        SplitResult { files, preview: last, threshold_used: threshold }
    } else {
        SplitResult { files, preview: None, threshold_used: threshold }
    }
}

/// Whether a cut-out photo is large enough to be kept.
pub open spec fn is_large_enough(rows: i32, cols: i32) -> bool {
    rows >= 10 && cols >= 10
}

/// Whether a cut-out photo is large enough to be kept.
pub fn keeps_photo(rows: i32, cols: i32) -> (r: bool)
    ensures
        r == is_large_enough(rows, cols),
{
    rows >= 10 && cols >= 10
}

/// Two or more digits stand for a number that is padded to two.
pub proof fn lemma_padded_digits(n: nat)
    ensures
        text::padded(n, 2).len() >= 2,
        text::all_digits(text::padded(n, 2)),
        text::number(text::padded(n, 2)) == n,
{
    text::lemma_decimal_read_back(n);
    let digits = text::decimal(n);
    let s = text::padded(n, 2);
    if digits.len() < 2 {
        assert(digits.len() == 1);
        assert(s =~= seq!['0', digits[0]]);
        assert(text::is_digit(digits[0]));
        assert(s.drop_last() =~= seq!['0']);
        assert(seq!['0'].drop_last() =~= Seq::<char>::empty());
        assert(digits.drop_last() =~= Seq::<char>::empty());
        reveal_with_fuel(text::number, 3);
    }
}

/// No two files of an export have the same name, at any attempt.
pub proof fn lemma_export_names_differ(
    outputs: Seq<StagedOutput>,
    base: Seq<char>,
    format: OutputFormat,
    photos: nat,
    preview: bool,
    attempt: nat,
    i: int,
    j: int,
)
    requires
        is_export_group(outputs, base, format, photos, preview),
        0 <= i < j < outputs.len(),
    ensures
        outputs[i].name(attempt) != outputs[j].name(attempt),
{
    reveal_strlit("_");
    reveal_strlit(".");
    reveal_strlit("_vorschau");
    let start = base.len() + 1;
    let a = outputs[i].name(attempt);
    let b = outputs[j].name(attempt);
    let m = text::padded((i + 1) as nat, 2);
    lemma_padded_digits((i + 1) as nat);
    assert(is_output(outputs[i], photo_stem(base, i as nat), format.extension_text()));
    assert forall|k: int| 0 <= k < m.len() implies a[start + k] == m[k] by {}
    assert(a[start + m.len() as int] == '_' || a[start + m.len() as int] == '.');
    if j < photos {
        let n = text::padded((j + 1) as nat, 2);
        lemma_padded_digits((j + 1) as nat);
        assert(is_output(outputs[j], photo_stem(base, j as nat), format.extension_text()));
        assert forall|k: int| 0 <= k < n.len() implies b[start + k] == n[k] by {}
        assert(b[start + n.len() as int] == '_' || b[start + n.len() as int] == '.');
        if a == b {
            if m.len() < n.len() {
                assert(text::is_digit(n[m.len() as int]));
            } else if n.len() < m.len() {
                assert(text::is_digit(m[n.len() as int]));
            } else {
                assert(m =~= n) by {
                    assert forall|k: int| 0 <= k < m.len() implies m[k] == n[k] by {
                        assert(a[start + k] == m[k]);
                        assert(b[start + k] == n[k]);
                    }
                }
            }
        }
    } else {
        assert(b[start as int] == 'v');
        assert(text::is_digit(m[0]));
        assert(a[start as int + 0] == m[0]);
    }
}

proof fn lemma_limits()
    ensures
        binary64::units(ZERO as nat) == 0,
        binary64::units(ONE as nat) == pow2(1074),
        binary64::units(TWO as nat) == 2 * pow2(1074),
        binary64::units(FIFTEEN as nat) == 15 * pow2(1074),
        binary64::units(FIFTY as nat) == 50 * pow2(1074),
        binary64::units(TWO_HUNDRED_FIFTY_FIVE as nat) == 255 * pow2(1074),
{
    lemma2_to64();
    binary64::lemma_whole_number(ONE as nat, 0, 1);
    binary64::lemma_whole_number(TWO as nat, 1, 2);
    binary64::lemma_whole_number(FIFTEEN as nat, 3, 15);
    binary64::lemma_whole_number(FIFTY as nat, 5, 50);
    binary64::lemma_whole_number(TWO_HUNDRED_FIFTY_FIVE as nat, 7, 255);
}

/// Settings are accepted exactly if the smallest area is a number from a tenth to
/// fifty percent, a chosen threshold one from 1 to 255, the extra space one from
/// 0 to 15 percent, the size of the detection image from 256 to 4096 pixels and
/// the quality from 1 to 100. A tenth is the number nearest to it.
pub proof fn lemma_accepted_settings(config: SplitConfig)
    ensures
        config.complaint() is None <==> {
            &&& !config.min_area_percent.is_nan()
            &&& 0x3fb9_9999_9999_999a <= config.min_area_percent.bits
            &&& config.min_area_percent.bits < 0x8000_0000_0000_0000
            &&& config.min_area_percent.value() <= 50 * pow2(1074)
            &&& config.threshold matches Some(threshold) ==> !threshold.is_nan() && pow2(1074)
                <= threshold.value() <= 255 * pow2(1074)
            &&& !config.padding_percent.is_nan()
            &&& 0 <= config.padding_percent.value() <= 15 * pow2(1074)
            &&& 256 <= config.max_detection_size <= 4096
            &&& 1 <= config.jpeg_quality <= 100
        },
{
    lemma_limits();
    let area = config.min_area_percent;
    let tenth = Binary64 { bits: ONE_TENTH };
    assert(tenth.magnitude() == ONE_TENTH);
    binary64::lemma_units_increase(area.magnitude(), ONE_TENTH as nat);
    binary64::lemma_units_increase(ONE_TENTH as nat, area.magnitude());
    binary64::lemma_units_increase(0, ONE_TENTH as nat);
    lemma_pow2_pos(1074);
    assert((Binary64 { bits: FIFTY }).value() == 50 * pow2(1074));
    assert((Binary64 { bits: ONE }).value() == pow2(1074));
    assert((Binary64 { bits: TWO_HUNDRED_FIFTY_FIVE }).value() == 255 * pow2(1074));
    assert((Binary64 { bits: ZERO }).value() == 0);
    assert((Binary64 { bits: FIFTEEN }).value() == 15 * pow2(1074));
    assert(tenth.le(area) <==> !area.is_nan() && ONE_TENTH <= area.bits && area.bits
        < 0x8000_0000_0000_0000) by {
        if area.is_negative() {
            assert(tenth.value() > 0);
        }
    }
}

/// The usual settings are accepted: two percent, an automatic threshold, one and
/// a fifth percent, 1800 pixels, JPG, a quality of 95, and neither a resolution
/// nor a date.
pub proof fn lemma_usual_settings(config: SplitConfig)
    requires
        call_ensures(<SplitConfig as Default>::default, (), config),
    ensures
        config.complaint() is None,
        config.min_area_percent.value() == 2 * pow2(1074),
        config.threshold is None,
        config.padding_percent.bits == 0x3ff3_3333_3333_3333,
        config.max_detection_size == 1800,
        config.output_format is Jpeg,
        config.jpeg_quality == 95,
        config.dpi is None,
        config.capture_date is None,
{
    lemma_limits();
    lemma_accepted_settings(config);
    lemma_pow2_pos(1074);
    binary64::lemma_units_increase(ONE_AND_ONE_FIFTH as nat, FIFTEEN as nat);
}

/// A prefix is accepted exactly if it is one file name: not empty, neither the
/// directory nor the one above it, without separators and control characters, and
/// not longer than 128 bytes.
pub proof fn lemma_accepted_prefixes(prefix: &str, i: int)
    ensures
        prefix@ == ""@ ==> !is_safe_prefix(prefix),
        prefix@ == "."@ ==> !is_safe_prefix(prefix),
        prefix@ == ".."@ ==> !is_safe_prefix(prefix),
        0 <= i < prefix@.len() && (prefix@[i] == '/' || prefix@[i] == '\\') ==> !is_safe_prefix(
            prefix,
        ),
        0 <= i < prefix@.len() && (prefix@[i] as u32 <= 31 || 127 <= prefix@[i] as u32 <= 159)
            ==> !is_safe_prefix(prefix),
        vstd::utf8::encode_utf8(prefix@).len() > 128 ==> !is_safe_prefix(prefix),
        prefix@.len() > 0 && prefix@ != "."@ && prefix@ != ".."@ && vstd::utf8::encode_utf8(
            prefix@,
        ).len() <= 128 && (forall|j: int|
            0 <= j < prefix@.len() ==> 32 <= #[trigger] prefix@[j] as u32 && prefix@[j] != '/'
                && prefix@[j] != '\\' && !(127 <= prefix@[j] as u32 <= 159)) ==> is_safe_prefix(
            prefix,
        ),
{
    reveal_strlit("");
    reveal_strlit(".");
    reveal_strlit("..");
    assert("."@ =~= seq!['.']);
    assert(".."@ =~= seq!['.', '.']);
}

/// An image is accepted exactly if both sides have from 20 to 30000 pixels, and
/// it has no more than 180 million of them.
pub proof fn lemma_accepted_dimensions(width: u32, height: u32)
    ensures
        dimension_complaint(width, height) is None <==> 20 <= width <= 30000 && 20 <= height <= 30000
            && width * height <= 180_000_000,
        dimension_complaint(width, height) == dimension_complaint(height, width)
            || dimension_complaint(width, height) is Some && dimension_complaint(height, width)
            is Some,
{
    assert(width * height == height * width) by (nonlinear_arith);
}

/// A decoded image is accepted exactly if it is there, has the size that its
/// header gives, and is not too small.
pub proof fn lemma_accepted_images(image: DecodedImage, width: u32, height: u32)
    ensures
        matches_header(image, width, height) <==> !image.empty && image.cols == width && image.rows
            == height && width >= 20 && height >= 20,
{
}

/// Images are set upright as their orientation says, which tells where the first
/// row and the first column of the stored image belong: at the top, the bottom,
/// the left or the right. Other numbers ask for nothing.
pub proof fn lemma_upright(orientation: int, cols: int, rows: int, x: int, y: int)
    requires
        0 <= x < cols,
        0 <= y < rows,
    ensures
        ({
            let (a, b) = transform_for(orientation).moves(cols, rows, x, y);
            let first_row_on_top = b == y;
            let first_row_at_bottom = b == rows - 1 - y;
            let first_row_on_left = a == y;
            let first_row_on_right = a == rows - 1 - y;
            let first_column_on_left = a == x;
            let first_column_on_right = a == cols - 1 - x;
            let first_column_on_top = b == x;
            let first_column_at_bottom = b == cols - 1 - x;
            &&& orientation == 1 ==> first_row_on_top && first_column_on_left
            &&& orientation == 2 ==> first_row_on_top && first_column_on_right
            &&& orientation == 3 ==> first_row_at_bottom && first_column_on_right
            &&& orientation == 4 ==> first_row_at_bottom && first_column_on_left
            &&& orientation == 5 ==> first_row_on_left && first_column_on_top
            &&& orientation == 6 ==> first_row_on_right && first_column_on_top
            &&& orientation == 7 ==> first_row_on_right && first_column_at_bottom
            &&& orientation == 8 ==> first_row_on_left && first_column_at_bottom
            &&& !(1 <= orientation <= 8) ==> first_row_on_top && first_column_on_left
        }),
        transform_for(orientation).swaps_sides() <==> 5 <= orientation <= 8,
{
}

/// Turning and mirroring are what their names say: a quarter turn clockwise
/// brings the upper left corner to the upper right, one counterclockwise undoes
/// it, half a turn is two of them, and mirroring twice changes nothing.
pub proof fn lemma_turning(cols: int, rows: int, x: int, y: int)
    ensures
        Transform::Keep.moves(cols, rows, x, y) == (x, y),
        Transform::RotateClockwise.moves(cols, rows, 0, 0) == (rows - 1, 0int),
        ({
            let (a, b) = Transform::RotateClockwise.moves(cols, rows, x, y);
            &&& Transform::RotateCounterclockwise.moves(rows, cols, a, b) == (x, y)
            &&& Transform::RotateClockwise.moves(rows, cols, a, b) == Transform::Rotate180.moves(
                cols,
                rows,
                x,
                y,
            )
        }),
        ({
            let (a, b) = Transform::FlipHorizontally.moves(cols, rows, x, y);
            &&& b == y
            &&& Transform::FlipHorizontally.moves(cols, rows, a, b) == (x, y)
        }),
        ({
            let (a, b) = Transform::FlipVertically.moves(cols, rows, x, y);
            &&& a == x
            &&& Transform::FlipVertically.moves(cols, rows, a, b) == (x, y)
        }),
{
}

/// The formats have their usual names and endings, which are read in small and
/// capital letters.
pub proof fn lemma_format_names(name: Seq<char>)
    ensures
        OutputFormat::Jpeg.extension_text() == "jpg"@,
        OutputFormat::Png.extension_text() == "png"@,
        OutputFormat::Tiff.extension_text() == "tif"@,
        OutputFormat::named(name) == Some(OutputFormat::Jpeg) <==> text::lowercase(name) == "jpg"@
            || text::lowercase(name) == "jpeg"@,
        OutputFormat::named(name) == Some(OutputFormat::Png) <==> text::lowercase(name) == "png"@,
        OutputFormat::named(name) == Some(OutputFormat::Tiff) <==> text::lowercase(name) == "tif"@
            || text::lowercase(name) == "tiff"@,
{
    reveal_strlit("jpg");
    reveal_strlit("jpeg");
    reveal_strlit("png");
    reveal_strlit("tif");
    reveal_strlit("tiff");
    assert("jpg"@[0] == 'j' && "jpeg"@[0] == 'j' && "png"@[0] == 'p' && "tif"@[0] == 't'
        && "tiff"@[0] == 't');
}

/// The resolution comes from the metadata, and from the container only where the
/// metadata has none; for an export a chosen resolution comes before both.
pub proof fn lemma_resolution_sources(
    metadata: Option<u32>,
    container: Option<u32>,
    chosen: Option<u32>,
    found: Option<u32>,
)
    requires
        call_ensures(image_dpi, (Ok(metadata), container), Ok(found)),
    ensures
        metadata is Some ==> found == metadata,
        metadata is None ==> found == container,
        chosen is Some ==> export_dpi_of(chosen, found) == chosen,
        chosen is None ==> export_dpi_of(chosen, found) == found,
{
}

/// Images are encoded as their format asks for: JPG at the chosen quality, TIFF
/// without loss and with its resolution in dots per inch, the same in both
/// directions.
pub proof fn lemma_encoding(format: OutputFormat, quality: i32, dpi: u32)
    requires
        dpi <= i32::MAX,
    ensures
        format is Jpeg ==> settings_for(format, quality, Some(dpi)).contains(
            EncoderSetting::JpegQuality(quality),
        ),
        forall|n: i32|
            format is Jpeg && #[trigger] settings_for(format, quality, Some(dpi)).contains(
                EncoderSetting::JpegQuality(n),
            ) ==> n == quality,
        format is Tiff ==> settings_for(format, quality, None).contains(EncoderSetting::TiffLzw),
        format is Tiff ==> settings_for(format, quality, Some(dpi)) == seq![
            EncoderSetting::TiffLzw,
            EncoderSetting::TiffInches,
            EncoderSetting::TiffXDpi(dpi as i32),
            EncoderSetting::TiffYDpi(dpi as i32),
        ],
        format is Png ==> settings_for(format, quality, Some(dpi)) == seq![
            EncoderSetting::PngCompression(4),
        ],
{
    let jpeg = settings_for(OutputFormat::Jpeg, quality, Some(dpi));
    assert(jpeg[0] == EncoderSetting::JpegQuality(quality));
    assert(jpeg[1] == EncoderSetting::JpegOptimize(true));
    let tiff = settings_for(OutputFormat::Tiff, quality, None);
    assert(tiff[0] == EncoderSetting::TiffLzw);
}

/// Whether `states` are the states of the saving of an image through `events`,
/// from its start.
pub open spec fn is_save_history(states: Seq<SaveRun>, events: Seq<SaveEvent>) -> bool {
    &&& states.len() == events.len() + 1
    &&& states[0].stage is Encoding
    &&& forall|i: int|
        0 <= i < events.len() ==> (#[trigger] states[i]).stage_follows(
            events[i],
            states[i + 1].stage,
        ) && states[i + 1].path == states[i].path && states[i + 1].dpi == states[i].dpi
}

/// A saved image is complete: it was encoded, its resolution was written if it
/// has one, and then its metadata. Where one of the latter failed, the file was
/// removed.
pub proof fn lemma_saved_image_is_complete(states: Seq<SaveRun>, events: Seq<SaveEvent>)
    requires
        is_save_history(states, events),
        states.last().stage is Finished,
    ensures
        events.len() > 0,
        states.last().stage matches SaveStage::Finished(Ok(_)) ==> {
            &&& events[0] matches SaveEvent::Encoded(Ok(saved)) && saved
            &&& states[0].dpi is Some ==> events.len() == 3 && (states[1].stage matches
                SaveStage::Density(dpi) && states[0].dpi == Some(dpi)) && (events[1] matches
                SaveEvent::DensityWritten(Ok(_)))
            &&& states[0].dpi is None ==> events.len() == 2
            &&& events.last() matches SaveEvent::MetadataWritten(Ok(_))
        },
        states.last().stage matches SaveStage::Finished(Err(_)) && events.len() > 1
            ==> events.last() is Removed,
{
    if events.len() > 0 {
        assert(states[0].stage_follows(events[0], states[0int + 1].stage));
    }
    if events.len() > 1 {
        assert(states[1].stage_follows(events[1], states[1int + 1].stage));
    }
    if events.len() > 2 {
        assert(states[2].stage_follows(events[2], states[2int + 1].stage));
    }
    if events.len() > 3 {
        assert(states[3].stage_follows(events[3], states[3int + 1].stage));
    }
    if events.len() > 4 {
        assert(states[4].stage_follows(events[4], states[4int + 1].stage));
    }
}

/// The photos of an export are numbered from one, in at least two digits, behind
/// its base and an underscore; the preview is called so and is always a JPG file.
pub proof fn lemma_export_file_names(
    outputs: Seq<StagedOutput>,
    base: Seq<char>,
    format: OutputFormat,
    photos: nat,
    preview: bool,
    i: int,
)
    requires
        is_export_group(outputs, base, format, photos, preview),
        0 <= i < photos,
    ensures
        outputs.len() == if preview { photos + 1 } else { photos },
        ({
            let stem = outputs[i].stem@;
            let digits = stem.skip(base.len() as int + 1);
            &&& stem.len() >= base.len() + 3
            &&& stem.take(base.len() as int) == base
            &&& stem[base.len() as int] == '_'
            &&& text::all_digits(digits)
            &&& text::number(digits) == i + 1
        }),
        outputs[i].extension@ == format.extension_text(),
        preview ==> outputs[photos as int].stem@ == base + "_vorschau"@
            && outputs[photos as int].extension@ == "jpg"@,
{
    assert(is_output(outputs[i], photo_stem(base, i as nat), format.extension_text()));
    reveal_strlit("_");
    let digits = text::padded((i + 1) as nat, 2);
    lemma_padded_digits((i + 1) as nat);
    let stem = outputs[i].stem@;
    assert(stem.skip(base.len() as int + 1) =~= digits);
    assert(stem.take(base.len() as int) =~= base);
}

/// Without a prefix, an export is named after its moment; a cut-out is kept if
/// both its sides have ten pixels or more; and a TIFF file without a resolution
/// gets one of 72 dots per inch.
pub proof fn lemma_export_rules(
    prefix: Seq<char>,
    time: CaptureTime,
    rows: i32,
    cols: i32,
    format: OutputFormat,
    dpi: u32,
    written: Option<u32>,
    fallback: Option<u32>,
)
    requires
        call_ensures(metadata_dpi, (format, Some(dpi)), written),
        call_ensures(metadata_dpi, (format, None), fallback),
    ensures
        base_name(Some(prefix), time) == prefix,
        base_name(None, time) == "scan_"@ + capture::name_text(time),
        is_large_enough(rows, cols) <==> rows >= 10 && cols >= 10,
        written == Some(dpi),
        fallback == if format is Tiff { Some(72u32) } else { None },
{
}

/// What was published is split into the photos and the preview, which comes last.
pub proof fn lemma_export_results(published: Vec<String>, threshold: Binary64, r: SplitResult)
    requires
        published@.len() > 0,
        call_ensures(export_result, (published, true, threshold), r),
    ensures
        r.threshold_used == threshold,
        r.files@.len() == published@.len() - 1,
        r.preview == Some(published@[published@.len() - 1]),
        forall|i: int| 0 <= i < r.files@.len() ==> r.files@[i] == published@[i],
{
}

/// Each setting outside its limits is told by a message of its own, where the
/// settings before it are within theirs; a prefix is complained about only where
/// all settings are.
pub proof fn lemma_complaints(config: SplitConfig, other: SplitConfig, prefix: Option<&str>)
    requires
        other.complaint() is None,
    ensures
        config.min_area_percent == other.min_area_percent && config.threshold == other.threshold
            && config.padding_percent == other.padding_percent ==> {
            &&& !(256 <= config.max_detection_size <= 4096) ==> config.complaint() == Some(
                "Die maximale Erkennungsgröße muss zwischen 256 und 4096 Pixeln liegen."@,
            )
            &&& 256 <= config.max_detection_size <= 4096 && !(1 <= config.jpeg_quality <= 100)
                ==> config.complaint() == Some(
                "Die JPEG-Qualität muss zwischen 1 und 100 liegen."@,
            )
        },
        config.min_area_percent == other.min_area_percent && config.threshold == other.threshold
            && config.complaint() is Some && config.max_detection_size == other.max_detection_size
            && config.jpeg_quality == other.jpeg_quality ==> config.complaint() == Some(
            "Der Rand muss zwischen 0 und 15 Prozent liegen."@,
        ),
        config.min_area_percent == other.min_area_percent && config.padding_percent
            == other.padding_percent && config.complaint() is Some && config.max_detection_size
            == other.max_detection_size && config.jpeg_quality == other.jpeg_quality
            ==> config.complaint() == Some("Der Schwellwert muss zwischen 1 und 255 liegen."@),
        config.threshold == other.threshold && config.padding_percent == other.padding_percent
            && config.complaint() is Some && config.max_detection_size == other.max_detection_size
            && config.jpeg_quality == other.jpeg_quality ==> config.complaint() == Some(
            "Die Mindestfläche muss zwischen 0,1 und 50 Prozent liegen."@,
        ),
        config.complaint() is Some ==> request_complaint(config, prefix) == config.complaint(),
        request_complaint(other, prefix) is None <==> (prefix matches Some(prefix)
            ==> is_safe_prefix(prefix)),
        prefix matches Some(prefix) ==> (!is_safe_prefix(prefix) ==> request_complaint(
            other,
            Some(prefix),
        ) == Some(
            "Der Dateipräfix muss aus genau einem sicheren Dateinamen mit höchstens 128 Bytes bestehen."@,
        )),
{
}

/// The outcome of the checks: nothing else is told than what is wrong.
pub proof fn lemma_checked_requests(
    config: &SplitConfig,
    prefix: Option<&str>,
    photos: usize,
    preview_regions: Option<usize>,
    request: Result<(), SplitError>,
    export: Result<(), SplitError>,
)
    requires
        call_ensures(check_request, (config, prefix), request),
        call_ensures(check_export, (config, prefix, photos, preview_regions), export),
    ensures
        request is Ok <==> config.complaint() is None && (prefix matches Some(prefix)
            ==> is_safe_prefix(prefix)),
        request matches Err(error) ==> error is InvalidConfig,
        export is Ok <==> request is Ok && photos > 0 && (preview_regions matches Some(regions)
            ==> regions == photos),
        export matches Err(error) ==> (error is NothingDetected <==> request is Ok && photos == 0),
{
}

/// Images that are too small are told so, and of those that are too large their
/// width and height are told, in this order.
pub proof fn lemma_refused_dimensions(width: u32, height: u32)
    ensures
        width < 20 || height < 20 ==> dimension_complaint(width, height) == Some(
            "Das Scanbild ist zu klein oder hat ein ungültiges Format."@,
        ),
        width >= 20 && height >= 20 && (width > 30000 || height > 30000 || width * height
            > 180_000_000) ==> dimension_complaint(width, height) == Some(
            "Das Bild ist mit "@ + text::decimal(width as nat) + "×"@ + text::decimal(height as nat)
                + " Pixeln zu groß. Erlaubt sind höchstens 180000000 Pixel und 30000 Pixel je Kante."@,
        ),
{
}

/// A message about a failure ends with what is known of it.
pub proof fn lemma_messages_tell_the_detail(detail: String)
    ensures
        SplitError::InvalidConfig(detail).text() == detail@,
        detail@.is_suffix_of(SplitError::MissingSource(detail).text()),
        detail@.is_suffix_of(SplitError::OpenCv(detail).text()),
        detail@.is_suffix_of(SplitError::Io(detail).text()),
        detail@.is_suffix_of(SplitError::Metadata(detail).text()),
{
    let texts = seq![
        SplitError::MissingSource(detail).text(),
        SplitError::OpenCv(detail).text(),
        SplitError::Io(detail).text(),
        SplitError::Metadata(detail).text(),
    ];
    assert forall|i: int| 0 <= i < texts.len() implies detail@.is_suffix_of(#[trigger] texts[i]) by {
        let told = texts[i];
        assert(told.subrange(told.len() - detail@.len(), told.len() as int) =~= detail@);
    }
    assert(texts[0] == SplitError::MissingSource(detail).text());
    assert(texts[1] == SplitError::OpenCv(detail).text());
    assert(texts[2] == SplitError::Io(detail).text());
    assert(texts[3] == SplitError::Metadata(detail).text());
}

/// A number and the signed number with the same bits differ by a multiple of 2 to
/// the power of 32.
pub proof fn lemma_signed_numbers(n: u32, signed: i32)
    requires
        call_ensures(to_signed, (n,), signed),
    ensures
        (n - signed) % 0x1_0000_0000 == 0,
        signed >= 0 ==> signed == n,
{
}

} // verus!
