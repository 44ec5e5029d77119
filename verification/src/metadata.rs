//! Image metadata: what the metadata program is asked, and what its answers
//! mean.

use crate::arithmetic;
use crate::binary64;
use crate::capture;
use crate::capture::CaptureTime;
use crate::decimals;
use crate::failure::{Failure, FailureKind};
use crate::rounding;
use crate::text;
use vstd::arithmetic::power2::{lemma2_to64, lemma_pow2_pos, lemma_pow2_unfold, pow2};
use vstd::prelude::*;

verus! {

/// The program that reads and writes metadata.
pub const METADATA_PROGRAM: &'static str = "exiv2";

/// The tag that holds the orientation.
pub const ORIENTATION_TAG: &'static str = "Exif.Image.Orientation";

/// The tag that holds the resolution.
pub const RESOLUTION_TAG: &'static str = "Exif.Image.XResolution";

/// Why metadata could not be read or written.
#[derive(Debug)]
pub enum MetadataError {
    /// The metadata program is not installed.
    ToolMissing,
    /// The metadata program could not be run.
    Process(String),
    /// Metadata could not be read.
    Read {
        /// The file.
        path: String,
        /// What the program said.
        detail: String,
    },
    /// Metadata could not be written.
    Write {
        /// The file.
        path: String,
        /// What the program said.
        detail: String,
    },
    /// The full path of the file could not be found.
    Path(String),
    /// The modification time could not be set.
    FileTime(String),
}

impl MetadataError {
    /// The error in words.
    pub open spec fn text(self) -> Seq<char> {
        match self {
            MetadataError::ToolMissing =>
            "Das Programm 'exiv2' für Bildmetadaten wurde nicht gefunden. Unter CachyOS/Arch kann es mit 'sudo pacman -S exiv2' installiert werden."@,
            MetadataError::Process(detail) =>
            "Metadatenprozess konnte nicht ausgeführt werden: "@ + detail@,
            MetadataError::Read { path, detail } => "Metadaten von '"@ + path@
                + "' konnten nicht gelesen werden: "@ + detail@,
            MetadataError::Write { path, detail } => "Metadaten von '"@ + path@
                + "' konnten nicht geschrieben werden: "@ + detail@,
            MetadataError::Path(detail) =>
            "Dateipfad für Metadaten konnte nicht aufgelöst werden: "@ + detail@,
            MetadataError::FileTime(detail) => "Änderungsdatum konnte nicht gesetzt werden: "@
                + detail@,
        }
    }

    /// The error in words.
    pub fn message(&self) -> (r: String)
        ensures
            r@ == self.text(),
    {
        match self {
            MetadataError::ToolMissing =>
            "Das Programm 'exiv2' für Bildmetadaten wurde nicht gefunden. Unter CachyOS/Arch kann es mit 'sudo pacman -S exiv2' installiert werden.".to_string(),
            MetadataError::Process(detail) => text::concat(
                "Metadatenprozess konnte nicht ausgeführt werden: ",
                detail,
            ),
            MetadataError::Read { path, detail } => {
                let mut out = text::concat("Metadaten von '", path);
                out.append("' konnten nicht gelesen werden: ");
                out.append(detail);
                out
            },
            MetadataError::Write { path, detail } => {
                let mut out = text::concat("Metadaten von '", path);
                out.append("' konnten nicht geschrieben werden: ");
                out.append(detail);
                out
            },
            MetadataError::Path(detail) => text::concat(
                "Dateipfad für Metadaten konnte nicht aufgelöst werden: ",
                detail,
            ),
            MetadataError::FileTime(detail) => text::concat(
                "Änderungsdatum konnte nicht gesetzt werden: ",
                detail,
            ),
        }
    }
}

/// What a program that ended left behind.
#[derive(Debug)]
pub struct ProgramOutput {
    /// Whether it ended with success.
    pub success: bool,
    /// Its exit code, unless a signal ended it.
    pub code: Option<i32>,
    /// Its exit status in words.
    pub status: String,
    /// Its output.
    pub stdout: Vec<u8>,
    /// Its error output.
    pub stderr: Vec<u8>,
}

impl ProgramOutput {
    /// What the program failed with: its error output without white space at
    /// the ends, or its exit status where there is none.
    pub open spec fn complaint(self) -> Seq<char> {
        let said = text::trimmed(text::lossy_text(self.stderr@));
        if said.len() == 0 {
            "exiv2 wurde mit Status "@ + self.status@ + " beendet"@
        } else {
            said
        }
    }
}

/// What the program failed with.
pub fn detail(output: &ProgramOutput) -> (r: String)
    ensures
        r@ == output.complaint(),
{
    let decoded = text::decode_lossy(&output.stderr);
    let chars = text::characters(&decoded);
    let said = text::trim(&chars);
    if said.len() == 0 {
        let mut out = text::concat("exiv2 wurde mit Status ", &output.status);
        out.append(" beendet");
        out
    } else {
        text::text_of(&said)
    }
}

/// Whether an error is the one for a program that could not be run.
pub open spec fn is_run_error(failure: Failure, error: MetadataError) -> bool {
    if failure.kind is NotFound {
        error is ToolMissing
    } else {
        error == MetadataError::Process(failure.message)
    }
}

/// The error for a program that could not be run.
pub fn run_error(failure: Failure) -> (r: MetadataError)
    ensures
        is_run_error(failure, r),
{
    match failure.kind {
        FailureKind::NotFound => MetadataError::ToolMissing,
        FailureKind::AlreadyExists => MetadataError::Process(failure.message),
        FailureKind::Other => MetadataError::Process(failure.message),
    }
}

/// The arguments, before the file, that ask for the value of a tag.
pub fn read_arguments(tag: &str) -> (r: Vec<String>)
    ensures
        text::string_views(r@) == seq!["-K"@, tag@, "-Pv"@],
{
    let mut out: Vec<String> = Vec::new();
    out.push("-K".to_string());
    out.push(tag.to_string());
    out.push("-Pv".to_string());
    assert(text::string_views(out@) =~= seq!["-K"@, tag@, "-Pv"@]);
    out
}

/// Whether the program says that a file has no such tag: it ends with code 1
/// and says nothing.
pub open spec fn says_no_tag(output: ProgramOutput) -> bool {
    !output.success && output.code == Some(1i32) && output.stdout@.len() == 0
        && output.stderr@.len() == 0
}

/// The value of a tag, as the program gave it for the file at `path`: none
/// where there is no such tag or its value is blank.
pub fn read_tag(path: &str, run: Result<ProgramOutput, Failure>) -> (r: Result<
    Option<String>,
    MetadataError,
>)
    ensures
        match run {
            Err(failure) => r matches Err(error) && is_run_error(failure, error),
            Ok(output) => if output.success {
                let value = text::trimmed(text::lossy_text(output.stdout@));
                match r {
                    Ok(Some(found)) => value.len() > 0 && found@ == value,
                    Ok(None) => value.len() == 0,
                    Err(_) => false,
                }
            } else if says_no_tag(output) {
                r == Ok::<Option<String>, MetadataError>(None)
            } else {
                &&& r matches Err(MetadataError::Read { path: file, detail: said })
                &&& file@ == path@
                &&& said@ == output.complaint()
            },
        },
{
    let output = match run {
        Ok(output) => output,
        Err(failure) => {
            return Err(run_error(failure));
        },
    };
    if !output.success {
        let quiet = output.stdout.len() == 0 && output.stderr.len() == 0;
        if quiet {
            if let Some(code) = output.code {
                if code == 1 {
                    return Ok(None);
                }
            }
        }
        return Err(MetadataError::Read { path: path.to_string(), detail: detail(&output) });
    }
    let decoded = text::decode_lossy(&output.stdout);
    let chars = text::characters(&decoded);
    let value = text::trim(&chars);
    if value.len() == 0 {
        Ok(None)
    } else {
        Ok(Some(text::text_of(&value)))
    }
}

/// The orientation that a tag value stands for, from 1 to 8.
pub open spec fn orientation_of(value: Seq<char>) -> Option<nat> {
    match text::unsigned(value, 65535) {
        Some(n) => if 1 <= n <= 8 {
            Some(n)
        } else {
            None
        },
        None => None,
    }
}

/// The orientation, given what was read of its tag.
pub fn image_orientation(tag: Result<Option<String>, MetadataError>) -> (r: Result<
    Option<u16>,
    MetadataError,
>)
    ensures
        match tag {
            Err(error) => r == Err::<Option<u16>, MetadataError>(error),
            Ok(None) => r == Ok::<Option<u16>, MetadataError>(None),
            Ok(Some(value)) => match r {
                Ok(Some(n)) => orientation_of(value@) == Some(n as nat),
                Ok(None) => orientation_of(value@) is None,
                Err(_) => false,
            },
        },
{
    match tag {
        Err(error) => Err(error),
        Ok(None) => Ok(None),
        Ok(Some(value)) => {
            let chars = text::characters(&value);
            match text::parse_unsigned(&chars, 65535) {
                Some(n) => if 1 <= n && n <= 8 {
                    Ok(Some(n as u16))
                } else {
                    Ok(None)
                },
                None => Ok(None),
            }
        },
    }
}

/// The part of a text before its first slash, and the part after it; one where
/// there is no slash.
pub open spec fn around_slash(s: Seq<char>) -> (Seq<char>, Seq<char>) {
    let p = text::position_of(s, '/') as int;
    if p < s.len() {
        (s.take(p), s.skip(p + 1))
    } else {
        (s, seq!['1'])
    }
}

/// The whole number that a fraction is nearest to, where it is positive and
/// fits in 32 bits. Numerator, denominator and quotient are double-precision
/// numbers.
pub open spec fn positive_rational(s: Seq<char>) -> Option<nat> {
    let (over, under) = around_slash(s);
    match (
        decimals::float_of(text::trimmed(over)),
        decimals::float_of(text::trimmed(under)),
    ) {
        (Some(num), Some(den)) => {
            let ratio = arithmetic::quotient(num.magnitude(), den.magnitude());
            let whole = arithmetic::nearest_whole(ratio);
            if num.is_finite_number() && den.is_finite_number() && !num.is_negative()
                && !den.is_negative() && den.magnitude() > 0 && ratio < rounding::INFINITE && 0
                < whole <= u32::MAX {
                Some(whole)
            } else {
                None
            }
        },
        _ => None,
    }
}

/// The resolution that a fraction stands for: the nearest whole number, where
/// it is positive and fits in 32 bits.
pub fn parse_positive_rational(value: &str) -> (r: Option<u32>)
    ensures
        match r {
            Some(n) => positive_rational(value@) == Some(n as nat),
            None => positive_rational(value@) is None,
        },
{
    let chars = text::characters(value);
    let slash: usize = text::find_from(&chars, 0, '/');
    assert(chars@.skip(0) =~= chars@);
    let over = text::range_of(&chars, 0, slash);
    assert(over@ =~= chars@.take(slash as int));
    let under = if slash < chars.len() {
        let part = text::range_of(&chars, slash + 1, chars.len());
        assert(part@ =~= chars@.skip(slash + 1));
        part
    } else {
        let mut part: Vec<char> = Vec::new();
        part.push('1');
        assert(part@ =~= seq!['1']);
        assert(over@ =~= chars@);
        part
    };
    let num = match decimals::parse_decimal(&text::trim(&over)) {
        Some(num) => num,
        None => {
            return None;
        },
    };
    let den = match decimals::parse_decimal(&text::trim(&under)) {
        Some(den) => den,
        None => {
            return None;
        },
    };
    if !num.is_finite() || !den.is_finite() || num.bits >= 0x8000_0000_0000_0000 || den.bits
        >= 0x8000_0000_0000_0000 || den.bits == 0 {
        return None;
    }
    let ratio: u64 = arithmetic::divide(num.bits, den.bits);
    if ratio == rounding::INFINITE {
        return None;
    }
    arithmetic::round_to_whole(ratio)
}

/// The resolution, given what was read of its tag.
pub fn image_dpi(tag: Result<Option<String>, MetadataError>) -> (r: Result<
    Option<u32>,
    MetadataError,
>)
    ensures
        match tag {
            Err(error) => r == Err::<Option<u32>, MetadataError>(error),
            Ok(None) => r == Ok::<Option<u32>, MetadataError>(None),
            Ok(Some(value)) => match r {
                Ok(Some(n)) => positive_rational(value@) == Some(n as nat),
                Ok(None) => positive_rational(value@) is None,
                Err(_) => false,
            },
        },
{
    match tag {
        Err(error) => Err(error),
        Ok(None) => Ok(None),
        Ok(Some(value)) => Ok(parse_positive_rational(&value)),
    }
}

/// The metadata changes for an exported file, in order.
pub open spec fn edits(time: CaptureTime, dpi: Option<u32>) -> Seq<Seq<char>> {
    let stamp = capture::exif_text(time);
    let offset = capture::offset_text(time.offset as int);
    let moment = seq![
        "set Exif.Image.DateTime Ascii "@ + stamp,
        "set Exif.Photo.DateTimeOriginal Ascii "@ + stamp,
        "set Exif.Photo.DateTimeDigitized Ascii "@ + stamp,
        "set Exif.Image.Software Ascii Photo Scanner"@,
        "set Exif.Photo.OffsetTime Ascii "@ + offset,
        "set Exif.Photo.OffsetTimeOriginal Ascii "@ + offset,
        "set Exif.Photo.OffsetTimeDigitized Ascii "@ + offset,
    ];
    match dpi {
        Some(dpi) => moment + seq![
            "set Exif.Image.XResolution Rational "@ + resolution_text(dpi),
            "set Exif.Image.YResolution Rational "@ + resolution_text(dpi),
            "set Exif.Image.ResolutionUnit Short 2"@,
        ],
        None => moment,
    }
}

/// A resolution as a fraction.
pub open spec fn resolution_text(dpi: u32) -> Seq<char> {
    text::decimal(dpi as nat) + "/1"@
}

/// Each change after the option that announces it.
pub open spec fn announced(changes: Seq<Seq<char>>) -> Seq<Seq<char>>
    decreases changes.len(),
{
    if changes.len() == 0 {
        Seq::empty()
    } else {
        announced(changes.drop_last()) + seq!["-M"@, changes.last()]
    }
}

/// The metadata changes for an exported file.
fn edit_list(time: CaptureTime, dpi: Option<u32>) -> (r: Vec<String>)
    requires
        time.is_valid(),
    ensures
        text::string_views(r@) == edits(time, dpi),
{
    let stamp = capture::exif_stamp(time);
    let offset = capture::exif_offset(time);
    let mut out: Vec<String> = Vec::new();
    out.push(text::concat("set Exif.Image.DateTime Ascii ", &stamp));
    out.push(text::concat("set Exif.Photo.DateTimeOriginal Ascii ", &stamp));
    out.push(text::concat("set Exif.Photo.DateTimeDigitized Ascii ", &stamp));
    out.push("set Exif.Image.Software Ascii Photo Scanner".to_string());
    out.push(text::concat("set Exif.Photo.OffsetTime Ascii ", &offset));
    out.push(text::concat("set Exif.Photo.OffsetTimeOriginal Ascii ", &offset));
    out.push(text::concat("set Exif.Photo.OffsetTimeDigitized Ascii ", &offset));
    if let Some(dpi) = dpi {
        let digits = text::text_of(&text::to_decimal(dpi as u64));
        let fraction = text::concat(&digits, "/1");
        out.push(text::concat("set Exif.Image.XResolution Rational ", &fraction));
        out.push(text::concat("set Exif.Image.YResolution Rational ", &fraction));
        out.push("set Exif.Image.ResolutionUnit Short 2".to_string());
    }
    assert(text::string_views(out@) =~= edits(time, dpi));
    out
}

/// The arguments, before the file, that write the metadata of an exported file.
pub fn write_arguments(time: CaptureTime, dpi: Option<u32>) -> (r: Vec<String>)
    requires
        time.is_valid(),
    ensures
        text::string_views(r@) == seq!["-q"@, "-k"@] + announced(edits(time, dpi)),
{
    let list = edit_list(time, dpi);
    let ghost changes = text::string_views(list@);
    let mut out: Vec<String> = Vec::new();
    out.push("-q".to_string());
    out.push("-k".to_string());
    let ghost start = seq!["-q"@, "-k"@];
    let mut i: usize = 0;
    assert(changes.take(0) =~= Seq::<Seq<char>>::empty());
    assert(text::string_views(out@) =~= start + announced(changes.take(0)));
    while i < list.len()
        invariant
            i <= list.len(),
            changes == text::string_views(list@),
            text::string_views(out@) == start + announced(changes.take(i as int)),
        decreases list.len() - i,
    {
        let ghost before = text::string_views(out@);
        out.push("-M".to_string());
        out.push(list[i].clone());
        proof {
            assert(changes.take(i + 1).drop_last() =~= changes.take(i as int));
            assert(changes.take(i + 1).last() == list@[i as int]@);
            assert(text::string_views(out@) =~= before + seq!["-M"@, list@[i as int]@]);
            assert(before + seq!["-M"@, list@[i as int]@] =~= start + (announced(
                changes.take(i as int),
            ) + seq!["-M"@, list@[i as int]@]));
        }
        i += 1;
    }
    assert(changes.take(changes.len() as int) =~= changes);
    out
}

/// How far the writing of metadata has come.
#[derive(Debug)]
pub enum WriteStage {
    /// The full path of the file has to be found.
    Resolving,
    /// The metadata program has to be run.
    Running {
        /// The full path of the file, which is the last argument.
        path: String,
        /// The arguments before it.
        arguments: Vec<String>,
    },
    /// The file has to get its modification time.
    Timing {
        /// The seconds from the start of 1970 in universal time.
        seconds: i64,
        /// The nanoseconds within the second.
        nanoseconds: u32,
    },
    /// The metadata is written, or not.
    Finished(Result<(), MetadataError>),
}

/// What the program did to write metadata.
#[derive(Debug)]
pub enum WriteEvent {
    /// It found the full path, or failed to.
    Resolved(Result<String, Failure>),
    /// It ran the metadata program, or failed to.
    Ran(Result<ProgramOutput, Failure>),
    /// It set the modification time, or failed to.
    Timed(Result<(), Failure>),
}

/// The writing of the metadata of an exported file.
#[derive(Debug)]
pub struct WriteRun {
    /// The moment of capture.
    pub time: CaptureTime,
    /// The resolution, if there is one.
    pub dpi: Option<u32>,
    /// How far it has come.
    pub stage: WriteStage,
}

impl WriteRun {
    /// Whether an event is the outcome of what was asked for.
    pub open spec fn expects(self, event: WriteEvent) -> bool {
        match self.stage {
            WriteStage::Resolving => event is Resolved,
            WriteStage::Running { path, arguments } => event is Ran,
            WriteStage::Timing { seconds, nanoseconds } => event is Timed,
            WriteStage::Finished(_) => false,
        }
    }

    /// Whether `next` is the stage after an event that was expected: the tags
    /// are written first, and then the file gets the moment of capture as its
    /// modification time.
    pub open spec fn stage_follows(self, event: WriteEvent, next: WriteStage) -> bool {
        match (self.stage, event) {
            (WriteStage::Resolving, WriteEvent::Resolved(Ok(found))) => {
                &&& next matches WriteStage::Running { path, arguments }
                &&& path@ == found@
                &&& text::string_views(arguments@) == seq!["-q"@, "-k"@] + announced(
                    edits(self.time, self.dpi),
                )
            },
            (WriteStage::Resolving, WriteEvent::Resolved(Err(failure))) => next
                == WriteStage::Finished(Err(MetadataError::Path(failure.message))),
            (WriteStage::Running { path, arguments }, WriteEvent::Ran(Err(failure))) => {
                &&& next matches WriteStage::Finished(Err(error))
                &&& is_run_error(failure, error)
            },
            (WriteStage::Running { path, arguments }, WriteEvent::Ran(Ok(output))) => if output.success {
                &&& next matches WriteStage::Timing { seconds, nanoseconds }
                &&& seconds == capture::unix_seconds(self.time)
                &&& nanoseconds == self.time.nanosecond
            } else {
                &&& next matches WriteStage::Finished(
                    Err(MetadataError::Write { path: file, detail: said }),
                )
                &&& file@ == path@
                &&& said@ == output.complaint()
            },
            (WriteStage::Timing { seconds, nanoseconds }, WriteEvent::Timed(Ok(_))) => next
                == WriteStage::Finished(Ok(())),
            (WriteStage::Timing { seconds, nanoseconds }, WriteEvent::Timed(Err(failure))) => next
                == WriteStage::Finished(Err(MetadataError::FileTime(failure.message))),
            _ => false,
        }
    }

    /// Whether `next` is the writing after an event that was expected.
    pub open spec fn follows(self, event: WriteEvent, next: WriteRun) -> bool {
        &&& next.time == self.time
        &&& next.dpi == self.dpi
        &&& self.stage_follows(event, next.stage)
    }

    /// Takes the outcome of what was asked for.
    pub fn advance(self, event: WriteEvent) -> (r: WriteRun)
        requires
            self.time.is_valid(),
            self.expects(event),
        ensures
            self.follows(event, r),
    {
        let WriteRun { time, dpi, stage } = self;
        let stage = match (stage, event) {
            (WriteStage::Resolving, WriteEvent::Resolved(Ok(path))) => WriteStage::Running {
                path,
                arguments: write_arguments(time, dpi),
            },
            (WriteStage::Resolving, WriteEvent::Resolved(Err(failure))) => WriteStage::Finished(
                Err(MetadataError::Path(failure.message)),
            ),
            (WriteStage::Running { path: _, arguments: _ }, WriteEvent::Ran(Err(failure))) => {
                WriteStage::Finished(Err(run_error(failure)))
            },
            (WriteStage::Running { path, arguments: _ }, WriteEvent::Ran(Ok(output))) => {
                if output.success {
                    let (seconds, nanoseconds) = capture::unix_time(time);
                    WriteStage::Timing { seconds, nanoseconds }
                } else {
                    WriteStage::Finished(
                        Err(MetadataError::Write { path, detail: detail(&output) }),
                    )
                }
            },
            (WriteStage::Timing { .. }, WriteEvent::Timed(Ok(_))) => WriteStage::Finished(Ok(())),
            (WriteStage::Timing { .. }, WriteEvent::Timed(Err(failure))) => WriteStage::Finished(
                Err(MetadataError::FileTime(failure.message)),
            ),
            (stage, _) => stage,
        };
        WriteRun { time, dpi, stage }
    }
}

/// The writing of the metadata of an exported file: the moment of capture and
/// the resolution.
pub fn write_metadata(time: CaptureTime, dpi: Option<u32>) -> (r: WriteRun)
    ensures
        r == (WriteRun { time, dpi, stage: WriteStage::Resolving }),
{
    WriteRun { time, dpi, stage: WriteStage::Resolving }
}

/// Whether `states` are the states of a writing through `events`, from its start.
pub open spec fn is_write_history(states: Seq<WriteRun>, events: Seq<WriteEvent>) -> bool {
    &&& states.len() == events.len() + 1
    &&& states[0].stage is Resolving
    &&& forall|i: int|
        0 <= i < events.len() ==> #[trigger] states[i].follows(events[i], states[i + 1])
}

/// Metadata that was written is complete: the program ended with success after
/// it was asked to set every tag, and then the file got the moment of capture as
/// its modification time.
pub proof fn lemma_written_metadata_is_complete(states: Seq<WriteRun>, events: Seq<WriteEvent>)
    requires
        is_write_history(states, events),
        states.last().stage matches WriteStage::Finished(result) && result is Ok,
    ensures
        events.len() == 3,
        states[1].stage matches WriteStage::Running { path, arguments } && text::string_views(
            arguments@,
        ) == seq!["-q"@, "-k"@] + announced(edits(states[0].time, states[0].dpi)),
        events[1] matches WriteEvent::Ran(Ok(output)) && output.success,
        states[2].stage matches WriteStage::Timing { seconds, nanoseconds } && seconds
            == capture::unix_seconds(states[0].time) && nanoseconds == states[0].time.nanosecond,
        events[2] matches WriteEvent::Timed(Ok(_)),
{
    if events.len() > 0 {
        assert(states[0].follows(events[0], states[0int + 1]));
    }
    if events.len() > 1 {
        assert(states[1].follows(events[1], states[1int + 1]));
    }
    if events.len() > 2 {
        assert(states[2].follows(events[2], states[2int + 1]));
    }
    if events.len() > 3 {
        assert(states[3].follows(events[3], states[3int + 1]));
    }
}

proof fn lemma_whole_float(n: nat)
    requires
        n <= u32::MAX,
    ensures
        decimals::float_of(text::trimmed(text::decimal(n))) matches Some(float) && {
            &&& !float.is_negative()
            &&& float.is_finite_number()
            &&& binary64::units(float.magnitude()) == n * pow2(1074)
        },
{
    let s = text::decimal(n);
    text::lemma_decimal_read_back(n);
    assert(text::is_digit(s[0]) && text::is_digit(s[s.len() - 1]));
    text::lemma_trimmed_is_same(s);
    decimals::lemma_decimal_of_digits(n);
    decimals::lemma_whole_numbers_are_exact(n);
}

/// The resolution written to a file is the one that is read back from what was
/// written.
pub proof fn lemma_resolution_read_back(dpi: u32)
    requires
        dpi > 0,
    ensures
        positive_rational(resolution_text(dpi)) == Some(dpi as nat),
{
    let n = dpi as nat;
    let digits = text::decimal(n);
    let s = resolution_text(dpi);
    reveal_strlit("/1");
    text::lemma_decimal_read_back(n);
    assert forall|i: int| 0 <= i < digits.len() implies s[i] != '/' by {
        assert(text::is_digit(digits[i]));
    }
    text::lemma_position_unique(s, '/', digits.len());
    assert(s.take(digits.len() as int) =~= digits);
    assert(s.skip(digits.len() as int + 1) =~= seq!['1']);
    assert(text::decimal(1) =~= seq!['1']);
    lemma_whole_float(n);
    lemma_whole_float(1);
    let num = decimals::float_of(text::trimmed(digits))->0.magnitude();
    let den = decimals::float_of(text::trimmed(seq!['1']))->0.magnitude();
    lemma_pow2_pos(1074);
    lemma_pow2_unfold(1075);
    let unit = pow2(1074);
    assert(1 * unit == unit) by (nonlinear_arith);
    assert(den > 0) by {
        if den == 0 {
            rounding::lemma_units_of(0, 0);
            lemma2_to64();
        }
    }
    rounding::lemma_exact(num, unit);
    assert((2 * n + 1) * unit == 2 * (n * unit) + unit) by (nonlinear_arith);
    vstd::arithmetic::div_mod::lemma_div_multiples_vanish_quotient(
        unit as int,
        (2 * n + 1) as int,
        2,
    );
    assert(unit * (2 * n + 1) == (2 * n + 1) * unit) by (nonlinear_arith);
    assert(arithmetic::nearest_whole(num) == n);
}

/// The tags are set to the moment of capture, its offset and the resolution: for
/// each of them one of the changes says so, and every change is announced.
pub proof fn lemma_tags_are_set(time: CaptureTime, dpi: u32)
    ensures
        ({
            let stamp = capture::exif_text(time);
            let offset = capture::offset_text(time.offset as int);
            let with = edits(time, Some(dpi));
            let without = edits(time, None);
            &&& without.contains("set Exif.Photo.DateTimeOriginal Ascii "@ + stamp)
            &&& without.contains("set Exif.Photo.DateTimeDigitized Ascii "@ + stamp)
            &&& without.contains("set Exif.Image.DateTime Ascii "@ + stamp)
            &&& without.contains("set Exif.Photo.OffsetTime Ascii "@ + offset)
            &&& without.contains("set Exif.Photo.OffsetTimeOriginal Ascii "@ + offset)
            &&& without.contains("set Exif.Photo.OffsetTimeDigitized Ascii "@ + offset)
            &&& without.contains("set Exif.Image.Software Ascii Photo Scanner"@)
            &&& without.len() == 7
            &&& with.take(7) == without
            &&& with.contains(
                "set Exif.Image.XResolution Rational "@ + text::decimal(dpi as nat) + "/1"@,
            )
            &&& with.contains(
                "set Exif.Image.YResolution Rational "@ + text::decimal(dpi as nat) + "/1"@,
            )
            &&& with.contains("set Exif.Image.ResolutionUnit Short 2"@)
            &&& with.len() == 10
        }),
{
    let stamp = capture::exif_text(time);
    let offset = capture::offset_text(time.offset as int);
    let without = edits(time, None);
    let with = edits(time, Some(dpi));
    assert(without[0] == "set Exif.Image.DateTime Ascii "@ + stamp);
    assert(without[1] == "set Exif.Photo.DateTimeOriginal Ascii "@ + stamp);
    assert(without[2] == "set Exif.Photo.DateTimeDigitized Ascii "@ + stamp);
    assert(without[3] == "set Exif.Image.Software Ascii Photo Scanner"@);
    assert(without[4] == "set Exif.Photo.OffsetTime Ascii "@ + offset);
    assert(without[5] == "set Exif.Photo.OffsetTimeOriginal Ascii "@ + offset);
    assert(without[6] == "set Exif.Photo.OffsetTimeDigitized Ascii "@ + offset);
    assert(with.take(7) =~= without);
    let x = "set Exif.Image.XResolution Rational "@;
    let y = "set Exif.Image.YResolution Rational "@;
    assert(with[7] =~= x + text::decimal(dpi as nat) + "/1"@);
    assert(with[8] =~= y + text::decimal(dpi as nat) + "/1"@);
    assert(with[9] == "set Exif.Image.ResolutionUnit Short 2"@);
}

/// Every change is handed to the program behind an option of its own, in order.
pub proof fn lemma_changes_are_announced(changes: Seq<Seq<char>>, i: int)
    requires
        0 <= i < changes.len(),
    ensures
        announced(changes).len() == 2 * changes.len(),
        announced(changes)[2 * i] == "-M"@,
        announced(changes)[2 * i + 1] == changes[i],
    decreases changes.len(),
{
    let shorter = changes.drop_last();
    if i < shorter.len() {
        lemma_changes_are_announced(shorter, i);
        assert(shorter[i] == changes[i]);
    } else if shorter.len() > 0 {
        lemma_changes_are_announced(shorter, 0);
    } else {
        assert(announced(shorter) == Seq::<Seq<char>>::empty());
    }
}

/// The orientation of an image is a number from one to eight; everything else is
/// no orientation.
pub proof fn lemma_orientations(n: nat)
    ensures
        orientation_of(text::decimal(n)) == if 1 <= n <= 8 { Some(n) } else { None },
        orientation_of(Seq::empty()) is None,
{
    let other = seq!['x'];
    text::lemma_unsigned_numbers(n, 65535, other, 0);
}

/// A resolution is read from a fraction: numerator and denominator stand around a
/// slash, and a whole number alone is a resolution too; nothing divides by zero,
/// and no resolution is zero.
pub proof fn lemma_reading_fractions(n: nat, b: nat)
    requires
        0 < b,
        n * b <= u32::MAX,
        n <= u32::MAX,
        b <= u32::MAX,
    ensures
        positive_rational(text::decimal(n * b) + "/"@ + text::decimal(b)) == if n > 0 { Some(n) } else {
            None
        },
        positive_rational(text::decimal(n)) == if n > 0 { Some(n) } else { None },
        positive_rational(text::decimal(n) + "/0"@) is None,
{
    reveal_strlit("/");
    reveal_strlit("/0");
    let (over, under) = (text::decimal(n * b), text::decimal(b));
    let s = over + "/"@ + under;
    text::lemma_decimal_read_back(n * b);
    text::lemma_decimal_read_back(b);
    text::lemma_decimal_read_back(n);
    text::lemma_decimal_read_back(1);
    text::lemma_decimal_read_back(0);
    assert forall|i: int| 0 <= i < over.len() implies s[i] != '/' by {
        assert(text::is_digit(over[i]));
    }
    text::lemma_position_unique(s, '/', over.len());
    assert(s.take(over.len() as int) =~= over);
    assert(s.skip(over.len() as int + 1) =~= under);
    lemma_read_number(n * b);
    lemma_read_number(b);
    lemma_read_number(n);
    lemma_read_number(1);
    lemma_read_number(0);
    arithmetic::lemma_whole_results(n, b);
    arithmetic::lemma_whole_results(n, 1);
    assert(n * 1 == n);
    let alone = text::decimal(n);
    assert forall|i: int| 0 <= i < alone.len() implies alone[i] != '/' by {
        assert(text::is_digit(alone[i]));
    }
    text::lemma_position_unique(alone, '/', alone.len());
    assert(text::decimal(1) =~= seq!['1']);
    let zero = alone + "/0"@;
    assert forall|i: int| 0 <= i < alone.len() implies zero[i] != '/' by {
        assert(zero[i] == alone[i]);
    }
    text::lemma_position_unique(zero, '/', alone.len());
    assert(text::decimal(0) =~= seq!['0']);
    assert(zero.skip(alone.len() as int + 1) =~= seq!['0']);
}

proof fn lemma_read_number(n: nat)
    requires
        n <= u32::MAX,
    ensures
        decimals::float_of(text::trimmed(text::decimal(n))) matches Some(float) && {
            &&& !float.is_negative()
            &&& float.is_finite_number()
            &&& float.magnitude() == arithmetic::whole(n)
            &&& float.magnitude() < rounding::INFINITE
            &&& float.magnitude() > 0 <==> n > 0
        },
{
    let s = text::decimal(n);
    text::lemma_decimal_read_back(n);
    assert(text::is_digit(s[0]) && text::is_digit(s[s.len() - 1]));
    text::lemma_trimmed_is_same(s);
    decimals::lemma_decimal_of_digits(n);
    decimals::lemma_whole_numbers_are_exact(n);
    lemma_pow2_pos(1074);
    let m = arithmetic::whole(n);
    assert(n > 0 ==> n * pow2(1074) > 0) by (nonlinear_arith)
        requires
            pow2(1074) > 0,
    ;
    if n == 0 {
        assert(0 * pow2(1074) == 0) by (nonlinear_arith);
        if m > 0 {
            binary64::lemma_units_increase(0, m);
        }
    } else if m == 0 {
        rounding::lemma_units_of(0, 0);
        lemma2_to64();
    }
}

/// What a run of the program means for a tag: the value that it printed, without
/// the white space around; no tag where it printed nothing, or where it ended
/// with status one in silence; and an error with its words else.
pub proof fn lemma_tag_outcomes(
    path: &str,
    output: ProgramOutput,
    result: Result<Option<String>, MetadataError>,
)
    requires
        call_ensures(read_tag, (path, Ok(output)), result),
    ensures
        output.success ==> (result matches Ok(found) && text::optional_view(found) == {
            let value = text::trimmed(text::lossy_text(output.stdout@));
            if value.len() > 0 {
                Some(value)
            } else {
                None
            }
        }),
        !output.success && output.code == Some(1i32) && output.stdout@.len() == 0
            && output.stderr@.len() == 0 ==> (result matches Ok(found) && found is None),
        !output.success && (output.code != Some(1i32) || output.stdout@.len() > 0
            || output.stderr@.len() > 0) ==> (result matches Err(error) && error is Read),
{
}

/// A missing program is told as such; any other failure to run it is told with
/// its words.
pub proof fn lemma_failed_runs(failure: Failure, error: MetadataError)
    requires
        is_run_error(failure, error),
    ensures
        error is ToolMissing <==> failure.kind is NotFound,
        !(failure.kind is NotFound) ==> error == MetadataError::Process(failure.message),
{
}

/// The moment and the resolution that are written are those that were given.
pub proof fn lemma_given_values_are_written(time: CaptureTime, dpi: Option<u32>, run: WriteRun)
    requires
        call_ensures(write_metadata, (time, dpi), run),
    ensures
        run.time == time,
        run.dpi == dpi,
        run.stage is Resolving,
{
}

} // verus!
