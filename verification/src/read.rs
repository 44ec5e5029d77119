//! Reading a scan: its header is checked before the image is decoded, and the
//! image is set upright.

use crate::failure::Failure;
use crate::header;
use crate::header::HeaderStage;
use crate::metadata::MetadataError;
use crate::splitter;
use crate::splitter::{DecodedImage, SplitError, Transform};
use crate::text;
use vstd::prelude::*;

verus! {

/// How far the reading of a scan has come.
#[derive(Debug)]
pub enum ReadStage {
    /// It has to be found out whether the file is there.
    Looking,
    /// The file has to be opened.
    Opening,
    /// The bytes of the file that the search for its dimensions asks for have to
    /// be read.
    ReadingHeader(HeaderStage),
    /// The image has to be decoded as it is stored.
    Decoding {
        /// The width in the header.
        width: u32,
        /// The height in the header.
        height: u32,
    },
    /// The orientation has to be read from the metadata.
    ReadingOrientation,
    /// The resolution has to be read, from the metadata and from the container.
    ReadingResolution(Transform),
    /// The image has to be set upright.
    Turning {
        /// What has to be done to it.
        transform: Transform,
        /// The resolution, if there is one.
        dpi: Option<u32>,
    },
    /// The reading is over; where it succeeded, with the resolution.
    Finished(Result<Option<u32>, SplitError>),
}

/// What the program did to read a scan.
#[derive(Debug)]
pub enum ReadEvent {
    /// It found out whether the file is there.
    Looked {
        /// Whether it is.
        is_file: bool,
    },
    /// It opened the file, or failed to.
    Opened(Result<(), Failure>),
    /// It read all the bytes that were asked for, or failed to; the end of the
    /// file before the last of them is a failure too.
    HeaderRead(Result<Vec<u8>, Failure>),
    /// It decoded the image, or failed to.
    Decoded(Result<DecodedImage, SplitError>),
    /// It read the orientation, or failed to.
    OrientationRead(Result<Option<u16>, MetadataError>),
    /// It read the resolution.
    ResolutionRead {
        /// The one in the metadata, unless reading it failed.
        metadata: Result<Option<u32>, MetadataError>,
        /// The one in the container.
        container: Option<u32>,
    },
    /// It set the image upright, or failed to.
    Turned(Result<(), SplitError>),
}

/// The reading of a scan.
#[derive(Debug)]
pub struct ReadRun {
    /// The file.
    pub path: String,
    /// How far it has come.
    pub stage: ReadStage,
}

/// Whether the image in a file with these bytes may be decoded: its header is
/// complete, gives its dimensions, and they are within the limits.
pub open spec fn may_be_decoded(bytes: Seq<u8>, width: u32, height: u32) -> bool {
    &&& bytes.len() >= 24
    &&& header::dimensions_of(bytes) == header::Dimensions::Known(width, height)
    &&& splitter::dimension_complaint(width, height) is None
}

/// Whether `next` is the stage after so much of the header.
pub open spec fn is_after_header(header: HeaderStage, next: ReadStage) -> bool {
    match header {
        HeaderStage::Finished(Some((width, height))) => match splitter::dimension_complaint(
            width,
            height,
        ) {
            Some(complaint) => {
                &&& next matches ReadStage::Finished(Err(SplitError::InvalidConfig(message)))
                &&& message@ == complaint
            },
            None => next == ReadStage::Decoding { width, height },
        },
        HeaderStage::Finished(None) => {
            &&& next matches ReadStage::Finished(Err(SplitError::InvalidConfig(message)))
            &&& message@
                == "Bildabmessungen konnten vor dem Laden nicht sicher geprüft werden. Unterstützt werden PNG, JPEG und TIFF."@
        },
        _ => next == ReadStage::ReadingHeader(header),
    }
}

/// Whether an error is the one for a header that cannot be read: the first bytes
/// are needed to tell the format, and everything behind them is read as it is
/// asked for.
pub open spec fn is_header_failure(header: HeaderStage, failure: Failure, error: SplitError) -> bool {
    if header is Start {
        &&& error matches SplitError::InvalidConfig(message)
        &&& message@ == "Bildkopf konnte nicht gelesen werden: "@ + failure.message@
    } else {
        error == SplitError::Io(failure.message)
    }
}

/// The stage after so much of the header.
fn after_header(header: HeaderStage) -> (r: ReadStage)
    requires
        header.well_formed(),
    ensures
        is_after_header(header, r),
        r matches ReadStage::ReadingHeader(stage) ==> stage.well_formed() && !(stage is Finished),
{
    match header {
        HeaderStage::Finished(Some((width, height))) => {
            match splitter::validate_image_dimensions(width, height) {
                Ok(()) => ReadStage::Decoding { width, height },
                Err(error) => ReadStage::Finished(Err(error)),
            }
        },
        HeaderStage::Finished(None) => ReadStage::Finished(
            Err(
                SplitError::InvalidConfig(
                    "Bildabmessungen konnten vor dem Laden nicht sicher geprüft werden. Unterstützt werden PNG, JPEG und TIFF.".to_string(),
                ),
            ),
        ),
        _ => ReadStage::ReadingHeader(header),
    }
}

/// The error for a header that cannot be read.
fn header_failure(header: HeaderStage, failure: Failure) -> (r: SplitError)
    ensures
        is_header_failure(header, failure, r),
{
    match header {
        HeaderStage::Start => SplitError::InvalidConfig(
            text::concat("Bildkopf konnte nicht gelesen werden: ", &failure.message),
        ),
        _ => SplitError::Io(failure.message),
    }
}

impl ReadRun {
    /// Whether the search for the dimensions is within its limits.
    pub open spec fn well_formed(self) -> bool {
        self.stage matches ReadStage::ReadingHeader(header) ==> header.well_formed() && !(
        header is Finished)
    }

    /// Whether an event is the outcome of what was asked for.
    pub open spec fn expects(self, event: ReadEvent) -> bool {
        match self.stage {
            ReadStage::Looking => event is Looked,
            ReadStage::Opening => event is Opened,
            ReadStage::ReadingHeader(header) => event matches ReadEvent::HeaderRead(result) && (
            result matches Ok(bytes) ==> bytes@.len() == header.count()),
            ReadStage::Decoding { width, height } => event is Decoded,
            ReadStage::ReadingOrientation => event is OrientationRead,
            ReadStage::ReadingResolution(_) => event is ResolutionRead,
            ReadStage::Turning { transform, dpi } => event is Turned,
            ReadStage::Finished(_) => false,
        }
    }

    /// Whether `next` is the stage after an event that was expected.
    pub open spec fn stage_follows(self, event: ReadEvent, next: ReadStage) -> bool {
        match (self.stage, event) {
            (ReadStage::Looking, ReadEvent::Looked { is_file }) => if is_file {
                next is Opening
            } else {
                &&& next matches ReadStage::Finished(Err(SplitError::MissingSource(path)))
                &&& path@ == self.path@
            },
            (ReadStage::Opening, ReadEvent::Opened(Ok(_))) => next == ReadStage::ReadingHeader(
                HeaderStage::Start,
            ),
            (ReadStage::Opening, ReadEvent::Opened(Err(failure))) => next == ReadStage::Finished(
                Err(SplitError::Io(failure.message)),
            ),
            (ReadStage::ReadingHeader(header), ReadEvent::HeaderRead(Ok(bytes))) => is_after_header(
                header.after(bytes@),
                next,
            ),
            (ReadStage::ReadingHeader(header), ReadEvent::HeaderRead(Err(failure))) => {
                &&& next matches ReadStage::Finished(Err(error))
                &&& is_header_failure(header, failure, error)
            },
            (ReadStage::Decoding { width, height }, ReadEvent::Decoded(Ok(image))) => {
                if splitter::matches_header(image, width, height) {
                    next is ReadingOrientation
                } else {
                    &&& next matches ReadStage::Finished(Err(SplitError::InvalidConfig(message)))
                    &&& message@
                        == "Das Scanbild hat ein ungültiges Format oder widersprüchliche Abmessungen."@
                }
            },
            (ReadStage::ReadingOrientation, ReadEvent::OrientationRead(Ok(orientation))) => next
                == ReadStage::ReadingResolution(
                match orientation {
                    Some(n) => splitter::transform_for(n as int),
                    None => Transform::Keep,
                },
            ),
            (
                ReadStage::ReadingResolution(transform),
                ReadEvent::ResolutionRead { metadata: Ok(found), container },
            ) => next == ReadStage::Turning {
                transform,
                dpi: match found {
                    Some(dpi) => Some(dpi),
                    None => container,
                },
            },
            (ReadStage::Turning { transform, dpi }, ReadEvent::Turned(Ok(_))) => next
                == ReadStage::Finished(Ok(dpi)),
            (ReadStage::ReadingOrientation, ReadEvent::OrientationRead(Err(error)))
            | (
                ReadStage::ReadingResolution(_),
                ReadEvent::ResolutionRead { metadata: Err(error), .. },
            ) => {
                &&& next matches ReadStage::Finished(Err(SplitError::Metadata(detail)))
                &&& detail@ == error.text()
            },
            (ReadStage::Decoding { .. }, ReadEvent::Decoded(Err(error)))
            | (ReadStage::Turning { .. }, ReadEvent::Turned(Err(error))) => next
                == ReadStage::Finished(Err(error)),
            _ => false,
        }
    }

    /// Whether `next` is the reading after an event that was expected.
    pub open spec fn follows(self, event: ReadEvent, next: ReadRun) -> bool {
        next.path == self.path && self.stage_follows(event, next.stage)
    }

    /// Takes the outcome of what was asked for.
    pub fn advance(self, event: ReadEvent) -> (r: ReadRun)
        requires
            self.well_formed(),
            self.expects(event),
        ensures
            r.well_formed(),
            self.follows(event, r),
    {
        let ReadRun { path, stage } = self;
        let stage = match (stage, event) {
            (ReadStage::Looking, ReadEvent::Looked { is_file }) => if is_file {
                ReadStage::Opening
            } else {
                ReadStage::Finished(Err(SplitError::MissingSource(path.clone())))
            },
            (ReadStage::Opening, ReadEvent::Opened(Ok(_))) => {
                ReadStage::ReadingHeader(HeaderStage::Start)
            },
            (ReadStage::Opening, ReadEvent::Opened(Err(failure))) => {
                ReadStage::Finished(Err(SplitError::Io(failure.message)))
            },
            (ReadStage::ReadingHeader(header), ReadEvent::HeaderRead(Ok(bytes))) => {
                after_header(header.advance(&bytes))
            },
            (ReadStage::ReadingHeader(header), ReadEvent::HeaderRead(Err(failure))) => {
                ReadStage::Finished(Err(header_failure(header, failure)))
            },
            (ReadStage::Decoding { width, height }, ReadEvent::Decoded(Ok(image))) => {
                match splitter::check_decoded(image, width, height) {
                    Ok(()) => ReadStage::ReadingOrientation,
                    Err(error) => ReadStage::Finished(Err(error)),
                }
            },
            (ReadStage::ReadingOrientation, ReadEvent::OrientationRead(Ok(orientation))) => {
                ReadStage::ReadingResolution(splitter::orientation_transform(orientation))
            },
            (ReadStage::ReadingOrientation, ReadEvent::OrientationRead(Err(error))) => {
                ReadStage::Finished(Err(splitter::metadata_error(&error)))
            },
            (
                ReadStage::ReadingResolution(transform),
                ReadEvent::ResolutionRead { metadata, container },
            ) => match splitter::image_dpi(metadata, container) {
                Ok(dpi) => ReadStage::Turning { transform, dpi },
                Err(error) => ReadStage::Finished(Err(error)),
            },
            (ReadStage::Turning { transform: _, dpi }, ReadEvent::Turned(Ok(_))) => {
                ReadStage::Finished(Ok(dpi))
            },
            (_, ReadEvent::Decoded(Err(error))) => ReadStage::Finished(Err(error)),
            (_, ReadEvent::Turned(Err(error))) => ReadStage::Finished(Err(error)),
            (stage, _) => stage,
        };
        ReadRun { path, stage }
    }
}

/// The reading of a scan.
pub fn read_image(path: &str) -> (r: ReadRun)
    ensures
        r.path@ == path@,
        r.stage is Looking,
{
    ReadRun { path: path.to_string(), stage: ReadStage::Looking }
}

/// Whether `states` are the states of a reading through `events`, from its start.
pub open spec fn is_read_history(states: Seq<ReadRun>, events: Seq<ReadEvent>) -> bool {
    &&& states.len() == events.len() + 1
    &&& states[0].stage is Looking
    &&& forall|i: int|
        0 <= i < events.len() ==> #[trigger] states[i].follows(events[i], states[i + 1])
}

/// Whether every read of the header gave what a file with these bytes has there.
pub open spec fn reads_file(states: Seq<ReadRun>, events: Seq<ReadEvent>, file: Seq<u8>) -> bool {
    forall|i: int|
        0 <= i < events.len() ==> match (states[i].stage, #[trigger] events[i]) {
            (
                ReadStage::ReadingHeader(header),
                ReadEvent::HeaderRead(Ok(bytes)),
            ) => header.reads(file, bytes@),
            _ => true,
        }
}

proof fn lemma_header_is_read(
    states: Seq<ReadRun>,
    events: Seq<ReadEvent>,
    file: Seq<u8>,
    i: int,
)
    requires
        is_read_history(states, events),
        reads_file(states, events, file),
        0 <= i < states.len(),
    ensures
        states[i].stage matches ReadStage::ReadingHeader(header) ==> {
            &&& header.well_formed()
            &&& !(header is Finished)
            &&& header.promises(file) == header::dimensions_of(file)
            &&& header is Start || file.len() >= 24
        },
        states[i].stage matches ReadStage::Decoding { width, height } ==> may_be_decoded(
            file,
            width,
            height,
        ),
    decreases i,
{
    if i > 0 {
        lemma_header_is_read(states, events, file, i - 1);
        assert(states[i - 1].follows(events[i - 1], states[i - 1 + 1]));
        if let ReadStage::ReadingHeader(header) = states[i - 1].stage {
            if let ReadEvent::HeaderRead(Ok(bytes)) = events[i - 1] {
                assert(header.reads(file, bytes@));
                header::lemma_pieces_give_the_whole(header, file, bytes@);
            }
        }
    }
}

/// Nothing is decoded that was not checked: before an image is decoded, its
/// header was read and found to give dimensions within the limits.
pub proof fn lemma_checks_before_decoding(
    states: Seq<ReadRun>,
    events: Seq<ReadEvent>,
    file: Seq<u8>,
    i: int,
)
    requires
        is_read_history(states, events),
        reads_file(states, events, file),
        0 <= i < states.len(),
        states[i].stage is Decoding,
    ensures
        states[i].stage matches ReadStage::Decoding { width, height } && may_be_decoded(
            file,
            width,
            height,
        ),
{
    lemma_header_is_read(states, events, file, i);
}

/// An image that is too large, or whose size is not known, is never decoded.
pub proof fn lemma_refused_image_is_not_decoded(
    states: Seq<ReadRun>,
    events: Seq<ReadEvent>,
    file: Seq<u8>,
    i: int,
)
    requires
        is_read_history(states, events),
        reads_file(states, events, file),
        forall|width: u32, height: u32| !#[trigger] may_be_decoded(file, width, height),
        0 <= i < states.len(),
    ensures
        !(states[i].stage is Decoding),
{
    lemma_header_is_read(states, events, file, i);
}

/// A scan that was read is what its header promised, and upright: at the end, the
/// image was decoded and had the dimensions that were checked, and it was turned
/// as its orientation asks for.
pub proof fn lemma_read_scan_is_as_promised(
    states: Seq<ReadRun>,
    events: Seq<ReadEvent>,
    file: Seq<u8>,
)
    requires
        is_read_history(states, events),
        reads_file(states, events, file),
        states.last().stage matches ReadStage::Finished(result) && result is Ok,
    ensures
        events.len() >= 6,
        events[events.len() - 4] matches ReadEvent::Decoded(Ok(image)) && exists|
            width: u32,
            height: u32,
        | #[trigger]
            may_be_decoded(file, width, height) && splitter::matches_header(image, width, height),
        events[events.len() - 3] matches ReadEvent::OrientationRead(Ok(orientation))
            && states[events.len() - 1].stage matches ReadStage::Turning { transform, dpi }
            && transform == match orientation {
            Some(n) => splitter::transform_for(n as int),
            None => Transform::Keep,
        },
        events.last() matches ReadEvent::Turned(Ok(_)),
{
    let n = events.len() as int;
    assert(n > 0 ==> states[n - 1].follows(events[n - 1], states[n - 1 + 1]));
    assert(n > 1 ==> states[n - 2].follows(events[n - 2], states[n - 2 + 1]));
    assert(n > 2 ==> states[n - 3].follows(events[n - 3], states[n - 3 + 1]));
    assert(n > 3 ==> states[n - 4].follows(events[n - 4], states[n - 4 + 1]));
    assert(n > 4 ==> states[n - 5].follows(events[n - 5], states[n - 5 + 1]));
    assert(n > 5 ==> states[n - 6].follows(events[n - 6], states[n - 6 + 1]));
    assert(n > 3);
    lemma_header_is_read(states, events, file, n - 4);
}

/// A file that does not exist is told by its path; a file that cannot be opened
/// by the message of the failure; and so is a header that cannot be read, where
/// a file too short to have one is told to have none.
pub proof fn lemma_failed_reads(run: ReadRun, event: ReadEvent, next: ReadRun, failure: Failure)
    requires
        run.follows(event, next),
    ensures
        event == (ReadEvent::Looked { is_file: false }) ==> (next.stage
            matches ReadStage::Finished(Err(error)) && error matches SplitError::MissingSource(path)
            && path@ == run.path@),
        event == (ReadEvent::Looked { is_file: true }) ==> next.stage is Opening,
        event == ReadEvent::Opened(Err(failure)) ==> next.stage == ReadStage::Finished(
            Err(SplitError::Io(failure.message)),
        ),
        event == ReadEvent::HeaderRead(Err(failure)) && run.stage == ReadStage::ReadingHeader(
            HeaderStage::Start,
        ) ==> (next.stage matches ReadStage::Finished(Err(error)) && error
            matches SplitError::InvalidConfig(message) && message@
            == "Bildkopf konnte nicht gelesen werden: "@ + failure.message@),
        event == ReadEvent::HeaderRead(Err(failure)) && run.stage != ReadStage::ReadingHeader(
            HeaderStage::Start,
        ) ==> next.stage == ReadStage::Finished(Err(SplitError::Io(failure.message))),
        event matches ReadEvent::Decoded(Err(error)) ==> next.stage == ReadStage::Finished(
            Err(error),
        ),
        event matches ReadEvent::Turned(Err(error)) ==> next.stage == ReadStage::Finished(
            Err(error),
        ),
        event matches ReadEvent::OrientationRead(Err(error)) ==> (next.stage
            matches ReadStage::Finished(Err(told)) && told matches SplitError::Metadata(detail)
            && detail@ == error.text()),
        event matches ReadEvent::ResolutionRead { metadata: Err(error), container } ==> (next.stage
            matches ReadStage::Finished(Err(told)) && told matches SplitError::Metadata(detail)
            && detail@ == error.text()),
{
}

/// A decoded image is used if it is there, has the size in the header, and is not
/// too small. Its resolution is the one in the metadata, or else the one in the
/// container, and it comes out unchanged when the image has been set upright.
pub proof fn lemma_used_images(
    run: ReadRun,
    width: u32,
    height: u32,
    image: DecodedImage,
    decoded: ReadRun,
    reading: ReadRun,
    transform: Transform,
    metadata: Option<u32>,
    container: Option<u32>,
    resolved: ReadRun,
    turned: ReadRun,
)
    requires
        run.stage == (ReadStage::Decoding { width, height }),
        run.follows(ReadEvent::Decoded(Ok(image)), decoded),
        reading.stage == ReadStage::ReadingResolution(transform),
        reading.follows(ReadEvent::ResolutionRead { metadata: Ok(metadata), container }, resolved),
        resolved.follows(ReadEvent::Turned(Ok(())), turned),
    ensures
        decoded.stage is ReadingOrientation <==> !image.empty && image.cols == width && image.rows
            == height && width >= 20 && height >= 20,
        !(decoded.stage is ReadingOrientation) ==> (decoded.stage matches ReadStage::Finished(
            result,
        ) && result is Err),
        resolved.stage matches ReadStage::Turning { transform: asked, dpi } && asked == transform,
        turned.stage matches ReadStage::Finished(result) && result == Ok::<Option<u32>, SplitError>(
            if metadata is Some {
                metadata
            } else {
                container
            },
        ),
{
    splitter::lemma_accepted_images(image, width, height);
}

} // verus!
