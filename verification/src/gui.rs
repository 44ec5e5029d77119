//! The behaviour of the graphical interface: which operation is current, how
//! its messages are taken, what can be used when, and what the form stands for.

use crate::binary64::Binary64;
use crate::capture;
use crate::notices::Stop;
use crate::review;
use crate::review::Review;
use crate::splitter::{OutputFormat, SplitConfig};
use crate::text;
use vstd::prelude::*;

verus! {

/// The state of the interface that decides how messages are taken.
#[derive(Clone, Copy, Debug, PartialEq, Eq, Structural)]
pub struct Session {
    /// The number of the current operation.
    pub operation_id: u64,
    /// Whether work is going on that nothing else may be started beside.
    pub busy: bool,
    /// Whether the current operation can be cancelled.
    pub cancellable: bool,
    /// Whether a search for scanners has not been answered yet.
    pub discovery_pending: bool,
    /// Whether the window is being closed.
    pub closing: bool,
    /// How many scanners are known.
    pub devices: usize,
    /// Whether photos are under review.
    pub reviewing: bool,
}

/// A message from an operation.
#[derive(Clone, Copy, Debug, PartialEq, Eq)]
pub enum Note {
    /// So many percent of a scan are done.
    Progress(Binary64),
    /// There is something to tell.
    Status,
    /// The scanner is done; the file is worked on.
    ScanComplete,
    /// So many scanners were found, or none could be searched for.
    Devices(Result<usize, Stop>),
    /// So many photos are ready for review, or none.
    ReviewReady(Result<usize, Stop>),
    /// The work is done, or failed.
    Work(Result<(), Stop>),
}

impl Note {
    /// Whether the operation goes on after the message.
    pub open spec fn is_passing(self) -> bool {
        self is Progress || self is Status || self is ScanComplete
    }
}

/// What is shown when work ends.
#[derive(Clone, Copy, Debug, PartialEq, Eq, Structural)]
pub enum Ending {
    /// So many photos are there for review.
    PhotosDetected(usize),
    /// The operation was cancelled.
    Cancelled,
    /// The review could not be prepared.
    ReviewFailed,
    /// The operation failed.
    OperationFailed,
    /// The title of the result.
    ResultTitle,
}

/// What a message makes the interface do.
#[derive(Clone, Copy, Debug, PartialEq, Eq, Structural)]
pub enum Effect {
    /// Show how much of a scan is done.
    ShowProgress(Binary64),
    /// Show the text of the message.
    ShowText,
    /// Show work without known progress in place of progress.
    EndProgress,
    /// Take away the means to cancel.
    HideCancel,
    /// Let go of the cancellation signal, and of the hold on the application.
    ReleaseOperation,
    /// Take no more messages.
    CloseChannel,
    /// List the scanners that were found and select the first.
    ListDevices,
    /// Allow a new search for scanners.
    EnableRefresh,
    /// Allow scanning, or not.
    EnableScan(bool),
    /// Stop showing that something goes on.
    StopSpinner,
    /// Tell that there is no scanner, and lead on to opening files.
    TellNoScanner,
    /// Tell that a scanner is ready.
    TellScannerReady,
    /// Show the error of the message.
    ShowError,
    /// Lead on to another search for scanners.
    FocusRefresh,
    /// Allow work again, and show how it ended.
    EndWork(Ending),
    /// Show the photos for review.
    ShowReview,
    /// Forget the photos under review.
    DropReview,
    /// Remember the capture date that was used.
    RememberDate,
    /// Save the settings.
    SaveSettings,
    /// Show the result and its preview.
    ShowResult,
    /// Show the preview that was there before.
    ShowPreviousPreview,
    /// Make scanning what the enter key does.
    DefaultToScan,
    /// Search for scanners again.
    RequestDevices,
}

/// What a message about scanners makes the interface do.
pub open spec fn device_effects(session: Session, result: Result<usize, Stop>) -> Seq<Effect> {
    match result {
        Ok(count) => if count == 0 {
            seq![
                Effect::ListDevices,
                Effect::EnableRefresh,
                Effect::StopSpinner,
                Effect::EnableScan(false),
                Effect::TellNoScanner,
            ]
        } else {
            seq![
                Effect::ListDevices,
                Effect::EnableRefresh,
                Effect::StopSpinner,
                Effect::EnableScan(true),
                Effect::TellScannerReady,
            ]
        },
        Err(stop) => {
            let shared = seq![
                Effect::EnableRefresh,
                Effect::EnableScan(session.devices > 0),
                Effect::StopSpinner,
            ];
            if stop is Failed {
                shared + seq![Effect::ShowError, Effect::FocusRefresh]
            } else {
                shared
            }
        },
    }
}

/// What a message about a review makes the interface do.
pub open spec fn review_effects(result: Result<usize, Stop>) -> Seq<Effect> {
    match result {
        Ok(count) => seq![Effect::EndWork(Ending::PhotosDetected(count)), Effect::ShowReview],
        Err(Stop::Cancelled) => seq![Effect::EndWork(Ending::Cancelled)],
        Err(Stop::Failed) => seq![Effect::EndWork(Ending::ReviewFailed), Effect::ShowError],
    }
}

/// What a message about finished work makes the interface do.
pub open spec fn work_effects(result: Result<(), Stop>) -> Seq<Effect> {
    match result {
        Ok(_) => seq![
            Effect::DropReview,
            Effect::RememberDate,
            Effect::SaveSettings,
            Effect::EndWork(Ending::ResultTitle),
            Effect::ShowResult,
        ],
        Err(stop) => {
            let shared = seq![
                Effect::DropReview,
                Effect::ShowPreviousPreview,
                Effect::DefaultToScan,
            ];
            if stop is Failed {
                shared + seq![Effect::EndWork(Ending::OperationFailed), Effect::ShowError]
            } else {
                shared + seq![Effect::EndWork(Ending::Cancelled)]
            }
        },
    }
}

/// A search for scanners that was given up for other work is made again.
pub open spec fn search_again(session: Session) -> Seq<Effect> {
    if session.discovery_pending {
        seq![Effect::RequestDevices]
    } else {
        Seq::empty()
    }
}

/// What a message of an operation makes the interface do.
pub open spec fn effects(session: Session, operation_id: u64, note: Note) -> Seq<Effect> {
    let released = seq![Effect::ReleaseOperation];
    if operation_id != session.operation_id {
        Seq::empty()
    } else if note.is_passing() {
        if session.closing {
            Seq::empty()
        } else {
            match note {
                Note::Progress(percent) => seq![Effect::ShowProgress(percent)],
                Note::ScanComplete => seq![Effect::EndProgress, Effect::ShowText],
                _ => seq![Effect::ShowText],
            }
        }
    } else {
        let start = if note is Devices {
            seq![Effect::HideCancel] + released
        } else {
            released
        };
        if session.closing {
            start.push(Effect::CloseChannel)
        } else {
            start + match note {
                Note::Devices(result) => device_effects(session, result),
                Note::ReviewReady(result) => review_effects(result) + search_again(session),
                Note::Work(result) => work_effects(result) + search_again(session),
                _ => Seq::empty(),
            }
        }
    }
}

/// The state after a message of an operation.
pub open spec fn after(session: Session, operation_id: u64, note: Note) -> Session {
    if operation_id != session.operation_id || note.is_passing() {
        session
    } else {
        let released = Session {
            cancellable: false,
            discovery_pending: session.discovery_pending && !(note is Devices),
            ..session
        };
        if session.closing {
            released
        } else {
            match note {
                Note::Devices(Ok(count)) => Session { devices: count, ..released },
                Note::Devices(Err(_)) => released,
                Note::ReviewReady(result) => Session {
                    busy: false,
                    reviewing: session.reviewing || result is Ok,
                    ..released
                },
                _ => Session { busy: false, reviewing: false, ..released },
            }
        }
    }
}

/// Appends effects.
fn push_effects(list: &mut Vec<Effect>, more: &[Effect])
    ensures
        final(list)@ == old(list)@ + more@,
{
    let ghost start = list@;
    let mut i: usize = 0;
    assert(start + more@.take(0) =~= start);
    while i < more.len()
        invariant
            i <= more.len(),
            list@ == start + more@.take(i as int),
        decreases more.len() - i,
    {
        assert(start + more@.take(i + 1) =~= (start + more@.take(i as int)).push(more@[i as int]));
        list.push(more[i]);
        i += 1;
    }
    assert(more@.take(more@.len() as int) =~= more@);
}

/// What a message about scanners makes the interface do.
fn device_list(session: Session, result: Result<usize, Stop>) -> (r: Vec<Effect>)
    ensures
        r@ == device_effects(session, result),
{
    let mut list: Vec<Effect> = Vec::new();
    match result {
        Ok(count) => {
            list.push(Effect::ListDevices);
            list.push(Effect::EnableRefresh);
            list.push(Effect::StopSpinner);
            if count == 0 {
                list.push(Effect::EnableScan(false));
                list.push(Effect::TellNoScanner);
            } else {
                list.push(Effect::EnableScan(true));
                list.push(Effect::TellScannerReady);
            }
        },
        Err(stop) => {
            list.push(Effect::EnableRefresh);
            list.push(Effect::EnableScan(session.devices > 0));
            list.push(Effect::StopSpinner);
            match stop {
                Stop::Failed => {
                    list.push(Effect::ShowError);
                    list.push(Effect::FocusRefresh);
                },
                Stop::Cancelled => {},
            }
        },
    }
    assert(list@ =~= device_effects(session, result));
    list
}

/// What a message about a review makes the interface do.
fn review_list(result: Result<usize, Stop>) -> (r: Vec<Effect>)
    ensures
        r@ == review_effects(result),
{
    let mut list: Vec<Effect> = Vec::new();
    match result {
        Ok(count) => {
            list.push(Effect::EndWork(Ending::PhotosDetected(count)));
            list.push(Effect::ShowReview);
        },
        Err(Stop::Cancelled) => {
            list.push(Effect::EndWork(Ending::Cancelled));
        },
        Err(Stop::Failed) => {
            list.push(Effect::EndWork(Ending::ReviewFailed));
            list.push(Effect::ShowError);
        },
    }
    assert(list@ =~= review_effects(result));
    list
}

/// What a message about finished work makes the interface do.
fn work_list(result: Result<(), Stop>) -> (r: Vec<Effect>)
    ensures
        r@ == work_effects(result),
{
    let mut list: Vec<Effect> = Vec::new();
    list.push(Effect::DropReview);
    match result {
        Ok(()) => {
            list.push(Effect::RememberDate);
            list.push(Effect::SaveSettings);
            list.push(Effect::EndWork(Ending::ResultTitle));
            list.push(Effect::ShowResult);
        },
        Err(stop) => {
            list.push(Effect::ShowPreviousPreview);
            list.push(Effect::DefaultToScan);
            match stop {
                Stop::Cancelled => {
                    list.push(Effect::EndWork(Ending::Cancelled));
                },
                Stop::Failed => {
                    list.push(Effect::EndWork(Ending::OperationFailed));
                    list.push(Effect::ShowError);
                },
            }
        },
    }
    assert(list@ =~= work_effects(result));
    list
}

/// Takes a message of an operation: the state after it, and what it makes the
/// interface do. Messages of operations that are no longer current are ignored.
pub fn handle_message(session: Session, operation_id: u64, note: Note) -> (r: (Session, Vec<Effect>))
    ensures
        r.0 == after(session, operation_id, note),
        r.1@ == effects(session, operation_id, note),
{
    let mut list: Vec<Effect> = Vec::new();
    if operation_id != session.operation_id {
        assert(list@ =~= Seq::<Effect>::empty());
        return (session, list);
    }
    let mut next = session;
    match note {
        Note::Progress(percent) => {
            if !session.closing {
                list.push(Effect::ShowProgress(percent));
            }
            assert(list@ =~= effects(session, operation_id, note));
            return (session, list);
        },
        Note::Status => {
            if !session.closing {
                list.push(Effect::ShowText);
            }
            assert(list@ =~= effects(session, operation_id, note));
            return (session, list);
        },
        Note::ScanComplete => {
            if !session.closing {
                list.push(Effect::EndProgress);
                list.push(Effect::ShowText);
            }
            assert(list@ =~= effects(session, operation_id, note));
            return (session, list);
        },
        Note::Devices(_) => {
            next.discovery_pending = false;
            list.push(Effect::HideCancel);
        },
        Note::ReviewReady(_) => {},
        Note::Work(_) => {},
    }
    next.cancellable = false;
    list.push(Effect::ReleaseOperation);
    if session.closing {
        list.push(Effect::CloseChannel);
        assert(list@ =~= effects(session, operation_id, note));
        return (next, list);
    }
    match note {
        Note::Devices(result) => {
            if let Ok(count) = result {
                next.devices = count;
            }
            let more = device_list(session, result);
            push_effects(&mut list, &more);
        },
        Note::ReviewReady(result) => {
            next.busy = false;
            if result.is_ok() {
                next.reviewing = true;
            }
            let more = review_list(result);
            push_effects(&mut list, &more);
            if session.discovery_pending {
                list.push(Effect::RequestDevices);
            }
        },
        Note::Work(result) => {
            next.busy = false;
            next.reviewing = false;
            let more = work_list(result);
            push_effects(&mut list, &more);
            if session.discovery_pending {
                list.push(Effect::RequestDevices);
            }
        },
        _ => {},
    }
    assert(list@ =~= effects(session, operation_id, note));
    (next, list)
}

/// Messages of operations that are no longer current change nothing.
pub proof fn lemma_stale_messages_are_ignored(session: Session, operation_id: u64, note: Note)
    requires
        operation_id != session.operation_id,
    ensures
        after(session, operation_id, note) == session,
        effects(session, operation_id, note) == Seq::<Effect>::empty(),
{
}

/// A message that does not end the operation leaves the state, and so the means
/// to cancel, as it was.
pub proof fn lemma_progress_ends_nothing(session: Session, operation_id: u64, note: Note)
    requires
        note.is_passing(),
    ensures
        after(session, operation_id, note) == session,
        !effects(session, operation_id, note).contains(Effect::ReleaseOperation),
{
}

/// A window that is being closed starts nothing and shows nothing: the end of
/// its last operation only closes the channel.
pub proof fn lemma_closing_starts_nothing(session: Session, operation_id: u64, note: Note)
    requires
        session.closing,
    ensures
        forall|i: int|
            0 <= i < effects(session, operation_id, note).len() ==> {
                let effect = #[trigger] effects(session, operation_id, note)[i];
                effect is HideCancel || effect is ReleaseOperation || effect is CloseChannel
            },
        operation_id == session.operation_id && !note.is_passing() ==> effects(
            session,
            operation_id,
            note,
        ).last() is CloseChannel,
{
}

/// A search for scanners that other work displaced is made again once that work
/// has ended, and only then.
pub proof fn lemma_displaced_search_is_repeated(session: Session, note: Note)
    requires
        !session.closing,
        note is Work || note is ReviewReady,
    ensures
        !after(session, session.operation_id, note).busy,
        effects(session, session.operation_id, note).contains(Effect::RequestDevices)
            <==> session.discovery_pending,
        session.discovery_pending ==> effects(session, session.operation_id, note).last()
            is RequestDevices,
{
    let list = effects(session, session.operation_id, note);
    if session.discovery_pending {
        assert(list[list.len() - 1] is RequestDevices);
    }
}

/// An answer to a search for scanners ends the search.
pub proof fn lemma_answer_ends_search(session: Session, result: Result<usize, Stop>)
    ensures
        !after(session, session.operation_id, Note::Devices(result)).discovery_pending,
{
}

/// The state with a new operation, which can be cancelled.
pub open spec fn with_operation(session: Session) -> Session {
    Session {
        operation_id: if session.operation_id == u64::MAX {
            0
        } else {
            (session.operation_id + 1) as u64
        },
        cancellable: true,
        ..session
    }
}

/// Starts an operation: it gets a new number, so that messages of the one before
/// are ignored. Tells whether there is an operation before it to be cancelled.
pub fn begin_operation(session: Session) -> (r: (Session, bool))
    ensures
        r.0 == with_operation(session),
        r.0.operation_id != session.operation_id,
        r.1 == session.cancellable,
{
    let operation_id: u64 = session.operation_id.wrapping_add(1);
    let mut next = session;
    next.operation_id = operation_id;
    next.cancellable = true;
    (next, session.cancellable)
}

/// The start of work.
#[derive(Clone, Copy, Debug, PartialEq, Eq, Structural)]
pub struct Begun {
    /// The state with the work.
    pub session: Session,
    /// Whether there is an operation before it to be cancelled.
    pub displaces: bool,
    /// Whether photos were under review, which they are no longer.
    pub ends_review: bool,
}

/// What the start of work does: it keeps other work out, and ends an open review.
pub open spec fn work_begun(session: Session) -> Begun {
    Begun {
        session: Session { busy: true, reviewing: false, ..with_operation(session) },
        displaces: session.cancellable,
        ends_review: session.reviewing,
    }
}

/// Starts work: it keeps other work out, and ends an open review.
pub fn begin_work(session: Session) -> (r: Begun)
    ensures
        r == work_begun(session),
{
    let (begun, displaces) = begin_operation(session);
    let mut next = begun;
    next.busy = true;
    next.reviewing = false;
    Begun { session: next, displaces, ends_review: session.reviewing }
}

/// Forgets the photos under review, if there are any.
pub fn discard_review(session: Session) -> (r: Option<Session>)
    ensures
        r == if session.reviewing {
            Some(Session { reviewing: false, ..session })
        } else {
            None
        },
{
    if session.reviewing {
        let mut next = session;
        next.reviewing = false;
        Some(next)
    } else {
        None
    }
}

/// Starts a search for scanners, unless work is going on.
pub fn request_devices(session: Session) -> (r: Option<Session>)
    ensures
        match r {
            Some(next) => !session.busy && next == (Session { discovery_pending: true, ..session }),
            None => session.busy,
        },
{
    if session.busy {
        return None;
    }
    let mut next = session;
    next.discovery_pending = true;
    Some(next)
}

/// What the closing of the window does with the current operation.
#[derive(Clone, Copy, Debug, PartialEq, Eq, Structural)]
pub enum ClosingStep {
    /// Cancel it; its last message closes the channel.
    CancelOperation,
    /// There is none: close the channel.
    CloseChannel,
}

/// Closes the window.
pub fn close_request(session: Session) -> (r: (Session, ClosingStep))
    ensures
        r.0 == (Session { closing: true, ..session }),
        r.1 == if session.cancellable {
            ClosingStep::CancelOperation
        } else {
            ClosingStep::CloseChannel
        },
{
    let mut next = session;
    next.closing = true;
    if session.cancellable {
        (next, ClosingStep::CancelOperation)
    } else {
        (next, ClosingStep::CloseChannel)
    }
}

/// What can be used.
#[derive(Clone, Copy, Debug, PartialEq, Eq, Structural)]
pub struct Controls {
    /// Scanning.
    pub scan: bool,
    /// Everything that is not to be used during work: opening files, searching
    /// for scanners, choosing the output directory, and most of the form.
    pub idle: bool,
    /// The switch for the automatic threshold, the smallest area, the extra
    /// space, and the switch for the review.
    pub detection: bool,
    /// The threshold chosen by hand.
    pub threshold: bool,
    /// The JPEG quality.
    pub quality: bool,
}

/// What can be used: nothing during work; what concerns the separation of photos
/// only if they are separated; the threshold only if it is not automatic; the
/// quality only for JPG.
pub fn controls(
    busy: bool,
    devices: usize,
    mode_index: u32,
    format_index: u32,
    auto_threshold: bool,
) -> (r: Controls)
    ensures
        r.scan == (!busy && devices > 0),
        r.idle == !busy,
        r.detection == (!busy && mode_index == 0),
        r.threshold == (!busy && mode_index == 0 && !auto_threshold),
        r.quality == (!busy && format_index == 0),
{
    let idle = !busy;
    let splitting = idle && mode_index == 0;
    Controls {
        scan: idle && devices > 0,
        idle,
        detection: splitting,
        threshold: splitting && !auto_threshold,
        quality: idle && format_index == 0,
    }
}

/// How a scan is worked on.
#[derive(Clone, Copy, Debug, PartialEq, Eq, Structural)]
pub enum ScanMode {
    /// The photos are separated and saved.
    Direct,
    /// The photos are separated and reviewed.
    Review,
    /// The complete scan is saved.
    Full,
}

/// How a scan is worked on: the complete scan is never reviewed.
pub open spec fn mode_of(mode_index: u32, review_before_save: bool) -> ScanMode {
    if mode_index == 1 {
        ScanMode::Full
    } else if review_before_save {
        ScanMode::Review
    } else {
        ScanMode::Direct
    }
}

/// How a scan is worked on: the complete scan is never reviewed.
pub fn scan_mode(mode_index: u32, review_before_save: bool) -> (r: ScanMode)
    ensures
        r == mode_of(mode_index, review_before_save),
{
    if mode_index == 1 {
        ScanMode::Full
    } else if review_before_save {
        ScanMode::Review
    } else {
        ScanMode::Direct
    }
}

/// What is told once the scanner is done, before translation.
pub fn status_after_scan(mode: ScanMode) -> (r: &'static str)
    ensures
        r@ == if mode is Full {
            "Saving scan…"@
        } else {
            "Analyzing scan file…"@
        },
{
    match mode {
        ScanMode::Full => "Saving scan…",
        ScanMode::Direct => "Analyzing scan file…",
        ScanMode::Review => "Analyzing scan file…",
    }
}

/// What is filled in on the form.
#[derive(Debug)]
pub struct Form {
    /// The capture date.
    pub date: String,
    /// The choice of resolution.
    pub dpi_index: u32,
    /// The choice of format.
    pub format_index: u32,
    /// The smallest area of a photo, in percent.
    pub min_area: Binary64,
    /// Whether the threshold is determined automatically.
    pub auto_threshold: bool,
    /// The threshold chosen by hand.
    pub threshold: Binary64,
    /// The extra space around photos, in percent.
    pub padding: Binary64,
    /// The JPEG quality.
    pub quality: i32,
}

/// The resolution that a choice stands for.
pub open spec fn dpi_of(index: u32) -> u32 {
    if index == 0 {
        300
    } else if index == 2 {
        1200
    } else {
        600
    }
}

/// The format that a choice stands for.
pub open spec fn format_of(index: u32) -> OutputFormat {
    if index == 1 {
        OutputFormat::Png
    } else if index == 2 {
        OutputFormat::Tiff
    } else {
        OutputFormat::Jpeg
    }
}

/// The capture date that is filled in, if it is one.
pub open spec fn date_of(form: Form) -> Option<capture::CaptureDate> {
    capture::parsed_date(text::trimmed(form.date@), "%d.%m.%Y"@)
}

/// Whether a configuration is what the form stands for. Only a scan that is made
/// now has the resolution of the form.
pub open spec fn is_filled_in(config: SplitConfig, form: Form, scanned: bool) -> bool {
    &&& config.capture_date is Some
    &&& config.capture_date == date_of(form)
    &&& config.capture_date->0.is_valid()
    &&& config.min_area_percent == form.min_area
    &&& config.threshold == if form.auto_threshold {
        None
    } else {
        Some(form.threshold)
    }
    &&& config.padding_percent == form.padding
    &&& config.max_detection_size == 1800
    &&& config.output_format == format_of(form.format_index)
    &&& config.jpeg_quality == form.quality
    &&& config.dpi == if scanned {
        Some(dpi_of(form.dpi_index))
    } else {
        None
    }
}

/// The configuration that the form stands for, or none where the date is not one.
pub fn collect_config(form: &Form, scanned: bool) -> (r: Option<SplitConfig>)
    ensures
        match r {
            Some(config) => is_filled_in(config, *form, scanned),
            None => date_of(*form) is None,
        },
{
    let date = match capture::parse_date_entry(&form.date) {
        Some(date) => date,
        None => {
            return None;
        },
    };
    let dpi: u32 = match form.dpi_index {
        0 => 300,
        2 => 1200,
        _ => 600,
    };
    let output_format = match form.format_index {
        1 => OutputFormat::Png,
        2 => OutputFormat::Tiff,
        _ => OutputFormat::Jpeg,
    };
    let usual = SplitConfig::default();
    Some(
        SplitConfig {
            min_area_percent: form.min_area,
            threshold: if form.auto_threshold {
                None
            } else {
                Some(form.threshold)
            },
            padding_percent: form.padding,
            max_detection_size: usual.max_detection_size,
            output_format,
            jpeg_quality: form.quality,
            dpi: if scanned {
                Some(dpi)
            } else {
                None
            },
            capture_date: Some(date),
        },
    )
}

/// What becomes of the wish to start work.
#[derive(Debug)]
pub enum Start {
    /// Nothing, because other work is going on.
    Ignored,
    /// Nothing, because no scanner is selected.
    NoScanner,
    /// Nothing, because the capture date is not one.
    InvalidDate,
    /// The work starts.
    Begin {
        /// Its start.
        begun: Begun,
        /// How photos are found and saved.
        config: SplitConfig,
        /// What is done with scans.
        mode: ScanMode,
    },
}

/// Whether a start is right for a form, other work and a missing scanner aside.
pub open spec fn is_start(
    start: Start,
    session: Session,
    form: Form,
    scanned: bool,
    mode_index: u32,
    review_before_save: bool,
) -> bool {
    match start {
        Start::InvalidDate => date_of(form) is None,
        Start::Begin { begun, config, mode } => {
            &&& begun == work_begun(session)
            &&& is_filled_in(config, form, scanned)
            &&& mode == mode_of(mode_index, review_before_save)
        },
        _ => false,
    }
}

/// Starts a scan with the scanner that is selected, unless other work is going
/// on. An open review is discarded.
pub fn start_scan(
    session: Session,
    selected: u32,
    form: &Form,
    mode_index: u32,
    review_before_save: bool,
) -> (r: Start)
    ensures
        if session.busy {
            r is Ignored
        } else if selected >= session.devices {
            r is NoScanner
        } else {
            is_start(r, session, *form, true, mode_index, review_before_save)
        },
{
    if session.busy {
        Start::Ignored
    } else if selected as usize >= session.devices {
        Start::NoScanner
    } else {
        match collect_config(form, true) {
            Some(config) => Start::Begin {
                begun: begin_work(session),
                config,
                mode: scan_mode(mode_index, review_before_save),
            },
            None => Start::InvalidDate,
        }
    }
}

/// Starts the work on scan files, unless other work is going on. An open review
/// is discarded.
pub fn start_import(
    session: Session,
    form: &Form,
    mode_index: u32,
    review_before_save: bool,
) -> (r: Start)
    ensures
        if session.busy {
            r is Ignored
        } else {
            is_start(r, session, *form, false, mode_index, review_before_save)
        },
{
    if session.busy {
        Start::Ignored
    } else {
        match collect_config(form, false) {
            Some(config) => Start::Begin {
                begun: begin_work(session),
                config,
                mode: scan_mode(mode_index, review_before_save),
            },
            None => Start::InvalidDate,
        }
    }
}

/// What becomes of the wish to save a review.
#[derive(Clone, Copy, Debug, PartialEq, Eq, Structural)]
pub enum SaveStart {
    /// Nothing, because other work is going on.
    Ignored,
    /// Nothing, because no photo is chosen.
    NothingChosen,
    /// The work starts.
    Begin {
        /// Its start.
        begun: Begun,
        /// How many photos are saved.
        count: usize,
    },
}

/// Starts to save the review, if there is one with a chosen photo, and unless
/// other work is going on.
pub fn save_review(session: Session, review: Option<&Review>) -> (r: SaveStart)
    ensures
        r == if session.busy {
            SaveStart::Ignored
        } else {
            match review {
                Some(review) => if review::included_among(review.photos@) == 0 {
                    SaveStart::NothingChosen
                } else {
                    SaveStart::Begin {
                        begun: work_begun(session),
                        count: review::included_among(review.photos@) as usize,
                    }
                },
                None => SaveStart::NothingChosen,
            }
        },
{
    if session.busy {
        return SaveStart::Ignored;
    }
    match review {
        Some(review) => {
            let count: usize = review.included_count();
            if count == 0 {
                SaveStart::NothingChosen
            } else {
                SaveStart::Begin { begun: begin_work(session), count }
            }
        },
        None => SaveStart::NothingChosen,
    }
}

/// What happens to the interface while work is going on.
#[derive(Clone, Copy, Debug, PartialEq, Eq)]
pub enum SessionEvent {
    /// A message of an operation comes in.
    Message {
        /// The number of the operation.
        operation_id: u64,
        /// The message.
        note: Note,
    },
    /// The window is closed.
    Closing,
    /// The photos under review are forgotten.
    Discarding,
    /// Somebody wishes to scan, to open files, to save a review or to search for
    /// scanners.
    Wish,
}

/// Whether `next` is the state after an event. A wish starts work or a search, or
/// it is ignored, which it always is while work is going on.
pub open spec fn session_follows(session: Session, event: SessionEvent, next: Session) -> bool {
    match event {
        SessionEvent::Message { operation_id, note } => next == after(session, operation_id, note),
        SessionEvent::Closing => next == (Session { closing: true, ..session }),
        SessionEvent::Discarding => next == (Session { reviewing: false, ..session }),
        SessionEvent::Wish => {
            ||| next == session
            ||| !session.busy && next == work_begun(session).session
            ||| !session.busy && next == with_operation(
                Session { discovery_pending: true, ..session },
            )
        },
    }
}

/// Whether an event is the last message of the work with this number.
pub open spec fn ends_work(event: SessionEvent, work: u64) -> bool {
    event matches SessionEvent::Message { operation_id, note } && operation_id == work && (
    note is Work || note is ReviewReady)
}

/// Whether `states` are the states of the interface through `events`.
pub open spec fn is_session_history(states: Seq<Session>, events: Seq<SessionEvent>) -> bool {
    &&& states.len() == events.len() + 1
    &&& forall|i: int|
        0 <= i < events.len() ==> session_follows(states[i], #[trigger] events[i], states[i + 1])
}

/// Work that was started keeps other work out until its last message: up to then
/// the interface is busy with it, whatever else is asked for. While it is busy,
/// nothing starts: not a scan, nor the work on files, nor the saving of a review,
/// nor a search for scanners.
pub proof fn lemma_work_keeps_other_work_out(
    session: Session,
    states: Seq<Session>,
    events: Seq<SessionEvent>,
    i: int,
)
    requires
        is_session_history(states, events),
        states[0] == work_begun(session).session,
        0 <= i < states.len(),
        forall|j: int|
            0 <= j < i ==> !ends_work(#[trigger] events[j], states[0].operation_id),
    ensures
        states[i].busy,
        states[i].operation_id == states[0].operation_id,
    decreases i,
{
    if i > 0 {
        lemma_work_keeps_other_work_out(session, states, events, i - 1);
        assert(session_follows(states[i - 1], events[i - 1], states[i - 1 + 1]));
        assert(!ends_work(events[i - 1], states[0].operation_id));
    }
}

/// A day of a calendar as it is entered: day, month and year.
pub fn calendar_text(day: u32, month: u32, year: u32) -> (r: String)
    ensures
        r@ == text::padded(day as nat, 2) + seq!['.'] + text::padded(month as nat, 2) + seq!['.']
            + text::padded(year as nat, 4),
{
    let mut chars = text::to_padded(day as u64, 2);
    chars.push('.');
    text::push_all(&mut chars, &text::to_padded(month as u64, 2));
    chars.push('.');
    text::push_all(&mut chars, &text::to_padded(year as u64, 4));
    assert(chars@ =~= text::padded(day as nat, 2) + seq!['.'] + text::padded(month as nat, 2)
        + seq!['.'] + text::padded(year as nat, 4));
    text::text_of(&chars)
}

/// A day that is chosen on the calendar is entered as the same day is written
/// anywhere.
pub proof fn lemma_calendar_text_is_entry_text(date: capture::CaptureDate)
    requires
        date.is_valid(),
        0 <= date.year <= 9999,
    ensures
        capture::entry_text(date) == text::padded(date.day as nat, 2) + seq!['.'] + text::padded(
            date.month as nat,
            2,
        ) + seq!['.'] + text::padded(date.year as nat, 4),
{
}

/// What happened to a file that is watched.
#[derive(Clone, Copy, Debug, PartialEq, Eq, Structural)]
pub enum FileEvent {
    /// A series of changes is done.
    ChangesDone,
    /// It was made.
    Created,
    /// It was deleted.
    Deleted,
    /// It was moved.
    Moved,
    /// It was moved into the directory.
    MovedIn,
    /// It was moved out of the directory.
    MovedOut,
    /// It got another name.
    Renamed,
    /// Anything else.
    Other,
}

/// Whether the style sheet has to be read again: something has happened to it
/// that may have changed what it holds.
pub fn reloads_theme(affects_theme: bool, event: FileEvent) -> (r: bool)
    ensures
        r == (affects_theme && !(event is Other)),
{
    affects_theme && !matches!(event, FileEvent::Other)
}

/// The page of the preview that is shown when nothing is under review.
pub fn previous_page(has_preview: bool) -> (r: &'static str)
    ensures
        r@ == if has_preview {
            "picture"@
        } else {
            "empty"@
        },
{
    if has_preview {
        "picture"
    } else {
        "empty"
    }
}

/// The answer to a search for scanners: scanning can be done from then on where a
/// scanner is known, a search that failed leaves the known scanners as they were,
/// and an error is shown for a failure alone.
pub proof fn lemma_search_answers(session: Session, result: Result<usize, Stop>)
    requires
        !session.closing,
    ensures
        ({
            let next = after(session, session.operation_id, Note::Devices(result));
            let done = effects(session, session.operation_id, Note::Devices(result));
            &&& done.contains(Effect::EnableScan(true)) <==> next.devices > 0
            &&& done.contains(Effect::EnableScan(false)) <==> next.devices == 0
            &&& result matches Ok(count) ==> next.devices == count
            &&& result is Err ==> next.devices == session.devices
            &&& next.busy == session.busy && next.reviewing == session.reviewing
            &&& !next.cancellable
            &&& done.contains(Effect::ShowError) <==> result == Err::<usize, Stop>(Stop::Failed)
            &&& done.contains(Effect::ListDevices) <==> result is Ok
            &&& done.contains(Effect::TellNoScanner) <==> result == Ok::<usize, Stop>(0)
            &&& done.contains(Effect::TellScannerReady) <==> result is Ok && next.devices > 0
            &&& done.contains(Effect::EnableRefresh) && done.contains(Effect::StopSpinner)
            &&& done.contains(Effect::HideCancel) && done.contains(Effect::ReleaseOperation)
        }),
{
    let done = effects(session, session.operation_id, Note::Devices(result));
    assert(done[0] == Effect::HideCancel && done[1] == Effect::ReleaseOperation);
    match result {
        Ok(count) => {
            assert(done.len() == 7);
            assert(done[2] == Effect::ListDevices && done[3] == Effect::EnableRefresh);
            assert(done[4] == Effect::StopSpinner && done[5] == Effect::EnableScan(count > 0));
            assert(done[6] == if count == 0 {
                Effect::TellNoScanner
            } else {
                Effect::TellScannerReady
            });
        },
        Err(stop) => {
            assert(done[2] == Effect::EnableRefresh && done[4] == Effect::StopSpinner);
            assert(done[3] == Effect::EnableScan(session.devices > 0));
            if stop is Failed {
                assert(done.len() == 7);
                assert(done[5] == Effect::ShowError && done[6] == Effect::FocusRefresh);
            } else {
                assert(done.len() == 5);
            }
        },
    }
}

/// The end of work: the operation is let go and other work can be started. What
/// was done is shown, and the settings are kept, where the work succeeded; an
/// error is shown where it failed; and neither where it was cancelled. There is
/// no review any more.
pub proof fn lemma_ended_work(session: Session, result: Result<(), Stop>)
    requires
        !session.closing,
    ensures
        ({
            let next = after(session, session.operation_id, Note::Work(result));
            let done = effects(session, session.operation_id, Note::Work(result));
            &&& !next.busy && !next.cancellable && !next.reviewing
            &&& next.devices == session.devices
            &&& done.contains(Effect::ReleaseOperation) && done.contains(Effect::DropReview)
            &&& done.contains(Effect::ShowResult) <==> result is Ok
            &&& done.contains(Effect::SaveSettings) <==> result is Ok
            &&& done.contains(Effect::RememberDate) <==> result is Ok
            &&& done.contains(Effect::ShowPreviousPreview) <==> result is Err
            &&& done.contains(Effect::ShowError) <==> result == Err::<(), Stop>(Stop::Failed)
            &&& done.contains(Effect::EndWork(Ending::ResultTitle)) <==> result is Ok
            &&& done.contains(Effect::EndWork(Ending::Cancelled)) <==> result == Err::<(), Stop>(
                Stop::Cancelled,
            )
            &&& done.contains(Effect::EndWork(Ending::OperationFailed)) <==> result == Err::<
                (),
                Stop,
            >(Stop::Failed)
        }),
{
    let done = effects(session, session.operation_id, Note::Work(result));
    assert(done[0] == Effect::ReleaseOperation && done[1] == Effect::DropReview);
    match result {
        Ok(_) => {
            assert(done[2] == Effect::RememberDate && done[3] == Effect::SaveSettings);
            assert(done[4] == Effect::EndWork(Ending::ResultTitle));
            assert(done[5] == Effect::ShowResult);
        },
        Err(stop) => {
            assert(done[2] == Effect::ShowPreviousPreview && done[3] == Effect::DefaultToScan);
            if stop is Failed {
                assert(done[4] == Effect::EndWork(Ending::OperationFailed));
                assert(done[5] == Effect::ShowError);
            } else {
                assert(done[4] == Effect::EndWork(Ending::Cancelled));
            }
        },
    }
}

/// Photos that are ready for review are shown, with how many they are, and are
/// then under review; an error is shown where they could not be prepared.
pub proof fn lemma_ready_reviews(session: Session, result: Result<usize, Stop>)
    requires
        !session.closing,
    ensures
        ({
            let next = after(session, session.operation_id, Note::ReviewReady(result));
            let done = effects(session, session.operation_id, Note::ReviewReady(result));
            &&& !next.busy && !next.cancellable
            &&& next.reviewing <==> session.reviewing || result is Ok
            &&& next.devices == session.devices
            &&& done.contains(Effect::ReleaseOperation)
            &&& done.contains(Effect::ShowReview) <==> result is Ok
            &&& done.contains(Effect::ShowError) <==> result == Err::<usize, Stop>(Stop::Failed)
            &&& done.contains(Effect::EndWork(Ending::Cancelled)) <==> result == Err::<usize, Stop>(
                Stop::Cancelled,
            )
            &&& done.contains(Effect::EndWork(Ending::ReviewFailed)) <==> result == Err::<
                usize,
                Stop,
            >(Stop::Failed)
            &&& forall|count: usize| #[trigger]
                done.contains(Effect::EndWork(Ending::PhotosDetected(count))) <==> result == Ok::<
                    usize,
                    Stop,
                >(count)
        }),
{
    let done = effects(session, session.operation_id, Note::ReviewReady(result));
    assert(done[0] == Effect::ReleaseOperation);
    match result {
        Ok(count) => {
            assert(done[1] == Effect::EndWork(Ending::PhotosDetected(count)));
            assert(done[2] == Effect::ShowReview);
        },
        Err(Stop::Cancelled) => {
            assert(done[1] == Effect::EndWork(Ending::Cancelled));
        },
        Err(Stop::Failed) => {
            assert(done[1] == Effect::EndWork(Ending::ReviewFailed));
            assert(done[2] == Effect::ShowError);
        },
    }
}

/// Progress is shown as it is told, a text as well, and the end of a scan ends
/// the progress; nothing of it is shown once the window closes.
pub proof fn lemma_passing_messages(session: Session, percent: Binary64)
    ensures
        ({
            let told = effects(session, session.operation_id, Note::Progress(percent));
            let text = effects(session, session.operation_id, Note::Status);
            let scanned = effects(session, session.operation_id, Note::ScanComplete);
            &&& !session.closing ==> told == seq![Effect::ShowProgress(percent)]
            &&& !session.closing ==> text == seq![Effect::ShowText]
            &&& !session.closing ==> scanned.contains(Effect::EndProgress) && scanned.contains(
                Effect::ShowText,
            )
            &&& session.closing ==> told.len() == 0 && text.len() == 0 && scanned.len() == 0
        }),
{
    let scanned = effects(session, session.operation_id, Note::ScanComplete);
    if !session.closing {
        assert(scanned[0] == Effect::EndProgress && scanned[1] == Effect::ShowText);
    }
}

/// What can be used: everything but scanning without a scanner, what is about
/// separate photos with a complete scan, the threshold where it is automatic, and
/// the quality for a format other than JPEG; and nothing during work.
pub proof fn lemma_controls(
    busy: bool,
    devices: usize,
    mode_index: u32,
    format_index: u32,
    auto_threshold: bool,
    usable: Controls,
)
    requires
        call_ensures(controls, (busy, devices, mode_index, format_index, auto_threshold), usable),
    ensures
        busy ==> !usable.scan && !usable.idle && !usable.detection && !usable.threshold
            && !usable.quality,
        !busy ==> usable.idle,
        !busy ==> (usable.scan <==> devices != 0),
        !busy && mode_index <= 1 ==> (usable.detection <==> mode_of(mode_index, false) is Direct),
        usable.threshold <==> usable.detection && !auto_threshold,
        !busy && format_index <= 2 ==> (usable.quality <==> format_of(format_index) is Jpeg),
{
}

/// A complete scan is saved as it is, whatever the switch for the review; photos
/// are reviewed where it is on. The text told after a scan is that of saving for
/// a complete scan, and that of the analysis for photos.
pub proof fn lemma_scan_modes(mode_index: u32, review: bool, mode: ScanMode, told: &'static str)
    requires
        call_ensures(scan_mode, (mode_index, review), mode),
        call_ensures(status_after_scan, (mode,), told),
    ensures
        mode is Full <==> mode_index == 1,
        mode is Review <==> review && mode_index != 1,
        mode is Direct <==> !review && mode_index != 1,
        mode_index == 1 ==> told@ == "Saving scan…"@,
        mode_index != 1 ==> told@ == "Analyzing scan file…"@,
{
}

/// The choices of the form: three resolutions in growing order, the middle one
/// where none is chosen, and the three formats, JPEG where none is chosen.
pub proof fn lemma_form_choices(index: u32)
    ensures
        dpi_of(index) == 300 || dpi_of(index) == 600 || dpi_of(index) == 1200,
        forall|i: u32, j: u32| i < j <= 2 ==> #[trigger] dpi_of(i) < #[trigger] dpi_of(j),
        index > 2 ==> dpi_of(index) == dpi_of(1),
        format_of(index) is Png <==> index == 1,
        format_of(index) is Tiff <==> index == 2,
        format_of(index) is Jpeg <==> index != 1 && index != 2,
{
}

/// A form whose date was written as dates are entered, with white space around it
/// or none, gives settings with this date; and with what else the form says. A
/// scan has the chosen resolution; of an image file it is not known.
pub proof fn lemma_filled_in_forms(
    date: capture::CaptureDate,
    before: Seq<char>,
    entered: String,
    behind: Seq<char>,
    form: &Form,
    scanned: bool,
    collected: Option<SplitConfig>,
)
    requires
        date.is_valid(),
        0 <= date.year <= 9999,
        call_ensures(capture::date_entry_text, (date,), entered),
        forall|i: int| 0 <= i < before.len() ==> text::is_white_space(#[trigger] before[i]),
        forall|i: int| 0 <= i < behind.len() ==> text::is_white_space(#[trigger] behind[i]),
        form.date@ == before + entered@ + behind,
        call_ensures(collect_config, (form, scanned), collected),
    ensures
        collected is Some,
        collected->0.capture_date == Some(date),
        collected->0.min_area_percent == form.min_area,
        collected->0.padding_percent == form.padding,
        collected->0.jpeg_quality == form.quality,
        collected->0.max_detection_size == 1800,
        form.auto_threshold ==> collected->0.threshold is None,
        !form.auto_threshold ==> collected->0.threshold == Some(form.threshold),
        !scanned ==> collected->0.dpi is None,
        scanned && form.dpi_index == 0 ==> collected->0.dpi == Some(300u32),
        scanned && form.dpi_index == 1 ==> collected->0.dpi == Some(600u32),
        scanned && form.dpi_index == 2 ==> collected->0.dpi == Some(1200u32),
        form.format_index == 0 ==> collected->0.output_format is Jpeg,
        form.format_index == 1 ==> collected->0.output_format is Png,
        form.format_index == 2 ==> collected->0.output_format is Tiff,
{
    let day = text::padded(date.day as nat, 2);
    let year = text::padded(date.year as nat, 4);
    text::lemma_padded_number(date.day as nat);
    text::lemma_padded_number(date.year as nat);
    let inner = entered@;
    assert(inner[0] == day[0]);
    assert(inner.last() == year.last());
    assert(text::is_digit(day[0]) && text::is_digit(year.last()));
    assert(!text::is_white_space(inner[0]) && !text::is_white_space(inner.last()));
    text::lemma_trimming(before, inner, behind);
}

/// The text of a chosen day in the calendar is the one that the day is entered
/// by.
pub proof fn lemma_calendar_days(date: capture::CaptureDate, shown: String, entered: String)
    requires
        date.is_valid(),
        0 <= date.year <= 9999,
        call_ensures(calendar_text, (date.day, date.month, date.year as u32), shown),
        call_ensures(capture::date_entry_text, (date,), entered),
    ensures
        shown@ == entered@,
        text::number(shown@.subrange(0, 2)) == date.day,
        text::number(shown@.subrange(3, 5)) == date.month,
        text::number(shown@.subrange(6, 10)) == date.year,
{
    lemma_calendar_text_is_entry_text(date);
    capture::lemma_entered_date(date);
}

/// Work is started unless other work is going on or the date is not one; a scan
/// needs a scanner as well. The work has a number of its own, keeps other work
/// out, and ends an open review and the operation before it.
pub proof fn lemma_started_work(
    session: Session,
    selected: u32,
    form: &Form,
    mode_index: u32,
    review_before_save: bool,
    scan: Start,
    import: Start,
)
    requires
        call_ensures(start_scan, (session, selected, form, mode_index, review_before_save), scan),
        call_ensures(start_import, (session, form, mode_index, review_before_save), import),
    ensures
        scan is Ignored <==> session.busy,
        import is Ignored <==> session.busy,
        scan is NoScanner <==> !session.busy && selected >= session.devices,
        !(import is NoScanner),
        scan is InvalidDate ==> import is InvalidDate,
        import is InvalidDate && selected < session.devices ==> scan is InvalidDate,
        scan matches Start::Begin { begun, config, mode } ==> begun.session.busy
            && begun.session.cancellable && !begun.session.reviewing && begun.session.operation_id
            != session.operation_id && begun.session.devices == session.devices
            && begun.session.discovery_pending == session.discovery_pending && begun.displaces
            == session.cancellable && begun.ends_review == session.reviewing && config.dpi is Some,
        import matches Start::Begin { begun, config, mode } ==> begun.session.busy
            && begun.session.cancellable && !begun.session.reviewing && begun.session.operation_id
            != session.operation_id && begun.session.devices == session.devices
            && begun.session.discovery_pending == session.discovery_pending && begun.displaces
            == session.cancellable && begun.ends_review == session.reviewing && config.dpi is None,
{
}

/// A review is saved where at least one of its photos is chosen and no other work
/// is going on, and the photos that are told are those that are chosen.
pub proof fn lemma_started_saving(session: Session, review: &Review, start: SaveStart)
    requires
        call_ensures(save_review, (session, Some(review)), start),
    ensures
        start is Ignored <==> session.busy,
        start is NothingChosen <==> !session.busy && forall|i: int|
            0 <= i < review.photos@.len() ==> !(#[trigger] review.photos@[i]).included,
        start matches SaveStart::Begin { begun, count } ==> begun.session.busy && count
            == review.photos@.filter(|photo: review::ReviewPhoto| photo.included).len(),
{
    review::lemma_count_is_of_chosen(review.photos@);
    assert(review.photos.len() == review.photos@.len());
}

/// A search for scanners is not begun beside work; one that is begun is
/// unanswered. Closing waits for an operation that can be cancelled, and
/// discarding a review ends the review and nothing else.
pub proof fn lemma_requests(
    session: Session,
    search: Option<Session>,
    closing: (Session, ClosingStep),
    discarded: Option<Session>,
)
    requires
        call_ensures(request_devices, (session,), search),
        call_ensures(close_request, (session,), closing),
        call_ensures(discard_review, (session,), discarded),
    ensures
        search is None <==> session.busy,
        search matches Some(next) ==> next.discovery_pending && next.operation_id
            == session.operation_id && next.devices == session.devices,
        closing.0.closing && closing.0.operation_id == session.operation_id,
        closing.1 is CancelOperation <==> session.cancellable,
        discarded is Some <==> session.reviewing,
        discarded matches Some(next) ==> !next.reviewing && next.busy == session.busy
            && next.operation_id == session.operation_id,
{
}

/// Each operation has another number than the one before it, one higher up to the
/// largest, and can be cancelled.
pub proof fn lemma_operations(session: Session, begun: (Session, bool))
    requires
        call_ensures(begin_operation, (session,), begun),
    ensures
        begun.0.operation_id != session.operation_id,
        session.operation_id < u64::MAX ==> begun.0.operation_id == session.operation_id + 1,
        begun.0.cancellable,
        begun.1 <==> session.cancellable,
        begun.0.busy == session.busy,
        begun.0.reviewing == session.reviewing,
        begun.0.devices == session.devices,
        begun.0.closing == session.closing,
{
}

/// The page shown again is that of the picture where there is one; and the theme
/// is loaded again for every change of a file that is part of it.
pub proof fn lemma_pages_and_themes(
    has_preview: bool,
    page: &'static str,
    affects_theme: bool,
    event: FileEvent,
    reloads: bool,
)
    requires
        call_ensures(previous_page, (has_preview,), page),
        call_ensures(reloads_theme, (affects_theme, event), reloads),
    ensures
        has_preview ==> page@ == "picture"@,
        !has_preview ==> page@ == "empty"@,
        reloads <==> affects_theme && !(event is Other),
{
}

} // verus!
