//! Scanner discovery and cancellable scans.
//!
//! A scan and a device query are state machines: each tells which operation
//! comes next, and takes the outcome of that operation. The program performs
//! the operations; every decision is made here.

use crate::failure::{Failure, FailureKind};
use crate::text;
use std::sync::atomic::{AtomicBool, Ordering};
use std::sync::Arc;
use vstd::prelude::*;

verus! {

/// The program that drives scanners.
pub const SCAN_PROGRAM: &'static str = "scanimage";

/// How long the search for scanners in the graphical interface may take, in
/// nanoseconds.
pub const DEVICE_DISCOVERY_TIMEOUT: u128 = 30_000_000_000;

/// How long the program may take to answer whether it is there, in nanoseconds.
pub const AVAILABILITY_TIMEOUT: u128 = 2_000_000_000;

/// The longest pause between two looks at a running process, in nanoseconds.
pub const POLL_INTERVAL: u64 = 20_000_000;

/// The most bytes of a process's output that are kept.
pub const STDOUT_LIMIT: usize = 1048576;

/// The most bytes of a process's error output that are kept.
pub const STDERR_LIMIT: usize = 262144;

/// The lowest resolution a scan may have.
pub const MIN_DPI: u32 = 75;

/// The highest resolution a scan may have.
pub const MAX_DPI: u32 = 2400;

/// Why scanners could not be found, or a scan not be made.
#[derive(Debug)]
pub enum ScannerError {
    /// The scan program is not installed.
    ScanimageMissing,
    /// The search for devices took too long.
    DeviceTimeout,
    /// The search for devices ended with this message.
    DeviceQuery(String),
    /// The resolution is out of range.
    InvalidDpi,
    /// The scan took too long.
    ScanTimeout,
    /// The operation was cancelled.
    Cancelled,
    /// The scan ended with this message.
    ScanFailed(String),
    /// The scan ended well, but gave no data.
    EmptyScan,
    /// The destination exists already.
    DestinationExists(String),
    /// The process, or a file operation that belongs to it, failed.
    Process(String),
}

impl ScannerError {
    /// The error in words.
    pub open spec fn text(self) -> Seq<char> {
        match self {
            ScannerError::ScanimageMissing =>
            "SANE ist nicht installiert: Das Programm 'scanimage' wurde nicht gefunden. Unter CachyOS/Arch kann es mit 'sudo pacman -S sane sane-airscan' installiert werden."@,
            ScannerError::DeviceTimeout => "Die Scannersuche hat zu lange gedauert."@,
            ScannerError::DeviceQuery(detail) => "Scanner konnten nicht abgefragt werden: "@
                + detail@,
            ScannerError::InvalidDpi => "Die Auflösung muss zwischen 75 und 2400 dpi liegen."@,
            ScannerError::ScanTimeout => "Der Scan hat das Zeitlimit überschritten."@,
            ScannerError::Cancelled => "Der Vorgang wurde abgebrochen."@,
            ScannerError::ScanFailed(detail) => "Der Scan ist fehlgeschlagen: "@ + detail@,
            ScannerError::EmptyScan => "Der Scanner hat keine Bilddaten geliefert."@,
            ScannerError::DestinationExists(path) => "Die Zieldatei existiert bereits: "@ + path@,
            ScannerError::Process(detail) =>
            "Scannerprozess konnte nicht gestartet werden: "@ + detail@,
        }
    }

    /// The error in words.
    pub fn message(&self) -> (r: String)
        ensures
            r@ == self.text(),
    {
        match self {
            ScannerError::ScanimageMissing =>
            "SANE ist nicht installiert: Das Programm 'scanimage' wurde nicht gefunden. Unter CachyOS/Arch kann es mit 'sudo pacman -S sane sane-airscan' installiert werden.".to_string(),
            ScannerError::DeviceTimeout => "Die Scannersuche hat zu lange gedauert.".to_string(),
            ScannerError::DeviceQuery(detail) => text::concat(
                "Scanner konnten nicht abgefragt werden: ",
                detail,
            ),
            ScannerError::InvalidDpi =>
            "Die Auflösung muss zwischen 75 und 2400 dpi liegen.".to_string(),
            ScannerError::ScanTimeout => "Der Scan hat das Zeitlimit überschritten.".to_string(),
            ScannerError::Cancelled => "Der Vorgang wurde abgebrochen.".to_string(),
            ScannerError::ScanFailed(detail) => text::concat(
                "Der Scan ist fehlgeschlagen: ",
                detail,
            ),
            ScannerError::EmptyScan => "Der Scanner hat keine Bilddaten geliefert.".to_string(),
            ScannerError::DestinationExists(path) => text::concat(
                "Die Zieldatei existiert bereits: ",
                path,
            ),
            ScannerError::Process(detail) => text::concat(
                "Scannerprozess konnte nicht gestartet werden: ",
                detail,
            ),
        }
    }
}

/// A scanner, as the texts that describe it.
pub struct DeviceView {
    /// The technical name.
    pub name: Seq<char>,
    /// The maker.
    pub vendor: Seq<char>,
    /// The model.
    pub model: Seq<char>,
    /// The kind of device.
    pub kind: Seq<char>,
}

/// A scanner reported by SANE.
#[derive(Debug, PartialEq, Eq)]
pub struct ScannerDevice {
    /// The technical name that the scan program takes.
    pub name: String,
    /// The maker.
    pub vendor: String,
    /// The model.
    pub model: String,
    /// The kind of device.
    pub kind: String,
}

impl View for ScannerDevice {
    type V = DeviceView;

    open spec fn view(&self) -> DeviceView {
        DeviceView {
            name: self.name@,
            vendor: self.vendor@,
            model: self.model@,
            kind: self.kind@,
        }
    }
}

impl Clone for ScannerDevice {
    fn clone(&self) -> (r: Self)
        ensures
            r@ == self@,
    {
        ScannerDevice {
            name: self.name.clone(),
            vendor: self.vendor.clone(),
            model: self.model.clone(),
            kind: self.kind.clone(),
        }
    }
}

impl DeviceView {
    /// Whether the vendor field names a protocol in place of a maker.
    pub open spec fn vendor_is_protocol(self) -> bool {
        let vendor = text::lowercase(text::trimmed(self.vendor));
        vendor == "escl"@ || vendor == "wsd"@ || vendor == "airscan"@
    }

    /// The short name: the maker and the model, without a maker that is only a
    /// protocol, or the technical name where there is no model.
    pub open spec fn short_name(self) -> Seq<char> {
        let vendor = text::trimmed(self.vendor);
        let model = text::trimmed(self.model);
        if model.len() == 0 {
            self.name
        } else if self.vendor_is_protocol() || vendor.len() == 0 {
            model
        } else {
            vendor + seq![' '] + model
        }
    }

    /// The long name: the maker and the model, and the technical name in
    /// brackets.
    pub open spec fn long_name(self) -> Seq<char> {
        let description = text::trimmed(self.vendor + seq![' '] + self.model);
        if description.len() == 0 {
            self.name + " ("@ + self.name + ")"@
        } else {
            description + " ("@ + self.name + ")"@
        }
    }
}

impl ScannerDevice {
    /// A compact name for people.
    pub fn display_name(&self) -> (r: String)
        ensures
            r@ == self@.short_name(),
    {
        let vendor_chars = text::characters(&self.vendor);
        let vendor = text::trim(&vendor_chars);
        let model_chars = text::characters(&self.model);
        let model = text::trim(&model_chars);
        if model.len() == 0 {
            return self.name.clone();
        }
        let small = text::to_lowercase(&vendor);
        if text::equals(&small, "escl") || text::equals(&small, "wsd") || text::equals(
            &small,
            "airscan",
        ) || vendor.len() == 0 {
            return text::text_of(&model);
        }
        let mut name = text::text_of(&vendor);
        name.push(' ');
        name.append(&text::text_of(&model));
        assert(name@ =~= vendor@ + seq![' '] + model@);
        name
    }

    /// A full name with the technical one.
    pub fn label(&self) -> (r: String)
        ensures
            r@ == self@.long_name(),
    {
        let mut both = self.vendor.clone();
        both.push(' ');
        both.append(&self.model);
        assert(both@ =~= self.vendor@ + seq![' '] + self.model@);
        let chars = text::characters(&both);
        let description = text::trim(&chars);
        let mut label = if description.len() == 0 {
            self.name.clone()
        } else {
            text::text_of(&description)
        };
        label.append(" (");
        label.append(&self.name);
        label.append(")");
        label
    }
}

/// The text at a position of a list, without white space at its ends; empty
/// where the list is shorter.
pub open spec fn field(parts: Seq<Seq<char>>, index: int) -> Seq<char> {
    if index < parts.len() {
        text::trimmed(parts[index])
    } else {
        Seq::empty()
    }
}

/// The device that a line of the device list stands for. Blank lines stand for
/// none, and video devices are left out.
pub open spec fn device_of(line: Seq<char>) -> Option<DeviceView> {
    let parts = text::split_at_each(line, '\t');
    if text::trimmed(line).len() == 0 || "v4l:"@.is_prefix_of(field(parts, 0)) {
        None
    } else {
        Some(
            DeviceView {
                name: field(parts, 0),
                vendor: field(parts, 1),
                model: field(parts, 2),
                kind: field(parts, 3),
            },
        )
    }
}

/// The devices that the lines of the device list stand for, in order.
pub open spec fn devices_of(lines: Seq<Seq<char>>) -> Seq<DeviceView>
    decreases lines.len(),
{
    if lines.len() == 0 {
        Seq::empty()
    } else {
        let before = devices_of(lines.drop_last());
        match device_of(lines.last()) {
            Some(device) => before.push(device),
            None => before,
        }
    }
}

/// The views of a list of devices.
pub open spec fn device_views(list: Seq<ScannerDevice>) -> Seq<DeviceView> {
    list.map_values(|d: ScannerDevice| d@)
}

/// The text at a position of a list of fields.
fn field_text(parts: &Vec<Vec<char>>, index: usize) -> (r: String)
    ensures
        r@ == field(text::views(parts@), index as int),
{
    if index < parts.len() {
        let trimmed = text::trim(&parts[index]);
        assert(text::views(parts@)[index as int] == parts@[index as int]@);
        text::text_of(&trimmed)
    } else {
        String::new()
    }
}

/// Reads one line of the device list.
fn parse_device(line: &Vec<char>) -> (r: Option<ScannerDevice>)
    ensures
        match r {
            Some(device) => device_of(line@) == Some(device@),
            None => device_of(line@) is None,
        },
{
    let bare = text::trim(line);
    if bare.len() == 0 {
        return None;
    }
    let parts = text::split(line, '\t');
    let name = field_text(&parts, 0);
    let name_chars = text::characters(&name);
    if text::starts_with(&name_chars, "v4l:") {
        return None;
    }
    Some(
        ScannerDevice {
            name,
            vendor: field_text(&parts, 1),
            model: field_text(&parts, 2),
            kind: field_text(&parts, 3),
        },
    )
}

/// Reads the tab-separated device list that the scan program prints. Video
/// devices are no flatbed scanners and are left out.
pub fn parse_devices(output: &str) -> (r: Vec<ScannerDevice>)
    ensures
        device_views(r@) == devices_of(text::lines_of(output@)),
{
    let chars = text::characters(output);
    let lines = text::lines(&chars);
    let mut devices: Vec<ScannerDevice> = Vec::new();
    let mut i: usize = 0;
    let ghost all = text::views(lines@);
    assert(all.take(0) =~= Seq::<Seq<char>>::empty());
    assert(device_views(devices@) =~= Seq::<DeviceView>::empty());
    while i < lines.len()
        invariant
            i <= lines.len(),
            all == text::views(lines@),
            device_views(devices@) == devices_of(all.take(i as int)),
        decreases lines.len() - i,
    {
        let ghost before = devices@;
        assert(all.take(i + 1).drop_last() =~= all.take(i as int));
        assert(all.take(i + 1).last() == lines@[i as int]@);
        if let Some(device) = parse_device(&lines[i]) {
            devices.push(device);
            assert(device_views(devices@) =~= device_views(before).push(device@));
        }
        i += 1;
    }
    assert(all.take(all.len() as int) =~= all);
    devices
}

/// A signal, shared by its clones, that ends scanner processes. It can be used
/// once: nothing takes it back.
#[derive(Debug)]
pub struct ScannerCancellation {
    cancelled: Arc<AtomicBool>,
}

impl Clone for ScannerCancellation {
    fn clone(&self) -> (r: Self)
        ensures
            r == *self,
    {
        ScannerCancellation { cancelled: self.cancelled.clone() }
    }
}

impl ScannerCancellation {
    /// A signal that has not been given. Other threads may give it at any time,
    /// so nothing is promised of a later look at it.
    pub fn new() -> Self {
        ScannerCancellation { cancelled: Arc::new(AtomicBool::new(false)) }
    }

    /// Gives the signal to all clones, for good.
    pub fn cancel(&self) {
        self.cancelled.store(true, Ordering::Release)
    }

    /// Whether the signal has been given. Other threads may give it at any time,
    /// so nothing is promised of the answer.
    pub fn is_cancelled(&self) -> bool {
        self.cancelled.load(Ordering::Acquire)
    }
}

impl Default for ScannerCancellation {
    fn default() -> Self {
        ScannerCancellation::new()
    }
}

/// What became of the attempt to run the scan program.
#[derive(Clone, Copy, Debug, PartialEq, Eq, Structural)]
pub enum Probe {
    /// It could not be started.
    NotStarted,
    /// It ended within the time limit.
    Exited,
    /// It was still running at the time limit.
    StillRunning,
    /// Waiting for it failed.
    WaitFailed,
}

/// Whether the scan program is there and can be run.
pub fn scanimage_available(probe: Probe) -> (r: bool)
    ensures
        r == (probe is Exited || probe is StillRunning),
{
    match probe {
        Probe::NotStarted => false,
        Probe::Exited => true,
        Probe::StillRunning => true,
        Probe::WaitFailed => false,
    }
}

/// Whether a process has to be ended after the attempt.
pub fn must_terminate(probe: Probe) -> (r: bool)
    ensures
        r == (probe is StillRunning || probe is WaitFailed),
{
    match probe {
        Probe::NotStarted => false,
        Probe::Exited => false,
        Probe::StillRunning => true,
        Probe::WaitFailed => true,
    }
}

/// What a look at a running process shows.
#[derive(Clone, Copy, Debug)]
pub struct Poll {
    /// Whether the process has ended, and if so, whether with success.
    pub exited: Option<bool>,
    /// Whether the cancellation signal has been given.
    pub cancelled: bool,
    /// The time since the start, in nanoseconds.
    pub elapsed: u128,
}

/// How the wait for a process ended.
#[derive(Debug)]
pub enum WaitResult {
    /// The process ended, with success or without.
    Exited(bool),
    /// The time limit passed, and the process was ended.
    TimedOut,
    /// The signal was given, and the process was ended.
    Cancelled,
    /// Waiting for the process, or ending it, failed.
    Failed(Failure),
}

/// A wait for a process.
#[derive(Debug)]
pub enum Watch {
    /// A look at the process comes next.
    Polling,
    /// A pause comes next.
    Pausing,
    /// The process has to be ended, because of the signal or the time limit.
    Stopping {
        /// Whether the signal was the reason.
        cancelled: bool,
    },
    /// The process has to be ended as far as possible, after this failure.
    Recovering(Failure),
    /// The wait is over.
    Ended(WaitResult),
}

/// What the program did for a wait.
#[derive(Debug)]
pub enum WatchEvent {
    /// It looked at the process.
    Polled(Result<Poll, Failure>),
    /// It paused.
    Paused,
    /// It ended the process and collected it, or failed to.
    Terminated(Result<(), Failure>),
}

impl Watch {
    /// Whether an event is the outcome of what the wait asked for.
    pub open spec fn expects(self, event: WatchEvent) -> bool {
        match self {
            Watch::Polling => event is Polled,
            Watch::Pausing => event is Paused,
            Watch::Stopping { cancelled } => event is Terminated,
            Watch::Recovering(_) => event is Terminated,
            Watch::Ended(_) => false,
        }
    }

    /// The wait after an event. A process that has ended counts as ended,
    /// whatever else holds; the signal comes before the time limit. Both lead
    /// to the end of the wait only once the process has been ended.
    pub open spec fn after(self, event: WatchEvent, timeout: u128) -> Watch {
        match event {
            WatchEvent::Polled(Ok(poll)) => if poll.exited is Some {
                Watch::Ended(WaitResult::Exited(poll.exited->0))
            } else if poll.cancelled {
                Watch::Stopping { cancelled: true }
            } else if poll.elapsed >= timeout {
                Watch::Stopping { cancelled: false }
            } else {
                Watch::Pausing
            },
            WatchEvent::Polled(Err(failure)) => Watch::Recovering(failure),
            WatchEvent::Paused => Watch::Polling,
            WatchEvent::Terminated(outcome) => match (self, outcome) {
                (Watch::Recovering(failure), _) => Watch::Ended(WaitResult::Failed(failure)),
                (Watch::Stopping { cancelled }, Ok(())) => if cancelled {
                    Watch::Ended(WaitResult::Cancelled)
                } else {
                    Watch::Ended(WaitResult::TimedOut)
                },
                (_, Err(failure)) => Watch::Recovering(failure),
                (_, Ok(())) => self,
            },
        }
    }

    /// Takes the outcome of what the wait asked for.
    pub fn advance(self, event: WatchEvent, timeout: u128) -> (r: Watch)
        requires
            self.expects(event),
        ensures
            r == self.after(event, timeout),
    {
        match event {
            WatchEvent::Polled(Ok(poll)) => match poll.exited {
                Some(success) => Watch::Ended(WaitResult::Exited(success)),
                None => if poll.cancelled {
                    Watch::Stopping { cancelled: true }
                } else if poll.elapsed >= timeout {
                    Watch::Stopping { cancelled: false }
                } else {
                    Watch::Pausing
                },
            },
            WatchEvent::Polled(Err(failure)) => Watch::Recovering(failure),
            WatchEvent::Paused => Watch::Polling,
            WatchEvent::Terminated(outcome) => match self {
                Watch::Recovering(failure) => Watch::Ended(WaitResult::Failed(failure)),
                Watch::Stopping { cancelled } => match outcome {
                    Ok(()) => if cancelled {
                        Watch::Ended(WaitResult::Cancelled)
                    } else {
                        Watch::Ended(WaitResult::TimedOut)
                    },
                    Err(failure) => Watch::Recovering(failure),
                },
                other => other,
            },
        }
    }
}

/// How long to pause before the next look: until the time limit, but no longer
/// than the poll interval.
pub fn pause(timeout: u128, elapsed: u128) -> (r: u64)
    ensures
        r as int == if elapsed >= timeout {
            0
        } else if timeout - elapsed <= POLL_INTERVAL {
            timeout - elapsed
        } else {
            POLL_INTERVAL as int
        },
{
    if elapsed >= timeout {
        0
    } else if timeout - elapsed <= POLL_INTERVAL as u128 {
        (timeout - elapsed) as u64
    } else {
        POLL_INTERVAL
    }
}

/// The wait after several events.
pub open spec fn watch_after(watch: Watch, events: Seq<WatchEvent>, timeout: u128) -> Watch
    decreases events.len(),
{
    if events.len() == 0 {
        watch
    } else {
        watch_after(watch, events.drop_last(), timeout).after(events.last(), timeout)
    }
}

/// Whether each of several events is what the wait asked for at its time.
pub open spec fn watch_accepts(watch: Watch, events: Seq<WatchEvent>, timeout: u128) -> bool
    decreases events.len(),
{
    events.len() == 0 || {
        &&& watch_accepts(watch, events.drop_last(), timeout)
        &&& watch_after(watch, events.drop_last(), timeout).expects(events.last())
    }
}

/// However a wait ends, the process is gone or was told to go: it was seen to
/// have ended, or it was ended and collected, or, where an operation failed, an
/// attempt to end it was the last thing done.
pub proof fn lemma_watch_leaves_no_process(events: Seq<WatchEvent>, timeout: u128)
    requires
        watch_accepts(Watch::Polling, events, timeout),
        watch_after(Watch::Polling, events, timeout) is Ended,
    ensures
        events.len() > 0,
        match watch_after(Watch::Polling, events, timeout)->Ended_0 {
            WaitResult::Exited(success) => events.last() matches WatchEvent::Polled(Ok(poll))
                && poll.exited == Some(success),
            WaitResult::TimedOut => events.last() matches WatchEvent::Terminated(Ok(_)),
            WaitResult::Cancelled => events.last() matches WatchEvent::Terminated(Ok(_)),
            WaitResult::Failed(_) => events.last() is Terminated,
        },
{
}

/// A wait ends for the time limit or the signal only if a look at the process
/// showed that the limit had passed, or the signal been given, while it ran.
pub proof fn lemma_watch_stops_for_a_reason(events: Seq<WatchEvent>, timeout: u128)
    requires
        watch_accepts(Watch::Polling, events, timeout),
    ensures
        watch_after(Watch::Polling, events, timeout) matches Watch::Stopping { cancelled } ==> {
            &&& events.last() matches WatchEvent::Polled(Ok(poll))
            &&& poll.exited is None
            &&& if cancelled { poll.cancelled } else { poll.elapsed >= timeout }
        },
        watch_after(Watch::Polling, events, timeout) == Watch::Ended(WaitResult::TimedOut) ==> {
            &&& events.len() >= 2
            &&& events[events.len() - 2] matches WatchEvent::Polled(Ok(poll))
            &&& poll.exited is None
            &&& poll.elapsed >= timeout
            &&& !poll.cancelled
        },
        watch_after(Watch::Polling, events, timeout) == Watch::Ended(WaitResult::Cancelled) ==> {
            &&& events.len() >= 2
            &&& events[events.len() - 2] matches WatchEvent::Polled(Ok(poll))
            &&& poll.exited is None
            &&& poll.cancelled
        },
    decreases events.len(),
{
    if events.len() > 0 {
        lemma_watch_stops_for_a_reason(events.drop_last(), timeout);
    }
}

/// What is kept of the output so far and one more piece of it, up to a limit.
pub open spec fn capped(captured: Seq<u8>, piece: Seq<u8>, limit: nat) -> Seq<u8> {
    if captured.len() >= limit {
        captured
    } else if captured.len() + piece.len() <= limit {
        captured + piece
    } else {
        captured + piece.take(limit - captured.len())
    }
}

/// Keeps one more piece of the output, up to a limit. The rest of it is read
/// and dropped, so that the process never waits for a full pipe.
pub fn drain_capped(captured: &mut Vec<u8>, piece: &[u8], limit: usize)
    ensures
        final(captured)@ == capped(old(captured)@, piece@, limit as nat),
{
    let ghost before = captured@;
    let room: usize = if captured.len() >= limit {
        0
    } else {
        limit - captured.len()
    };
    let count: usize = if piece.len() < room {
        piece.len()
    } else {
        room
    };
    let mut i: usize = 0;
    assert(before + piece@.take(0) =~= before);
    while i < count
        invariant
            i <= count <= piece.len(),
            captured@ == before + piece@.take(i as int),
        decreases count - i,
    {
        assert(before + piece@.take(i + 1) =~= (before + piece@.take(i as int)).push(
            piece@[i as int],
        ));
        captured.push(piece[i]);
        i += 1;
    }
    assert(piece@.take(piece@.len() as int) =~= piece@);
}

/// What is kept of several pieces of output.
pub open spec fn capped_all(pieces: Seq<Seq<u8>>, limit: nat) -> Seq<u8>
    decreases pieces.len(),
{
    if pieces.len() == 0 {
        Seq::empty()
    } else {
        capped(capped_all(pieces.drop_last(), limit), pieces.last(), limit)
    }
}

/// However the output comes in pieces, what is kept is its beginning, as much
/// of it as the limit allows.
pub proof fn lemma_capture_keeps_the_beginning(pieces: Seq<Seq<u8>>, limit: nat)
    ensures
        capped_all(pieces, limit) == if pieces.flatten().len() <= limit {
            pieces.flatten()
        } else {
            pieces.flatten().take(limit as int)
        },
    decreases pieces.len(),
{
    if pieces.len() == 0 {
        assert(pieces.flatten() =~= Seq::<u8>::empty());
    } else {
        let rest = pieces.drop_last();
        lemma_capture_keeps_the_beginning(rest, limit);
        assert(pieces =~= rest.push(pieces.last()));
        rest.lemma_flatten_push(pieces.last());
        assert(pieces.flatten() == rest.flatten() + pieces.last());
        let whole = rest.flatten() + pieces.last();
        if rest.flatten().len() > limit {
            assert(whole.take(limit as int) =~= rest.flatten().take(limit as int));
        } else if whole.len() > limit {
            assert(whole.take(limit as int) =~= rest.flatten() + pieces.last().take(
                limit - rest.flatten().len(),
            ));
        }
    }
}

/// What a process is said to have failed with: its error output without white
/// space at the ends, or the given words where there is none.
pub open spec fn reported(stderr: Seq<u8>, fallback: Seq<char>) -> Seq<char> {
    let detail = text::trimmed(text::lossy_text(stderr));
    if detail.len() == 0 {
        fallback
    } else {
        detail
    }
}

/// What a process failed with, in words.
pub fn failure_detail(stderr: &[u8], fallback: &str) -> (r: String)
    ensures
        r@ == reported(stderr@, fallback@),
{
    let decoded = text::decode_lossy(stderr);
    let chars = text::characters(&decoded);
    let detail = text::trim(&chars);
    if detail.len() == 0 {
        fallback.to_string()
    } else {
        text::text_of(&detail)
    }
}

/// The error for a program that could not be started.
pub open spec fn is_start_error(failure: Failure, error: ScannerError) -> bool {
    if failure.kind is NotFound {
        error is ScanimageMissing
    } else {
        error == ScannerError::Process(failure.message)
    }
}

/// The error for a program that could not be started.
pub fn spawn_error(failure: Failure) -> (r: ScannerError)
    ensures
        is_start_error(failure, r),
{
    match failure.kind {
        FailureKind::NotFound => ScannerError::ScanimageMissing,
        FailureKind::AlreadyExists => ScannerError::Process(failure.message),
        FailureKind::Other => ScannerError::Process(failure.message),
    }
}

/// What was kept of the output of a process.
#[derive(Debug)]
pub struct Captured {
    /// The output.
    pub stdout: Vec<u8>,
    /// The error output.
    pub stderr: Vec<u8>,
}

/// How far a search for devices has come.
#[derive(Debug)]
pub enum QueryStage {
    /// The program has to be started.
    Starting,
    /// The program runs.
    Watching(Watch),
    /// The output has to be collected, after the wait ended like this.
    Collecting(WaitResult),
    /// The search is over.
    Finished(Result<Vec<ScannerDevice>, ScannerError>),
}

/// What the program did for a search.
#[derive(Debug)]
pub enum QueryEvent {
    /// It started the scan program, or failed to.
    Started(Result<(), Failure>),
    /// It did something for the wait.
    Watched(WatchEvent),
    /// It collected the output, or failed to.
    Collected(Result<Captured, Failure>),
}

/// What a search asks for.
#[derive(Debug)]
pub enum QueryAction {
    /// Start the scan program with these arguments, without input, and with
    /// both outputs captured up to their limits.
    Start(Vec<String>),
    /// Look at the process.
    Poll,
    /// Pause.
    Pause,
    /// End the process, unless it has ended, and collect it.
    Terminate,
    /// Collect the output.
    Collect,
    /// Take the result.
    Finish,
}

/// A search for devices.
#[derive(Debug)]
pub struct DeviceQuery {
    /// The time limit, in nanoseconds.
    pub timeout: u128,
    /// How far it has come.
    pub stage: QueryStage,
}

/// The outcome of a search whose wait ended like this, with this output.
pub open spec fn is_query_result(
    wait: WaitResult,
    captured: Captured,
    result: Result<Vec<ScannerDevice>, ScannerError>,
) -> bool {
    match wait {
        WaitResult::Failed(failure) => result == Err::<Vec<ScannerDevice>, ScannerError>(
            ScannerError::Process(failure.message),
        ),
        WaitResult::TimedOut => result matches Err(error) && error is DeviceTimeout,
        WaitResult::Cancelled => result matches Err(error) && error is Cancelled,
        WaitResult::Exited(false) => {
            &&& result matches Err(ScannerError::DeviceQuery(detail))
            &&& detail@ == reported(captured.stderr@, "unbekannter SANE-Fehler"@)
        },
        WaitResult::Exited(true) => {
            &&& result matches Ok(devices)
            &&& device_views(devices@) == devices_of(
                text::lines_of(text::lossy_text(captured.stdout@)),
            )
        },
    }
}

/// The outcome of a search whose wait ended like this, with this output.
pub fn query_result(wait: WaitResult, captured: Captured) -> (r: Result<
    Vec<ScannerDevice>,
    ScannerError,
>)
    ensures
        is_query_result(wait, captured, r),
{
    match wait {
        WaitResult::Failed(failure) => Err(ScannerError::Process(failure.message)),
        WaitResult::TimedOut => Err(ScannerError::DeviceTimeout),
        WaitResult::Cancelled => Err(ScannerError::Cancelled),
        WaitResult::Exited(success) => if success {
            let output = text::decode_lossy(&captured.stdout);
            Ok(parse_devices(&output))
        } else {
            Err(
                ScannerError::DeviceQuery(
                    failure_detail(&captured.stderr, "unbekannter SANE-Fehler"),
                ),
            )
        },
    }
}

/// The arguments for a search: one line per device, its fields separated by
/// tabs.
pub open spec fn query_arguments() -> Seq<Seq<char>> {
    seq!["-f"@, "%d\t%v\t%m\t%t%n"@]
}

impl DeviceQuery {
    /// Whether an event is the outcome of what the search asked for.
    pub open spec fn expects(self, event: QueryEvent) -> bool {
        match (self.stage, event) {
            (QueryStage::Starting, QueryEvent::Started(_)) => true,
            (QueryStage::Watching(watch), QueryEvent::Watched(event)) => watch.expects(event),
            (QueryStage::Collecting(_), QueryEvent::Collected(_)) => true,
            _ => false,
        }
    }

    /// Whether `next` is the search after an event that it expects.
    pub open spec fn follows(self, event: QueryEvent, next: DeviceQuery) -> bool {
        &&& next.timeout == self.timeout
        &&& match (self.stage, event) {
            (QueryStage::Starting, QueryEvent::Started(Ok(_))) => next.stage
                == QueryStage::Watching(Watch::Polling),
            (QueryStage::Starting, QueryEvent::Started(Err(failure))) => {
                &&& next.stage matches QueryStage::Finished(Err(error))
                &&& is_start_error(failure, error)
            },
            (QueryStage::Watching(watch), QueryEvent::Watched(event)) => match watch.after(
                event,
                self.timeout,
            ) {
                Watch::Ended(wait) => next.stage == QueryStage::Collecting(wait),
                later => next.stage == QueryStage::Watching(later),
            },
            (QueryStage::Collecting(_), QueryEvent::Collected(Err(failure))) => next.stage
                == QueryStage::Finished(Err(ScannerError::Process(failure.message))),
            (QueryStage::Collecting(wait), QueryEvent::Collected(Ok(captured))) => {
                &&& next.stage matches QueryStage::Finished(result)
                &&& is_query_result(wait, captured, result)
            },
            _ => false,
        }
    }

    /// Takes the outcome of what the search asked for.
    pub fn advance(self, event: QueryEvent) -> (r: DeviceQuery)
        requires
            self.expects(event),
        ensures
            self.follows(event, r),
    {
        let timeout: u128 = self.timeout;
        let stage = match event {
            QueryEvent::Started(Ok(())) => QueryStage::Watching(Watch::Polling),
            QueryEvent::Started(Err(failure)) => QueryStage::Finished(Err(spawn_error(failure))),
            QueryEvent::Watched(event) => match self.stage {
                QueryStage::Watching(watch) => match watch.advance(event, timeout) {
                    Watch::Ended(wait) => QueryStage::Collecting(wait),
                    later => QueryStage::Watching(later),
                },
                other => other,
            },
            QueryEvent::Collected(Err(failure)) => QueryStage::Finished(
                Err(ScannerError::Process(failure.message)),
            ),
            QueryEvent::Collected(Ok(captured)) => match self.stage {
                QueryStage::Collecting(wait) => QueryStage::Finished(query_result(wait, captured)),
                other => other,
            },
        };
        DeviceQuery { timeout, stage }
    }

    /// Whether an action is what the search asks for at this stage.
    pub open spec fn asks_for(self, action: QueryAction) -> bool {
        match self.stage {
            QueryStage::Starting => {
                &&& action matches QueryAction::Start(arguments)
                &&& text::string_views(arguments@) == query_arguments()
            },
            QueryStage::Watching(Watch::Polling) => action is Poll,
            QueryStage::Watching(Watch::Pausing) => action is Pause,
            QueryStage::Watching(Watch::Stopping { cancelled }) => action is Terminate,
            QueryStage::Watching(Watch::Recovering(_)) => action is Terminate,
            QueryStage::Watching(Watch::Ended(_)) => action is Collect,
            QueryStage::Collecting(_) => action is Collect,
            QueryStage::Finished(_) => action is Finish,
        }
    }

    /// What comes next.
    pub fn action(&self) -> (r: QueryAction)
        ensures
            self.asks_for(r),
    {
        match &self.stage {
            QueryStage::Starting => {
                let mut arguments: Vec<String> = Vec::new();
                arguments.push("-f".to_string());
                arguments.push("%d\t%v\t%m\t%t%n".to_string());
                assert(text::string_views(arguments@) =~= query_arguments());
                QueryAction::Start(arguments)
            },
            QueryStage::Watching(watch) => match watch {
                Watch::Polling => QueryAction::Poll,
                Watch::Pausing => QueryAction::Pause,
                Watch::Stopping { cancelled: _ } => QueryAction::Terminate,
                Watch::Recovering(_) => QueryAction::Terminate,
                Watch::Ended(_) => QueryAction::Collect,
            },
            QueryStage::Collecting(_) => QueryAction::Collect,
            QueryStage::Finished(_) => QueryAction::Finish,
        }
    }
}

/// A search for devices with a time limit in nanoseconds.
pub fn list_devices(timeout: u128) -> (r: DeviceQuery)
    ensures
        r == (DeviceQuery { timeout, stage: QueryStage::Starting }),
{
    DeviceQuery { timeout, stage: QueryStage::Starting }
}

/// A search that a signal can end: where the signal has been given already,
/// nothing is started.
pub fn begin_device_query(cancelled: bool, timeout: u128) -> (r: Result<DeviceQuery, ScannerError>)
    ensures
        match r {
            Ok(query) => !cancelled && query == (DeviceQuery {
                timeout,
                stage: QueryStage::Starting,
            }),
            Err(error) => cancelled && error is Cancelled,
        },
{
    if cancelled {
        return Err(ScannerError::Cancelled);
    }
    Ok(list_devices(timeout))
}

/// A search that the signal ends. What the signal shows is up to other
/// threads.
pub fn list_devices_cancellable(timeout: u128, cancellation: &ScannerCancellation) -> (r: Result<
    DeviceQuery,
    ScannerError,
>)
    ensures
        match r {
            Ok(query) => query == (DeviceQuery { timeout, stage: QueryStage::Starting }),
            Err(error) => error is Cancelled,
        },
{
    begin_device_query(cancellation.is_cancelled(), timeout)
}

/// How far a scan has come.
#[derive(Debug)]
pub enum ScanStage {
    /// The directory of the destination has to exist.
    Preparing,
    /// A temporary file has to be made in that directory.
    Creating,
    /// The temporary file has to be opened for the process's output.
    Opening,
    /// The program has to be started.
    Starting,
    /// The program runs.
    Watching(Watch),
    /// The error output has to be collected, after the wait ended like this.
    Collecting(WaitResult),
    /// The size of the temporary file has to be looked up.
    Measuring,
    /// The temporary file has to be written through to the disk.
    Syncing,
    /// The temporary file has to become the destination.
    Publishing,
    /// The temporary file has to be removed, because of this error.
    Discarding(ScannerError),
    /// The scan is over; where it succeeded, with the destination.
    Finished(Result<String, ScannerError>),
}

/// What the program did for a scan.
#[derive(Debug)]
pub enum ScanEvent {
    /// It made sure that the directory exists, or failed to.
    Prepared(Result<(), Failure>),
    /// It made the temporary file, or failed to.
    Created(Result<(), Failure>),
    /// It opened the temporary file, or failed to.
    Opened(Result<(), Failure>),
    /// It started the scan program, or failed to.
    Started(Result<(), Failure>),
    /// It did something for the wait.
    Watched(WatchEvent),
    /// It collected the error output, or failed to.
    Collected(Result<Vec<u8>, Failure>),
    /// It found the size of the temporary file, or failed to.
    Measured(Result<u64, Failure>),
    /// It wrote the temporary file through, or failed to.
    Synced(Result<(), Failure>),
    /// It renamed the temporary file to the destination without replacing
    /// anything, or failed to.
    Published(Result<(), Failure>),
    /// It removed the temporary file.
    Discarded,
}

/// What a scan asks for.
#[derive(Debug)]
pub enum ScanAction {
    /// Make this directory, and those above it, where they are missing.
    Prepare(String),
    /// Make a temporary file in this directory.
    Create(String),
    /// Open the temporary file for the process's output.
    Open,
    /// Start the scan program with these arguments, without input, with the
    /// output into the temporary file and the error output captured.
    Start(Vec<String>),
    /// Look at the process.
    Poll,
    /// Pause.
    Pause,
    /// End the process, unless it has ended, and collect it.
    Terminate,
    /// Collect the error output.
    Collect,
    /// Find the size of the temporary file.
    Measure,
    /// Write the temporary file through to the disk.
    Sync,
    /// Rename the temporary file to this destination, but replace nothing.
    Publish(String),
    /// Remove the temporary file.
    Discard,
    /// Take the result.
    Finish,
}

/// A scan into a new file.
#[derive(Debug)]
pub struct ScanRun {
    /// The file to make.
    pub destination: String,
    /// The directory that the file is to be in.
    pub directory: String,
    /// The device, or none for the first that is found.
    pub device: Option<String>,
    /// The resolution.
    pub dpi: u32,
    /// The time limit, in nanoseconds.
    pub timeout: u128,
    /// How far it has come.
    pub stage: ScanStage,
}

/// The arguments for a scan in colour.
pub open spec fn scan_arguments(device: Option<Seq<char>>, dpi: u32) -> Seq<Seq<char>> {
    let chosen = match device {
        Some(name) => seq!["--device-name"@, name],
        None => Seq::empty(),
    };
    chosen + seq![
        "--mode"@,
        "Color"@,
        "--resolution"@,
        text::decimal(dpi as nat),
        "--format"@,
        "png"@,
        "--progress"@,
    ]
}

/// Where a scan goes on after the wait ended and the error output has been
/// collected.
pub open spec fn is_scan_verdict(wait: WaitResult, stderr: Seq<u8>, next: ScanStage) -> bool {
    match wait {
        WaitResult::Failed(failure) => next == ScanStage::Discarding(
            ScannerError::Process(failure.message),
        ),
        WaitResult::TimedOut => next == ScanStage::Discarding(ScannerError::ScanTimeout),
        WaitResult::Cancelled => next == ScanStage::Discarding(ScannerError::Cancelled),
        WaitResult::Exited(false) => {
            &&& next matches ScanStage::Discarding(ScannerError::ScanFailed(detail))
            &&& detail@ == reported(stderr, "unbekannter Fehler"@)
        },
        WaitResult::Exited(true) => next is Measuring,
    }
}

/// Where a scan goes on after the wait.
pub fn scan_verdict(wait: WaitResult, stderr: &[u8]) -> (r: ScanStage)
    ensures
        is_scan_verdict(wait, stderr@, r),
{
    match wait {
        WaitResult::Failed(failure) => ScanStage::Discarding(
            ScannerError::Process(failure.message),
        ),
        WaitResult::TimedOut => ScanStage::Discarding(ScannerError::ScanTimeout),
        WaitResult::Cancelled => ScanStage::Discarding(ScannerError::Cancelled),
        WaitResult::Exited(success) => if success {
            ScanStage::Measuring
        } else {
            ScanStage::Discarding(
                ScannerError::ScanFailed(failure_detail(stderr, "unbekannter Fehler")),
            )
        },
    }
}

impl ScanRun {
    /// Whether an event is the outcome of what the scan asked for.
    pub open spec fn expects(self, event: ScanEvent) -> bool {
        match (self.stage, event) {
            (ScanStage::Preparing, ScanEvent::Prepared(_)) => true,
            (ScanStage::Creating, ScanEvent::Created(_)) => true,
            (ScanStage::Opening, ScanEvent::Opened(_)) => true,
            (ScanStage::Starting, ScanEvent::Started(_)) => true,
            (ScanStage::Watching(watch), ScanEvent::Watched(event)) => watch.expects(event),
            (ScanStage::Collecting(_), ScanEvent::Collected(_)) => true,
            (ScanStage::Measuring, ScanEvent::Measured(_)) => true,
            (ScanStage::Syncing, ScanEvent::Synced(_)) => true,
            (ScanStage::Publishing, ScanEvent::Published(_)) => true,
            (ScanStage::Discarding(_), ScanEvent::Discarded) => true,
            _ => false,
        }
    }

    /// Whether two scans have the same job.
    pub open spec fn same_job(self, other: ScanRun) -> bool {
        &&& other.destination@ == self.destination@
        &&& other.directory@ == self.directory@
        &&& text::optional_view(other.device) == text::optional_view(self.device)
        &&& other.dpi == self.dpi
        &&& other.timeout == self.timeout
    }

    /// Whether `next` is where the scan stands after an event that it expects.
    /// Every failure once the temporary file is there leads to its removal.
    pub open spec fn stage_follows(self, event: ScanEvent, next: ScanStage) -> bool {
        match (self.stage, event) {
            (ScanStage::Preparing, ScanEvent::Prepared(Ok(_))) => next is Creating,
            (ScanStage::Preparing, ScanEvent::Prepared(Err(failure))) => next
                == ScanStage::Finished(Err(ScannerError::Process(failure.message))),
            (ScanStage::Creating, ScanEvent::Created(Ok(_))) => next is Opening,
            (ScanStage::Creating, ScanEvent::Created(Err(failure))) => next == ScanStage::Finished(
                Err(ScannerError::Process(failure.message)),
            ),
            (ScanStage::Opening, ScanEvent::Opened(Ok(_))) => next is Starting,
            (ScanStage::Opening, ScanEvent::Opened(Err(failure))) => next == ScanStage::Discarding(
                ScannerError::Process(failure.message),
            ),
            (ScanStage::Starting, ScanEvent::Started(Ok(_))) => next == ScanStage::Watching(
                Watch::Polling,
            ),
            (ScanStage::Starting, ScanEvent::Started(Err(failure))) => {
                &&& next matches ScanStage::Discarding(error)
                &&& is_start_error(failure, error)
            },
            (ScanStage::Watching(watch), ScanEvent::Watched(event)) => match watch.after(
                event,
                self.timeout,
            ) {
                Watch::Ended(wait) => next == ScanStage::Collecting(wait),
                later => next == ScanStage::Watching(later),
            },
            (ScanStage::Collecting(_), ScanEvent::Collected(Err(failure))) => next
                == ScanStage::Discarding(ScannerError::Process(failure.message)),
            (ScanStage::Collecting(wait), ScanEvent::Collected(Ok(stderr))) => is_scan_verdict(
                wait,
                stderr@,
                next,
            ),
            (ScanStage::Measuring, ScanEvent::Measured(Ok(size))) => if size == 0 {
                next == ScanStage::Discarding(ScannerError::EmptyScan)
            } else {
                next is Syncing
            },
            (ScanStage::Measuring, ScanEvent::Measured(Err(failure))) => next
                == ScanStage::Discarding(ScannerError::Process(failure.message)),
            (ScanStage::Syncing, ScanEvent::Synced(Ok(_))) => next is Publishing,
            (ScanStage::Syncing, ScanEvent::Synced(Err(failure))) => next == ScanStage::Discarding(
                ScannerError::Process(failure.message),
            ),
            (ScanStage::Publishing, ScanEvent::Published(Ok(_))) => {
                &&& next matches ScanStage::Finished(Ok(path))
                &&& path@ == self.destination@
            },
            (ScanStage::Publishing, ScanEvent::Published(Err(failure))) => {
                if failure.kind is AlreadyExists {
                    &&& next matches ScanStage::Discarding(ScannerError::DestinationExists(path))
                    &&& path@ == self.destination@
                } else {
                    next == ScanStage::Discarding(ScannerError::Process(failure.message))
                }
            },
            (ScanStage::Discarding(error), ScanEvent::Discarded) => next == ScanStage::Finished(
                Err(error),
            ),
            _ => false,
        }
    }

    /// Whether `next` is the scan after an event that it expects.
    pub open spec fn follows(self, event: ScanEvent, next: ScanRun) -> bool {
        self.same_job(next) && self.stage_follows(event, next.stage)
    }

    /// Takes the outcome of what the scan asked for.
    pub fn advance(self, event: ScanEvent) -> (r: ScanRun)
        requires
            self.expects(event),
        ensures
            self.follows(event, r),
    {
        let ScanRun { destination, directory, device, dpi, timeout, stage } = self;
        let stage = match event {
            ScanEvent::Prepared(Ok(())) => ScanStage::Creating,
            ScanEvent::Prepared(Err(failure)) => ScanStage::Finished(
                Err(ScannerError::Process(failure.message)),
            ),
            ScanEvent::Created(Ok(())) => ScanStage::Opening,
            ScanEvent::Created(Err(failure)) => ScanStage::Finished(
                Err(ScannerError::Process(failure.message)),
            ),
            ScanEvent::Opened(Ok(())) => ScanStage::Starting,
            ScanEvent::Opened(Err(failure)) => ScanStage::Discarding(
                ScannerError::Process(failure.message),
            ),
            ScanEvent::Started(Ok(())) => ScanStage::Watching(Watch::Polling),
            ScanEvent::Started(Err(failure)) => ScanStage::Discarding(spawn_error(failure)),
            ScanEvent::Watched(event) => match stage {
                ScanStage::Watching(watch) => match watch.advance(event, timeout) {
                    Watch::Ended(wait) => ScanStage::Collecting(wait),
                    later => ScanStage::Watching(later),
                },
                other => other,
            },
            ScanEvent::Collected(Err(failure)) => ScanStage::Discarding(
                ScannerError::Process(failure.message),
            ),
            ScanEvent::Collected(Ok(stderr)) => match stage {
                ScanStage::Collecting(wait) => scan_verdict(wait, &stderr),
                other => other,
            },
            ScanEvent::Measured(Ok(size)) => if size == 0 {
                ScanStage::Discarding(ScannerError::EmptyScan)
            } else {
                ScanStage::Syncing
            },
            ScanEvent::Measured(Err(failure)) => ScanStage::Discarding(
                ScannerError::Process(failure.message),
            ),
            ScanEvent::Synced(Ok(())) => ScanStage::Publishing,
            ScanEvent::Synced(Err(failure)) => ScanStage::Discarding(
                ScannerError::Process(failure.message),
            ),
            ScanEvent::Published(Ok(())) => ScanStage::Finished(Ok(destination.clone())),
            ScanEvent::Published(Err(failure)) => match failure.kind {
                FailureKind::AlreadyExists => ScanStage::Discarding(
                    ScannerError::DestinationExists(destination.clone()),
                ),
                FailureKind::NotFound => ScanStage::Discarding(
                    ScannerError::Process(failure.message),
                ),
                FailureKind::Other => ScanStage::Discarding(
                    ScannerError::Process(failure.message),
                ),
            },
            ScanEvent::Discarded => match stage {
                ScanStage::Discarding(error) => ScanStage::Finished(Err(error)),
                other => other,
            },
        };
        ScanRun { destination, directory, device, dpi, timeout, stage }
    }

    /// Whether an action is what the scan asks for at this stage.
    pub open spec fn asks_for(self, action: ScanAction) -> bool {
        match self.stage {
            ScanStage::Preparing => action matches ScanAction::Prepare(directory) && directory@
                == self.directory@,
            ScanStage::Creating => action matches ScanAction::Create(directory) && directory@
                == self.directory@,
            ScanStage::Opening => action is Open,
            ScanStage::Starting => {
                &&& action matches ScanAction::Start(arguments)
                &&& text::string_views(arguments@) == scan_arguments(
                    text::optional_view(self.device),
                    self.dpi,
                )
            },
            ScanStage::Watching(Watch::Polling) => action is Poll,
            ScanStage::Watching(Watch::Pausing) => action is Pause,
            ScanStage::Watching(Watch::Stopping { cancelled }) => action is Terminate,
            ScanStage::Watching(Watch::Recovering(_)) => action is Terminate,
            ScanStage::Watching(Watch::Ended(_)) => action is Collect,
            ScanStage::Collecting(_) => action is Collect,
            ScanStage::Measuring => action is Measure,
            ScanStage::Syncing => action is Sync,
            ScanStage::Publishing => action matches ScanAction::Publish(destination)
                && destination@ == self.destination@,
            ScanStage::Discarding(_) => action is Discard,
            ScanStage::Finished(_) => action is Finish,
        }
    }

    /// What comes next.
    pub fn action(&self) -> (r: ScanAction)
        ensures
            self.asks_for(r),
    {
        match &self.stage {
            ScanStage::Preparing => ScanAction::Prepare(self.directory.clone()),
            ScanStage::Creating => ScanAction::Create(self.directory.clone()),
            ScanStage::Opening => ScanAction::Open,
            ScanStage::Starting => {
                let mut arguments: Vec<String> = Vec::new();
                if let Some(device) = &self.device {
                    arguments.push("--device-name".to_string());
                    arguments.push(device.clone());
                }
                let ghost chosen = text::string_views(arguments@);
                arguments.push("--mode".to_string());
                arguments.push("Color".to_string());
                arguments.push("--resolution".to_string());
                arguments.push(text::text_of(&text::to_decimal(self.dpi as u64)));
                arguments.push("--format".to_string());
                arguments.push("png".to_string());
                arguments.push("--progress".to_string());
                assert(text::string_views(arguments@) =~= scan_arguments(
                    text::optional_view(self.device),
                    self.dpi,
                ));
                ScanAction::Start(arguments)
            },
            ScanStage::Watching(watch) => match watch {
                Watch::Polling => ScanAction::Poll,
                Watch::Pausing => ScanAction::Pause,
                Watch::Stopping { cancelled: _ } => ScanAction::Terminate,
                Watch::Recovering(_) => ScanAction::Terminate,
                Watch::Ended(_) => ScanAction::Collect,
            },
            ScanStage::Collecting(_) => ScanAction::Collect,
            ScanStage::Measuring => ScanAction::Measure,
            ScanStage::Syncing => ScanAction::Sync,
            ScanStage::Publishing => ScanAction::Publish(self.destination.clone()),
            ScanStage::Discarding(_) => ScanAction::Discard,
            ScanStage::Finished(_) => ScanAction::Finish,
        }
    }
}

/// The directory for a file: the given one, or the current directory where it
/// is missing or empty.
pub open spec fn directory_for(parent: Option<Seq<char>>) -> Seq<char> {
    match parent {
        Some(path) => if path.len() > 0 {
            path
        } else {
            "."@
        },
        None => "."@,
    }
}

/// Whether a run is the start of the given scan.
pub open spec fn is_fresh_scan(
    run: ScanRun,
    destination: Seq<char>,
    parent: Option<Seq<char>>,
    device: Option<Seq<char>>,
    dpi: u32,
    timeout: u128,
) -> bool {
    &&& run.destination@ == destination
    &&& run.directory@ == directory_for(parent)
    &&& text::optional_view(run.device) == device
    &&& run.dpi == dpi
    &&& run.timeout == timeout
    &&& run.stage is Preparing
}

/// A scan that a signal can end: where the signal has been given already, or
/// the resolution is out of range, nothing is started.
pub fn begin_scan(
    cancelled: bool,
    destination: &str,
    parent: Option<&str>,
    device: Option<&str>,
    dpi: u32,
    timeout: u128,
) -> (r: Result<ScanRun, ScannerError>)
    ensures
        match r {
            Ok(run) => !cancelled && MIN_DPI <= dpi <= MAX_DPI && is_fresh_scan(
                run,
                destination@,
                text::borrowed_view(parent),
                text::borrowed_view(device),
                dpi,
                timeout,
            ),
            Err(ScannerError::Cancelled) => cancelled,
            Err(ScannerError::InvalidDpi) => !cancelled && !(MIN_DPI <= dpi <= MAX_DPI),
            Err(_) => false,
        },
{
    if cancelled {
        return Err(ScannerError::Cancelled);
    }
    if dpi < MIN_DPI || dpi > MAX_DPI {
        return Err(ScannerError::InvalidDpi);
    }
    let directory = match parent {
        Some(path) => if text::characters(path).len() > 0 {
            path.to_string()
        } else {
            ".".to_string()
        },
        None => ".".to_string(),
    };
    let device = match device {
        Some(name) => Some(name.to_string()),
        None => None,
    };
    Ok(
        ScanRun {
            destination: destination.to_string(),
            directory,
            device,
            dpi,
            timeout,
            stage: ScanStage::Preparing,
        },
    )
}

/// A scan into a new file that nothing can cancel. `parent` is the directory
/// part of the destination.
pub fn scan_to_file(
    destination: &str,
    parent: Option<&str>,
    device: Option<&str>,
    dpi: u32,
    timeout: u128,
) -> (r: Result<ScanRun, ScannerError>)
    ensures
        match r {
            Ok(run) => MIN_DPI <= dpi <= MAX_DPI && is_fresh_scan(
                run,
                destination@,
                text::borrowed_view(parent),
                text::borrowed_view(device),
                dpi,
                timeout,
            ),
            Err(error) => error is InvalidDpi && !(MIN_DPI <= dpi <= MAX_DPI),
        },
{
    begin_scan(false, destination, parent, device, dpi, timeout)
}

/// A scan into a new file that the signal ends. What the signal shows is up to
/// other threads; a resolution that is in range is not refused.
pub fn scan_to_file_cancellable(
    destination: &str,
    parent: Option<&str>,
    device: Option<&str>,
    dpi: u32,
    timeout: u128,
    cancellation: &ScannerCancellation,
) -> (r: Result<ScanRun, ScannerError>)
    ensures
        match r {
            Ok(run) => MIN_DPI <= dpi <= MAX_DPI && is_fresh_scan(
                run,
                destination@,
                text::borrowed_view(parent),
                text::borrowed_view(device),
                dpi,
                timeout,
            ),
            Err(ScannerError::Cancelled) => true,
            Err(ScannerError::InvalidDpi) => !(MIN_DPI <= dpi <= MAX_DPI),
            Err(_) => false,
        },
{
    begin_scan(cancellation.is_cancelled(), destination, parent, device, dpi, timeout)
}

/// Whether `states` are the states of a scan through `events`, from its start.
pub open spec fn is_scan_history(states: Seq<ScanRun>, events: Seq<ScanEvent>) -> bool {
    &&& states.len() == events.len() + 1
    &&& states[0].stage is Preparing
    &&& forall|i: int|
        0 <= i < events.len() ==> #[trigger] states[i].follows(events[i], states[i + 1])
}

proof fn lemma_scan_step(states: Seq<ScanRun>, events: Seq<ScanEvent>, i: int)
    requires
        is_scan_history(states, events),
        0 < i < states.len(),
    ensures
        states[i - 1].follows(events[i - 1], states[i]),
        !(states[i].stage is Preparing),
{
    assert(states[i - 1].follows(events[i - 1], states[i - 1 + 1]));
}

/// A scan that succeeds gives the destination it was asked for, and its last
/// operations were these: the process ended with success, the file was found
/// not to be empty, was written through, and took the destination's name
/// without replacing anything.
pub proof fn lemma_scan_publishes_complete_files(states: Seq<ScanRun>, events: Seq<ScanEvent>)
    requires
        is_scan_history(states, events),
        states.last().stage matches ScanStage::Finished(result) && result is Ok,
    ensures
        states.last().stage matches ScanStage::Finished(Ok(path)) && path@
            == states.last().destination@,
        events.len() >= 4,
        states[events.len() - 4].stage matches ScanStage::Collecting(WaitResult::Exited(success))
            && success,
        events[events.len() - 3] matches ScanEvent::Measured(Ok(size)) && size > 0,
        events[events.len() - 2] matches ScanEvent::Synced(Ok(_)),
        events[events.len() - 1] matches ScanEvent::Published(Ok(_)),
{
    let n = events.len() as int;
    lemma_scan_step(states, events, n);
    assert(states[n - 1].stage is Publishing);
    lemma_scan_step(states, events, n - 1);
    assert(states[n - 2].stage is Syncing);
    lemma_scan_step(states, events, n - 2);
    assert(states[n - 3].stage is Measuring);
    lemma_scan_step(states, events, n - 3);
}

/// A scan that fails leaves no temporary file: where one was made, removing it
/// was the last operation.
pub proof fn lemma_failed_scan_leaves_no_file(states: Seq<ScanRun>, events: Seq<ScanEvent>, i: int)
    requires
        is_scan_history(states, events),
        states.last().stage matches ScanStage::Finished(result) && result is Err,
        0 <= i < events.len(),
        events[i] matches ScanEvent::Created(Ok(_)),
    ensures
        events.last() is Discarded,
{
    let n = events.len() as int;
    lemma_scan_step(states, events, n);
    assert(states[i].follows(events[i], states[i + 1]));
    if !(events.last() is Discarded) {
        if events.last() is Created {
            lemma_scan_step(states, events, n - 1);
            assert(states[n - 2].stage is Preparing);
            assert(n - 2 == 0) by {
                if n - 2 > 0 {
                    lemma_scan_step(states, events, n - 2);
                }
            }
        } else {
            assert(n - 1 == 0) by {
                if n - 1 > 0 {
                    lemma_scan_step(states, events, n - 1);
                }
            }
        }
    }
}

/// The job of a scan stays what it was.
pub proof fn lemma_scan_keeps_its_job(states: Seq<ScanRun>, events: Seq<ScanEvent>, i: int)
    requires
        is_scan_history(states, events),
        0 <= i < states.len(),
    ensures
        states[0].same_job(states[i]),
    decreases i,
{
    if i > 0 {
        lemma_scan_step(states, events, i);
        lemma_scan_keeps_its_job(states, events, i - 1);
    }
}

/// Whether a text starts like the names of video devices.
pub open spec fn starts_like_video(name: Seq<char>) -> bool {
    name.len() >= 4 && name[0] == 'v' && name[1] == '4' && name[2] == 'l' && name[3] == ':'
}

proof fn lemma_video_prefix(name: Seq<char>)
    ensures
        "v4l:"@.is_prefix_of(name) <==> starts_like_video(name),
{
    reveal_strlit("v4l:");
    let prefix = "v4l:"@;
    if starts_like_video(name) {
        assert(name.subrange(0, 4) =~= prefix);
    }
    if prefix.is_prefix_of(name) {
        let start = name.subrange(0, 4);
        assert(start[0] == prefix[0] && start[1] == prefix[1] && start[2] == prefix[2] && start[3]
            == prefix[3]);
    }
}

/// The device list is read line by line, in order: what two parts of it give is
/// what the one gives, and then what the other gives.
pub proof fn lemma_devices_line_by_line(before: Seq<Seq<char>>, after: Seq<Seq<char>>)
    ensures
        devices_of(before + after) == devices_of(before) + devices_of(after),
    decreases after.len(),
{
    let all = before + after;
    if after.len() == 0 {
        assert(all =~= before);
        assert(devices_of(before) + devices_of(after) =~= devices_of(before));
    } else {
        assert(all.drop_last() =~= before + after.drop_last());
        assert(all.last() == after.last());
        lemma_devices_line_by_line(before, after.drop_last());
        assert(devices_of(all) =~= devices_of(before) + devices_of(after));
    }
}

/// A video device never gets into the list of scanners, whatever else its line
/// says.
pub proof fn lemma_no_video_devices(lines: Seq<Seq<char>>, i: int)
    requires
        0 <= i < devices_of(lines).len(),
    ensures
        !starts_like_video(devices_of(lines)[i].name),
    decreases lines.len(),
{
    if lines.len() > 0 {
        let before = devices_of(lines.drop_last());
        if i < before.len() {
            lemma_no_video_devices(lines.drop_last(), i);
        } else {
            lemma_video_prefix(devices_of(lines)[i].name);
        }
    }
}

proof fn lemma_field_alone(part: Seq<char>)
    requires
        part.len() > 0 ==> !text::is_white_space(part[0]) && !text::is_white_space(part.last()),
    ensures
        text::trimmed(part) == part,
{
    text::lemma_trimmed_is_same(part);
}

/// A line of the device list is one scanner, with the four texts between its
/// tabs; but a blank line and the line of a video device are none.
pub proof fn lemma_device_line(
    name: Seq<char>,
    vendor: Seq<char>,
    model: Seq<char>,
    kind: Seq<char>,
    blank: Seq<char>,
)
    requires
        name.len() > 0,
        forall|i: int| 0 <= i < name.len() ==> #[trigger] name[i] != '\t',
        forall|i: int| 0 <= i < vendor.len() ==> #[trigger] vendor[i] != '\t',
        forall|i: int| 0 <= i < model.len() ==> #[trigger] model[i] != '\t',
        forall|i: int| 0 <= i < kind.len() ==> #[trigger] kind[i] != '\t',
        !text::is_white_space(name[0]) && !text::is_white_space(name.last()),
        vendor.len() > 0 ==> !text::is_white_space(vendor[0]) && !text::is_white_space(
            vendor.last(),
        ),
        model.len() > 0 ==> !text::is_white_space(model[0]) && !text::is_white_space(model.last()),
        kind.len() > 0 ==> !text::is_white_space(kind[0]) && !text::is_white_space(kind.last()),
        forall|i: int| 0 <= i < blank.len() ==> text::is_white_space(#[trigger] blank[i]),
    ensures
        devices_of(
            seq![name + seq!['\t'] + (vendor + seq!['\t'] + (model + seq!['\t'] + kind))],
        ) == if starts_like_video(name) {
            Seq::<DeviceView>::empty()
        } else {
            seq![DeviceView { name, vendor, model, kind }]
        },
        devices_of(seq![name]) == if starts_like_video(name) {
            Seq::<DeviceView>::empty()
        } else {
            seq![
                DeviceView {
                    name,
                    vendor: Seq::empty(),
                    model: Seq::empty(),
                    kind: Seq::empty(),
                },
            ]
        },
        devices_of(seq![blank]) == Seq::<DeviceView>::empty(),
{
    let tail = model + seq!['\t'] + kind;
    let rest = vendor + seq!['\t'] + tail;
    let line = name + seq!['\t'] + rest;
    text::lemma_splitting(name, rest, '\t');
    text::lemma_splitting(vendor, tail, '\t');
    text::lemma_splitting(model, kind, '\t');
    text::lemma_splitting(kind, Seq::empty(), '\t');
    let parts = text::split_at_each(line, '\t');
    assert(parts =~= seq![name, vendor, model, kind]);
    lemma_field_alone(name);
    lemma_field_alone(vendor);
    lemma_field_alone(model);
    lemma_field_alone(kind);
    lemma_video_prefix(name);
    assert(text::trimmed(line).len() > 0) by {
        lemma_not_blank(line, 0);
    }
    lemma_not_blank(name, 0);
    let none = Seq::<char>::empty();
    text::lemma_trimming(blank, none, none);
    assert(blank + none + none =~= blank);
    lemma_one_device(line);
    lemma_one_device(name);
    lemma_one_device(blank);
}

proof fn lemma_one_device(line: Seq<char>)
    ensures
        devices_of(seq![line]) == match device_of(line) {
            Some(device) => seq![device],
            None => Seq::empty(),
        },
{
    let lines = seq![line];
    assert(lines.drop_last() =~= Seq::<Seq<char>>::empty());
    assert(lines.last() == line);
    assert(devices_of(lines.drop_last()) == Seq::<DeviceView>::empty());
    assert(devices_of(lines) =~= match device_of(line) {
        Some(device) => seq![device],
        None => Seq::empty(),
    });
}

proof fn lemma_not_blank(s: Seq<char>, i: int)
    requires
        0 <= i < s.len(),
        !text::is_white_space(s[i]),
    ensures
        text::trimmed(s).len() > 0,
    decreases s.len(),
{
    if text::is_white_space(s[0]) {
        assert(s.skip(1)[i - 1] == s[i]);
        lemma_not_blank(s.skip(1), i - 1);
    } else {
        lemma_end_not_blank(s, i);
    }
}

proof fn lemma_end_not_blank(s: Seq<char>, i: int)
    requires
        0 <= i < s.len(),
        !text::is_white_space(s[i]),
    ensures
        text::trim_end(s).len() > 0,
    decreases s.len(),
{
    if text::is_white_space(s.last()) {
        assert(s.drop_last()[i] == s[i]);
        lemma_end_not_blank(s.drop_last(), i);
    }
}

/// A scanner is shown with its maker and model; with the model alone, where the
/// maker is unknown or only the name of a protocol, in small or capital letters;
/// and with its technical name, where there is no model. The full name ends with
/// the technical one in brackets.
pub proof fn lemma_names_for_people(device: DeviceView)
    requires
        device.vendor.len() > 0 ==> !text::is_white_space(device.vendor[0])
            && !text::is_white_space(device.vendor.last()),
        device.model.len() > 0 ==> !text::is_white_space(device.model[0]) && !text::is_white_space(
            device.model.last(),
        ),
    ensures
        device.model.len() == 0 ==> device.short_name() == device.name,
        device.model.len() > 0 && device.vendor.len() == 0 ==> device.short_name() == device.model,
        device.model.len() > 0 && device.vendor.len() > 0 ==> {
            let small = text::lowercase(device.vendor);
            if small == "escl"@ || small == "wsd"@ || small == "airscan"@ {
                device.short_name() == device.model
            } else {
                device.short_name() == device.vendor + " "@ + device.model
            }
        },
        device.vendor.len() > 0 && device.model.len() > 0 ==> device.long_name() == device.vendor
            + " "@ + device.model + " ("@ + device.name + ")"@,
        device.vendor.len() == 0 && device.model.len() == 0 ==> device.long_name() == device.name
            + " ("@ + device.name + ")"@,
{
    lemma_field_alone(device.vendor);
    lemma_field_alone(device.model);
    reveal_strlit(" ");
    assert(" "@ =~= seq![' ']);
    let both = device.vendor + seq![' '] + device.model;
    if device.vendor.len() > 0 && device.model.len() > 0 {
        assert(both[0] == device.vendor[0]);
        assert(both.last() == device.model.last());
        lemma_field_alone(both);
    }
    if device.vendor.len() == 0 && device.model.len() == 0 {
        let none = Seq::<char>::empty();
        assert(both =~= seq![' '] + none + none);
        text::lemma_trimming(seq![' '], none, none);
    }
}

/// Scans are made at the resolution that was chosen, with the scanner that was
/// chosen, in colour and as PNG: the argument behind each option says so, and the
/// one behind the resolution is its number in decimal digits.
pub proof fn lemma_scan_arguments(device: Option<Seq<char>>, dpi: u32, other: u32)
    ensures
        ({
            let arguments = scan_arguments(device, dpi);
            let first: int = if device is Some { 2 } else { 0 };
            &&& device matches Some(name) ==> arguments[0] == "--device-name"@ && arguments[1] == name
            &&& arguments.len() == first + 7
            &&& arguments[first] == "--mode"@
            &&& arguments[first + 1] == "Color"@
            &&& arguments[first + 2] == "--resolution"@
            &&& text::all_digits(arguments[first + 3])
            &&& text::number(arguments[first + 3]) == dpi
            &&& arguments[first + 4] == "--format"@
            &&& arguments[first + 5] == "png"@
            &&& arguments[first + 6] == "--progress"@
        }),
        dpi != other ==> scan_arguments(device, dpi) != scan_arguments(device, other),
{
    let first: int = if device is Some { 2 } else { 0 };
    text::lemma_decimal_read_back(dpi as nat);
    text::lemma_decimal_read_back(other as nat);
    let (a, b) = (scan_arguments(device, dpi), scan_arguments(device, other));
    assert(a[first + 3] == text::decimal(dpi as nat));
    assert(b[first + 3] == text::decimal(other as nat));
}

/// A scan is made as it was asked for: from its start on, the program is asked to
/// scan at that resolution and with that scanner, and to publish the file under
/// that name; the resolution is one from 75 to 2400 dots per inch.
pub proof fn lemma_scan_is_made_as_asked(
    states: Seq<ScanRun>,
    events: Seq<ScanEvent>,
    destination: Seq<char>,
    parent: Option<Seq<char>>,
    device: Option<Seq<char>>,
    dpi: u32,
    timeout: u128,
    i: int,
)
    requires
        is_scan_history(states, events),
        is_fresh_scan(states[0], destination, parent, device, dpi, timeout),
        0 <= i < states.len(),
    ensures
        states[i].destination@ == destination,
        states[i].dpi == dpi,
        states[i].timeout == timeout,
        forall|arguments: Vec<String>| #[trigger]
            states[i].asks_for(ScanAction::Start(arguments)) ==> {
                let first: int = if device is Some { 2 } else { 0 };
                &&& arguments@.len() == first + 7
                &&& device matches Some(name) ==> arguments@[0]@ == "--device-name"@
                    && arguments@[1]@ == name
                &&& arguments@[first + 2]@ == "--resolution"@
                &&& text::number(arguments@[first + 3]@) == dpi
            },
        forall|name: String| #[trigger]
            states[i].asks_for(ScanAction::Publish(name)) ==> name@ == destination,
        forall|directory: String| #[trigger]
            states[i].asks_for(ScanAction::Create(directory)) ==> directory@ == match parent {
                Some(path) => if path.len() > 0 {
                    path
                } else {
                    "."@
                },
                None => "."@,
            },
        MIN_DPI <= dpi <= MAX_DPI <==> 75 <= dpi <= 2400,
{
    lemma_scan_keeps_its_job(states, events, i);
    lemma_scan_arguments(device, dpi, dpi);
    assert forall|arguments: Vec<String>| #[trigger]
        states[i].asks_for(ScanAction::Start(arguments)) implies {
        let first: int = if device is Some { 2 } else { 0 };
        &&& arguments@.len() == first + 7
        &&& device matches Some(name) ==> arguments@[0]@ == "--device-name"@ && arguments@[1]@
            == name
        &&& arguments@[first + 2]@ == "--resolution"@
        &&& text::number(arguments@[first + 3]@) == dpi
    } by {
        let first: int = if device is Some { 2 } else { 0 };
        let views = text::string_views(arguments@);
        assert(views.len() == arguments@.len());
        assert(views[0] == arguments@[0]@ && views[1] == arguments@[1]@);
        assert(views[first + 2] == arguments@[first + 2]@);
        assert(views[first + 3] == arguments@[first + 3]@);
    }
}

/// A watch stops as soon as it has to, and not before: a program that ended is
/// left alone, whatever the signal and the clock say; one that runs on is stopped
/// if the signal was given or its time is up; and else it is looked at again.
pub proof fn lemma_watch_stops_in_time(poll: Poll, timeout: u128)
    ensures
        poll.exited matches Some(success) ==> Watch::Polling.after(
            WatchEvent::Polled(Ok(poll)),
            timeout,
        ) == Watch::Ended(WaitResult::Exited(success)),
        poll.exited is None && poll.cancelled ==> Watch::Polling.after(
            WatchEvent::Polled(Ok(poll)),
            timeout,
        ) == (Watch::Stopping { cancelled: true }),
        poll.exited is None && !poll.cancelled && poll.elapsed >= timeout ==> Watch::Polling.after(
            WatchEvent::Polled(Ok(poll)),
            timeout,
        ) == (Watch::Stopping { cancelled: false }),
        poll.exited is None && !poll.cancelled && poll.elapsed < timeout ==> Watch::Polling.after(
            WatchEvent::Polled(Ok(poll)),
            timeout,
        ) is Pausing && Watch::Pausing.after(WatchEvent::Paused, timeout) is Polling,
{
}

/// A search for scanners gives a list exactly if the program ended with success,
/// and each other end has its own error.
pub proof fn lemma_search_outcomes(
    wait: WaitResult,
    captured: Captured,
    result: Result<Vec<ScannerDevice>, ScannerError>,
)
    requires
        is_query_result(wait, captured, result),
    ensures
        result is Ok <==> wait == WaitResult::Exited(true),
        result matches Err(ScannerError::DeviceTimeout) <==> wait is TimedOut,
        result matches Err(ScannerError::Cancelled) <==> wait is Cancelled,
        result matches Err(ScannerError::DeviceQuery(_)) <==> wait == WaitResult::Exited(false),
        result matches Err(ScannerError::Process(_)) <==> wait is Failed,
        result matches Ok(devices) ==> forall|i: int|
            0 <= i < devices@.len() ==> !starts_like_video(#[trigger] devices@[i].name@),
        query_arguments() == seq!["-f"@, "%d\t%v\t%m\t%t%n"@],
{
    if let Ok(devices) = result {
        let lines = text::lines_of(text::lossy_text(captured.stdout@));
        assert forall|i: int| 0 <= i < devices@.len() implies !starts_like_video(
            #[trigger] devices@[i].name@,
        ) by {
            assert(device_views(devices@)[i] == devices@[i]@);
            lemma_no_video_devices(lines, i);
        }
    }
}

/// What the scan program says of a failure is told without the white space around
/// it; where it says nothing, another text is told in its place.
pub proof fn lemma_told_failures(
    stderr: Seq<u8>,
    before: Seq<char>,
    said: Seq<char>,
    behind: Seq<char>,
    fallback: Seq<char>,
)
    requires
        forall|i: int| 0 <= i < before.len() ==> text::is_white_space(#[trigger] before[i]),
        forall|i: int| 0 <= i < behind.len() ==> text::is_white_space(#[trigger] behind[i]),
        said.len() > 0 ==> !text::is_white_space(said[0]) && !text::is_white_space(said.last()),
        text::lossy_text(stderr) == before + said + behind,
    ensures
        said.len() > 0 ==> reported(stderr, fallback) == said,
        said.len() == 0 ==> reported(stderr, fallback) == fallback,
{
    text::lemma_trimming(before, said, behind);
}

/// The scan program can be used if it was started and has ended, or is running
/// still; it is ended where it did not end by itself. The pauses between two looks
/// at it are no longer than 20 milliseconds, and never go past the time limit.
pub proof fn lemma_probes_and_pauses(
    probe: Probe,
    available: bool,
    terminated: bool,
    timeout: u128,
    elapsed: u128,
    paused: u64,
)
    requires
        call_ensures(scanimage_available, (probe,), available),
        call_ensures(must_terminate, (probe,), terminated),
        call_ensures(pause, (timeout, elapsed), paused),
    ensures
        available <==> probe is Exited || probe is StillRunning,
        terminated <==> probe is StillRunning || probe is WaitFailed,
        paused <= 20_000_000,
        elapsed < timeout ==> elapsed + paused <= timeout,
        elapsed < timeout ==> paused > 0,
        elapsed >= timeout ==> paused == 0,
        elapsed + 20_000_000 <= timeout ==> paused == 20_000_000,
{
}

/// A scan program that is not found is told to be missing; another failure to
/// start it is told with its message. How it ended decides what becomes of the
/// scan: only one that ended well is kept.
pub proof fn lemma_scan_outcomes(
    failure: Failure,
    not_started: ScannerError,
    wait: WaitResult,
    stderr: Seq<u8>,
    next: ScanStage,
)
    requires
        is_start_error(failure, not_started),
        is_scan_verdict(wait, stderr, next),
    ensures
        failure.kind is NotFound <==> not_started is ScanimageMissing,
        !(failure.kind is NotFound) ==> (not_started matches ScannerError::Process(message)
            && message == failure.message),
        next is Measuring <==> wait == WaitResult::Exited(true),
        !(next is Measuring) ==> next is Discarding,
        wait is TimedOut <==> next == ScanStage::Discarding(ScannerError::ScanTimeout),
        wait is Cancelled <==> next == ScanStage::Discarding(ScannerError::Cancelled),
        wait == WaitResult::Exited(false) <==> (next matches ScanStage::Discarding(error) && error
            is ScanFailed),
        wait matches WaitResult::Failed(failed) ==> next == ScanStage::Discarding(
            ScannerError::Process(failed.message),
        ),
        next matches ScanStage::Discarding(ScannerError::ScanFailed(detail)) ==> detail@ == reported(
            stderr,
            "unbekannter Fehler"@,
        ),
{
}

/// The devices that a search tells are those in the output of the scan program,
/// and its failure is what the error output says.
pub proof fn lemma_search_reads_the_output(
    stdout: Vec<u8>,
    stderr: Vec<u8>,
    found: Result<Vec<ScannerDevice>, ScannerError>,
    failed: Result<Vec<ScannerDevice>, ScannerError>,
)
    requires
        is_query_result(WaitResult::Exited(true), (Captured { stdout, stderr }), found),
        is_query_result(WaitResult::Exited(false), (Captured { stdout, stderr }), failed),
    ensures
        found matches Ok(devices) && device_views(devices@) == devices_of(
            text::lines_of(text::lossy_text(stdout@)),
        ),
        failed matches Err(ScannerError::DeviceQuery(detail)) && detail@ == reported(
            stderr@,
            "unbekannter SANE-Fehler"@,
        ),
{
}

/// A scan file without content is refused; a destination that exists already is
/// left as it is, and told; what has failed is told with its message; and a file
/// that was made is removed before any failure is told.
pub proof fn lemma_scan_steps(run: ScanRun, event: ScanEvent, next: ScanRun, failure: Failure)
    requires
        run.follows(event, next),
    ensures
        event == ScanEvent::Measured(Ok(0)) ==> next.stage == ScanStage::Discarding(
            ScannerError::EmptyScan,
        ),
        event matches ScanEvent::Measured(Ok(size)) && size > 0 ==> next.stage is Syncing,
        event == ScanEvent::Published(Err(failure)) && failure.kind is AlreadyExists ==> (
        next.stage matches ScanStage::Discarding(error) && (error
            matches ScannerError::DestinationExists(path) && path@ == run.destination@)),
        event == ScanEvent::Published(Err(failure)) && !(failure.kind is AlreadyExists)
            ==> next.stage == ScanStage::Discarding(ScannerError::Process(failure.message)),
        event == ScanEvent::Prepared(Err(failure)) || event == ScanEvent::Created(Err(failure))
            ==> next.stage == ScanStage::Finished(Err(ScannerError::Process(failure.message))),
        event == ScanEvent::Opened(Err(failure)) || event == ScanEvent::Collected(Err(failure))
            || event == ScanEvent::Measured(Err(failure)) || event == ScanEvent::Synced(
            Err(failure),
        ) ==> next.stage == ScanStage::Discarding(ScannerError::Process(failure.message)),
        run.stage matches ScanStage::Discarding(error) ==> next.stage == ScanStage::Finished(
            Err(error),
        ),
        next.stage matches ScanStage::Finished(result) ==> result is Err || run.stage is Publishing,
{
}

/// Neither a search nor a scan is begun once it is cancelled; a scan needs a
/// resolution from 75 to 2400 dots per inch; and what is begun has the time limit
/// that was given.
pub proof fn lemma_begun_operations(
    cancelled: bool,
    destination: &str,
    parent: Option<&str>,
    device: Option<&str>,
    dpi: u32,
    timeout: u128,
    search: Result<DeviceQuery, ScannerError>,
    scan: Result<ScanRun, ScannerError>,
)
    requires
        call_ensures(begin_device_query, (cancelled, timeout), search),
        call_ensures(begin_scan, (cancelled, destination, parent, device, dpi, timeout), scan),
    ensures
        search is Ok <==> !cancelled,
        search matches Ok(query) ==> query.timeout == timeout && query.stage is Starting,
        search matches Err(error) ==> error is Cancelled,
        scan is Ok <==> !cancelled && 75 <= dpi <= 2400,
        scan matches Err(error) ==> (if cancelled {
            error is Cancelled
        } else {
            error is InvalidDpi
        }),
        scan matches Ok(run) ==> run.destination@ == destination@ && run.dpi == dpi && run.timeout
            == timeout && run.stage is Preparing,
        scan matches Ok(run) ==> (run.device is Some <==> device is Some),
        scan matches Ok(run) ==> (device matches Some(name) ==> run.device->0@ == name@),
{
}

/// A message about a failure ends with what is known of it; other messages are
/// always the same.
pub proof fn lemma_messages_tell_the_detail(detail: String)
    ensures
        detail@.is_suffix_of(ScannerError::DeviceQuery(detail).text()),
        detail@.is_suffix_of(ScannerError::ScanFailed(detail).text()),
        detail@.is_suffix_of(ScannerError::DestinationExists(detail).text()),
        detail@.is_suffix_of(ScannerError::Process(detail).text()),
        ScannerError::DeviceTimeout.text() == "Die Scannersuche hat zu lange gedauert."@,
        ScannerError::ScanTimeout.text() == "Der Scan hat das Zeitlimit überschritten."@,
        ScannerError::Cancelled.text() == "Der Vorgang wurde abgebrochen."@,
        ScannerError::InvalidDpi.text()
            == "Die Auflösung muss zwischen 75 und 2400 dpi liegen."@,
        ScannerError::EmptyScan.text() == "Der Scanner hat keine Bilddaten geliefert."@,
{
    let errors = seq![
        "Scanner konnten nicht abgefragt werden: "@,
        "Der Scan ist fehlgeschlagen: "@,
        "Die Zieldatei existiert bereits: "@,
        "Scannerprozess konnte nicht gestartet werden: "@,
    ];
    assert forall|i: int| 0 <= i < errors.len() implies detail@.is_suffix_of(
        #[trigger] errors[i] + detail@,
    ) by {
        let told = errors[i] + detail@;
        assert(told.subrange(told.len() - detail@.len(), told.len() as int) =~= detail@);
    }
    assert(errors[0] + detail@ == ScannerError::DeviceQuery(detail).text());
    assert(errors[1] + detail@ == ScannerError::ScanFailed(detail).text());
    assert(errors[2] + detail@ == ScannerError::DestinationExists(detail).text());
    assert(errors[3] + detail@ == ScannerError::Process(detail).text());
}

} // verus!
