//! Exporting photos, or a complete scan: which files are staged, in what order,
//! and how they are published together.
//!
//! An export is a state machine: it tells which operation comes next, and takes
//! the outcome of that operation.

use crate::capture;
use crate::capture::CaptureTime;
use crate::failure::Failure;
use crate::publish;
use crate::publish::{PublishEvent, PublishRun, PublishStage, StagedOutput};
use crate::splitter;
use crate::splitter::{OutputFormat, SplitConfig, SplitError};
use crate::text;
use vstd::prelude::*;

verus! {

/// What is exported.
#[derive(Clone, Copy, Debug, PartialEq, Eq, Structural)]
pub enum ExportKind {
    /// The complete scan, as one file.
    FullScan,
    /// So many photos, with a preview or without.
    Photos {
        /// How many photos.
        count: usize,
        /// Whether there is a preview.
        preview: bool,
    },
}

impl ExportKind {
    /// How many images are staged, apart from the preview.
    pub open spec fn images(self) -> int {
        match self {
            ExportKind::FullScan => 1,
            ExportKind::Photos { count, preview } => count as int,
        }
    }

    /// Whether there is a preview.
    pub open spec fn has_preview(self) -> bool {
        match self {
            ExportKind::FullScan => false,
            ExportKind::Photos { count, preview } => preview,
        }
    }

    /// How many images are staged, apart from the preview.
    fn image_count(self) -> (r: usize)
        ensures
            r == self.images(),
    {
        match self {
            ExportKind::FullScan => 1,
            ExportKind::Photos { count, preview: _ } => count,
        }
    }

    /// Whether there is a preview.
    fn wants_preview(self) -> (r: bool)
        ensures
            r == self.has_preview(),
    {
        match self {
            ExportKind::FullScan => false,
            ExportKind::Photos { count: _, preview } => preview,
        }
    }
}

/// How far an export has come.
#[derive(Debug)]
pub enum ExportStage {
    /// The output directory has to exist.
    Preparing,
    /// The moment of capture has to be found.
    Dating,
    /// The image with this index has to be staged: saved under a temporary name
    /// in the output directory, and written through to the disk.
    Staging {
        /// The index of the image.
        index: usize,
        /// The moment of capture.
        time: CaptureTime,
    },
    /// The preview has to be staged.
    StagingPreview {
        /// The moment of capture.
        time: CaptureTime,
    },
    /// The staged files have to be published.
    Publishing(PublishRun),
    /// The export is over; where it succeeded, with the names of the files, of
    /// which the last is the preview's if there is one.
    Finished(Result<Vec<String>, SplitError>),
}

/// What the program did for an export.
#[derive(Debug)]
pub enum ExportEvent {
    /// It made sure that the directory exists, or failed to.
    Prepared(Result<(), Failure>),
    /// It looked at the clock, and found the earliest moment at which the local
    /// clock shows the chosen day and the present time of day.
    Dated {
        /// The present moment.
        now: CaptureTime,
        /// The moment on the chosen day.
        resolved: Option<CaptureTime>,
    },
    /// It staged an image, or failed to.
    Staged(Result<(), SplitError>),
    /// It did something for the publication.
    Published(PublishEvent),
}

/// An export.
#[derive(Debug)]
pub struct ExportRun {
    /// The settings.
    pub config: SplitConfig,
    /// The beginning of the file names, or none to make one from the moment of
    /// capture.
    pub prefix: Option<String>,
    /// What is exported.
    pub kind: ExportKind,
    /// The resolution to write, if any.
    pub dpi: Option<u32>,
    /// How far it has come.
    pub stage: ExportStage,
}

/// Whether these are the files of an export.
pub open spec fn is_group(
    outputs: Seq<StagedOutput>,
    base: Seq<char>,
    format: OutputFormat,
    kind: ExportKind,
) -> bool {
    match kind {
        ExportKind::FullScan => outputs.len() == 1 && splitter::is_output(
            outputs[0],
            base,
            format.extension_text(),
        ),
        ExportKind::Photos { count, preview } => splitter::is_export_group(
            outputs,
            base,
            format,
            count as nat,
            preview,
        ),
    }
}

/// The moment of capture for a chosen day or the present one, if it exists.
pub open spec fn moment(
    config: SplitConfig,
    now: CaptureTime,
    resolved: Option<CaptureTime>,
) -> Option<CaptureTime> {
    if config.capture_date is Some {
        resolved
    } else {
        Some(now)
    }
}

impl ExportRun {
    /// Whether the indices are within the export and the moments exist.
    pub open spec fn well_formed(self) -> bool {
        &&& 0 < self.kind.images() < usize::MAX
        &&& match self.stage {
            ExportStage::Staging { index, time } => index < self.kind.images() && time.is_valid(),
            ExportStage::StagingPreview { time } => self.kind.has_preview() && time.is_valid(),
            ExportStage::Publishing(run) => run.well_formed() && !(run.stage is Finished),
            _ => true,
        }
    }

    /// Whether an event is the outcome of what the export asked for.
    pub open spec fn expects(self, event: ExportEvent) -> bool {
        match (self.stage, event) {
            (ExportStage::Preparing, ExportEvent::Prepared(_)) => true,
            (ExportStage::Dating, ExportEvent::Dated { now, resolved }) => now.is_valid() && (
            resolved matches Some(time) ==> time.is_valid()),
            (ExportStage::Staging { index, time }, ExportEvent::Staged(_)) => true,
            (ExportStage::StagingPreview { time }, ExportEvent::Staged(_)) => true,
            (ExportStage::Publishing(run), ExportEvent::Published(event)) => run.expects(event),
            _ => false,
        }
    }

    /// Whether `next` is the start of the publication of all staged files.
    pub open spec fn starts_publishing(self, time: CaptureTime, next: ExportStage) -> bool {
        &&& next matches ExportStage::Publishing(run)
        &&& run.is_fresh()
        &&& is_group(
            run.outputs@,
            splitter::base_name(text::optional_view(self.prefix), time),
            self.config.output_format,
            self.kind,
        )
    }

    /// Whether `next` is where the export stands after an event that it expects.
    /// Images are staged one after the other, then the preview; only then is
    /// anything published.
    pub open spec fn stage_follows(self, event: ExportEvent, next: ExportStage) -> bool {
        match (self.stage, event) {
            (ExportStage::Preparing, ExportEvent::Prepared(Ok(_))) => next is Dating,
            (ExportStage::Preparing, ExportEvent::Prepared(Err(failure))) => next
                == ExportStage::Finished(Err(SplitError::Io(failure.message))),
            (ExportStage::Dating, ExportEvent::Dated { now, resolved }) => match moment(
                self.config,
                now,
                resolved,
            ) {
                Some(time) => next == ExportStage::Staging { index: 0, time },
                None => next == ExportStage::Finished(Err(SplitError::InvalidDate)),
            },
            (ExportStage::Staging { index, time }, ExportEvent::Staged(Ok(_))) => if index + 1
                < self.kind.images() {
                next == ExportStage::Staging { index: (index + 1) as usize, time }
            } else if self.kind.has_preview() {
                next == ExportStage::StagingPreview { time }
            } else {
                self.starts_publishing(time, next)
            },
            (ExportStage::StagingPreview { time }, ExportEvent::Staged(Ok(_))) =>
            self.starts_publishing(time, next),
            (ExportStage::Staging { .. }, ExportEvent::Staged(Err(error)))
            | (ExportStage::StagingPreview { .. }, ExportEvent::Staged(Err(error))) => next
                == ExportStage::Finished(Err(error)),
            (ExportStage::Publishing(run), ExportEvent::Published(event)) => match next {
                ExportStage::Publishing(later) => run.follows(event, later) && !(
                later.stage is Finished),
                ExportStage::Finished(result) => exists|later: PublishRun| #[trigger]
                    run.follows(event, later) && later.stage == PublishStage::Finished(result),
                _ => false,
            },
            _ => false,
        }
    }

    /// Whether `next` is the export after an event that it expects.
    pub open spec fn follows(self, event: ExportEvent, next: ExportRun) -> bool {
        &&& next.config == self.config
        &&& next.prefix == self.prefix
        &&& next.kind == self.kind
        &&& next.dpi == self.dpi
        &&& self.stage_follows(event, next.stage)
    }

    /// The files of the export, to be published.
    fn publication(&self, time: CaptureTime) -> (r: ExportStage)
        requires
            0 < self.kind.images() < usize::MAX,
            time.is_valid(),
        ensures
            self.starts_publishing(time, r),
            r matches ExportStage::Publishing(run) && run.well_formed() && !(run.stage is Finished),
    {
        let base = match &self.prefix {
            Some(prefix) => prefix.clone(),
            None => splitter::output_base(None, time),
        };
        let outputs = match self.kind {
            ExportKind::FullScan => {
                let mut list: Vec<StagedOutput> = Vec::new();
                list.push(
                    StagedOutput {
                        stem: base,
                        extension: self.config.output_format.extension().to_string(),
                    },
                );
                list
            },
            ExportKind::Photos { count, preview } => splitter::export_outputs(
                &base,
                self.config.output_format,
                count,
                preview,
            ),
        };
        ExportStage::Publishing(publish::publish_staged_group(outputs))
    }

    /// Takes the outcome of what the export asked for.
    pub fn advance(self, event: ExportEvent) -> (r: ExportRun)
        requires
            self.well_formed(),
            self.expects(event),
        ensures
            r.well_formed(),
            self.follows(event, r),
    {
        let stage = match event {
            ExportEvent::Prepared(Ok(())) => ExportStage::Dating,
            ExportEvent::Prepared(Err(failure)) => ExportStage::Finished(
                Err(SplitError::Io(failure.message)),
            ),
            ExportEvent::Dated { now, resolved } => match capture::capture_datetime(
                self.config.capture_date,
                now,
                resolved,
            ) {
                Ok(time) => ExportStage::Staging { index: 0, time },
                Err(error) => ExportStage::Finished(Err(error)),
            },
            ExportEvent::Staged(Err(error)) => ExportStage::Finished(Err(error)),
            ExportEvent::Staged(Ok(())) => match &self.stage {
                ExportStage::Staging { index, time } => if *index + 1 < self.kind.image_count() {
                    ExportStage::Staging { index: *index + 1, time: *time }
                } else if self.kind.wants_preview() {
                    ExportStage::StagingPreview { time: *time }
                } else {
                    self.publication(*time)
                },
                ExportStage::StagingPreview { time } => self.publication(*time),
                _ => ExportStage::Preparing,
            },
            ExportEvent::Published(event) => {
                let ExportRun { config, prefix, kind, dpi, stage } = self;
                let stage = match stage {
                    ExportStage::Publishing(run) => {
                        let later = run.advance(event);
                        match later {
                            PublishRun {
                                outputs: _,
                                attempt: _,
                                stage: PublishStage::Finished(result),
                            } => ExportStage::Finished(result),
                            running => ExportStage::Publishing(running),
                        }
                    },
                    other => other,
                };
                return ExportRun { config, prefix, kind, dpi, stage };
            },
        };
        ExportRun {
            config: self.config,
            prefix: self.prefix,
            kind: self.kind,
            dpi: self.dpi,
            stage,
        }
    }
}

/// Whether an export is the start of the given one.
pub open spec fn is_fresh_export(
    run: ExportRun,
    config: SplitConfig,
    prefix: Option<Seq<char>>,
    kind: ExportKind,
    embedded_dpi: Option<u32>,
) -> bool {
    &&& run.config == config
    &&& text::optional_view(run.prefix) == prefix
    &&& run.kind == kind
    &&& run.dpi == splitter::export_dpi_of(config.dpi, embedded_dpi)
    &&& run.stage is Preparing
    &&& run.well_formed()
}

/// An export, before anything has been done.
fn fresh(
    config: &SplitConfig,
    prefix: Option<&str>,
    kind: ExportKind,
    embedded_dpi: Option<u32>,
) -> (r: ExportRun)
    requires
        0 < kind.images() < usize::MAX,
    ensures
        is_fresh_export(r, *config, text::borrowed_view(prefix), kind, embedded_dpi),
{
    let prefix = match prefix {
        Some(prefix) => Some(prefix.to_string()),
        None => None,
    };
    ExportRun {
        config: *config,
        prefix,
        kind,
        dpi: splitter::export_dpi(config.dpi, embedded_dpi),
        stage: ExportStage::Preparing,
    }
}

/// An export of the complete scan, which has been read already. The request is
/// refused as it is before reading.
pub fn save_full_scan(config: &SplitConfig, prefix: Option<&str>, embedded_dpi: Option<u32>) -> (r:
    Result<ExportRun, SplitError>)
    ensures
        match r {
            Ok(run) => splitter::request_complaint(*config, prefix) is None && is_fresh_export(
                run,
                *config,
                text::borrowed_view(prefix),
                ExportKind::FullScan,
                embedded_dpi,
            ),
            Err(SplitError::InvalidConfig(message)) => splitter::request_complaint(*config, prefix)
                == Some(message@),
            Err(_) => false,
        },
{
    match splitter::check_request(config, prefix) {
        Err(error) => Err(error),
        Ok(()) => Ok(fresh(config, prefix, ExportKind::FullScan, embedded_dpi)),
    }
}

/// Whether a request to export photos is in order.
pub open spec fn can_export(
    config: SplitConfig,
    prefix: Option<&str>,
    photos: usize,
    preview_regions: Option<usize>,
) -> bool {
    &&& splitter::request_complaint(config, prefix) is None
    &&& photos > 0
    &&& preview_regions is None || preview_regions == Some(photos)
}

/// An export of so many prepared photos, with a preview that shows so many
/// regions or none.
pub fn export_photos(
    config: &SplitConfig,
    prefix: Option<&str>,
    photos: usize,
    preview_regions: Option<usize>,
    embedded_dpi: Option<u32>,
) -> (r: Result<ExportRun, SplitError>)
    requires
        photos < usize::MAX,
    ensures
        r is Ok <==> can_export(*config, prefix, photos, preview_regions),
        r matches Ok(run) ==> is_fresh_export(
            run,
            *config,
            text::borrowed_view(prefix),
            (ExportKind::Photos { count: photos, preview: preview_regions is Some }),
            embedded_dpi,
        ),
        r matches Err(error) ==> match splitter::request_complaint(*config, prefix) {
            Some(message) => error matches SplitError::InvalidConfig(said) && said@ == message,
            None => if photos == 0 {
                error is NothingDetected
            } else {
                error matches SplitError::InvalidConfig(said) && said@
                    == "Für jedes exportierte Foto muss genau eine Vorschauregion angegeben werden."@
            },
        },
{
    match splitter::check_export(config, prefix, photos, preview_regions) {
        Err(error) => Err(error),
        Ok(()) => {
            let preview = preview_regions.is_some();
            Ok(fresh(config, prefix, ExportKind::Photos { count: photos, preview }, embedded_dpi))
        },
    }
}

/// Whether `states` are the states of an export through `events`, from its
/// start.
pub open spec fn is_export_history(states: Seq<ExportRun>, events: Seq<ExportEvent>) -> bool {
    &&& states.len() == events.len() + 1
    &&& states[0].stage is Preparing
    &&& states[0].well_formed()
    &&& forall|i: int|
        0 <= i < events.len() ==> #[trigger] states[i].follows(events[i], states[i + 1])
}

/// How many images had been staged before event `i`.
pub open spec fn staged_before(events: Seq<ExportEvent>, i: int) -> int
    decreases i,
{
    if i <= 0 {
        0
    } else {
        staged_before(events, i - 1) + if events[i - 1] matches ExportEvent::Staged(Ok(_)) {
            1int
        } else {
            0
        }
    }
}

/// How many images an export in this state has staged.
pub open spec fn staged_at(run: ExportRun) -> Option<int> {
    match run.stage {
        ExportStage::Preparing => Some(0),
        ExportStage::Dating => Some(0),
        ExportStage::Staging { index, time } => Some(index as int),
        ExportStage::StagingPreview { time } => Some(run.kind.images()),
        ExportStage::Publishing(_) => Some(
            run.kind.images() + if run.kind.has_preview() {
                1int
            } else {
                0
            },
        ),
        ExportStage::Finished(_) => None,
    }
}

/// Nothing is published before every image, and the preview if there is one,
/// has been staged.
pub proof fn lemma_publishes_only_complete_groups(
    states: Seq<ExportRun>,
    events: Seq<ExportEvent>,
    i: int,
)
    requires
        is_export_history(states, events),
        0 <= i < states.len(),
    ensures
        staged_at(states[i]) matches Some(count) ==> staged_before(events, i) == count,
        states[i].stage is Publishing ==> staged_before(events, i) == states[i].kind.images() + if
            states[i].kind.has_preview() {
            1int
        } else {
            0
        },
    decreases i,
{
    if i > 0 {
        lemma_publishes_only_complete_groups(states, events, i - 1);
        assert(states[i - 1].follows(events[i - 1], states[i - 1 + 1]));
        lemma_export_well_formed(states, events, i - 1);
    }
}

proof fn lemma_export_well_formed(states: Seq<ExportRun>, events: Seq<ExportEvent>, i: int)
    requires
        is_export_history(states, events),
        0 <= i < states.len(),
    ensures
        states[i].kind.images() > 0,
        states[i].stage matches ExportStage::Staging { index, time } ==> index
            < states[i].kind.images(),
        states[i].stage is StagingPreview ==> states[i].kind.has_preview(),
    decreases i,
{
    if i > 0 {
        lemma_export_well_formed(states, events, i - 1);
        assert(states[i - 1].follows(events[i - 1], states[i - 1 + 1]));
    }
}

/// The stem of the file with an index.
pub open spec fn export_stem(base: Seq<char>, kind: ExportKind, index: int) -> Seq<char> {
    match kind {
        ExportKind::FullScan => base,
        ExportKind::Photos { count, preview } => if index < count {
            splitter::photo_stem(base, index as nat)
        } else {
            base + "_vorschau"@
        },
    }
}

/// The extension of the file with an index.
pub open spec fn export_extension(format: OutputFormat, kind: ExportKind, index: int) -> Seq<char> {
    if index < kind.images() {
        format.extension_text()
    } else {
        "jpg"@
    }
}

/// How many files an export has.
pub open spec fn file_count(kind: ExportKind) -> nat {
    (kind.images() + if kind.has_preview() {
        1int
    } else {
        0
    }) as nat
}

/// The names of the files of an export at an attempt, in order.
pub open spec fn export_names(
    base: Seq<char>,
    format: OutputFormat,
    kind: ExportKind,
    attempt: nat,
) -> Seq<Seq<char>> {
    Seq::new(
        file_count(kind),
        |i: int|
            publish::name_of(
                export_stem(base, kind, i),
                export_extension(format, kind, i),
                attempt,
            ),
    )
}

proof fn lemma_group_names(
    outputs: Seq<StagedOutput>,
    base: Seq<char>,
    format: OutputFormat,
    kind: ExportKind,
    attempt: nat,
)
    requires
        is_group(outputs, base, format, kind),
    ensures
        publish::names_at(outputs, attempt) == export_names(base, format, kind, attempt),
        outputs.len() == file_count(kind),
        forall|i: int|
            0 <= i < outputs.len() ==> #[trigger] outputs[i].name(attempt) == export_names(
                base,
                format,
                kind,
                attempt,
            )[i],
        publish::names_differ(outputs),
{
    let names = export_names(base, format, kind, attempt);
    match kind {
        ExportKind::FullScan => {},
        ExportKind::Photos { count, preview } => {
            assert forall|i: int, j: int, a: nat| 0 <= i < j < outputs.len() implies
                #[trigger] outputs[i].name(a) != #[trigger] outputs[j].name(a) by {
                splitter::lemma_export_names_differ(
                    outputs,
                    base,
                    format,
                    count as nat,
                    preview,
                    a,
                    i,
                    j,
                );
            }
        },
    }
    assert forall|i: int| 0 <= i < outputs.len() implies #[trigger] outputs[i].name(attempt)
        == names[i] by {
        match kind {
            ExportKind::FullScan => {},
            ExportKind::Photos { count, preview } => {
                if i < count {
                    assert(splitter::is_output(
                        outputs[i],
                        splitter::photo_stem(base, i as nat),
                        format.extension_text(),
                    ));
                }
            },
        }
    }
    assert(publish::names_at(outputs, attempt) =~= names);
}

/// Whether none of the names is in a directory.
pub open spec fn are_free(names: Seq<Seq<char>>, directory: Set<Seq<char>>) -> bool {
    forall|i: int| 0 <= i < names.len() ==> !directory.contains(#[trigger] names[i])
}

/// Whether this is the first attempt at which all names of an export are free.
pub open spec fn is_first_free(
    base: Seq<char>,
    format: OutputFormat,
    kind: ExportKind,
    attempt: nat,
    directory: Set<Seq<char>>,
) -> bool {
    &&& attempt >= 1
    &&& are_free(export_names(base, format, kind, attempt), directory)
    &&& forall|a: nat|
        1 <= a < attempt ==> !are_free(#[trigger] export_names(base, format, kind, a), directory)
}

/// The names in the output directory before event `i`.
pub open spec fn directory_at(
    states: Seq<ExportRun>,
    events: Seq<ExportEvent>,
    start: Set<Seq<char>>,
    i: int,
) -> Set<Seq<char>>
    decreases i,
{
    if i <= 0 {
        start
    } else {
        let before = directory_at(states, events, start, i - 1);
        match (states[i - 1].stage, events[i - 1]) {
            (
                ExportStage::Publishing(run),
                ExportEvent::Published(event),
            ) => publish::directory_after(run, event, before),
            _ => before,
        }
    }
}

/// Whether the output directory works throughout an export, and nobody else
/// changes it.
pub open spec fn directory_works(
    states: Seq<ExportRun>,
    events: Seq<ExportEvent>,
    start: Set<Seq<char>>,
) -> bool {
    forall|i: int|
        0 <= i < events.len() ==> match (states[i].stage, #[trigger] events[i]) {
            (ExportStage::Publishing(run), ExportEvent::Published(event)) => publish::works(
                run,
                event,
                directory_at(states, events, start, i),
            ),
            _ => true,
        }
}

/// Whether the file names of an export start with `base`: its prefix, or else the
/// one that its moment of capture gives.
pub open spec fn has_base(states: Seq<ExportRun>, base: Seq<char>) -> bool {
    forall|i: int|
        0 <= i < states.len() ==> match (#[trigger] states[i]).stage {
            ExportStage::Staging { index, time } => base == splitter::base_name(
                text::optional_view(states[i].prefix),
                time,
            ),
            ExportStage::StagingPreview { time } => base == splitter::base_name(
                text::optional_view(states[i].prefix),
                time,
            ),
            _ => true,
        }
}

/// Whether a directory holds what another held, and these names.
pub open spec fn is_joined_by(
    directory: Set<Seq<char>>,
    start: Set<Seq<char>>,
    names: Seq<Seq<char>>,
) -> bool {
    forall|name: Seq<char>| #[trigger]
        directory.contains(name) <==> start.contains(name) || names.contains(name)
}

/// What an export has come to in its output directory.
pub open spec fn directory_result(
    run: ExportRun,
    base: Seq<char>,
    start: Set<Seq<char>>,
    directory: Set<Seq<char>>,
) -> bool {
    match run.stage {
        ExportStage::Publishing(publication) => {
            &&& is_group(publication.outputs@, base, run.config.output_format, run.kind)
            &&& publish::keeps_directory(publication, start, directory)
        },
        ExportStage::Finished(Ok(list)) => exists|attempt: nat| #[trigger]
            is_first_free(base, run.config.output_format, run.kind, attempt, start)
                && text::string_views(list@) == export_names(
                base,
                run.config.output_format,
                run.kind,
                attempt,
            ) && is_joined_by(directory, start, text::string_views(list@)),
        _ => directory == start,
    }
}

proof fn lemma_finished_publication(
    run: PublishRun,
    result: Result<Vec<String>, SplitError>,
    base: Seq<char>,
    format: OutputFormat,
    kind: ExportKind,
    start: Set<Seq<char>>,
    directory: Set<Seq<char>>,
)
    requires
        is_group(run.outputs@, base, format, kind),
        publish::keeps_directory(run, start, directory),
        run.stage == PublishStage::Finished(result),
    ensures
        result matches Ok(list) ==> is_first_free(base, format, kind, run.attempt as nat, start)
            && text::string_views(list@) == export_names(base, format, kind, run.attempt as nat)
            && is_joined_by(directory, start, text::string_views(list@)),
        result is Err ==> directory == start,
{
    let outputs = run.outputs@;
    let attempt = run.attempt as nat;
    lemma_group_names(outputs, base, format, kind, attempt);
    match result {
        Ok(list) => {
            let names = export_names(base, format, kind, attempt);
            assert(are_free(names, start)) by {
                assert forall|i: int| 0 <= i < names.len() implies !start.contains(
                    #[trigger] names[i],
                ) by {
                    assert(outputs[i].name(attempt) == names[i]);
                }
            }
            assert forall|a: nat| 1 <= a < attempt implies !are_free(
                #[trigger] export_names(base, format, kind, a),
                start,
            ) by {
                lemma_group_names(outputs, base, format, kind, a);
                assert(!publish::is_free(outputs, a, start));
                let j = choose|j: int|
                    0 <= j < outputs.len() && start.contains(#[trigger] outputs[j].name(a));
                assert(export_names(base, format, kind, a)[j] == outputs[j].name(a));
            }
            let given = publish::first_names(outputs, attempt, outputs.len() as int);
            assert forall|name: Seq<char>| #[trigger]
                directory.contains(name) <==> start.contains(name) || names.contains(name) by {
                if given.contains(name) {
                    let j = choose|j: int|
                        0 <= j < outputs.len() && name == #[trigger] outputs[j].name(attempt);
                    assert(names[j] == name);
                }
                if names.contains(name) {
                    let j = choose|j: int| 0 <= j < names.len() && names[j] == name;
                    assert(outputs[j].name(attempt) == name);
                    assert(given.contains(name));
                }
            }
        },
        Err(_) => {
            assert(directory =~= start);
        },
    }
}

/// An export in a directory that works takes the first names that are all free,
/// and touches nothing else: the directory then holds what it held before and
/// those names; and an export that fails leaves the directory as it was.
pub proof fn lemma_export_takes_first_free_names(
    states: Seq<ExportRun>,
    events: Seq<ExportEvent>,
    base: Seq<char>,
    start: Set<Seq<char>>,
    i: int,
)
    requires
        is_export_history(states, events),
        has_base(states, base),
        directory_works(states, events, start),
        0 <= i < states.len(),
    ensures
        directory_result(states[i], base, start, directory_at(states, events, start, i)),
        states[i].config == states[0].config,
        states[i].kind == states[0].kind,
        states[i].prefix == states[0].prefix,
    decreases i,
{
    if i > 0 {
        lemma_export_takes_first_free_names(states, events, base, start, i - 1);
        let before = states[i - 1];
        let event = events[i - 1];
        let next = states[i];
        let directory = directory_at(states, events, start, i - 1);
        assert(before.follows(event, states[i - 1 + 1]));
        let format = before.config.output_format;
        match before.stage {
            ExportStage::Publishing(run) => {
                if let ExportEvent::Published(happened) = event {
                    lemma_group_names(run.outputs@, base, format, before.kind, 1);
                    match next.stage {
                        ExportStage::Publishing(later) => {
                            publish::lemma_step_keeps_directory(
                                run,
                                happened,
                                later,
                                start,
                                directory,
                            );
                        },
                        ExportStage::Finished(result) => {
                            let later = choose|later: PublishRun| #[trigger]
                                run.follows(happened, later) && later.stage
                                    == PublishStage::Finished(result);
                            publish::lemma_step_keeps_directory(
                                run,
                                happened,
                                later,
                                start,
                                directory,
                            );
                            lemma_finished_publication(
                                later,
                                result,
                                base,
                                format,
                                before.kind,
                                start,
                                directory_at(states, events, start, i),
                            );
                        },
                        _ => {},
                    }
                }
            },
            _ => {
                if let ExportStage::Publishing(run) = next.stage {
                    publish::lemma_starts_with_directory(run, start);
                }
            },
        }
    }
}

/// No name of an export's first attempt is a name of a later attempt.
pub proof fn lemma_later_names_are_new(
    base: Seq<char>,
    format: OutputFormat,
    kind: ExportKind,
    attempt: nat,
    i: int,
    j: int,
)
    requires
        attempt > 1,
        0 <= i < file_count(kind),
        0 <= j < file_count(kind),
    ensures
        export_names(base, format, kind, 1)[i] != export_names(base, format, kind, attempt)[j],
{
    reveal_strlit("_");
    reveal_strlit(".");
    reveal_strlit("_vorschau");
    let a = export_names(base, format, kind, 1)[i];
    let b = export_names(base, format, kind, attempt)[j];
    match kind {
        ExportKind::FullScan => {
            if a == b {
                publish::lemma_attempts_have_new_names(
                    base,
                    export_extension(format, kind, 0),
                    1,
                    attempt,
                );
            }
        },
        ExportKind::Photos { count, preview } => {
            let start = base.len() + 1;
            let m = text::padded((i + 1) as nat, 2);
            let n = text::padded((j + 1) as nat, 2);
            splitter::lemma_padded_digits((i + 1) as nat);
            splitter::lemma_padded_digits((j + 1) as nat);
            if i < count {
                assert forall|k: int| 0 <= k < m.len() implies a[start + k] == m[k] by {}
                assert(a[start + m.len() as int] == '.');
                assert(text::is_digit(m[0]));
                assert(a[start as int + 0] == m[0]);
            } else {
                assert(a[start as int] == 'v');
            }
            if j < count {
                assert forall|k: int| 0 <= k < n.len() implies b[start + k] == n[k] by {}
                assert(b[start + n.len() as int] == '_');
                assert(text::is_digit(n[0]));
                assert(b[start as int + 0] == n[0]);
            } else {
                assert(b[start as int] == 'v');
            }
            if a == b {
                if i < count && j < count {
                    if n.len() < m.len() {
                        assert(text::is_digit(m[n.len() as int]));
                        assert(a[start + n.len() as int] == m[n.len() as int]);
                    } else if n.len() > m.len() {
                        assert(text::is_digit(n[m.len() as int]));
                        assert(b[start + m.len() as int] == n[m.len() as int]);
                    }
                } else {
                    publish::lemma_attempts_have_new_names(
                        base + "_vorschau"@,
                        "jpg"@,
                        1,
                        attempt,
                    );
                }
            }
        },
    }
}

/// Exporting the same again overwrites nothing: where the names of the first two
/// attempts were free before the first of two exports with the same base, and the
/// second finds the directory as the first left it, both have as many files, each file of the
/// second has the stem of the first one's with `_2` behind it, no name is in
/// both, and the names of both are in the directory at the end.
pub proof fn lemma_second_export_gets_new_names(
    first: Seq<ExportRun>,
    first_events: Seq<ExportEvent>,
    second: Seq<ExportRun>,
    second_events: Seq<ExportEvent>,
    base: Seq<char>,
    start: Set<Seq<char>>,
    first_list: Vec<String>,
    second_list: Vec<String>,
)
    requires
        is_export_history(first, first_events),
        is_export_history(second, second_events),
        second[0].config == first[0].config,
        second[0].kind == first[0].kind,
        has_base(first, base),
        has_base(second, base),
        are_free(export_names(base, first[0].config.output_format, first[0].kind, 1), start),
        are_free(export_names(base, first[0].config.output_format, first[0].kind, 2), start),
        directory_works(first, first_events, start),
        directory_works(
            second,
            second_events,
            directory_at(first, first_events, start, first_events.len() as int),
        ),
        first.last().stage == ExportStage::Finished(Ok(first_list)),
        second.last().stage == ExportStage::Finished(Ok(second_list)),
    ensures
        first_list@.len() == file_count(first[0].kind),
        second_list@.len() == first_list@.len(),
        forall|i: int|
            #![trigger first_list@[i]]
            #![trigger second_list@[i]]
            0 <= i < first_list@.len() ==> {
                let stem = export_stem(base, first[0].kind, i);
                let extension = export_extension(
                    first[0].config.output_format,
                    first[0].kind,
                    i,
                );
                &&& first_list@[i]@ == stem + "."@ + extension
                &&& second_list@[i]@ == stem + "_2"@ + "."@ + extension
            },
        forall|i: int, j: int|
            0 <= i < first_list@.len() && 0 <= j < second_list@.len() ==> #[trigger]
            first_list@[i]@ != #[trigger] second_list@[j]@,
        ({
            let between = directory_at(first, first_events, start, first_events.len() as int);
            let end = directory_at(second, second_events, between, second_events.len() as int);
            &&& forall|i: int|
                0 <= i < first_list@.len() ==> end.contains(#[trigger] first_list@[i]@)
            &&& forall|i: int|
                0 <= i < second_list@.len() ==> end.contains(#[trigger] second_list@[i]@)
            &&& forall|name: Seq<char>| #[trigger] start.contains(name) ==> end.contains(name)
        }),
{
    let format = first[0].config.output_format;
    let kind = first[0].kind;
    let between = directory_at(first, first_events, start, first_events.len() as int);
    let end = directory_at(second, second_events, between, second_events.len() as int);
    lemma_export_takes_first_free_names(
        first,
        first_events,
        base,
        start,
        first_events.len() as int,
    );
    lemma_export_takes_first_free_names(
        second,
        second_events,
        base,
        between,
        second_events.len() as int,
    );
    let ones = export_names(base, format, kind, 1);
    let twos = export_names(base, format, kind, 2);
    let a = choose|a: nat| #[trigger]
        is_first_free(base, format, kind, a, start) && text::string_views(first_list@)
            == export_names(base, format, kind, a) && is_joined_by(
            between,
            start,
            text::string_views(first_list@),
        );
    assert(a == 1) by {
        if a > 1 {
            assert(!are_free(export_names(base, format, kind, 1), start));
        }
    }
    let b = choose|b: nat| #[trigger]
        is_first_free(base, format, kind, b, between) && text::string_views(second_list@)
            == export_names(base, format, kind, b) && is_joined_by(
            end,
            between,
            text::string_views(second_list@),
        );
    let ours = text::string_views(first_list@);
    let theirs = text::string_views(second_list@);
    assert(first[0].well_formed());
    assert(ones.len() > 0);
    assert(ours.contains(ones[0])) by {
        assert(ours[0] == ones[0]);
    }
    assert(between.contains(ones[0]));
    assert(!are_free(ones, between));
    assert(are_free(twos, between)) by {
        assert forall|j: int| 0 <= j < twos.len() implies !between.contains(#[trigger] twos[j]) by {
            if ours.contains(twos[j]) {
                let i = choose|i: int| 0 <= i < ours.len() && ours[i] == twos[j];
                lemma_later_names_are_new(base, format, kind, 2, i, j);
            }
        }
    }
    assert(b == 2) by {
        if b > 2 {
            assert(!are_free(export_names(base, format, kind, 2), between));
        }
    }
    reveal_strlit("_");
    reveal_strlit("_2");
    assert(text::decimal(2) =~= seq!['2']);
    assert forall|i: int| 0 <= i < first_list@.len() implies {
        let stem = export_stem(base, kind, i);
        let extension = export_extension(format, kind, i);
        &&& #[trigger] first_list@[i]@ == stem + "."@ + extension
        &&& second_list@[i]@ == stem + "_2"@ + "."@ + extension
    } by {
        let stem = export_stem(base, kind, i);
        assert(ours[i] == first_list@[i]@);
        assert(theirs[i] == second_list@[i]@);
        assert(stem + "_"@ + text::decimal(2) =~= stem + "_2"@);
    }
    assert forall|i: int, j: int|
        0 <= i < first_list@.len() && 0 <= j < second_list@.len() implies #[trigger]
    first_list@[i]@ != #[trigger] second_list@[j]@ by {
        assert(ours[i] == first_list@[i]@);
        assert(theirs[j] == second_list@[j]@);
        lemma_later_names_are_new(base, format, kind, 2, i, j);
    }
    assert forall|i: int| 0 <= i < first_list@.len() implies end.contains(
        #[trigger] first_list@[i]@,
    ) by {
        assert(ours[i] == first_list@[i]@);
        assert(ours.contains(first_list@[i]@));
        assert(between.contains(first_list@[i]@));
    }
    assert forall|i: int| 0 <= i < second_list@.len() implies end.contains(
        #[trigger] second_list@[i]@,
    ) by {
        assert(theirs[i] == second_list@[i]@);
        assert(theirs.contains(second_list@[i]@));
    }
    assert forall|name: Seq<char>| #[trigger] start.contains(name) implies end.contains(name) by {
        assert(between.contains(name));
    }
}

/// An export is begun exactly if the settings and the prefix are accepted, there
/// is a photo, and a preview has a region for each photo. It writes the chosen
/// resolution, and that of the scan where none is chosen.
pub proof fn lemma_begun_exports(
    config: &SplitConfig,
    prefix: Option<&str>,
    photos: usize,
    preview_regions: Option<usize>,
    embedded_dpi: Option<u32>,
    export: Result<ExportRun, SplitError>,
    full: Result<ExportRun, SplitError>,
)
    requires
        photos < usize::MAX,
        call_ensures(export_photos, (config, prefix, photos, preview_regions, embedded_dpi), export),
        call_ensures(save_full_scan, (config, prefix, embedded_dpi), full),
    ensures
        full is Ok <==> config.complaint() is None && (prefix matches Some(prefix)
            ==> splitter::is_safe_prefix(prefix)),
        export is Ok <==> full is Ok && photos > 0 && (preview_regions matches Some(regions)
            ==> regions == photos),
        export matches Err(error) && error is NothingDetected <==> full is Ok && photos == 0,
        full matches Err(error) ==> error is InvalidConfig,
        export matches Ok(run) ==> run.kind.images() == photos && (run.kind.has_preview()
            <==> preview_regions is Some),
        full matches Ok(run) ==> run.kind is FullScan,
        export matches Ok(run) ==> run.config == *config && (config.dpi is Some ==> run.dpi
            == config.dpi) && (config.dpi is None ==> run.dpi == embedded_dpi),
        full matches Ok(run) ==> run.config == *config && (config.dpi is Some ==> run.dpi
            == config.dpi) && (config.dpi is None ==> run.dpi == embedded_dpi),
        full matches Ok(run) ==> (run.prefix is Some <==> prefix is Some) && (prefix matches Some(
            prefix,
        ) ==> run.prefix->0@ == prefix@),
{
}

/// An export is dated by the present moment, or by the moment on the chosen day;
/// a day without such a moment ends it. All images are staged one after the other,
/// then the preview; and a failed step ends the export with its error.
pub proof fn lemma_export_steps(run: ExportRun, event: ExportEvent, next: ExportRun)
    requires
        run.well_formed(),
        run.follows(event, next),
    ensures
        event matches ExportEvent::Dated { now, resolved } ==> {
            let time = if run.config.capture_date is None {
                Some(now)
            } else {
                resolved
            };
            &&& time is None ==> next.stage == ExportStage::Finished(Err(SplitError::InvalidDate))
            &&& time matches Some(time) ==> next.stage == (ExportStage::Staging { index: 0, time })
        },
        event matches ExportEvent::Prepared(Err(failure)) ==> next.stage == ExportStage::Finished(
            Err(SplitError::Io(failure.message)),
        ),
        event matches ExportEvent::Staged(Err(error)) ==> next.stage == ExportStage::Finished(
            Err(error),
        ),
        event matches ExportEvent::Staged(Ok(_)) ==> match run.stage {
            ExportStage::Staging { index, time } => if index + 1 < run.kind.images() {
                next.stage == (ExportStage::Staging { index: (index + 1) as usize, time })
            } else {
                next.stage is StagingPreview || next.stage is Publishing
            },
            _ => next.stage is Publishing,
        },
        next.stage is StagingPreview ==> run.kind.has_preview(),
        run.stage is Staging && next.stage is Publishing ==> !run.kind.has_preview(),
        next.config == run.config && next.kind == run.kind && next.dpi == run.dpi,
{
}

} // verus!
