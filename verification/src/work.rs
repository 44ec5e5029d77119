//! The work of the interface in the background: scanning, preparing a review,
//! and saving, with looks at the cancellation signal in between.

use crate::gui::ScanMode;
use crate::review;
use crate::review::Review;
use crate::splitter;
use vstd::prelude::*;

verus! {

/// Why work ended without a result.
#[derive(Debug)]
pub enum WorkError {
    /// The operation was cancelled.
    Cancelled,
    /// There is no file to show.
    NoPreview,
    /// No photo on the scan is large enough.
    NoPhotos,
    /// A step failed, with this message.
    Failed(String),
}

/// What saving a scan left on the disk.
#[derive(Debug)]
pub struct Saved {
    /// The files with the whole scan or with its photos, in order.
    pub files: Vec<String>,
    /// The file with the marked photos.
    pub preview: Option<String>,
}

impl Saved {
    /// The file to show: the marked photos, or else the first file.
    pub open spec fn shown(self) -> Option<String> {
        match self.preview {
            Some(preview) => Some(preview),
            None => if self.files@.len() > 0 {
                Some(self.files@[0])
            } else {
                None
            },
        }
    }
}

/// The file to show: the marked photos, or else the first file.
pub fn preview_source(saved: &Saved) -> (r: Option<String>)
    ensures
        r == saved.shown(),
{
    match &saved.preview {
        Some(preview) => Some(preview.clone()),
        None => if saved.files.len() > 0 {
            Some(saved.files[0].clone())
        } else {
            None
        },
    }
}

/// How far the saving of a scan has come.
#[derive(Debug)]
pub enum SavingStage {
    /// The scan has to be saved, as a whole or as its photos.
    Saving,
    /// It has to be found out whether the operation was cancelled.
    Checking(Saved),
    /// A preview has to be made.
    Previewing {
        /// How many files there are.
        count: usize,
        /// The file to make it of.
        source: String,
    },
    /// The saving is over; where it succeeded, with the number of files.
    Finished(Result<usize, WorkError>),
}

/// What the program did for the saving of a scan.
#[derive(Debug)]
pub enum SavingEvent {
    /// It saved the scan, or failed to.
    Saved(Result<Saved, String>),
    /// It found out whether the operation was cancelled.
    Checked {
        /// Whether it was.
        cancelled: bool,
    },
    /// It made the preview, or failed to.
    Previewed(Result<(), String>),
}

impl SavingStage {
    /// Whether an event is the outcome of what was asked for.
    pub open spec fn expects(self, event: SavingEvent) -> bool {
        match (self, event) {
            (SavingStage::Saving, SavingEvent::Saved(_)) => true,
            (SavingStage::Checking(_), SavingEvent::Checked { cancelled }) => true,
            (SavingStage::Previewing { count, source }, SavingEvent::Previewed(_)) => true,
            _ => false,
        }
    }

    /// The stage after an event that it expects.
    pub open spec fn after(self, event: SavingEvent) -> SavingStage {
        match (self, event) {
            (SavingStage::Saving, SavingEvent::Saved(Ok(saved))) => SavingStage::Checking(saved),
            (SavingStage::Saving, SavingEvent::Saved(Err(error))) => SavingStage::Finished(
                Err(WorkError::Failed(error)),
            ),
            (SavingStage::Checking(saved), SavingEvent::Checked { cancelled }) => if cancelled {
                SavingStage::Finished(Err(WorkError::Cancelled))
            } else {
                match saved.shown() {
                    Some(source) => SavingStage::Previewing { count: saved.files.len(), source },
                    None => SavingStage::Finished(Err(WorkError::NoPreview)),
                }
            },
            (
                SavingStage::Previewing { count, source },
                SavingEvent::Previewed(Ok(_)),
            ) => SavingStage::Finished(Ok(count)),
            (
                SavingStage::Previewing { count, source },
                SavingEvent::Previewed(Err(error)),
            ) => SavingStage::Finished(Err(WorkError::Failed(error))),
            _ => self,
        }
    }

    /// Takes the outcome of what was asked for.
    pub fn advance(self, event: SavingEvent) -> (r: SavingStage)
        requires
            self.expects(event),
        ensures
            r == self.after(event),
    {
        match self {
            SavingStage::Saving => match event {
                SavingEvent::Saved(Ok(saved)) => SavingStage::Checking(saved),
                SavingEvent::Saved(Err(error)) => SavingStage::Finished(
                    Err(WorkError::Failed(error)),
                ),
                _ => SavingStage::Saving,
            },
            SavingStage::Checking(saved) => match event {
                SavingEvent::Checked { cancelled } => if cancelled {
                    SavingStage::Finished(Err(WorkError::Cancelled))
                } else {
                    match preview_source(&saved) {
                        Some(source) => SavingStage::Previewing {
                            count: saved.files.len(),
                            source,
                        },
                        None => SavingStage::Finished(Err(WorkError::NoPreview)),
                    }
                },
                _ => SavingStage::Checking(saved),
            },
            SavingStage::Previewing { count, source } => match event {
                SavingEvent::Previewed(Ok(_)) => SavingStage::Finished(Ok(count)),
                SavingEvent::Previewed(Err(error)) => SavingStage::Finished(
                    Err(WorkError::Failed(error)),
                ),
                _ => SavingStage::Previewing { count, source },
            },
            SavingStage::Finished(result) => SavingStage::Finished(result),
        }
    }
}

/// What a scan led to.
#[derive(Clone, Copy, Debug, PartialEq, Eq, Structural)]
pub enum ScanEnd {
    /// Its photos are ready for review.
    Review,
    /// So many files were saved.
    Saved(usize),
}

/// How far a scan with all that follows has come.
#[derive(Debug)]
pub enum ScanWorkStage {
    /// It has to be found out whether the operation was cancelled, before the scan.
    Checking,
    /// The scan has to be made.
    Scanning,
    /// It has to be found out whether the operation was cancelled, after the scan.
    CheckingScan,
    /// The review has to be prepared.
    Reviewing,
    /// The scan has to be saved.
    Saving(SavingStage),
    /// The work is over.
    Finished(Result<ScanEnd, WorkError>),
}

/// What the program did for a scan.
#[derive(Debug)]
pub enum ScanWorkEvent {
    /// It found out whether the operation was cancelled.
    Checked {
        /// Whether it was.
        cancelled: bool,
    },
    /// It made the scan, or failed to.
    Scanned(Result<(), String>),
    /// It prepared the review, or failed to.
    Reviewed(Result<(), String>),
    /// It did something for the saving.
    Saving(SavingEvent),
}

/// The stage of a scan that is being saved: over when the saving is.
pub open spec fn saving_stage(stage: SavingStage) -> ScanWorkStage {
    match stage {
        SavingStage::Finished(Ok(count)) => ScanWorkStage::Finished(Ok(ScanEnd::Saved(count))),
        SavingStage::Finished(Err(error)) => ScanWorkStage::Finished(Err(error)),
        _ => ScanWorkStage::Saving(stage),
    }
}

impl ScanWorkStage {
    /// Whether an event is the outcome of what was asked for.
    pub open spec fn expects(self, event: ScanWorkEvent) -> bool {
        match (self, event) {
            (ScanWorkStage::Checking, ScanWorkEvent::Checked { cancelled }) => true,
            (ScanWorkStage::Scanning, ScanWorkEvent::Scanned(_)) => true,
            (ScanWorkStage::CheckingScan, ScanWorkEvent::Checked { cancelled }) => true,
            (ScanWorkStage::Reviewing, ScanWorkEvent::Reviewed(_)) => true,
            (ScanWorkStage::Saving(stage), ScanWorkEvent::Saving(event)) => stage.expects(event),
            _ => false,
        }
    }

    /// The stage after an event that it expects.
    pub open spec fn after(self, event: ScanWorkEvent, mode: ScanMode) -> ScanWorkStage {
        match (self, event) {
            (ScanWorkStage::Checking, ScanWorkEvent::Checked { cancelled }) => if cancelled {
                ScanWorkStage::Finished(Err(WorkError::Cancelled))
            } else {
                ScanWorkStage::Scanning
            },
            (ScanWorkStage::Scanning, ScanWorkEvent::Scanned(Ok(_))) => ScanWorkStage::CheckingScan,
            (ScanWorkStage::Scanning, ScanWorkEvent::Scanned(Err(error))) => ScanWorkStage::Finished(
                Err(WorkError::Failed(error)),
            ),
            (ScanWorkStage::CheckingScan, ScanWorkEvent::Checked { cancelled }) => if cancelled {
                ScanWorkStage::Finished(Err(WorkError::Cancelled))
            } else if mode is Review {
                ScanWorkStage::Reviewing
            } else {
                ScanWorkStage::Saving(SavingStage::Saving)
            },
            (ScanWorkStage::Reviewing, ScanWorkEvent::Reviewed(Ok(_))) => ScanWorkStage::Finished(
                Ok(ScanEnd::Review),
            ),
            (
                ScanWorkStage::Reviewing,
                ScanWorkEvent::Reviewed(Err(error)),
            ) => ScanWorkStage::Finished(Err(WorkError::Failed(error))),
            (ScanWorkStage::Saving(stage), ScanWorkEvent::Saving(event)) => saving_stage(
                stage.after(event),
            ),
            _ => self,
        }
    }

    /// Takes the outcome of what was asked for, in a scan of this mode.
    pub fn advance(self, event: ScanWorkEvent, mode: ScanMode) -> (r: ScanWorkStage)
        requires
            self.expects(event),
        ensures
            r == self.after(event, mode),
    {
        match self {
            ScanWorkStage::Checking => match event {
                ScanWorkEvent::Checked { cancelled } => if cancelled {
                    ScanWorkStage::Finished(Err(WorkError::Cancelled))
                } else {
                    ScanWorkStage::Scanning
                },
                _ => ScanWorkStage::Checking,
            },
            ScanWorkStage::Scanning => match event {
                ScanWorkEvent::Scanned(Ok(_)) => ScanWorkStage::CheckingScan,
                ScanWorkEvent::Scanned(Err(error)) => ScanWorkStage::Finished(
                    Err(WorkError::Failed(error)),
                ),
                _ => ScanWorkStage::Scanning,
            },
            ScanWorkStage::CheckingScan => match event {
                ScanWorkEvent::Checked { cancelled } => if cancelled {
                    ScanWorkStage::Finished(Err(WorkError::Cancelled))
                } else {
                    match mode {
                        ScanMode::Review => ScanWorkStage::Reviewing,
                        _ => ScanWorkStage::Saving(SavingStage::Saving),
                    }
                },
                _ => ScanWorkStage::CheckingScan,
            },
            ScanWorkStage::Reviewing => match event {
                ScanWorkEvent::Reviewed(Ok(_)) => ScanWorkStage::Finished(Ok(ScanEnd::Review)),
                ScanWorkEvent::Reviewed(Err(error)) => ScanWorkStage::Finished(
                    Err(WorkError::Failed(error)),
                ),
                _ => ScanWorkStage::Reviewing,
            },
            ScanWorkStage::Saving(stage) => match event {
                ScanWorkEvent::Saving(event) => match stage.advance(event) {
                    SavingStage::Finished(Ok(count)) => ScanWorkStage::Finished(
                        Ok(ScanEnd::Saved(count)),
                    ),
                    SavingStage::Finished(Err(error)) => ScanWorkStage::Finished(Err(error)),
                    next => ScanWorkStage::Saving(next),
                },
                _ => ScanWorkStage::Saving(stage),
            },
            ScanWorkStage::Finished(result) => ScanWorkStage::Finished(result),
        }
    }
}

/// A scan with all that follows.
pub fn scan_work() -> (r: ScanWorkStage)
    ensures
        r is Checking,
{
    ScanWorkStage::Checking
}

/// How far the preparation of a scan for review has come.
#[derive(Debug)]
pub enum PrepareStage {
    /// It has to be found out whether the operation was cancelled, before the
    /// region with this index.
    Checking(usize),
    /// The region with this index has to be cut out.
    Cutting(usize),
    /// The photo of the region with this index has to be stored, with a thumbnail.
    Storing(usize),
    /// The overview has to be drawn.
    Drawing,
    /// The preparation is over.
    Finished(Result<(), WorkError>),
}

/// What the program did for the preparation.
#[derive(Debug)]
pub enum PrepareEvent {
    /// It found out whether the operation was cancelled.
    Checked {
        /// Whether it was.
        cancelled: bool,
    },
    /// It cut a photo with so many rows and columns, or failed to.
    Cut(Result<(i32, i32), String>),
    /// It stored the photo, or failed to.
    Stored(Result<(), String>),
    /// It drew the overview, or failed to.
    Drawn(Result<(), String>),
}

/// The preparation of a scan for review.
#[derive(Debug)]
pub struct PrepareRun {
    /// How many regions there are.
    pub total: usize,
    /// The regions whose photos are kept, in order.
    pub kept: Vec<usize>,
    /// How far it has come.
    pub stage: PrepareStage,
}

/// The stage when the regions before `index` are done and `kept` of them are kept.
pub open spec fn preparing_from(index: int, total: usize, kept: nat) -> PrepareStage {
    if index < total {
        PrepareStage::Checking(index as usize)
    } else if kept == 0 {
        PrepareStage::Finished(Err(WorkError::NoPhotos))
    } else {
        PrepareStage::Drawing
    }
}

/// The stage when the regions before `index` are done and `kept` of them are kept.
fn prepare_from(index: usize, total: usize, kept: usize) -> (r: PrepareStage)
    ensures
        r == preparing_from(index as int, total, kept as nat),
{
    if index < total {
        PrepareStage::Checking(index)
    } else if kept == 0 {
        PrepareStage::Finished(Err(WorkError::NoPhotos))
    } else {
        PrepareStage::Drawing
    }
}

impl PrepareRun {
    /// Whether the index is within the regions.
    pub open spec fn well_formed(self) -> bool {
        match self.stage {
            PrepareStage::Checking(index) => index < self.total,
            PrepareStage::Cutting(index) => index < self.total,
            PrepareStage::Storing(index) => index < self.total,
            _ => true,
        }
    }

    /// Whether an event is the outcome of what was asked for.
    pub open spec fn expects(self, event: PrepareEvent) -> bool {
        match (self.stage, event) {
            (PrepareStage::Checking(_), PrepareEvent::Checked { cancelled }) => true,
            (PrepareStage::Cutting(_), PrepareEvent::Cut(_)) => true,
            (PrepareStage::Storing(_), PrepareEvent::Stored(_)) => true,
            (PrepareStage::Drawing, PrepareEvent::Drawn(_)) => true,
            _ => false,
        }
    }

    /// Whether `next` is the preparation after an event that it expects. Photos
    /// that are too small are left out.
    pub open spec fn follows(self, event: PrepareEvent, next: PrepareRun) -> bool {
        &&& next.total == self.total
        &&& match (self.stage, event) {
            (PrepareStage::Checking(index), PrepareEvent::Checked { cancelled }) => {
                &&& next.kept@ == self.kept@
                &&& next.stage == if cancelled {
                    PrepareStage::Finished(Err(WorkError::Cancelled))
                } else {
                    PrepareStage::Cutting(index)
                }
            },
            (PrepareStage::Cutting(index), PrepareEvent::Cut(Ok((rows, cols)))) => {
                &&& next.kept@ == self.kept@
                &&& next.stage == if splitter::is_large_enough(rows, cols) {
                    PrepareStage::Storing(index)
                } else {
                    preparing_from(index + 1, self.total, self.kept@.len())
                }
            },
            (PrepareStage::Storing(index), PrepareEvent::Stored(Ok(_))) => {
                &&& next.kept@ == self.kept@.push(index)
                &&& next.stage == preparing_from(index + 1, self.total, self.kept@.len() + 1)
            },
            (PrepareStage::Drawing, PrepareEvent::Drawn(Ok(_))) => {
                &&& next.kept@ == self.kept@
                &&& next.stage == PrepareStage::Finished(Ok(()))
            },
            (PrepareStage::Cutting(_), PrepareEvent::Cut(Err(error)))
            | (PrepareStage::Storing(_), PrepareEvent::Stored(Err(error)))
            | (PrepareStage::Drawing, PrepareEvent::Drawn(Err(error))) => {
                &&& next.kept@ == self.kept@
                &&& next.stage == PrepareStage::Finished(Err(WorkError::Failed(error)))
            },
            _ => false,
        }
    }

    /// Takes the outcome of what was asked for.
    pub fn advance(self, event: PrepareEvent) -> (r: PrepareRun)
        requires
            self.well_formed(),
            self.expects(event),
        ensures
            r.well_formed(),
            self.follows(event, r),
    {
        let PrepareRun { total, kept, stage } = self;
        let mut kept = kept;
        let stage = match (stage, event) {
            (PrepareStage::Checking(index), PrepareEvent::Checked { cancelled }) => if cancelled {
                PrepareStage::Finished(Err(WorkError::Cancelled))
            } else {
                PrepareStage::Cutting(index)
            },
            (PrepareStage::Cutting(index), PrepareEvent::Cut(Ok((rows, cols)))) => {
                if splitter::keeps_photo(rows, cols) {
                    PrepareStage::Storing(index)
                } else {
                    prepare_from(index + 1, total, kept.len())
                }
            },
            (PrepareStage::Storing(index), PrepareEvent::Stored(Ok(_))) => {
                kept.push(index);
                prepare_from(index + 1, total, kept.len())
            },
            (PrepareStage::Drawing, PrepareEvent::Drawn(Ok(_))) => PrepareStage::Finished(Ok(())),
            (_, PrepareEvent::Cut(Err(error)))
            | (_, PrepareEvent::Stored(Err(error)))
            | (_, PrepareEvent::Drawn(Err(error))) => PrepareStage::Finished(
                Err(WorkError::Failed(error)),
            ),
            (stage, _) => stage,
        };
        PrepareRun { total, kept, stage }
    }
}

/// The preparation of a scan with so many regions for review.
pub fn prepare_review(total: usize) -> (r: PrepareRun)
    ensures
        r.total == total,
        r.kept@ == Seq::<usize>::empty(),
        r.stage == preparing_from(0, total, 0),
        r.well_formed(),
{
    PrepareRun { total, kept: Vec::new(), stage: prepare_from(0, total, 0) }
}

/// How far the saving of a review has come.
#[derive(Debug)]
pub enum SaveReviewStage {
    /// It has to be found out whether the operation was cancelled, before the
    /// group with this index; after the last one, before the overview.
    Checking(usize),
    /// These photos of the group with this index have to be exported.
    Exporting {
        /// The group.
        group: usize,
        /// The photos, by their positions in the review.
        photos: Vec<usize>,
    },
    /// The exported files have to be put on one sheet.
    Composing,
    /// A preview of the sheet has to be made.
    Previewing,
    /// The saving is over; where it succeeded, with the number of files.
    Finished(Result<usize, WorkError>),
}

/// What the program did for the saving of a review.
#[derive(Debug)]
pub enum SaveReviewEvent {
    /// It found out whether the operation was cancelled.
    Checked {
        /// Whether it was.
        cancelled: bool,
    },
    /// It exported the photos to these files, or failed to.
    Exported(Result<Vec<String>, String>),
    /// It composed the sheet, or failed to.
    Composed(Result<(), String>),
    /// It made the preview, or failed to.
    Previewed(Result<(), String>),
}

/// The saving of a review.
#[derive(Debug)]
pub struct SaveReviewRun {
    /// The review.
    pub review: Review,
    /// How many groups there are.
    pub groups: usize,
    /// The files so far.
    pub files: Vec<String>,
    /// How far it has come.
    pub stage: SaveReviewStage,
}

impl SaveReviewRun {
    /// Whether the index is within the groups.
    pub open spec fn well_formed(self) -> bool {
        match self.stage {
            SaveReviewStage::Checking(group) => group <= self.groups,
            SaveReviewStage::Exporting { group, photos } => group < self.groups,
            _ => true,
        }
    }

    /// Whether an event is the outcome of what was asked for.
    pub open spec fn expects(self, event: SaveReviewEvent) -> bool {
        match (self.stage, event) {
            (SaveReviewStage::Checking(_), SaveReviewEvent::Checked { cancelled }) => true,
            (
                SaveReviewStage::Exporting { group, photos },
                SaveReviewEvent::Exported(_),
            ) => true,
            (SaveReviewStage::Composing, SaveReviewEvent::Composed(_)) => true,
            (SaveReviewStage::Previewing, SaveReviewEvent::Previewed(_)) => true,
            _ => false,
        }
    }

    /// Whether `stage` comes after the look at the signal before a group: its
    /// chosen photos are exported, if there are any.
    pub open spec fn is_group_stage(self, group: usize, stage: SaveReviewStage) -> bool {
        let chosen = review::selected_of(self.review.photos@, group);
        if group < self.groups {
            if chosen.len() == 0 {
                stage == SaveReviewStage::Checking((group + 1) as usize)
            } else {
                stage matches SaveReviewStage::Exporting { group: found, photos } && found == group
                    && photos@ == chosen
            }
        } else if self.files@.len() == 0 {
            stage == SaveReviewStage::Finished(Err(WorkError::NoPreview))
        } else {
            stage is Composing
        }
    }

    /// Whether `next` is the saving after an event that it expects.
    pub open spec fn follows(self, event: SaveReviewEvent, next: SaveReviewRun) -> bool {
        &&& next.review == self.review
        &&& next.groups == self.groups
        &&& match (self.stage, event) {
            (SaveReviewStage::Checking(group), SaveReviewEvent::Checked { cancelled }) => {
                &&& next.files@ == self.files@
                &&& if cancelled {
                    next.stage == SaveReviewStage::Finished(Err(WorkError::Cancelled))
                } else {
                    self.is_group_stage(group, next.stage)
                }
            },
            (
                SaveReviewStage::Exporting { group, photos },
                SaveReviewEvent::Exported(Ok(files)),
            ) => {
                &&& next.files@ == self.files@ + files@
                &&& next.stage == SaveReviewStage::Checking((group + 1) as usize)
            },
            (SaveReviewStage::Composing, SaveReviewEvent::Composed(Ok(_))) => {
                &&& next.files@ == self.files@
                &&& next.stage is Previewing
            },
            (SaveReviewStage::Previewing, SaveReviewEvent::Previewed(Ok(_))) => {
                &&& next.files@ == self.files@
                &&& next.stage == SaveReviewStage::Finished(Ok(self.files.len()))
            },
            (SaveReviewStage::Exporting { .. }, SaveReviewEvent::Exported(Err(error)))
            | (SaveReviewStage::Composing, SaveReviewEvent::Composed(Err(error)))
            | (SaveReviewStage::Previewing, SaveReviewEvent::Previewed(Err(error))) => {
                &&& next.files@ == self.files@
                &&& next.stage == SaveReviewStage::Finished(Err(WorkError::Failed(error)))
            },
            _ => false,
        }
    }

    /// Takes the outcome of what was asked for.
    pub fn advance(self, event: SaveReviewEvent) -> (r: SaveReviewRun)
        requires
            self.well_formed(),
            self.expects(event),
        ensures
            r.well_formed(),
            self.follows(event, r),
    {
        let SaveReviewRun { review, groups, files, stage } = self;
        let mut files = files;
        let stage = match (stage, event) {
            (SaveReviewStage::Checking(group), SaveReviewEvent::Checked { cancelled }) => {
                if cancelled {
                    SaveReviewStage::Finished(Err(WorkError::Cancelled))
                } else if group < groups {
                    let photos = review.selected(group);
                    if photos.len() == 0 {
                        SaveReviewStage::Checking(group + 1)
                    } else {
                        SaveReviewStage::Exporting { group, photos }
                    }
                } else if files.len() == 0 {
                    SaveReviewStage::Finished(Err(WorkError::NoPreview))
                } else {
                    SaveReviewStage::Composing
                }
            },
            (
                SaveReviewStage::Exporting { group, photos: _ },
                SaveReviewEvent::Exported(Ok(exported)),
            ) => {
                let mut exported = exported;
                files.append(&mut exported);
                SaveReviewStage::Checking(group + 1)
            },
            (SaveReviewStage::Composing, SaveReviewEvent::Composed(Ok(_))) => {
                SaveReviewStage::Previewing
            },
            (SaveReviewStage::Previewing, SaveReviewEvent::Previewed(Ok(_))) => {
                SaveReviewStage::Finished(Ok(files.len()))
            },
            (_, SaveReviewEvent::Exported(Err(error)))
            | (_, SaveReviewEvent::Composed(Err(error)))
            | (_, SaveReviewEvent::Previewed(Err(error))) => SaveReviewStage::Finished(
                Err(WorkError::Failed(error)),
            ),
            (stage, _) => stage,
        };
        SaveReviewRun { review, groups, files, stage }
    }
}

impl SaveReviewRun {
    /// The files that have to be put on one sheet: those that were exported, and
    /// nothing of the scans that they were cut out of.
    pub fn sheet_files(&self) -> (r: &Vec<String>)
        requires
            self.stage is Composing,
        ensures
            r@ == self.files@,
    {
        &self.files
    }
}

/// The saving of a review of so many scans.
pub fn save_review_work(review: Review, groups: usize) -> (r: SaveReviewRun)
    ensures
        r.review == review,
        r.groups == groups,
        r.files@ == Seq::<String>::empty(),
        r.stage == SaveReviewStage::Checking(0),
        r.well_formed(),
{
    SaveReviewRun { review, groups, files: Vec::new(), stage: SaveReviewStage::Checking(0) }
}

/// Whether `states` are the states of a saving through `events`, from its start.
pub open spec fn is_saving_history(
    states: Seq<SaveReviewRun>,
    events: Seq<SaveReviewEvent>,
) -> bool {
    &&& states.len() == events.len() + 1
    &&& states[0].files@ == Seq::<String>::empty()
    &&& states[0].stage == SaveReviewStage::Checking(0)
    &&& forall|i: int|
        0 <= i < events.len() ==> #[trigger] states[i].follows(events[i], states[i + 1])
}

/// The photos that were exported in the events up to `i`, in order.
pub open spec fn exported_in(
    states: Seq<SaveReviewRun>,
    events: Seq<SaveReviewEvent>,
    i: int,
) -> Seq<usize>
    decreases i,
{
    if i <= 0 {
        Seq::empty()
    } else {
        exported_in(states, events, i - 1) + match (states[i - 1].stage, events[i - 1]) {
            (
                SaveReviewStage::Exporting { group, photos },
                SaveReviewEvent::Exported(Ok(_)),
            ) => photos@,
            _ => Seq::empty(),
        }
    }
}

/// The files that were made in the events up to `i`, in order.
pub open spec fn files_in(events: Seq<SaveReviewEvent>, i: int) -> Seq<String>
    decreases i,
{
    if i <= 0 {
        Seq::empty()
    } else {
        files_in(events, i - 1) + match events[i - 1] {
            SaveReviewEvent::Exported(Ok(files)) => files@,
            _ => Seq::empty(),
        }
    }
}

/// The chosen photos of the groups before `group`, group by group.
pub open spec fn chosen_before(photos: Seq<review::ReviewPhoto>, group: int) -> Seq<usize>
    decreases group,
{
    if group <= 0 {
        Seq::empty()
    } else {
        chosen_before(photos, group - 1) + review::selected_of(photos, (group - 1) as usize)
    }
}

/// A review is saved as it was made: when the saving is through with a group, the
/// photos that were exported are the chosen ones of this and the earlier groups,
/// in order; a saving that succeeds has exported all of them, and counts the
/// files that this gave. The sheet, and so the preview, shows these files, and
/// there is at least one.
pub proof fn lemma_review_is_saved_as_chosen(
    states: Seq<SaveReviewRun>,
    events: Seq<SaveReviewEvent>,
    i: int,
)
    requires
        is_saving_history(states, events),
        0 <= i < states.len(),
    ensures
        states[i].review == states[0].review,
        states[i].groups == states[0].groups,
        states[i].files@ == files_in(events, i),
        states[i].stage matches SaveReviewStage::Checking(group) ==> group <= states[i].groups
            && exported_in(states, events, i) == chosen_before(
            states[0].review.photos@,
            group as int,
        ),
        states[i].stage matches SaveReviewStage::Exporting { group, photos } ==> group
            < states[i].groups && exported_in(states, events, i) == chosen_before(
            states[0].review.photos@,
            group as int,
        ) && photos@ == review::selected_of(states[0].review.photos@, group),
        states[i].stage is Composing || states[i].stage is Previewing ==> exported_in(
            states,
            events,
            i,
        ) == chosen_before(states[0].review.photos@, states[0].groups as int) && files_in(
            events,
            i,
        ).len() > 0,
        states[i].stage matches SaveReviewStage::Finished(Ok(count)) ==> exported_in(
            states,
            events,
            i,
        ) == chosen_before(states[0].review.photos@, states[0].groups as int) && count == files_in(
            events,
            i,
        ).len() && count > 0,
    decreases i,
{
    if i > 0 {
        lemma_review_is_saved_as_chosen(states, events, i - 1);
        let before = states[i - 1];
        assert(before.follows(events[i - 1], states[i - 1 + 1]));
        let done = exported_in(states, events, i - 1);
        let photos = states[0].review.photos@;
        assert(done + Seq::<usize>::empty() =~= done);
        let made = files_in(events, i - 1);
        assert(made + Seq::<String>::empty() =~= made);
        match before.stage {
            SaveReviewStage::Checking(group) => {
                if group < before.groups {
                    let chosen = review::selected_of(photos, group);
                    if chosen.len() == 0 {
                        assert(chosen_before(photos, group as int) + chosen =~= chosen_before(
                            photos,
                            group as int,
                        ));
                    }
                }
            },
            _ => {},
        }
    }
}

/// Cancelled work ends at the next look at the signal: whatever the work, a look
/// that finds the signal ends it without a result.
pub proof fn lemma_cancelled_work_ends(
    saved: Saved,
    stage: ScanWorkStage,
    mode: ScanMode,
    prepare: PrepareRun,
    prepared: PrepareRun,
    saving: SaveReviewRun,
    next: SaveReviewRun,
)
    requires
        stage is Checking || stage is CheckingScan,
        prepare.stage is Checking,
        prepare.follows(PrepareEvent::Checked { cancelled: true }, prepared),
        saving.stage is Checking,
        saving.follows(SaveReviewEvent::Checked { cancelled: true }, next),
    ensures
        SavingStage::Checking(saved).after(SavingEvent::Checked { cancelled: true })
            == SavingStage::Finished(Err(WorkError::Cancelled)),
        stage.after(ScanWorkEvent::Checked { cancelled: true }, mode) == ScanWorkStage::Finished(
            Err(WorkError::Cancelled),
        ),
        prepared.stage == PrepareStage::Finished(Err(WorkError::Cancelled)),
        next.stage == SaveReviewStage::Finished(Err(WorkError::Cancelled)),
        next.files@ == saving.files@,
{
}

/// Whether `states` are the states of a preparation through `events`, from its
/// start.
pub open spec fn is_preparation(states: Seq<PrepareRun>, events: Seq<PrepareEvent>) -> bool {
    &&& states.len() == events.len() + 1
    &&& states[0].kept@.len() == 0
    &&& states[0].stage == preparing_from(0, states[0].total, 0)
    &&& forall|i: int|
        0 <= i < events.len() ==> #[trigger] states[i].follows(events[i], states[i + 1])
}

/// A review shows the regions in their order: the photos that are kept are those
/// of regions that the preparation is through with, in the order of the regions,
/// none twice; and a review that is ready has at least one photo.
pub proof fn lemma_review_keeps_the_order(
    states: Seq<PrepareRun>,
    events: Seq<PrepareEvent>,
    i: int,
)
    requires
        is_preparation(states, events),
        0 <= i < states.len(),
    ensures
        states[i].total == states[0].total,
        forall|j: int, k: int|
            0 <= j < k < states[i].kept@.len() ==> states[i].kept@[j] < states[i].kept@[k],
        forall|j: int| 0 <= j < states[i].kept@.len() ==> states[i].kept@[j] < states[i].total,
        match states[i].stage {
            PrepareStage::Checking(index)
            | PrepareStage::Cutting(index)
            | PrepareStage::Storing(index) => index < states[i].total && forall|j: int|
                0 <= j < states[i].kept@.len() ==> states[i].kept@[j] < index,
            PrepareStage::Drawing | PrepareStage::Finished(Ok(_)) => states[i].kept@.len() > 0,
            PrepareStage::Finished(Err(_)) => true,
        },
    decreases i,
{
    if i > 0 {
        lemma_review_keeps_the_order(states, events, i - 1);
        assert(states[i - 1].follows(events[i - 1], states[i - 1 + 1]));
    }
}

/// Saving a scan: where nothing fails or is cancelled it ends with the number of
/// files that were saved; the file shown is the one with the marked photos, or
/// else the first; and a step that fails ends it with its message.
pub proof fn lemma_saved_scans(saved: Saved, error: String)
    ensures
        ({
            let checked = SavingStage::Saving.after(SavingEvent::Saved(Ok(saved))).after(
                SavingEvent::Checked { cancelled: false },
            );
            let failed = Err::<usize, WorkError>(WorkError::Failed(error));
            &&& SavingStage::Saving.after(SavingEvent::Saved(Err(error))) == SavingStage::Finished(
                failed,
            )
            &&& saved.preview is None && saved.files@.len() == 0 ==> checked
                == SavingStage::Finished(Err(WorkError::NoPreview))
            &&& saved.preview is Some || saved.files@.len() > 0 ==> {
                &&& checked matches SavingStage::Previewing { count, source }
                &&& source == if saved.preview is Some {
                    saved.preview->0
                } else {
                    saved.files@[0]
                }
                &&& checked.after(SavingEvent::Previewed(Ok(()))) matches SavingStage::Finished(
                    result,
                )
                &&& result matches Ok(told)
                &&& told == saved.files@.len()
                &&& checked.after(SavingEvent::Previewed(Err(error))) == SavingStage::Finished(
                    failed,
                )
            }
        }),
{
}

/// Scanning: the scan is made unless it is cancelled before, and is reviewed or
/// saved unless it is cancelled by then; and a step that fails ends the work with
/// its message.
pub proof fn lemma_scanned_images(mode: ScanMode, start: ScanWorkStage, error: String)
    requires
        call_ensures(scan_work, (), start),
    ensures
        ({
            let scanning = start.after(ScanWorkEvent::Checked { cancelled: false }, mode);
            let scanned = scanning.after(ScanWorkEvent::Scanned(Ok(())), mode);
            let going_on = scanned.after(ScanWorkEvent::Checked { cancelled: false }, mode);
            let failed = ScanWorkStage::Finished(Err(WorkError::Failed(error)));
            &&& scanning is Scanning
            &&& scanning.after(ScanWorkEvent::Scanned(Err(error)), mode) == failed
            &&& mode is Review ==> going_on is Reviewing
            &&& mode is Review ==> going_on.after(ScanWorkEvent::Reviewed(Ok(())), mode)
                == ScanWorkStage::Finished(Ok(ScanEnd::Review))
            &&& mode is Review ==> going_on.after(ScanWorkEvent::Reviewed(Err(error)), mode)
                == failed
            &&& !(mode is Review) ==> going_on == ScanWorkStage::Saving(SavingStage::Saving)
            &&& !(mode is Review) ==> going_on.after(
                ScanWorkEvent::Saving(SavingEvent::Saved(Err(error))),
                mode,
            ) == failed
        }),
{
}

/// Saving within the work goes on as saving does, and its end is the end of the
/// work, with the same number of files or the same error.
pub proof fn lemma_saving_ends_the_work(stage: SavingStage, event: SavingEvent, mode: ScanMode)
    ensures
        ({
            let next = ScanWorkStage::Saving(stage).after(ScanWorkEvent::Saving(event), mode);
            &&& next is Finished <==> stage.after(event) is Finished
            &&& stage.after(event) matches SavingStage::Finished(Ok(count)) ==> next
                == ScanWorkStage::Finished(Ok(ScanEnd::Saved(count)))
            &&& stage.after(event) matches SavingStage::Finished(Err(error)) ==> next
                == ScanWorkStage::Finished(Err(error))
            &&& !(stage.after(event) is Finished) ==> next == ScanWorkStage::Saving(
                stage.after(event),
            )
        }),
{
}

/// A photo is kept for review exactly if both its sides have ten pixels or more,
/// and the next one follows; after the last one there has to be one that is kept.
pub proof fn lemma_photos_for_review(
    run: PrepareRun,
    index: usize,
    rows: i32,
    cols: i32,
    cut: PrepareRun,
    stored: PrepareRun,
)
    requires
        run.stage == PrepareStage::Cutting(index),
        run.well_formed(),
        run.follows(PrepareEvent::Cut(Ok((rows, cols))), cut),
        rows >= 10 && cols >= 10 ==> cut.follows(PrepareEvent::Stored(Ok(())), stored),
        !(rows >= 10 && cols >= 10) ==> stored == cut,
    ensures
        rows >= 10 && cols >= 10 ==> cut.stage == PrepareStage::Storing(index) && stored.kept@
            == run.kept@.push(index),
        !(rows >= 10 && cols >= 10) ==> stored.kept@ == run.kept@,
        index + 1 < run.total ==> stored.stage == PrepareStage::Checking((index + 1) as usize),
        index + 1 == run.total && stored.kept@.len() == 0 ==> stored.stage
            == PrepareStage::Finished(Err(WorkError::NoPhotos)),
        index + 1 == run.total && stored.kept@.len() > 0 ==> stored.stage is Drawing,
{
}

/// A failed step of the preparation of a review, or of its saving, ends it with
/// its message; and a drawn overview ends the preparation well.
pub proof fn lemma_failed_steps(
    prepare: PrepareRun,
    prepare_event: PrepareEvent,
    prepared: PrepareRun,
    save: SaveReviewRun,
    save_event: SaveReviewEvent,
    saved: SaveReviewRun,
    error: String,
)
    requires
        prepare.follows(prepare_event, prepared),
        save.follows(save_event, saved),
    ensures
        prepare_event == PrepareEvent::Cut(Err(error)) || prepare_event == PrepareEvent::Stored(
            Err(error),
        ) || prepare_event == PrepareEvent::Drawn(Err(error)) ==> prepared.stage
            == PrepareStage::Finished(Err(WorkError::Failed(error))),
        prepare_event == PrepareEvent::Drawn(Ok(())) ==> prepared.stage == PrepareStage::Finished(
            Ok(()),
        ),
        save_event == SaveReviewEvent::Exported(Err(error)) || save_event
            == SaveReviewEvent::Composed(Err(error)) || save_event == SaveReviewEvent::Previewed(
            Err(error),
        ) ==> saved.stage == SaveReviewStage::Finished(Err(WorkError::Failed(error))),
{
}

} // verus!
