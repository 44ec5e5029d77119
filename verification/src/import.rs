//! Working through several scan files: what is done for each, what is counted,
//! and what is reported when all are done.

use vstd::prelude::*;

verus! {

/// What became of a file.
#[derive(Debug)]
pub enum Processed {
    /// It gave so many photos.
    Done(usize),
    /// It failed: whether by then the operation had been cancelled, and the line
    /// that tells of the failure.
    Failed {
        /// Whether the operation had been cancelled.
        cancelled: bool,
        /// The line.
        line: String,
    },
}

/// What became of all files.
#[derive(Debug)]
pub enum Outcome {
    /// The operation was cancelled.
    Cancelled,
    /// No file could be processed.
    NothingDone,
    /// At least one file could be processed.
    Done {
        /// The last file that could be.
        last: usize,
    },
}

/// How far the work has come.
#[derive(Debug)]
pub enum ImportStage {
    /// It has to be found out whether the operation was cancelled, before the
    /// file with this index; after the last one, before the result.
    Checking(usize),
    /// The file with this index has to be processed.
    Processing(usize),
    /// The work is over.
    Finished(Outcome),
}

/// What the program did.
#[derive(Debug)]
pub enum ImportEvent {
    /// It found out whether the operation was cancelled.
    Checked {
        /// Whether it was.
        cancelled: bool,
    },
    /// It processed a file.
    Processed(Processed),
}

/// Work on several scan files.
#[derive(Debug)]
pub struct ImportRun {
    /// How many files there are.
    pub total: usize,
    /// How many photos there are so far.
    pub photos: usize,
    /// The last file that could be processed.
    pub last: Option<usize>,
    /// The lines that tell of failures.
    pub failures: Vec<String>,
    /// How far the work has come.
    pub stage: ImportStage,
}

impl ImportRun {
    /// Whether the index is within the files.
    pub open spec fn well_formed(self) -> bool {
        match self.stage {
            ImportStage::Checking(index) => index <= self.total,
            ImportStage::Processing(index) => index < self.total,
            ImportStage::Finished(_) => true,
        }
    }

    /// Whether an event is the outcome of what was asked for.
    pub open spec fn expects(self, event: ImportEvent) -> bool {
        match (self.stage, event) {
            (ImportStage::Checking(_), ImportEvent::Checked { cancelled }) => true,
            (ImportStage::Processing(_), ImportEvent::Processed(processed)) => processed matches
                Processed::Done(count) ==> self.photos + count <= usize::MAX,
            _ => false,
        }
    }

    /// Whether the counts are as they were.
    pub open spec fn same_counts(self, next: ImportRun) -> bool {
        &&& next.photos == self.photos
        &&& next.last == self.last
        &&& next.failures@ == self.failures@
    }

    /// Whether `next` is the work after an event that it expects. A file that
    /// fails is noted, and the work goes on, unless the operation was cancelled.
    pub open spec fn follows(self, event: ImportEvent, next: ImportRun) -> bool {
        &&& next.total == self.total
        &&& match (self.stage, event) {
            (ImportStage::Checking(index), ImportEvent::Checked { cancelled }) => {
                &&& self.same_counts(next)
                &&& next.stage == if cancelled {
                    ImportStage::Finished(Outcome::Cancelled)
                } else if index < self.total {
                    ImportStage::Processing(index)
                } else {
                    match self.last {
                        Some(last) => ImportStage::Finished(Outcome::Done { last }),
                        None => ImportStage::Finished(Outcome::NothingDone),
                    }
                }
            },
            (
                ImportStage::Processing(index),
                ImportEvent::Processed(Processed::Done(count)),
            ) => {
                &&& next.photos == self.photos + count
                &&& next.last == Some(index)
                &&& next.failures@ == self.failures@
                &&& next.stage == ImportStage::Checking((index + 1) as usize)
            },
            (
                ImportStage::Processing(index),
                ImportEvent::Processed(Processed::Failed { cancelled, line }),
            ) => if cancelled {
                &&& self.same_counts(next)
                &&& next.stage == ImportStage::Finished(Outcome::Cancelled)
            } else {
                &&& next.photos == self.photos
                &&& next.last == self.last
                &&& next.failures@ == self.failures@.push(line)
                &&& next.stage == ImportStage::Checking((index + 1) as usize)
            },
            _ => false,
        }
    }

    /// Takes the outcome of what was asked for.
    pub fn advance(self, event: ImportEvent) -> (r: ImportRun)
        requires
            self.well_formed(),
            self.expects(event),
        ensures
            r.well_formed(),
            self.follows(event, r),
    {
        let ImportRun { total, photos, last, failures, stage } = self;
        match stage {
            ImportStage::Checking(index) => {
                let cancelled = match event {
                    ImportEvent::Checked { cancelled } => cancelled,
                    ImportEvent::Processed(_) => false,
                };
                let stage = if cancelled {
                    ImportStage::Finished(Outcome::Cancelled)
                } else if index < total {
                    ImportStage::Processing(index)
                } else {
                    match last {
                        Some(last) => ImportStage::Finished(Outcome::Done { last }),
                        None => ImportStage::Finished(Outcome::NothingDone),
                    }
                };
                ImportRun { total, photos, last, failures, stage }
            },
            ImportStage::Processing(index) => match event {
                ImportEvent::Processed(Processed::Done(count)) => ImportRun {
                    total,
                    photos: photos + count,
                    last: Some(index),
                    failures,
                    stage: ImportStage::Checking(index + 1),
                },
                ImportEvent::Processed(Processed::Failed { cancelled, line }) => {
                    if cancelled {
                        ImportRun {
                            total,
                            photos,
                            last,
                            failures,
                            stage: ImportStage::Finished(Outcome::Cancelled),
                        }
                    } else {
                        let mut failures = failures;
                        failures.push(line);
                        ImportRun {
                            total,
                            photos,
                            last,
                            failures,
                            stage: ImportStage::Checking(index + 1),
                        }
                    }
                },
                ImportEvent::Checked { cancelled: _ } => ImportRun {
                    total,
                    photos,
                    last,
                    failures,
                    stage: ImportStage::Processing(index),
                },
            },
            ImportStage::Finished(outcome) => ImportRun {
                total,
                photos,
                last,
                failures,
                stage: ImportStage::Finished(outcome),
            },
        }
    }

    /// Whether this is the start of the work on so many files.
    pub open spec fn is_fresh(self, total: usize) -> bool {
        &&& self.total == total
        &&& self.photos == 0
        &&& self.last is None
        &&& self.failures@.len() == 0
        &&& self.stage == ImportStage::Checking(0)
    }
}

/// Work on so many scan files.
pub fn start_import(total: usize) -> (r: ImportRun)
    ensures
        r.is_fresh(total),
        r.well_formed(),
{
    ImportRun {
        total,
        photos: 0,
        last: None,
        failures: Vec::new(),
        stage: ImportStage::Checking(0),
    }
}

/// Whether `states` are the states of the work through `events`, from its start.
pub open spec fn is_import_history(states: Seq<ImportRun>, events: Seq<ImportEvent>) -> bool {
    &&& states.len() == events.len() + 1
    &&& states[0].is_fresh(states[0].total)
    &&& forall|i: int|
        0 <= i < events.len() ==> #[trigger] states[i].follows(events[i], states[i + 1])
}

/// How many photos the events up to `i` gave.
pub open spec fn photos_in(events: Seq<ImportEvent>, i: int) -> int
    decreases i,
{
    if i <= 0 {
        0
    } else {
        photos_in(events, i - 1) + match events[i - 1] {
            ImportEvent::Processed(Processed::Done(count)) => count as int,
            _ => 0,
        }
    }
}

/// How many files were processed in the events up to `i`.
pub open spec fn processed_in(events: Seq<ImportEvent>, i: int) -> int
    decreases i,
{
    if i <= 0 {
        0
    } else {
        processed_in(events, i - 1) + if events[i - 1] is Processed {
            1int
        } else {
            0
        }
    }
}

/// How many files failed in the events up to `i`, other than by being cancelled.
pub open spec fn failed_in(events: Seq<ImportEvent>, i: int) -> int
    decreases i,
{
    if i <= 0 {
        0
    } else {
        failed_in(events, i - 1) + match events[i - 1] {
            ImportEvent::Processed(Processed::Failed { cancelled, line }) => if cancelled {
                0int
            } else {
                1
            },
            _ => 0,
        }
    }
}

/// The counts are right, and every file gets its turn: the photos are those that
/// the files gave, each failure is noted once, and work that ends without being
/// cancelled has processed every file once.
pub proof fn lemma_import_counts(states: Seq<ImportRun>, events: Seq<ImportEvent>, i: int)
    requires
        is_import_history(states, events),
        0 <= i < states.len(),
    ensures
        states[i].total == states[0].total,
        states[i].photos == photos_in(events, i),
        states[i].failures@.len() == failed_in(events, i),
        states[i].stage matches ImportStage::Checking(index) ==> index == processed_in(events, i)
            && index <= states[i].total,
        states[i].stage matches ImportStage::Processing(index) ==> index == processed_in(events, i)
            && index < states[i].total,
        states[i].stage matches ImportStage::Finished(outcome) ==> (!(outcome is Cancelled)
            ==> processed_in(events, i) == states[i].total),
        states[i].stage matches ImportStage::Finished(outcome) ==> (outcome is NothingDone
            ==> states[i].failures@.len() == states[i].total),
        states[i].last is None ==> !(states[i].stage is Finished) ==> states[i].failures@.len()
            == processed_in(events, i),
    decreases i,
{
    if i > 0 {
        lemma_import_counts(states, events, i - 1);
        assert(states[i - 1].follows(events[i - 1], states[i - 1 + 1]));
    }
}

/// The lines of the failures in the first events, in order.
pub open spec fn lines_in(events: Seq<ImportEvent>, i: int) -> Seq<String>
    decreases i,
{
    if i <= 0 {
        Seq::empty()
    } else {
        match events[i - 1] {
            ImportEvent::Processed(Processed::Failed { cancelled: false, line }) => lines_in(
                events,
                i - 1,
            ).push(line),
            _ => lines_in(events, i - 1),
        }
    }
}

/// Whether a file was processed.
pub open spec fn is_done(event: ImportEvent) -> bool {
    event matches ImportEvent::Processed(Processed::Done(_))
}

/// Whether the operation was found to be cancelled.
pub open spec fn finds_cancelled(event: ImportEvent) -> bool {
    match event {
        ImportEvent::Checked { cancelled } => cancelled,
        ImportEvent::Processed(Processed::Failed { cancelled, line }) => cancelled,
        _ => false,
    }
}

/// All failures are told in their order, but for that of a cancelled operation;
/// the file that is shown is the last one that could be processed; and the work
/// is cancelled exactly if it was found to be.
pub proof fn lemma_import_outcomes(states: Seq<ImportRun>, events: Seq<ImportEvent>, i: int)
    requires
        is_import_history(states, events),
        0 <= i < states.len(),
    ensures
        states[i].failures@ == lines_in(events, i),
        states[i].last is None ==> forall|j: int| 0 <= j < i ==> !#[trigger] is_done(events[j]),
        states[i].last matches Some(last) ==> exists|j: int|
            0 <= j < i && states[j].stage == ImportStage::Processing(last) && #[trigger] is_done(
                events[j],
            ) && forall|k: int| j < k < i ==> !#[trigger] is_done(events[k]),
        states[i].stage matches ImportStage::Finished(Outcome::Done { last }) ==> states[i].last
            == Some(last),
        states[i].stage matches ImportStage::Finished(Outcome::NothingDone) ==> states[i].last
            is None,
        states[i].stage == ImportStage::Finished(Outcome::Cancelled) <==> i > 0 && finds_cancelled(
            events[i - 1],
        ),
    decreases i,
{
    if i > 0 {
        lemma_import_outcomes(states, events, i - 1);
        assert(states[i - 1].follows(events[i - 1], states[i - 1 + 1]));
        if is_done(events[i - 1]) {
            assert(states[i - 1].stage == ImportStage::Processing(states[i].last->0));
        } else if states[i].last is Some {
            let last = states[i].last->0;
            assert(states[i - 1].last == Some(last));
            let j = choose|j: int|
                0 <= j < i - 1 && states[j].stage == ImportStage::Processing(last)
                    && #[trigger] is_done(events[j]) && forall|k: int|
                    j < k < i - 1 ==> !#[trigger] is_done(events[k]);
            assert(is_done(events[j]));
        }
    }
}

} // verus!
