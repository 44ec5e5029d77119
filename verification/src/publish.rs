//! Publishing a group of files together: all of them under free names, or none.
//!
//! A publication is a state machine: it tells which file operation comes next,
//! and takes the outcome of that operation.

use crate::failure::{Failure, FailureKind};
use crate::splitter::SplitError;
use crate::text;
use vstd::prelude::*;

verus! {

/// What a file that waits for its publication is to be called.
#[derive(Debug)]
pub struct StagedOutput {
    /// The name without its extension.
    pub stem: String,
    /// The extension, without a dot.
    pub extension: String,
}

impl StagedOutput {
    /// The name of the file at an attempt.
    pub open spec fn name(self, attempt: nat) -> Seq<char> {
        name_of(self.stem@, self.extension@, attempt)
    }
}

/// The name of a file at an attempt: from the second on, with the number of the
/// attempt.
pub open spec fn name_of(stem: Seq<char>, extension: Seq<char>, attempt: nat) -> Seq<char> {
    if attempt == 1 {
        stem + "."@ + extension
    } else {
        stem + "_"@ + text::decimal(attempt) + "."@ + extension
    }
}

/// The name of a file at an attempt.
pub fn output_path(output: &StagedOutput, attempt: usize) -> (r: String)
    ensures
        r@ == output.name(attempt as nat),
{
    let mut out = output.stem.clone();
    if attempt != 1 {
        out.append("_");
        out.append(&text::text_of(&text::to_decimal(attempt as u64)));
    }
    out.append(".");
    out.append(&output.extension);
    out
}

/// A file has a new name at each attempt.
pub proof fn lemma_attempts_have_new_names(
    stem: Seq<char>,
    extension: Seq<char>,
    first: nat,
    second: nat,
)
    requires
        name_of(stem, extension, first) == name_of(stem, extension, second),
    ensures
        first == second,
{
    reveal_strlit("_");
    reveal_strlit(".");
    text::lemma_decimal_read_back(first);
    text::lemma_decimal_read_back(second);
    let a = name_of(stem, extension, first);
    let b = name_of(stem, extension, second);
    let m = text::decimal(first);
    let n = text::decimal(second);
    let tail = 1 + extension.len();
    if first == 1 {
        assert(a.len() == stem.len() + tail);
        assert(second != 1 ==> b.len() == stem.len() + 1 + n.len() + tail);
    } else if second == 1 {
        assert(b.len() == stem.len() + tail);
        assert(a.len() == stem.len() + 1 + m.len() + tail);
    } else {
        assert(a.len() == stem.len() + 1 + m.len() + tail);
        assert(b.len() == stem.len() + 1 + n.len() + tail);
        assert(m =~= n) by {
            assert forall|i: int| 0 <= i < m.len() implies m[i] == n[i] by {
                assert(a[stem.len() + 1 + i] == m[i]);
                assert(b[stem.len() + 1 + i] == n[i]);
            }
        }
        text::lemma_decimal_injective(first, second);
    }
}

/// How far a publication has come.
#[derive(Debug)]
pub enum PublishStage {
    /// The file with this index has to get its name.
    Linking(usize),
    /// The files that got their names have to lose them again, since one could
    /// not get its own.
    RollingBack {
        /// How many files still have their names.
        left: usize,
        /// Why the name could not be given.
        cause: Failure,
        /// The first failure to take a name away.
        error: Option<Failure>,
    },
    /// The directory has to be written through to the disk.
    Syncing,
    /// All files have to lose their names again, since the directory could not
    /// be written through.
    Undoing {
        /// How many files still have their names.
        left: usize,
        /// Why the directory could not be written through.
        cause: Failure,
        /// The first failure to take a name away.
        error: Option<Failure>,
    },
    /// The publication is over; where it succeeded, with the names.
    Finished(Result<Vec<String>, SplitError>),
}

/// What the program did for a publication.
#[derive(Debug)]
pub enum PublishEvent {
    /// It gave a file its name, which no other file had, or failed to.
    Linked(Result<(), Failure>),
    /// It took a name away, or failed to.
    Removed(Result<(), Failure>),
    /// It wrote the directory through, or failed to.
    Synced(Result<(), Failure>),
}

/// What a publication asks for.
#[derive(Debug)]
pub enum PublishAction {
    /// Give a waiting file a name as well, but only if no file has that name.
    Link {
        /// The index of the file.
        index: usize,
        /// The name.
        name: String,
    },
    /// Take this name away.
    Remove(String),
    /// Write the directory through to the disk.
    Sync,
    /// Take the result.
    Finish,
}

/// A publication of a group of files.
#[derive(Debug)]
pub struct PublishRun {
    /// The files.
    pub outputs: Vec<StagedOutput>,
    /// The number of the attempt.
    pub attempt: usize,
    /// How far it has come.
    pub stage: PublishStage,
}

/// The names of all files at an attempt.
pub open spec fn names_at(outputs: Seq<StagedOutput>, attempt: nat) -> Seq<Seq<char>> {
    outputs.map_values(|output: StagedOutput| output.name(attempt))
}

/// The names of all files at an attempt.
fn names(outputs: &Vec<StagedOutput>, attempt: usize) -> (r: Vec<String>)
    ensures
        text::string_views(r@) == names_at(outputs@, attempt as nat),
{
    let mut out: Vec<String> = Vec::new();
    let mut i: usize = 0;
    while i < outputs.len()
        invariant
            i <= outputs.len(),
            out.len() == i,
            forall|j: int| 0 <= j < i ==> (#[trigger] out@[j])@ == outputs@[j].name(attempt as nat),
        decreases outputs.len() - i,
    {
        out.push(output_path(&outputs[i], attempt));
        i += 1;
    }
    assert(text::string_views(out@) =~= names_at(outputs@, attempt as nat));
    out
}

/// The failure of a publication whose files could not all lose their names
/// again.
pub open spec fn both_failed(cause: Seq<char>, error: Seq<char>) -> Seq<char> {
    "Veröffentlichen schlug fehl ("@ + cause + "); Zurückrollen schlug ebenfalls fehl ("@ + error
        + ")"@
}

/// The first failure, where taking a name away may be one more. That a name is
/// gone already is no failure.
pub open spec fn first_error(error: Option<Failure>, outcome: Result<(), Failure>) -> Option<
    Failure,
> {
    match (error, outcome) {
        (None, Err(failure)) => if failure.kind is NotFound {
            None
        } else {
            Some(failure)
        },
        _ => error,
    }
}

/// The first failure, where taking a name away may be one more.
fn keep_first(error: Option<Failure>, outcome: Result<(), Failure>) -> (r: Option<Failure>)
    ensures
        r == first_error(error, outcome),
{
    match error {
        Some(failure) => Some(failure),
        None => match outcome {
            Ok(()) => None,
            Err(failure) => match failure.kind {
                FailureKind::NotFound => None,
                FailureKind::AlreadyExists => Some(failure),
                FailureKind::Other => Some(failure),
            },
        },
    }
}

/// Whether the publication goes on like this after an attempt failed: with the
/// next attempt where a name was taken, else with the failure.
pub open spec fn is_settled(
    kind: FailureKind,
    message: Seq<char>,
    attempt: usize,
    next_attempt: usize,
    next: PublishStage,
) -> bool {
    if kind is AlreadyExists {
        if attempt < usize::MAX {
            next_attempt == attempt + 1 && next == PublishStage::Linking(0)
        } else {
            &&& next_attempt == attempt
            &&& next matches PublishStage::Finished(Err(SplitError::InvalidConfig(said)))
            &&& said@ == "Es konnte kein freier Dateiname ermittelt werden."@
        }
    } else {
        &&& next_attempt == attempt
        &&& next matches PublishStage::Finished(Err(SplitError::Io(said)))
        &&& said@ == message
    }
}

/// How the publication goes on after an attempt failed.
fn settle(failure: Failure, attempt: usize) -> (r: (usize, PublishStage))
    ensures
        is_settled(failure.kind, failure.message@, attempt, r.0, r.1),
{
    match failure.kind {
        FailureKind::AlreadyExists => if attempt < usize::MAX {
            (attempt + 1, PublishStage::Linking(0))
        } else {
            (
                attempt,
                PublishStage::Finished(
                    Err(
                        SplitError::InvalidConfig(
                            "Es konnte kein freier Dateiname ermittelt werden.".to_string(),
                        ),
                    ),
                ),
            )
        },
        FailureKind::NotFound => (
            attempt,
            PublishStage::Finished(Err(SplitError::Io(failure.message))),
        ),
        FailureKind::Other => (
            attempt,
            PublishStage::Finished(Err(SplitError::Io(failure.message))),
        ),
    }
}

/// Whether the publication goes on like this once all names of a failed attempt
/// have been taken away, or could not be.
pub open spec fn is_rolled_back(
    cause: Failure,
    error: Option<Failure>,
    attempt: usize,
    next_attempt: usize,
    next: PublishStage,
) -> bool {
    match error {
        None => is_settled(cause.kind, cause.message@, attempt, next_attempt, next),
        Some(failure) => is_settled(
            failure.kind,
            both_failed(cause.message@, failure.message@),
            attempt,
            next_attempt,
            next,
        ),
    }
}

/// How the publication goes on after the names of a failed attempt have been
/// taken away.
fn after_rollback(cause: Failure, error: Option<Failure>, attempt: usize) -> (r: (
    usize,
    PublishStage,
))
    ensures
        is_rolled_back(cause, error, attempt, r.0, r.1),
{
    match error {
        None => settle(cause, attempt),
        Some(failure) => {
            let mut message = "Veröffentlichen schlug fehl (".to_string();
            message.append(&cause.message);
            message.append("); Zurückrollen schlug ebenfalls fehl (");
            message.append(&failure.message);
            message.append(")");
            settle(Failure { kind: failure.kind, message }, attempt)
        },
    }
}

/// Whether the publication goes on like this once all names have been taken
/// away after the directory could not be written through.
pub open spec fn is_undone(cause: Failure, error: Option<Failure>, next: PublishStage) -> bool {
    &&& next matches PublishStage::Finished(Err(SplitError::Io(said)))
    &&& said@ == match error {
        Some(failure) => failure.message@,
        None => cause.message@,
    }
}

/// The end of a publication whose directory could not be written through.
fn after_undoing(cause: Failure, error: Option<Failure>) -> (r: PublishStage)
    ensures
        is_undone(cause, error, r),
{
    match error {
        Some(failure) => PublishStage::Finished(Err(SplitError::Io(failure.message))),
        None => PublishStage::Finished(Err(SplitError::Io(cause.message))),
    }
}

impl PublishRun {
    /// Whether the indices are within the group.
    pub open spec fn well_formed(self) -> bool {
        &&& self.attempt >= 1
        &&& match self.stage {
            PublishStage::Linking(index) => index < self.outputs@.len(),
            PublishStage::RollingBack { left, cause, error } => 0 < left < self.outputs@.len(),
            PublishStage::Syncing => true,
            PublishStage::Undoing { left, cause, error } => 0 < left <= self.outputs@.len(),
            PublishStage::Finished(_) => true,
        }
    }

    /// Whether an event is the outcome of what the publication asked for.
    pub open spec fn expects(self, event: PublishEvent) -> bool {
        match self.stage {
            PublishStage::Linking(_) => event is Linked,
            PublishStage::RollingBack { left, cause, error } => event is Removed,
            PublishStage::Syncing => event is Synced,
            PublishStage::Undoing { left, cause, error } => event is Removed,
            PublishStage::Finished(_) => false,
        }
    }

    /// Whether `next` is the publication after an event that it expects. A
    /// failed attempt takes away, from the last to the first, the names that it
    /// gave.
    pub open spec fn follows(self, event: PublishEvent, next: PublishRun) -> bool {
        let count = self.outputs@.len();
        &&& next.outputs == self.outputs
        &&& match (self.stage, event) {
            (PublishStage::Linking(index), PublishEvent::Linked(Ok(_))) => {
                &&& next.attempt == self.attempt
                &&& next.stage == if index + 1 < count {
                    PublishStage::Linking((index + 1) as usize)
                } else {
                    PublishStage::Syncing
                }
            },
            (PublishStage::Linking(index), PublishEvent::Linked(Err(failure))) => if index == 0 {
                is_settled(
                    failure.kind,
                    failure.message@,
                    self.attempt,
                    next.attempt,
                    next.stage,
                )
            } else {
                &&& next.attempt == self.attempt
                &&& next.stage == PublishStage::RollingBack {
                    left: index,
                    cause: failure,
                    error: None,
                }
            },
            (
                PublishStage::RollingBack { left, cause, error },
                PublishEvent::Removed(outcome),
            ) => if left > 1 {
                &&& next.attempt == self.attempt
                &&& next.stage == PublishStage::RollingBack {
                    left: (left - 1) as usize,
                    cause,
                    error: first_error(error, outcome),
                }
            } else {
                is_rolled_back(
                    cause,
                    first_error(error, outcome),
                    self.attempt,
                    next.attempt,
                    next.stage,
                )
            },
            (PublishStage::Syncing, PublishEvent::Synced(Ok(_))) => {
                &&& next.attempt == self.attempt
                &&& next.stage matches PublishStage::Finished(Ok(list))
                &&& text::string_views(list@) == names_at(self.outputs@, self.attempt as nat)
            },
            (PublishStage::Syncing, PublishEvent::Synced(Err(failure))) => {
                &&& next.attempt == self.attempt
                &&& if count == 0 {
                    is_undone(failure, None, next.stage)
                } else {
                    next.stage == PublishStage::Undoing {
                        left: self.outputs.len(),
                        cause: failure,
                        error: None,
                    }
                }
            },
            (PublishStage::Undoing { left, cause, error }, PublishEvent::Removed(outcome)) => {
                &&& next.attempt == self.attempt
                &&& if left > 1 {
                    next.stage == PublishStage::Undoing {
                        left: (left - 1) as usize,
                        cause,
                        error: first_error(error, outcome),
                    }
                } else {
                    is_undone(cause, first_error(error, outcome), next.stage)
                }
            },
            _ => false,
        }
    }

    /// Takes the outcome of what the publication asked for.
    pub fn advance(self, event: PublishEvent) -> (r: PublishRun)
        requires
            self.well_formed(),
            self.expects(event),
        ensures
            r.well_formed(),
            self.follows(event, r),
    {
        let PublishRun { outputs, attempt, stage } = self;
        let count: usize = outputs.len();
        match stage {
            PublishStage::Linking(index) => match event {
                PublishEvent::Linked(Ok(())) => if index + 1 < count {
                    PublishRun { outputs, attempt, stage: PublishStage::Linking(index + 1) }
                } else {
                    PublishRun { outputs, attempt, stage: PublishStage::Syncing }
                },
                PublishEvent::Linked(Err(failure)) => if index == 0 {
                    let (attempt, stage) = settle(failure, attempt);
                    PublishRun { outputs, attempt, stage }
                } else {
                    PublishRun {
                        outputs,
                        attempt,
                        stage: PublishStage::RollingBack {
                            left: index,
                            cause: failure,
                            error: None,
                        },
                    }
                },
                _ => PublishRun { outputs, attempt, stage: PublishStage::Linking(index) },
            },
            PublishStage::RollingBack { left, cause, error } => match event {
                PublishEvent::Removed(outcome) => {
                    let error = keep_first(error, outcome);
                    if left > 1 {
                        PublishRun {
                            outputs,
                            attempt,
                            stage: PublishStage::RollingBack { left: left - 1, cause, error },
                        }
                    } else {
                        let (attempt, stage) = after_rollback(cause, error, attempt);
                        PublishRun { outputs, attempt, stage }
                    }
                },
                _ => PublishRun {
                    outputs,
                    attempt,
                    stage: PublishStage::RollingBack { left, cause, error },
                },
            },
            PublishStage::Syncing => match event {
                PublishEvent::Synced(Err(failure)) => if count == 0 {
                    PublishRun { outputs, attempt, stage: after_undoing(failure, None) }
                } else {
                    PublishRun {
                        outputs,
                        attempt,
                        stage: PublishStage::Undoing { left: count, cause: failure, error: None },
                    }
                },
                _ => {
                    let list = names(&outputs, attempt);
                    PublishRun { outputs, attempt, stage: PublishStage::Finished(Ok(list)) }
                },
            },
            PublishStage::Undoing { left, cause, error } => match event {
                PublishEvent::Removed(outcome) => {
                    let error = keep_first(error, outcome);
                    if left > 1 {
                        PublishRun {
                            outputs,
                            attempt,
                            stage: PublishStage::Undoing { left: left - 1, cause, error },
                        }
                    } else {
                        PublishRun { outputs, attempt, stage: after_undoing(cause, error) }
                    }
                },
                _ => PublishRun {
                    outputs,
                    attempt,
                    stage: PublishStage::Undoing { left, cause, error },
                },
            },
            PublishStage::Finished(result) => PublishRun {
                outputs,
                attempt,
                stage: PublishStage::Finished(result),
            },
        }
    }

    /// Whether an action is what the publication asks for at this stage.
    pub open spec fn asks_for(self, action: PublishAction) -> bool {
        match self.stage {
            PublishStage::Linking(index) => {
                &&& action matches PublishAction::Link { index: chosen, name }
                &&& chosen == index
                &&& name@ == self.outputs@[index as int].name(self.attempt as nat)
            },
            PublishStage::RollingBack { left, cause, error } => {
                &&& action matches PublishAction::Remove(name)
                &&& name@ == self.outputs@[left - 1].name(self.attempt as nat)
            },
            PublishStage::Syncing => action is Sync,
            PublishStage::Undoing { left, cause, error } => {
                &&& action matches PublishAction::Remove(name)
                &&& name@ == self.outputs@[left - 1].name(self.attempt as nat)
            },
            PublishStage::Finished(_) => action is Finish,
        }
    }

    /// What comes next.
    pub fn action(&self) -> (r: PublishAction)
        requires
            self.well_formed(),
        ensures
            self.asks_for(r),
    {
        match &self.stage {
            PublishStage::Linking(index) => PublishAction::Link {
                index: *index,
                name: output_path(&self.outputs[*index], self.attempt),
            },
            PublishStage::RollingBack { left, cause: _, error: _ } => PublishAction::Remove(
                output_path(&self.outputs[*left - 1], self.attempt),
            ),
            PublishStage::Syncing => PublishAction::Sync,
            PublishStage::Undoing { left, cause: _, error: _ } => PublishAction::Remove(
                output_path(&self.outputs[*left - 1], self.attempt),
            ),
            PublishStage::Finished(_) => PublishAction::Finish,
        }
    }

    /// Whether this is the start of a publication.
    pub open spec fn is_fresh(self) -> bool {
        &&& self.attempt == 1
        &&& self.stage == if self.outputs@.len() > 0 {
            PublishStage::Linking(0)
        } else {
            PublishStage::Syncing
        }
    }
}

/// A publication of a group of files.
pub fn publish_staged_group(outputs: Vec<StagedOutput>) -> (r: PublishRun)
    ensures
        r.outputs == outputs,
        r.is_fresh(),
        r.well_formed(),
{
    let stage = if outputs.len() > 0 {
        PublishStage::Linking(0)
    } else {
        PublishStage::Syncing
    };
    PublishRun { outputs, attempt: 1, stage }
}

/// Whether `states` are the states of a publication through `events`, from its
/// start.
pub open spec fn is_history(states: Seq<PublishRun>, events: Seq<PublishEvent>) -> bool {
    &&& states.len() == events.len() + 1
    &&& states[0].is_fresh()
    &&& forall|i: int|
        0 <= i < events.len() ==> #[trigger] states[i].follows(events[i], states[i + 1])
}

/// The names that the publication has given and not taken away again before its
/// event `i`, each as the index of its file and the attempt. A name that was
/// gone already counts as taken away.
pub open spec fn held(states: Seq<PublishRun>, events: Seq<PublishEvent>, i: int) -> Set<(int, int)>
    decreases i,
{
    if i <= 0 {
        Set::empty()
    } else {
        let before = held(states, events, i - 1);
        let attempt = states[i - 1].attempt as int;
        match (states[i - 1].stage, events[i - 1]) {
            (PublishStage::Linking(index), PublishEvent::Linked(Ok(_))) => before.insert(
                (index as int, attempt),
            ),
            (
                PublishStage::RollingBack { left, cause, error },
                PublishEvent::Removed(outcome),
            ) => if first_error(None, outcome) is None {
                before.remove((left - 1, attempt))
            } else {
                before
            },
            (PublishStage::Undoing { left, cause, error }, PublishEvent::Removed(outcome)) =>
            if first_error(None, outcome) is None {
                before.remove((left - 1, attempt))
            } else {
                before
            },
            _ => before,
        }
    }
}

/// How many files hold a name of the present attempt.
pub open spec fn holding(run: PublishRun) -> int {
    match run.stage {
        PublishStage::Linking(index) => index as int,
        PublishStage::RollingBack { left, cause, error } => left as int,
        PublishStage::Syncing => run.outputs@.len() as int,
        PublishStage::Undoing { left, cause, error } => left as int,
        PublishStage::Finished(result) => if result is Ok {
            run.outputs@.len() as int
        } else {
            0
        },
    }
}

/// Whether every name that was to be taken away before event `i` is gone.
pub open spec fn all_removed(events: Seq<PublishEvent>, i: int) -> bool {
    forall|j: int|
        0 <= j < i ==> (#[trigger] events[j] matches PublishEvent::Removed(outcome) ==> first_error(
            None,
            outcome,
        ) is None)
}

proof fn lemma_held(states: Seq<PublishRun>, events: Seq<PublishEvent>, i: int)
    requires
        is_history(states, events),
        0 <= i < states.len(),
    ensures
        states[i].well_formed(),
        forall|j: int|
            0 <= j < holding(states[i]) ==> #[trigger] held(states, events, i).contains(
                (j, states[i].attempt as int),
            ),
        all_removed(events, i) ==> forall|j: int, a: int|
            #[trigger] held(states, events, i).contains((j, a)) ==> a == states[i].attempt && 0 <= j
                < holding(states[i]),
    decreases i,
{
    if i > 0 {
        lemma_held(states, events, i - 1);
        assert(states[i - 1].follows(events[i - 1], states[i - 1 + 1]));
        let before = held(states, events, i - 1);
        let now = held(states, events, i);
        let attempt = states[i - 1].attempt as int;
        assert forall|j: int| 0 <= j < holding(states[i]) implies #[trigger] now.contains(
            (j, states[i].attempt as int),
        ) by {
            if j < holding(states[i - 1]) {
                assert(before.contains((j, attempt)));
            }
        }
        if all_removed(events, i) {
            assert(all_removed(events, i - 1));
            assert(events[i - 1] matches PublishEvent::Removed(outcome) ==> first_error(
                None,
                outcome,
            ) is None);
            assert forall|j: int, a: int| #[trigger] now.contains((j, a)) implies a
                == states[i].attempt && 0 <= j < holding(states[i]) by {
                if before.contains((j, a)) {
                    assert(a == attempt && 0 <= j < holding(states[i - 1]));
                }
            }
        }
    }
}

/// A publication takes away only names that it has given itself.
pub proof fn lemma_removes_only_its_own(
    states: Seq<PublishRun>,
    events: Seq<PublishEvent>,
    i: int,
    index: int,
)
    requires
        is_history(states, events),
        0 <= i < states.len(),
        match states[i].stage {
            PublishStage::RollingBack { left, cause, error } => index == left - 1,
            PublishStage::Undoing { left, cause, error } => index == left - 1,
            _ => false,
        },
    ensures
        held(states, events, i).contains((index, states[i].attempt as int)),
{
    lemma_held(states, events, i);
}

/// A publication that fails leaves nothing behind, unless taking a name away
/// failed.
pub proof fn lemma_failure_leaves_nothing(states: Seq<PublishRun>, events: Seq<PublishEvent>)
    requires
        is_history(states, events),
        states.last().stage matches PublishStage::Finished(result) && result is Err,
        all_removed(events, events.len() as int),
    ensures
        held(states, events, events.len() as int) == Set::<(int, int)>::empty(),
{
    let i = events.len() as int;
    lemma_held(states, events, i);
    assert forall|pair: (int, int)| !held(states, events, i).contains(pair) by {
        let (j, a) = pair;
        assert(held(states, events, i).contains((j, a)) ==> 0 <= j < holding(states[i]));
    }
    assert(held(states, events, i) =~= Set::<(int, int)>::empty());
}

/// A publication that succeeds holds, for every file, the name of one and the
/// same attempt, and those names are its result.
pub proof fn lemma_success_publishes_all(states: Seq<PublishRun>, events: Seq<PublishEvent>, j: int)
    requires
        is_history(states, events),
        states.last().stage matches PublishStage::Finished(result) && result is Ok,
        0 <= j < states.last().outputs@.len(),
    ensures
        held(states, events, events.len() as int).contains((j, states.last().attempt as int)),
        states.last().stage matches PublishStage::Finished(Ok(list)) && list@.len()
            == states.last().outputs@.len() && list@[j]@ == states.last().outputs@[j].name(
            states.last().attempt as nat,
        ),
{
    let i = events.len() as int;
    lemma_held(states, events, i);
    assert(states[i - 1].follows(events[i - 1], states[i - 1 + 1]));
    match states.last().stage {
        PublishStage::Finished(Ok(list)) => {
            assert(text::string_views(list@) == names_at(
                states.last().outputs@,
                states.last().attempt as nat,
            ));
            assert(text::string_views(list@).len() == list@.len());
            assert(names_at(states.last().outputs@, states.last().attempt as nat).len()
                == states.last().outputs@.len());
            assert(text::string_views(list@)[j] == list@[j]@);
        },
        _ => {},
    }
}

/// Whether the names of all files at an attempt are free in a directory with
/// these names.
pub open spec fn is_free(
    outputs: Seq<StagedOutput>,
    attempt: nat,
    directory: Set<Seq<char>>,
) -> bool {
    forall|j: int|
        0 <= j < outputs.len() ==> !directory.contains(#[trigger] outputs[j].name(attempt))
}

/// The names of the first files at an attempt.
pub open spec fn first_names(outputs: Seq<StagedOutput>, attempt: nat, count: int) -> Set<
    Seq<char>,
> {
    Set::new(
        |name: Seq<char>|
            exists|j: int| 0 <= j < count && name == #[trigger] outputs[j].name(attempt),
    )
}

/// The names in a directory after the publication did something in it.
pub open spec fn directory_after(
    run: PublishRun,
    event: PublishEvent,
    directory: Set<Seq<char>>,
) -> Set<Seq<char>> {
    let attempt = run.attempt as nat;
    match (run.stage, event) {
        (PublishStage::Linking(index), PublishEvent::Linked(Ok(_))) => directory.insert(
            run.outputs@[index as int].name(attempt),
        ),
        (
            PublishStage::RollingBack { left, cause, error },
            PublishEvent::Removed(Ok(_)),
        ) => directory.remove(run.outputs@[left - 1].name(attempt)),
        (PublishStage::Undoing { left, cause, error }, PublishEvent::Removed(Ok(_))) =>
        directory.remove(run.outputs@[left - 1].name(attempt)),
        _ => directory,
    }
}

/// Whether an event is what comes of the publication's next operation in a
/// directory that works: a free name can be given, a taken one is reported as
/// taken, and nothing else fails.
pub open spec fn works(run: PublishRun, event: PublishEvent, directory: Set<Seq<char>>) -> bool {
    match (run.stage, event) {
        (PublishStage::Linking(index), PublishEvent::Linked(outcome)) => {
            let taken = directory.contains(
                run.outputs@[index as int].name(run.attempt as nat),
            );
            match outcome {
                Ok(_) => !taken,
                Err(failure) => taken && failure.kind is AlreadyExists,
            }
        },
        (_, PublishEvent::Removed(outcome)) => outcome is Ok,
        (_, PublishEvent::Synced(outcome)) => outcome is Ok,
        _ => true,
    }
}

/// Whether no two files have the same name at any attempt.
pub open spec fn names_differ(outputs: Seq<StagedOutput>) -> bool {
    forall|i: int, j: int, attempt: nat|
        0 <= i < j < outputs.len() ==> #[trigger] outputs[i].name(attempt)
            != #[trigger] outputs[j].name(attempt)
}

/// What a publication in a directory that works leads to, at every point: the
/// attempts before the present one had a name that was taken from the start, and
/// the directory holds what it held at the start and the names given so far. A
/// publication that is over holds the names of the first attempt at which all
/// were free, or there is no such attempt.
pub open spec fn keeps_directory(
    run: PublishRun,
    start: Set<Seq<char>>,
    directory: Set<Seq<char>>,
) -> bool {
    let attempt = run.attempt as nat;
    &&& run.well_formed()
    &&& forall|a: nat| 1 <= a < attempt ==> !#[trigger] is_free(run.outputs@, a, start)
    &&& directory == start.union(first_names(run.outputs@, attempt, holding(run)))
    &&& forall|j: int|
        0 <= j < holding(run) ==> !start.contains(#[trigger] run.outputs@[j].name(attempt))
    &&& match run.stage {
        PublishStage::RollingBack { left, cause, error } => cause.kind is AlreadyExists
            && error is None && !is_free(run.outputs@, attempt, start),
        PublishStage::Undoing { left, cause, error } => false,
        PublishStage::Finished(Ok(list)) => text::string_views(list@) == names_at(
            run.outputs@,
            attempt,
        ) && is_free(run.outputs@, attempt, start),
        PublishStage::Finished(Err(_)) => attempt == usize::MAX && !is_free(
            run.outputs@,
            attempt,
            start,
        ),
        _ => true,
    }
}

/// A publication starts with the directory as it is.
pub proof fn lemma_starts_with_directory(run: PublishRun, start: Set<Seq<char>>)
    requires
        run.is_fresh(),
    ensures
        keeps_directory(run, start, start),
{
    assert(start =~= start.union(first_names(run.outputs@, 1, 0)));
}

/// In a directory that works, each step of a publication goes towards the first
/// attempt at which all names are free.
pub proof fn lemma_step_keeps_directory(
    run: PublishRun,
    event: PublishEvent,
    next: PublishRun,
    start: Set<Seq<char>>,
    directory: Set<Seq<char>>,
)
    requires
        names_differ(run.outputs@),
        keeps_directory(run, start, directory),
        works(run, event, directory),
        run.follows(event, next),
    ensures
        keeps_directory(next, start, directory_after(run, event, directory)),
{
    let outputs = run.outputs@;
    let attempt = run.attempt as nat;
    let now = directory_after(run, event, directory);
    match (run.stage, event) {
        (PublishStage::Linking(index), PublishEvent::Linked(Ok(_))) => {
            let name = outputs[index as int].name(attempt);
            assert(first_names(outputs, attempt, index + 1) =~= first_names(
                outputs,
                attempt,
                index as int,
            ).insert(name));
            assert(now =~= start.union(first_names(outputs, attempt, index + 1)));
        },
        (PublishStage::Linking(index), PublishEvent::Linked(Err(failure))) => {
            let name = outputs[index as int].name(attempt);
            assert(!first_names(outputs, attempt, index as int).contains(name));
            assert(start.contains(name));
            assert(!is_free(outputs, attempt, start));
            if index == 0 {
                assert(now =~= start.union(first_names(outputs, next.attempt as nat, 0)));
            }
        },
        (PublishStage::RollingBack { left, cause, error }, PublishEvent::Removed(_)) => {
            let name = outputs[left - 1].name(attempt);
            assert(!start.contains(name));
            assert(!first_names(outputs, attempt, left - 1).contains(name));
            assert(first_names(outputs, attempt, left as int) =~= first_names(
                outputs,
                attempt,
                left - 1,
            ).insert(name));
            assert(now =~= start.union(first_names(outputs, attempt, left - 1)));
            if left == 1 {
                assert(now =~= start.union(first_names(outputs, next.attempt as nat, 0)));
            }
        },
        _ => {},
    }
}

/// A file is called by its stem and its ending; at a later attempt the number of
/// the attempt stands behind the stem and an underscore.
pub proof fn lemma_names(stem: Seq<char>, extension: Seq<char>, attempt: nat)
    ensures
        name_of(stem, extension, 1) == stem + "."@ + extension,
        attempt > 1 ==> ({
            let name = name_of(stem, extension, attempt);
            let end = name.len() - extension.len() - 1;
            let digits = name.subrange(stem.len() as int + 1, end);
            &&& stem.len() + 2 <= end
            &&& name.take(stem.len() as int) == stem
            &&& name[stem.len() as int] == '_'
            &&& text::all_digits(digits)
            &&& text::number(digits) == attempt
            &&& name[end] == '.'
            &&& name.skip(end + 1) == extension
        }),
{
    if attempt > 1 {
        let name = name_of(stem, extension, attempt);
        let end = name.len() - extension.len() - 1;
        reveal_strlit("_");
        reveal_strlit(".");
        text::lemma_decimal_read_back(attempt);
        assert(name.subrange(stem.len() as int + 1, end) =~= text::decimal(attempt));
        assert(name.take(stem.len() as int) =~= stem);
        assert(name.skip(end + 1) =~= extension);
    }
}

/// A name that is taken makes the whole group move on to the next number, after
/// the names that were given already are taken away; any other failure ends the
/// publication, with its words where nothing else failed.
pub proof fn lemma_taken_names(run: PublishRun, failure: Failure, next: PublishRun)
    requires
        run.stage == PublishStage::Linking(0),
        run.attempt < usize::MAX,
        run.follows(PublishEvent::Linked(Err(failure)), next),
    ensures
        failure.kind is AlreadyExists ==> next.attempt == run.attempt + 1 && next.stage
            == PublishStage::Linking(0),
        !(failure.kind is AlreadyExists) ==> (next.stage matches PublishStage::Finished(
            Err(SplitError::Io(said)),
        ) && said@ == failure.message@),
{
}

/// Where names cannot be taken away again, the first such failure is told, and a
/// name that is gone already is none.
pub proof fn lemma_first_failure_is_told(earlier: Failure, failure: Failure)
    ensures
        first_error(Some(earlier), Err(failure)) == Some(earlier),
        first_error(Some(earlier), Ok(())) == Some(earlier),
        first_error(None, Ok(())) is None,
        failure.kind is NotFound ==> first_error(None, Err(failure)) is None,
        !(failure.kind is NotFound) ==> first_error(None, Err(failure)) == Some(failure),
{
}

} // verus!
