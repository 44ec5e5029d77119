//! What the interface tells: summaries of errors, and lists of failures.

use crate::text;
use vstd::prelude::*;

verus! {

/// The most characters of a summary.
pub const MAX_SUMMARY: usize = 120;

/// The summary of a message: its first line, cut off with an ellipsis where it
/// is too long.
pub open spec fn summary_of(message: Seq<char>) -> Seq<char> {
    let line = text::first_line(message);
    if line.len() <= MAX_SUMMARY {
        line
    } else {
        line.take(MAX_SUMMARY - 1).push('…')
    }
}

/// The summary of a message.
pub fn error_summary(message: &str) -> (r: String)
    ensures
        r@ == summary_of(message@),
{
    let chars = text::characters(message);
    let lines = text::lines(&chars);
    if lines.len() == 0 {
        assert(text::views(lines@).len() == 0);
        return String::new();
    }
    let line = &lines[0];
    assert(text::views(lines@)[0] == line@);
    if line.len() <= MAX_SUMMARY {
        return text::text_of(line);
    }
    let mut short = text::range_of(line, 0, MAX_SUMMARY - 1);
    assert(short@ =~= line@.take(MAX_SUMMARY - 1));
    short.push('…');
    text::text_of(&short)
}

/// A summary is never longer than is allowed, and has one line.
pub proof fn lemma_summary_is_short(message: Seq<char>)
    ensures
        summary_of(message).len() <= MAX_SUMMARY,
        forall|i: int| 0 <= i < summary_of(message).len() ==> summary_of(message)[i] != '\n',
{
    let line = text::first_line(message);
    text::lemma_position_bound(message, '\n');
    let p = text::position_of(message, '\n') as int;
    if message.len() > 0 && p < message.len() {
        let first = text::without_carriage_return(message.take(p));
        assert((seq![first] + text::lines_of(message.skip(p + 1)))[0] == first);
        assert(line == first);
    }
    assert forall|i: int| 0 <= i < line.len() implies line[i] != '\n' by {
        assert(line[i] == message[i]);
    }
}

/// Whether the details of an error are worth showing: the summary is not all of
/// the message.
pub fn has_details(message: &str) -> (r: bool)
    ensures
        r == (summary_of(message@) != message@),
{
    let summary = error_summary(message);
    !text::same(&text::characters(&summary), &text::characters(message))
}

/// A name for a file, or other words where it has none.
pub open spec fn name_or(name: Option<&str>, other: Seq<char>) -> Seq<char> {
    match name {
        Some(name) => if name@.len() > 0 {
            name@
        } else {
            other
        },
        None => other,
    }
}

/// The last part of a path for a button, or other words where there is none.
pub fn short_path(name: Option<&str>, other: &str) -> (r: String)
    ensures
        r@ == name_or(name, other@),
{
    match name {
        Some(name) => if text::characters(name).len() > 0 {
            name.to_string()
        } else {
            other.to_string()
        },
        None => other.to_string(),
    }
}

/// The line that tells of a file that failed.
pub fn failure_line(name: &str, error: &str) -> (r: String)
    ensures
        r@ == name@ + ": "@ + summary_of(error@),
{
    let mut line = text::concat(name, ": ");
    line.append(&error_summary(error));
    line
}

/// Lines one below the other.
pub open spec fn joined_lines(lines: Seq<Seq<char>>) -> Seq<char>
    decreases lines.len(),
{
    if lines.len() == 0 {
        Seq::empty()
    } else if lines.len() == 1 {
        lines[0]
    } else {
        joined_lines(lines.drop_last()) + "\n"@ + lines.last()
    }
}

/// Lines one below the other.
pub fn join_lines(lines: &Vec<String>) -> (r: String)
    ensures
        r@ == joined_lines(text::string_views(lines@)),
{
    let ghost all = text::string_views(lines@);
    if lines.len() == 0 {
        return String::new();
    }
    let mut out = lines[0].clone();
    let mut i: usize = 1;
    assert(all.take(1) =~= seq![lines@[0]@]);
    while i < lines.len()
        invariant
            1 <= i <= lines.len(),
            all == text::string_views(lines@),
            out@ == joined_lines(all.take(i as int)),
        decreases lines.len() - i,
    {
        proof {
            assert(all.take(i + 1).drop_last() =~= all.take(i as int));
            assert(all.take(i + 1).last() == lines@[i as int]@);
        }
        out.append("\n");
        out.append(&lines[i]);
        i += 1;
    }
    assert(all.take(all.len() as int) =~= all);
    out
}

/// Where something was saved, and what failed, if anything did.
pub open spec fn detail_text(output: Seq<char>, heading: Seq<char>, failures: Seq<Seq<char>>) -> Seq<
    char,
> {
    if failures.len() == 0 {
        output
    } else {
        output + heading + joined_lines(failures)
    }
}

/// Where something was saved, and what failed, if anything did.
pub fn detail(output: &str, heading: &str, failures: &Vec<String>) -> (r: String)
    ensures
        r@ == detail_text(output@, heading@, text::string_views(failures@)),
{
    let mut out = output.to_string();
    if failures.len() > 0 {
        out.append(heading);
        out.append(&join_lines(failures));
    }
    out
}

/// How an operation failed.
#[derive(Clone, Copy, Debug, PartialEq, Eq, Structural)]
pub enum Stop {
    /// It was cancelled.
    Cancelled,
    /// It failed.
    Failed,
}

/// How an operation failed, by its message: a message that starts with the words
/// for a cancelled operation stands for one.
pub fn stop_of(error: &str, cancelled: &str) -> (r: Stop)
    ensures
        r == if cancelled@.is_prefix_of(error@) {
            Stop::Cancelled
        } else {
            Stop::Failed
        },
{
    if text::starts_with(&text::characters(error), cancelled) {
        Stop::Cancelled
    } else {
        Stop::Failed
    }
}

/// How a search for devices failed, by its message: only the words for a
/// cancelled operation stand for one.
pub fn search_stop_of(error: &str, cancelled: &str) -> (r: Stop)
    ensures
        r == if error@ == cancelled@ {
            Stop::Cancelled
        } else {
            Stop::Failed
        },
{
    if text::equals(&text::characters(error), cancelled) {
        Stop::Cancelled
    } else {
        Stop::Failed
    }
}

/// What a worker reports that did not succeed.
pub open spec fn worker_text(
    error: Option<Seq<char>>,
    was_cancelled: bool,
    cancelled: Seq<char>,
    broken: Seq<char>,
) -> Seq<char> {
    match error {
        Some(error) => if was_cancelled {
            cancelled
        } else {
            error
        },
        None => broken,
    }
}

/// What a worker reports that did not succeed: the words for cancellation, if the
/// signal had been given; else its error; and the words for a broken worker, if
/// it did not get to report one.
pub fn worker_message(
    error: Option<&str>,
    was_cancelled: bool,
    cancelled: &str,
    broken: &str,
) -> (r: String)
    ensures
        r@ == worker_text(text::borrowed_view(error), was_cancelled, cancelled@, broken@),
{
    match error {
        Some(error) => if was_cancelled {
            cancelled.to_string()
        } else {
            error.to_string()
        },
        None => broken.to_string(),
    }
}

/// A worker that failed after the signal was given reports what counts as being
/// cancelled, and one that broke reports just that.
pub proof fn lemma_cancelled_worker_counts_as_cancelled(
    error: Seq<char>,
    cancelled: Seq<char>,
    broken: Seq<char>,
)
    ensures
        cancelled.is_prefix_of(worker_text(Some(error), true, cancelled, broken)),
        worker_text(None, true, cancelled, broken) == broken,
{
}

/// A summary is the first line of a message if that is not longer than 120
/// characters, and else its first 119 and an ellipsis.
pub proof fn lemma_summaries(line: Seq<char>, rest: Seq<char>)
    requires
        line.len() > 0,
        forall|i: int| 0 <= i < line.len() ==> #[trigger] line[i] != '\n',
        line.last() != '\r',
    ensures
        line.len() <= 120 ==> summary_of(line) == line && summary_of(line + seq!['\n'] + rest)
            == line,
        line.len() > 120 ==> ({
            let summary = summary_of(line + seq!['\n'] + rest);
            &&& summary.len() == 120
            &&& summary.take(119) == line.take(119)
            &&& summary[119] == '…'
            &&& summary_of(line) == summary
        }),
        summary_of(Seq::empty()) == Seq::<char>::empty(),
{
    text::lemma_lines(line, rest);
    let lines = text::lines_of(line + seq!['\n'] + rest);
    assert(lines[0] == line);
    if line.len() > 120 {
        assert(summary_of(line + seq!['\n'] + rest).take(119) =~= line.take(119));
    }
}

/// Lines are joined with a line feed between any two of them.
pub proof fn lemma_joined_lines(lines: Seq<Seq<char>>, line: Seq<char>)
    ensures
        joined_lines(Seq::empty()) == Seq::<char>::empty(),
        joined_lines(seq![line]) == line,
        lines.len() > 0 ==> joined_lines(lines.push(line)) == joined_lines(lines) + "\n"@ + line,
{
    assert(lines.push(line).drop_last() =~= lines);
}

/// A message is told with its failures, if there are any, below a heading; an
/// error whose words start with those for a cancellation counts as one, and a
/// failed search counts as one only if its words are those.
pub proof fn lemma_messages(
    output: Seq<char>,
    heading: Seq<char>,
    failure: Seq<char>,
    error: &str,
    cancelled: &str,
    stop: Stop,
    search_stop: Stop,
)
    requires
        call_ensures(stop_of, (error, cancelled), stop),
        call_ensures(search_stop_of, (error, cancelled), search_stop),
    ensures
        detail_text(output, heading, Seq::empty()) == output,
        detail_text(output, heading, seq![failure]) == output + heading + failure,
        error@ == cancelled@ ==> stop is Cancelled && search_stop is Cancelled,
        error@.len() < cancelled@.len() ==> stop is Failed && search_stop is Failed,
        error@.len() > 0 && cancelled@.len() > 0 && error@[0] != cancelled@[0] ==> stop is Failed
            && search_stop is Failed,
        worker_text(Some(failure), false, cancelled@, heading) == failure,
        worker_text(Some(failure), true, cancelled@, heading) == cancelled@,
{
    if error@ == cancelled@ {
        assert(cancelled@.subrange(0, cancelled@.len() as int) =~= cancelled@);
    }
    if error@.len() > 0 && cancelled@.len() > 0 && error@[0] != cancelled@[0] {
        if cancelled@.is_prefix_of(error@) {
            assert(error@.subrange(0, cancelled@.len() as int)[0] == error@[0]);
        }
    }
}

/// A file is told by its name, or by its path where it has none; a line about a
/// failure has the name in front of the summary of the error.
pub proof fn lemma_failure_lines(name: &str, other: &str, error: &str, line: String, short: String)
    requires
        call_ensures(failure_line, (name, error), line),
        call_ensures(short_path, (Some(name), other), short),
    ensures
        line@ == name@ + ": "@ + summary_of(error@),
        name@.len() > 0 ==> short@ == name@,
        name@.len() == 0 ==> short@ == other@,
        name_or(None, other@) == other@,
{
}

} // verus!
