//! What is said when embedding fails: the same to every client, and to the log not too often.

use crate::number::{decimal, decimal_of};
use vstd::prelude::*;
use vstd::string::*;

verus! {

/// A failing condition repeats with every request, so its line is logged at most this often, in
/// nanoseconds: once a minute.
pub const FAILURE_LOG_EVERY_NS: u64 = 60_000_000_000;

/// What an unsuccessful request is answered: a status and the text of the error.
pub struct AppErr {
    pub status: u16,
    pub detail: String,
}

/// What went wrong. A model that cannot be loaded fails every request, so it is logged apart from the
/// failures of inference itself, and its line does not stand in for theirs.
pub enum Failure {
    ModelLoad(String),
    Embedding(String),
}

impl Failure {
    /// The condition by its name in the log.
    pub open spec fn name(self) -> Seq<char> {
        match self {
            Failure::ModelLoad(_) => "model load"@,
            Failure::Embedding(_) => "embedding"@,
        }
    }

    /// What is known of it.
    pub open spec fn detail(self) -> Seq<char> {
        match self {
            Failure::ModelLoad(d) => d@,
            Failure::Embedding(d) => d@,
        }
    }
}

/// When a condition was last logged, in nanoseconds, and how many times it has occurred unlogged since.
#[derive(Clone, Copy)]
pub struct Track {
    pub last: Option<u64>,
    pub repeats: u64,
}

impl Track {
    /// Whether a failure now is logged: it is the first, or the last line is old enough.
    pub open spec fn speaks(self, now_ns: nat) -> bool {
        match self.last {
            None => true,
            Some(at) => now_ns >= at + 60_000_000_000,
        }
    }

    /// The condition's record after a failure now.
    pub open spec fn after(self, now_ns: u64) -> Track {
        if self.speaks(now_ns as nat) {
            Track { last: Some(now_ns), repeats: 0 }
        } else {
            Track { last: self.last, repeats: (self.repeats + 1) as u64 }
        }
    }

    /// The line for a failure after this record.
    pub open spec fn line(self, failure: Failure) -> Seq<char> {
        let said = failure.name() + " failed: "@ + failure.detail();
        if self.repeats == 0 {
            said
        } else {
            said + " ("@ + decimal_of(self.repeats as nat) + " more since the last line)"@
        }
    }
}

/// The record of each condition.
pub struct FailureLog {
    pub model_load: Track,
    pub embedding: Track,
}

impl FailureLog {
    /// The record of the condition that `failure` is an instance of.
    pub open spec fn track(self, failure: Failure) -> Track {
        match failure {
            Failure::ModelLoad(_) => self.model_load,
            Failure::Embedding(_) => self.embedding,
        }
    }

    /// The records after `failure` has occurred now: that of its condition changes, and no other.
    pub open spec fn after(self, failure: Failure, now_ns: u64) -> FailureLog {
        match failure {
            Failure::ModelLoad(_) => FailureLog {
                model_load: self.model_load.after(now_ns),
                embedding: self.embedding,
            },
            Failure::Embedding(_) => FailureLog {
                model_load: self.model_load,
                embedding: self.embedding.after(now_ns),
            },
        }
    }

    /// Nothing has failed yet.
    pub fn new() -> (r: FailureLog)
        ensures
            r.model_load == (Track { last: None, repeats: 0 }),
            r.embedding == (Track { last: None, repeats: 0 }),
    {
        let none: Track = Track { last: None, repeats: 0 };
        FailureLog { model_load: none, embedding: none }
    }
}

/// Takes note of a failure at `now_ns`: the line to log, if it is time for one, and the answer to the
/// client, which tells nothing of what went wrong.
pub fn internal(log: &mut FailureLog, failure: &Failure, now_ns: u64) -> (r: (
    Option<String>,
    AppErr,
))
    requires
        !old(log).track(*failure).speaks(now_ns as nat) ==> old(log).track(*failure).repeats
            < u64::MAX,
    ensures
        *final(log) == old(log).after(*failure, now_ns),
        match r.0 {
            Some(line) => {
                &&& old(log).track(*failure).speaks(now_ns as nat)
                &&& line@ == old(log).track(*failure).line(*failure)
            },
            None => !old(log).track(*failure).speaks(now_ns as nat),
        },
        r.1.status == 500,
        r.1.detail@ == "embedding failed"@,
        *failure matches Failure::ModelLoad(d) ==> {
            let track = old(log).model_load;
            let quiet = track.last is Some && now_ns < track.last->0 + 60_000_000_000;
            &&& final(log).embedding == old(log).embedding
            &&& quiet ==> r.0 is None && final(log).model_load.last == track.last
                && final(log).model_load.repeats == track.repeats + 1
            &&& !quiet ==> r.0 is Some && final(log).model_load == (Track {
                last: Some(now_ns),
                repeats: 0,
            })
            &&& r.0 is Some && track.repeats == 0 ==> r.0->0@ == "model load"@ + " failed: "@ + d@
            &&& r.0 is Some && track.repeats > 0 ==> r.0->0@ == "model load"@ + " failed: "@ + d@
                + " ("@ + decimal_of(track.repeats as nat) + " more since the last line)"@
        },
        *failure matches Failure::Embedding(d) ==> {
            let track = old(log).embedding;
            let quiet = track.last is Some && now_ns < track.last->0 + 60_000_000_000;
            &&& final(log).model_load == old(log).model_load
            &&& quiet ==> r.0 is None && final(log).embedding.last == track.last
                && final(log).embedding.repeats == track.repeats + 1
            &&& !quiet ==> r.0 is Some && final(log).embedding == (Track {
                last: Some(now_ns),
                repeats: 0,
            })
            &&& r.0 is Some && track.repeats == 0 ==> r.0->0@ == "embedding"@ + " failed: "@ + d@
            &&& r.0 is Some && track.repeats > 0 ==> r.0->0@ == "embedding"@ + " failed: "@ + d@
                + " ("@ + decimal_of(track.repeats as nat) + " more since the last line)"@
        },
{
    let answer: AppErr = AppErr { status: 500, detail: "embedding failed".to_owned() };
    let track: Track = match failure {
        Failure::ModelLoad(_) => log.model_load,
        Failure::Embedding(_) => log.embedding,
    };
    let quiet: bool = match track.last {
        None => false,
        Some(at) => now_ns.saturating_sub(at) < FAILURE_LOG_EVERY_NS,
    };
    let next: Track = if quiet {
        Track { last: track.last, repeats: track.repeats + 1 }
    } else {
        Track { last: Some(now_ns), repeats: 0 }
    };
    match failure {
        Failure::ModelLoad(_) => {
            log.model_load = next;
        },
        Failure::Embedding(_) => {
            log.embedding = next;
        },
    }
    if quiet {
        return (None, answer);
    }
    let mut line: String = match failure {
        Failure::ModelLoad(_) => "model load".to_owned(),
        Failure::Embedding(_) => "embedding".to_owned(),
    };
    line.append(" failed: ");
    match failure {
        Failure::ModelLoad(d) => {
            line.append(d.as_str());
        },
        Failure::Embedding(d) => {
            line.append(d.as_str());
        },
    }
    if track.repeats > 0 {
        line.append(" (");
        line.append(decimal(track.repeats).as_str());
        line.append(" more since the last line)");
    }
    (Some(line), answer)
}

/// The record of a condition after failures at these times, and how many failures its lines have
/// accounted for: each line for itself and for the repeats that it counts.
pub open spec fn recorded(track: Track, times: Seq<u64>) -> (Track, nat)
    decreases times.len(),
{
    if times.len() == 0 {
        (track, 0)
    } else {
        let before = recorded(track, times.drop_last());
        let now = times.last();
        (
            before.0.after(now),
            if before.0.speaks(now as nat) {
                before.1 + 1 + before.0.repeats as nat
            } else {
                before.1
            },
        )
    }
}

/// No failure is lost: each is accounted for by a line, or waits to be counted in the next one.
pub proof fn law_every_failure_is_accounted_for(times: Seq<u64>)
    requires
        times.len() <= u64::MAX,
    ensures
        ({
            let r = recorded(Track { last: None, repeats: 0 }, times);
            r.1 + r.0.repeats == times.len()
        }),
    decreases times.len(),
{
    if times.len() > 0 {
        law_every_failure_is_accounted_for(times.drop_last());
    }
}

/// The times of the lines that are logged for a condition that fails at these times.
pub open spec fn line_times(track: Track, times: Seq<u64>) -> Seq<u64>
    decreases times.len(),
{
    if times.len() == 0 {
        Seq::empty()
    } else {
        let before = line_times(track, times.drop_last());
        if recorded(track, times.drop_last()).0.speaks(times.last() as nat) {
            before.push(times.last())
        } else {
            before
        }
    }
}

/// Any two lines for one condition are at least a minute apart, however many failures lie between them, and
/// the record holds the time of the last.
pub proof fn law_lines_are_a_minute_apart(track: Track, times: Seq<u64>)
    ensures
        line_times(track, times).len() > 0 ==> recorded(track, times).0.last == Some(
            line_times(track, times).last(),
        ),
        line_times(track, times).len() == 0 ==> recorded(track, times).0.last == track.last,
        forall|i: int, j: int|
            #![trigger line_times(track, times)[i], line_times(track, times)[j]]
            0 <= i < j < line_times(track, times).len() ==> line_times(track, times)[j] - line_times(
                track,
                times,
            )[i] >= 60_000_000_000,
    decreases times.len(),
{
    if times.len() > 0 {
        let init = times.drop_last();
        let now = times.last();
        law_lines_are_a_minute_apart(track, init);
        let before = line_times(track, init);
        let lines = line_times(track, times);
        if recorded(track, init).0.speaks(now as nat) {
            assert(lines == before.push(now));
            assert forall|i: int, j: int|
                #![trigger lines[i], lines[j]]
                0 <= i < j < lines.len() implies lines[j] - lines[i] >= 60_000_000_000 by {
                if j < before.len() {
                    assert(lines[i] == before[i] && lines[j] == before[j]);
                } else {
                    let last = before.len() - 1;
                    assert(lines[i] == before[i] && lines[j] == now);
                    assert(now - before[last] >= 60_000_000_000);
                    if i < last {
                        assert(before[last] - before[i] >= 60_000_000_000);
                    }
                }
            }
        } else {
            assert(lines == before);
        }
    }
}

/// The records after failures of any conditions, each with its time, in their order.
pub open spec fn after_all(log: FailureLog, failures: Seq<(Failure, u64)>) -> FailureLog
    decreases failures.len(),
{
    if failures.len() == 0 {
        log
    } else {
        after_all(log, failures.drop_last()).after(failures.last().0, failures.last().1)
    }
}

/// Whether two failures are of one condition.
pub open spec fn alike(a: Failure, b: Failure) -> bool {
    (a is ModelLoad) == (b is ModelLoad)
}

/// The times of those failures that are of the same condition as `failure`.
pub open spec fn times_of(failures: Seq<(Failure, u64)>, failure: Failure) -> Seq<u64>
    decreases failures.len(),
{
    if failures.len() == 0 {
        Seq::empty()
    } else {
        let before = times_of(failures.drop_last(), failure);
        if alike(failures.last().0, failure) {
            before.push(failures.last().1)
        } else {
            before
        }
    }
}

/// The conditions do not disturb one another: however the failures of both follow each other, the record of
/// one is what its own failures make it, and so are its lines.
pub proof fn law_conditions_are_logged_apart(
    log: FailureLog,
    failures: Seq<(Failure, u64)>,
    failure: Failure,
)
    ensures
        after_all(log, failures).track(failure) == recorded(
            log.track(failure),
            times_of(failures, failure),
        ).0,
    decreases failures.len(),
{
    if failures.len() > 0 {
        let init = failures.drop_last();
        law_conditions_are_logged_apart(log, init, failure);
        let before = times_of(init, failure);
        if alike(failures.last().0, failure) {
            let times = times_of(failures, failure);
            assert(times == before.push(failures.last().1));
            assert(times.drop_last() =~= before);
        }
    }
}

/// Of all the failures since the service started, those of one condition are accounted for whatever the
/// others do: each is in a line or waits to be counted in the next, and the lines are a minute apart.
pub proof fn law_a_run_of_failures_is_accounted_for(failures: Seq<(Failure, u64)>, failure: Failure)
    requires
        failures.len() <= u64::MAX,
    ensures
        ({
            let none = Track { last: None, repeats: 0 };
            let log = after_all(FailureLog { model_load: none, embedding: none }, failures);
            let times = times_of(failures, failure);
            let lines = line_times(none, times);
            &&& recorded(none, times).1 + log.track(failure).repeats == times.len()
            &&& forall|i: int, j: int|
                #![trigger lines[i], lines[j]]
                0 <= i < j < lines.len() ==> lines[j] - lines[i] >= 60_000_000_000
        }),
{
    let none = Track { last: None, repeats: 0 };
    lemma_times_are_of_failures(failures, failure);
    law_conditions_are_logged_apart(
        FailureLog { model_load: none, embedding: none },
        failures,
        failure,
    );
    law_every_failure_is_accounted_for(times_of(failures, failure));
    law_lines_are_a_minute_apart(none, times_of(failures, failure));
}

proof fn lemma_times_are_of_failures(failures: Seq<(Failure, u64)>, failure: Failure)
    ensures
        times_of(failures, failure).len() <= failures.len(),
    decreases failures.len(),
{
    if failures.len() > 0 {
        lemma_times_are_of_failures(failures.drop_last(), failure);
    }
}

/// A failure is logged exactly where there is no line yet or the last one is a minute old; a line starts the
/// count anew, and a failure that is not logged is one more to count and leaves the time of the last line.
pub proof fn law_a_failure_is_logged_once_a_minute_is_over(track: Track, now_ns: u64)
    requires
        track.repeats < u64::MAX,
    ensures
        track.last is None ==> track.speaks(now_ns as nat),
        track.last matches Some(at) ==> (track.speaks(now_ns as nat) <==> now_ns - at
            >= 60_000_000_000),
        track.speaks(now_ns as nat) ==> track.after(now_ns).last == Some(now_ns) && track.after(
            now_ns,
        ).repeats == 0,
        !track.speaks(now_ns as nat) ==> track.after(now_ns).last == track.last && track.after(
            now_ns,
        ).repeats == track.repeats + 1,
{
}

/// The first failure of a condition is always logged, however many there were of the other.
pub proof fn law_first_failure_is_logged(now_ns: nat)
    ensures
        (Track { last: None, repeats: 0 }).speaks(now_ns),
{
}

} // verus!
