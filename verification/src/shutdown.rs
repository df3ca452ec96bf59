//! Starting and stopping: what is said when the service is ready, what a signal to stop does, and how
//! long requests in flight are waited for.

use crate::config::Config;
use crate::http::VERSION;
use crate::key::MODEL_LABEL;
use crate::number::{decimal, decimal_of};
use vstd::prelude::*;
use vstd::string::*;

verus! {

/// How serving ended.
pub enum Outcome {
    /// Every request in flight was answered.
    Drained,
    /// The wait for requests in flight ran out.
    DeadlineHit(String),
    /// The server failed.
    Failed(String),
}

impl Outcome {
    /// The exit code of the process. A wait that ran out is by design, and any client can bring it about,
    /// so it is no failure.
    pub fn exit_code(&self) -> (r: i32)
        ensures
            r == if self is Failed {
                1i32
            } else {
                0
            },
    {
        match self {
            Outcome::Drained | Outcome::DeadlineHit(_) => 0,
            Outcome::Failed(_) => 1,
        }
    }

    /// What is said of it.
    pub open spec fn said(self) -> Seq<char> {
        match self {
            Outcome::Drained => "shut down cleanly"@,
            Outcome::DeadlineHit(why) => why@,
            Outcome::Failed(why) => why@,
        }
    }

    /// The line to log about it.
    pub fn line(&self) -> (r: String)
        ensures
            r@ == self.said(),
            *self is Drained ==> r@ == "shut down cleanly"@,
            *self matches Outcome::DeadlineHit(why) ==> r@ == why@,
            *self matches Outcome::Failed(why) ==> r@ == why@,
    {
        match self {
            Outcome::Drained => "shut down cleanly".to_owned(),
            Outcome::DeadlineHit(why) => why.clone(),
            Outcome::Failed(why) => why.clone(),
        }
    }
}

/// How far a stop has got.
pub enum Phase {
    /// Nobody has asked for it.
    Serving,
    /// It was asked for at `since_ms`, and requests in flight are waited for.
    Draining { since_ms: u64 },
    /// Nobody can ask for it any more.
    Unasked,
}

/// What can happen to a server that is to be stopped in time.
pub enum DrainEvent {
    /// It has stopped, with nothing left in flight.
    ServeEnded,
    /// It has failed, for this reason.
    ServeFailed(String),
    /// It was asked to stop.
    Asked { now_ms: u64 },
    /// Whoever would have asked is gone. That is not to ask.
    AskerGone,
    /// Time has passed.
    Clock { now_ms: u64 },
}

impl Phase {
    /// How far the stop has got after `event`.
    pub open spec fn after(self, event: DrainEvent) -> Phase {
        match (self, event) {
            (Phase::Serving, DrainEvent::Asked { now_ms }) => Phase::Draining { since_ms: now_ms },
            (Phase::Serving, DrainEvent::AskerGone) => Phase::Unasked,
            _ => self,
        }
    }

    /// Whether the wait for requests in flight has run out at `now_ms`.
    pub open spec fn overdue(self, grace_secs: nat, now_ms: nat) -> bool {
        self matches Phase::Draining { since_ms } && now_ms >= since_ms + grace_secs * 1000
    }
}

/// A number of seconds, as a length of time is printed.
pub open spec fn seconds_text(secs: nat) -> Seq<char> {
    if secs == 0 {
        "0ns"@
    } else {
        decimal_of(secs) + "s"@
    }
}

/// What is said when the wait runs out.
pub open spec fn deadline_text(grace_secs: nat) -> Seq<char> {
    "drain deadline ("@ + seconds_text(grace_secs) + ") reached with requests still in flight"@
}

/// A server that is stopped in time: once asked to stop it is waited for, for a number of seconds and no
/// longer, whatever a client does with its connection.
pub struct Drain {
    pub grace_secs: u64,
    pub phase: Phase,
}

impl Drain {
    /// A server that has just started.
    pub fn new(grace_secs: u64) -> (r: Drain)
        ensures
            r.grace_secs == grace_secs,
            r.phase is Serving,
    {
        Drain { grace_secs, phase: Phase::Serving }
    }

    /// How serving ends with `event`, if it does.
    pub open spec fn ended_by(self, event: DrainEvent, outcome: Option<Outcome>) -> bool {
        match event {
            DrainEvent::ServeEnded => outcome matches Some(o) && o is Drained,
            DrainEvent::ServeFailed(e) => outcome matches Some(Outcome::Failed(why)) && why@
                == "serve error: "@ + e@,
            DrainEvent::Clock { now_ms } => if self.phase.overdue(
                self.grace_secs as nat,
                now_ms as nat,
            ) {
                outcome matches Some(Outcome::DeadlineHit(why)) && why@ == deadline_text(
                    self.grace_secs as nat,
                )
            } else {
                outcome is None
            },
            DrainEvent::Asked { .. } | DrainEvent::AskerGone => outcome is None,
        }
    }

    /// Takes note of what happened: how serving ended, if it did.
    pub fn step(&mut self, event: DrainEvent) -> (r: Option<Outcome>)
        ensures
            final(self).grace_secs == old(self).grace_secs,
            final(self).phase == old(self).phase.after(event),
            old(self).ended_by(event, r),
            event matches DrainEvent::Asked { now_ms } ==> {
                &&& r is None
                &&& old(self).phase is Serving ==> final(self).phase == (Phase::Draining {
                    since_ms: now_ms,
                })
            },
            event is AskerGone ==> r is None && (old(self).phase is Serving
                ==> final(self).phase is Unasked),
            !(old(self).phase is Serving) || !(event is Asked || event is AskerGone)
                ==> final(self).phase == old(self).phase,
            event is ServeEnded ==> r is Some && r->0 is Drained,
            event matches DrainEvent::ServeFailed(e) ==> (r matches Some(Outcome::Failed(why))
                && why@ == "serve error: "@ + e@),
            event matches DrainEvent::Clock { now_ms } ==> {
                &&& r is Some <==> old(self).phase is Draining && now_ms
                    >= old(self).phase->since_ms + old(self).grace_secs * 1000
                &&& r is Some && old(self).grace_secs > 0 ==> (r->0 matches Outcome::DeadlineHit(why)
                    && why@ == "drain deadline ("@ + (decimal_of(old(self).grace_secs as nat) + "s"@)
                    + ") reached with requests still in flight"@)
                &&& r is Some && old(self).grace_secs == 0 ==> (r->0 matches Outcome::DeadlineHit(
                    why,
                ) && why@ == "drain deadline ("@ + "0ns"@
                    + ") reached with requests still in flight"@)
            },
    {
        match event {
            DrainEvent::ServeEnded => Some(Outcome::Drained),
            DrainEvent::ServeFailed(e) => Some(
                Outcome::Failed("serve error: ".to_owned().concat(e.as_str())),
            ),
            DrainEvent::Asked { now_ms } => {
                if let Phase::Serving = self.phase {
                    self.phase = Phase::Draining { since_ms: now_ms };
                }
                None
            },
            DrainEvent::AskerGone => {
                if let Phase::Serving = self.phase {
                    self.phase = Phase::Unasked;
                }
                None
            },
            DrainEvent::Clock { now_ms } => {
                let overdue: bool = match self.phase {
                    Phase::Draining { since_ms } => now_ms as u128 >= since_ms as u128
                        + self.grace_secs as u128 * 1000,
                    _ => false,
                };
                if !overdue {
                    return None;
                }
                let mut why: String = "drain deadline (".to_owned();
                why.append(seconds(self.grace_secs).as_str());
                why.append(") reached with requests still in flight");
                Some(Outcome::DeadlineHit(why))
            },
        }
    }
}

/// A number of seconds, as a length of time is printed.
pub fn seconds(secs: u64) -> (r: String)
    ensures
        r@ == seconds_text(secs as nat),
        secs == 0 ==> r@ == "0ns"@,
        secs > 0 ==> r@ == decimal_of(secs as nat) + "s"@,
{
    if secs == 0 {
        "0ns".to_owned()
    } else {
        decimal(secs).concat("s")
    }
}

/// How far a stop has got after all these events.
pub open spec fn phase_after(phase: Phase, events: Seq<DrainEvent>) -> Phase
    decreases events.len(),
{
    if events.len() == 0 {
        phase
    } else {
        phase_after(phase, events.drop_last()).after(events.last())
    }
}

/// What happens one after the other adds up: how far a stop has got after one more event is what that event makes
/// of how far it had got before.
pub proof fn law_events_add_up(phase: Phase, events: Seq<DrainEvent>, event: DrainEvent)
    ensures
        phase_after(phase, Seq::empty()) == phase,
        phase_after(phase, events.push(event)) == phase_after(phase, events).after(event),
{
    assert(events.push(event).drop_last() =~= events);
}

/// The wait starts when the service is asked to stop, not when it starts: as long as nobody asked,
/// whatever else happens and however long it has been up, the wait does not run out.
pub proof fn law_no_deadline_before_the_signal(
    events: Seq<DrainEvent>,
    grace_secs: nat,
    now_ms: nat,
)
    requires
        forall|i: int| 0 <= i < events.len() ==> !(#[trigger] events[i] is Asked),
    ensures
        !phase_after(Phase::Serving, events).overdue(grace_secs, now_ms),
        !(phase_after(Phase::Serving, events) is Draining),
    decreases events.len(),
{
    if events.len() > 0 {
        assert(!(events[events.len() - 1] is Asked));
        assert forall|i: int| 0 <= i < events.drop_last().len() implies !(
        #[trigger] events.drop_last()[i] is Asked) by {
            assert(events.drop_last()[i] == events[i]);
        }
        law_no_deadline_before_the_signal(events.drop_last(), grace_secs, now_ms);
    }
}

/// Once asked to stop, the service waits until the grace is over and no longer: nothing that happens in
/// between moves the end of the wait.
pub proof fn law_the_wait_is_as_long_as_the_grace(
    asked_ms: u64,
    events: Seq<DrainEvent>,
    grace_secs: nat,
    now_ms: nat,
)
    ensures
        phase_after(Phase::Serving.after(DrainEvent::Asked { now_ms: asked_ms }), events).overdue(
            grace_secs,
            now_ms,
        ) <==> now_ms >= asked_ms + grace_secs * 1000,
    decreases events.len(),
{
    lemma_draining_stays(asked_ms, events);
}

proof fn lemma_draining_stays(asked_ms: u64, events: Seq<DrainEvent>)
    ensures
        phase_after(Phase::Draining { since_ms: asked_ms }, events) == (Phase::Draining {
            since_ms: asked_ms,
        }),
    decreases events.len(),
{
    if events.len() > 0 {
        lemma_draining_stays(asked_ms, events.drop_last());
    }
}

/// What a signal to stop brings about.
pub enum StopAction {
    /// Requests in flight are waited for; the line says so.
    Drain(String),
    /// The process ends at once, with this exit code; the line says so.
    ExitNow { code: i32, line: String },
}

/// The signals to stop that have come so far.
pub struct StopSignals {
    pub asked: bool,
}

impl StopSignals {
    /// None has come.
    pub fn new() -> (r: StopSignals)
        ensures
            !r.asked,
    {
        StopSignals { asked: false }
    }

    /// The signal `name` has come. The first starts the wait; a second, of whatever kind, ends it, and to
    /// ask twice is deliberate and no failure.
    pub fn received(&mut self, name: &str) -> (r: StopAction)
        ensures
            final(self).asked,
            match r {
                StopAction::Drain(line) => {
                    &&& !old(self).asked
                    &&& line@ == name@ + " — draining in-flight requests"@
                },
                StopAction::ExitNow { code, line } => {
                    &&& old(self).asked
                    &&& code == 0
                    &&& line@ == "second signal — exiting without finishing the drain"@
                },
            },
    {
        if self.asked {
            return StopAction::ExitNow {
                code: 0,
                line: "second signal — exiting without finishing the drain".to_owned(),
            };
        }
        self.asked = true;
        StopAction::Drain(name.to_owned().concat(" — draining in-flight requests"))
    }
}

/// The line for a signal that cannot be caught.
pub fn uncaught_line(name: &str, error: &str) -> (r: String)
    ensures
        r@ == name@ + " handler unavailable ("@ + error@ + "); it will be a hard kill"@,
{
    let mut line: String = name.to_owned();
    line.append(" handler unavailable (");
    line.append(error);
    line.append("); it will be a hard kill");
    line
}

/// On or off.
pub open spec fn on_off(on: bool) -> Seq<char> {
    if on {
        "on"@
    } else {
        "off"@
    }
}

/// What the service runs with, and nothing that is secret: of the metrics' token only whether there is
/// one.
pub open spec fn summary_text(cfg: Config) -> Seq<char> {
    MODEL_LABEL@ + ", idle-unload "@ + (match cfg.idle_unload {
        Some(secs) => decimal_of(secs as nat) + "s"@,
        None => "off"@,
    }) + ", max_tokens "@ + decimal_of(cfg.max_tokens as nat) + ", max_request_tokens "@
        + decimal_of(cfg.max_request_tokens as nat) + ", metrics "@ + on_off(
        cfg.metrics_token is Some,
    ) + ", request log "@ + on_off(cfg.log_requests)
}

/// What the service says when it is ready.
pub open spec fn listening_text(cfg: Config, port: nat) -> Seq<char> {
    "den-embed "@ + VERSION@ + " listening on :"@ + decimal_of(port) + " — "@ + summary_text(cfg)
}

fn switch_word(on: bool) -> (r: &'static str)
    ensures
        r@ == on_off(on),
        on ==> r@ == "on"@,
        !on ==> r@ == "off"@,
{
    if on {
        "on"
    } else {
        "off"
    }
}

/// What the service runs with.
pub fn summary(cfg: &Config) -> (r: String)
    ensures
        r@ == summary_text(*cfg),
        ({
            let unload = match cfg.idle_unload {
                Some(secs) => decimal_of(secs as nat) + "s"@,
                None => "off"@,
            };
            let shown = if cfg.metrics_token is Some {
                "on"@
            } else {
                "off"@
            };
            let logged = if cfg.log_requests {
                "on"@
            } else {
                "off"@
            };
            r@ == "bge-m3"@ + ", idle-unload "@ + unload + ", max_tokens "@ + decimal_of(
                cfg.max_tokens as nat,
            ) + ", max_request_tokens "@ + decimal_of(cfg.max_request_tokens as nat) + ", metrics "@
                + shown + ", request log "@ + logged
        }),
{
    let mut line: String = MODEL_LABEL.to_owned();
    line.append(", idle-unload ");
    let unload: String = match cfg.idle_unload {
        Some(secs) => decimal(secs).concat("s"),
        None => "off".to_owned(),
    };
    line.append(unload.as_str());
    line.append(", max_tokens ");
    line.append(decimal(cfg.max_tokens as u64).as_str());
    line.append(", max_request_tokens ");
    line.append(decimal(cfg.max_request_tokens as u64).as_str());
    line.append(", metrics ");
    line.append(switch_word(cfg.metrics_token.is_some()));
    line.append(", request log ");
    line.append(switch_word(cfg.log_requests));
    line
}

/// What the service says when it is ready: the port it got, and what it runs with.
pub fn listening_line(cfg: &Config, port: u16) -> (r: String)
    ensures
        r@ == listening_text(*cfg, port as nat),
        ({
            let unload = match cfg.idle_unload {
                Some(secs) => decimal_of(secs as nat) + "s"@,
                None => "off"@,
            };
            let shown = if cfg.metrics_token is Some {
                "on"@
            } else {
                "off"@
            };
            let logged = if cfg.log_requests {
                "on"@
            } else {
                "off"@
            };
            r@ == "den-embed "@ + VERSION@ + " listening on :"@ + decimal_of(port as nat) + " — "@
                + ("bge-m3"@ + ", idle-unload "@ + unload + ", max_tokens "@ + decimal_of(
                cfg.max_tokens as nat,
            ) + ", max_request_tokens "@ + decimal_of(cfg.max_request_tokens as nat) + ", metrics "@
                + shown + ", request log "@ + logged)
        }),
{
    let mut line: String = "den-embed ".to_owned();
    line.append(VERSION);
    line.append(" listening on :");
    line.append(decimal(port as u64).as_str());
    line.append(" — ");
    line.append(summary(cfg).as_str());
    line
}

/// What the service says when it is ready does not depend on what the metrics' token is.
pub proof fn law_the_token_is_not_told(a: Config, b: Config, port: nat)
    requires
        a.metrics_token is Some <==> b.metrics_token is Some,
        a.idle_unload == b.idle_unload,
        a.max_tokens == b.max_tokens,
        a.max_request_tokens == b.max_request_tokens,
        a.log_requests == b.log_requests,
    ensures
        listening_text(a, port) == listening_text(b, port),
{
}

} // verus!
