//! When a model that nobody uses is dropped.

use vstd::prelude::*;

verus! {

/// Milliseconds since the last inference, by clock readings in milliseconds.
pub open spec fn idle_ms(now_ms: nat, last_used_ms: nat) -> nat {
    if now_ms >= last_used_ms {
        (now_ms - last_used_ms) as nat
    } else {
        0
    }
}

/// How often to look, in milliseconds, for a model that is to be dropped after `idle_secs` seconds:
/// twice as often as that, though not more often than every 15 seconds, nor less than every minute.
pub open spec fn poll_of(idle_secs: nat) -> nat {
    if idle_secs * 500 < 15_000 {
        15_000
    } else if idle_secs * 500 > 60_000 {
        60_000
    } else {
        idle_secs * 500
    }
}

/// How often to look for an idle model, in milliseconds.
pub fn poll_interval(idle_secs: u64) -> (r: u64)
    ensures
        r == poll_of(idle_secs as nat),
        15_000 <= r <= 60_000,
        30 <= idle_secs <= 120 ==> 2 * r == idle_secs * 1000,
        idle_secs <= 30 ==> r == 15_000,
        idle_secs >= 120 ==> r == 60_000,
{
    if idle_secs < 30 {
        15_000
    } else if idle_secs > 120 {
        60_000
    } else {
        idle_secs * 500
    }
}

/// What is done about the model when the service starts.
pub enum Boot {
    /// It is loaded at once and stays.
    Warm,
    /// It is loaded when first needed; every `poll_ms` milliseconds it is looked whether it has been idle
    /// for `idle_secs` seconds.
    Lazy { idle_secs: u64, poll_ms: u64 },
}

/// What is done about the model when the service starts, going by the idle time that was set.
pub fn boot(idle_unload: Option<u64>) -> (r: Boot)
    ensures
        match idle_unload {
            None => r is Warm,
            Some(secs) => r matches Boot::Lazy { idle_secs, poll_ms } && idle_secs == secs && poll_ms
                == poll_of(secs as nat),
        },
        idle_unload matches Some(secs) ==> {
            &&& r matches Boot::Lazy { poll_ms, .. } && 15_000 <= poll_ms <= 60_000 && (30 <= secs
                <= 120 ==> 2 * poll_ms == secs * 1000) && (secs <= 30 ==> poll_ms == 15_000) && (secs
                >= 120 ==> poll_ms == 60_000)
        },
{
    match idle_unload {
        None => Boot::Warm,
        Some(secs) => Boot::Lazy { idle_secs: secs, poll_ms: poll_interval(secs) },
    }
}

/// Whether the model is to be dropped: it is there, and there was no inference for `idle_secs` seconds.
pub open spec fn due(loaded: bool, now_ms: nat, last_used_ms: nat, idle_secs: nat) -> bool {
    loaded && idle_ms(now_ms, last_used_ms) >= idle_secs * 1000
}

/// The moment of the last inference, in milliseconds since the service started; the start itself where
/// there has been none. Inference alone sets it: asking after the service, reading its metrics or
/// asking what it allows is no use of the model.
pub struct IdleClock {
    last_used_ms: u64,
}

impl View for IdleClock {
    type V = nat;

    closed spec fn view(&self) -> nat {
        self.last_used_ms as nat
    }
}

impl IdleClock {
    /// The clock of a service that has just started.
    pub fn new() -> (r: IdleClock)
        ensures
            r@ == 0,
    {
        IdleClock { last_used_ms: 0 }
    }

    /// There was an inference at `now_ms`.
    pub fn touch(&mut self, now_ms: u64)
        ensures
            final(self)@ == now_ms,
    {
        self.last_used_ms = now_ms;
    }

    /// The moment of the last inference.
    pub fn last_used(&self) -> (r: u64)
        ensures
            r == self@,
    {
        self.last_used_ms
    }

    /// The whole seconds since the last inference.
    pub fn idle_seconds(&self, now_ms: u64) -> (r: u64)
        ensures
            r == idle_ms(now_ms as nat, self@) / 1000,
            now_ms >= self@ ==> r * 1000 <= now_ms - self@ < (r + 1) * 1000,
            now_ms < self@ ==> r == 0,
    {
        now_ms.saturating_sub(self.last_used_ms) / 1000
    }

    /// Whether a model that is to be dropped after `idle_secs` seconds is due.
    pub fn should_unload(&self, loaded: bool, now_ms: u64, idle_secs: u64) -> (r: bool)
        ensures
            r == due(loaded, now_ms as nat, self@, idle_secs as nat),
            !loaded ==> !r,
            loaded && now_ms >= self@ ==> (r <==> now_ms >= self@ + idle_secs * 1000),
            loaded && now_ms < self@ ==> (r <==> idle_secs == 0),
    {
        let idle: u64 = now_ms.saturating_sub(self.last_used_ms);
        let limit: u128 = idle_secs as u128 * 1000;
        loaded && idle as u128 >= limit
    }
}

/// Loads a model into `slot` where none is there. One that is there stays; where loading fails the slot
/// stays empty, and the failure is handed on.
pub fn ensure_loaded<M, E, F: FnOnce() -> Result<M, E>>(slot: &mut Option<M>, load: F) -> (r: Result<
    (),
    E,
>)
    requires
        *old(slot) is None ==> call_requires(load, ()),
    ensures
        *old(slot) is Some ==> *final(slot) == *old(slot) && r is Ok,
        *old(slot) is None ==> match r {
            Ok(()) => *final(slot) matches Some(m) && call_ensures(load, (), Ok::<M, E>(m)),
            Err(e) => *final(slot) is None && call_ensures(load, (), Err::<M, E>(e)),
        },
{
    if slot.is_none() {
        match load() {
            Ok(model) => {
                *slot = Some(model);
            },
            Err(e) => {
                return Err(e);
            },
        }
    }
    Ok(())
}

/// The moment of look `k`, where the first is at `first_ms` and the others follow it at the interval.
pub open spec fn look(first_ms: nat, k: nat, idle_secs: nat) -> nat {
    first_ms + k * poll_of(idle_secs)
}

/// A model is looked for twice in the time after which it is dropped, as long as that makes the looks between 15
/// seconds and a minute apart, and else as far apart as the nearer of the two.
pub proof fn law_looks_are_half_the_idle_time_apart(idle_secs: nat)
    ensures
        15_000 <= poll_of(idle_secs) <= 60_000,
        30 <= idle_secs <= 120 ==> 2 * poll_of(idle_secs) == idle_secs * 1000,
        idle_secs <= 30 ==> poll_of(idle_secs) == 15_000,
        idle_secs >= 120 ==> poll_of(idle_secs) == 60_000,
{
}

/// A model is due exactly where it is there and the set time has passed since its last inference; a model that
/// is not there never is.
pub proof fn law_a_model_is_due_once_the_time_has_passed(
    now_ms: nat,
    last_used_ms: nat,
    idle_secs: nat,
)
    requires
        last_used_ms <= now_ms,
    ensures
        due(true, now_ms, last_used_ms, idle_secs) <==> now_ms >= last_used_ms + idle_secs * 1000,
        !due(false, now_ms, last_used_ms, idle_secs),
        idle_ms(now_ms, last_used_ms) + last_used_ms == now_ms,
{
}

/// A model is never dropped while its last inference is less than the set time ago.
pub proof fn law_a_model_in_use_stays(now_ms: nat, last_used_ms: nat, idle_secs: nat)
    requires
        now_ms < last_used_ms + idle_secs * 1000,
        idle_secs > 0,
    ensures
        !due(true, now_ms, last_used_ms, idle_secs),
{
}

/// A model that nobody uses is dropped: of looks as far apart as the interval says, the first of them at any
/// time before that moment, one finds it due before the set time and one interval have passed since the last
/// inference.
pub proof fn law_an_idle_model_is_dropped_in_time(first_ms: nat, last_used_ms: nat, idle_secs: nat)
    requires
        first_ms < last_used_ms + idle_secs * 1000 + poll_of(idle_secs),
    ensures
        exists|k: nat|
            #![trigger look(first_ms, k, idle_secs)]
            {
                &&& due(true, look(first_ms, k, idle_secs), last_used_ms, idle_secs)
                &&& look(first_ms, k, idle_secs) < last_used_ms + idle_secs * 1000 + poll_of(
                    idle_secs,
                )
            },
    decreases last_used_ms + idle_secs * 1000 + poll_of(idle_secs) - first_ms,
{
    let poll = poll_of(idle_secs);
    if first_ms >= last_used_ms + idle_secs * 1000 {
        assert(look(first_ms, 0, idle_secs) == first_ms);
    } else {
        law_an_idle_model_is_dropped_in_time(first_ms + poll, last_used_ms, idle_secs);
        let k = choose|k: nat|
            #![trigger look(first_ms + poll, k, idle_secs)]
            {
                &&& due(true, look(first_ms + poll, k, idle_secs), last_used_ms, idle_secs)
                &&& look(first_ms + poll, k, idle_secs) < last_used_ms + idle_secs * 1000 + poll
            };
        assert((k + 1) * poll == k * poll + poll) by (nonlinear_arith);
        assert(look(first_ms, k + 1, idle_secs) == look(first_ms + poll, k, idle_secs));
    }
}

/// Once due, a model stays due until it is used again.
pub proof fn law_due_until_used(now_ms: nat, later_ms: nat, last_used_ms: nat, idle_secs: nat)
    requires
        due(true, now_ms, last_used_ms, idle_secs),
        now_ms <= later_ms,
    ensures
        due(true, later_ms, last_used_ms, idle_secs),
{
}

} // verus!
