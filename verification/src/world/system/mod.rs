//! Systems: units of per-tick logic, and the rules by which one is run.
//!
//! A system first fetches: it walks the entity tree and keeps the handles
//! of the components it works on. From then on it ticks: it freezes, which
//! checks that the store still holds what the handles name, and, where that
//! went well, runs on the store.

use vstd::prelude::*;
use crate::world::entity::component::ComponentStore;
use crate::world::entity::Entity;

pub mod gravity;
pub mod input;
pub mod integrate;
pub mod translate;

verus! {

/// Why a system could not fetch or freeze.
pub struct SystemRuntimeError(pub &'static str);

/// A unit of per-tick logic.
pub trait System<'a>: Sized {
    /// The reals the system computes with.
    type Real;

    /// Whether the store holds every record the system works on.
    spec fn frozen(&self, store: ComponentStore<Self::Real>) -> bool;

    /// Whether `after` is what one run of the system, `delta` seconds after
    /// the run before, can make of `before`.
    spec fn ran(
        &self,
        delta: Self::Real,
        before: ComponentStore<Self::Real>,
        after: ComponentStore<Self::Real>,
    ) -> bool;

    /// Whether this system is `before` after a fetch from `source` that
    /// went well.
    spec fn fetched(&self, before: Self, source: Entity) -> bool;

    /// Finds and keeps what the system needs from the tree below `source`.
    /// A fetch that fails can be tried again.
    fn on_fetch(&mut self, source: &'a Entity) -> (r: Result<(), SystemRuntimeError>)
        ensures
            r is Ok ==> final(self).fetched(*old(self), *source),
    ;

    /// Checks that the store holds every record the system works on.
    fn on_freeze(&self, store: &ComponentStore<Self::Real>) -> (r: Result<(), SystemRuntimeError>)
        ensures
            r is Ok <==> self.frozen(*store),
    ;

    /// Does the work of one tick. `delta` is the time since the tick
    /// before, in seconds.
    fn on_run(&self, store: &mut ComponentStore<Self::Real>, delta: Self::Real)
        requires
            self.frozen(*old(store)),
        ensures
            self.ran(delta, *old(store), *final(store)),
    ;

    /// One tick: freezes and, where that went well, runs. Returns whether
    /// the system ran; a tick whose freeze fails is skipped and leaves the
    /// store as it is.
    fn tick(&self, store: &mut ComponentStore<Self::Real>, delta: Self::Real) -> (r: bool)
        ensures
            r == self.frozen(*old(store)),
            r ==> self.ran(delta, *old(store), *final(store)),
            !r ==> *final(store) == *old(store),
    {
        match self.on_freeze(store) {
            Ok(_) => {
                self.on_run(store, delta);
                true
            },
            Err(_) => false,
        }
    }
}

/// How long a system waits after a failed fetch, in milliseconds.
pub const FETCH_BACKOFF_MILLIS: u64 = 5000;

/// How long a system waits between two ticks, in milliseconds.
pub const TICK_PAUSE_MILLIS: u64 = 10;

/// Where a system is in its life. Times are in nanoseconds of a clock that
/// does not run backwards.
#[derive(Clone, Copy, PartialEq, Eq, Structural)]
pub enum SystemState {
    /// The system has yet to fetch with success.
    Initializing,
    /// The system ticks. `prev_time` is when the last tick began, `delta`
    /// how long the tick before it lies back.
    Online { prev_time: u64, delta: u64 },
}

/// What happened to a system since it was last told what to do.
#[derive(Clone, Copy, PartialEq, Eq, Structural)]
pub enum SystemEvent {
    /// The system was started.
    Started,
    /// A fetch ended, at the given time.
    Fetched { ok: bool, now: u64 },
    /// A wait ended, at the given time.
    Slept { now: u64 },
    /// A freeze ended.
    Froze { ok: bool },
    /// A run ended.
    Ran,
}

/// What a system is to do next.
#[derive(Clone, Copy, PartialEq, Eq, Structural)]
pub enum SystemAction {
    /// Fetch, and report `Fetched`.
    Fetch,
    /// Wait for the given number of milliseconds, and report `Slept`.
    Sleep { millis: u64 },
    /// Freeze, and report `Froze`.
    Freeze,
    /// Run with the given time since the last tick, in nanoseconds, and
    /// report `Ran`.
    Run { delta: u64 },
}

impl SystemState {
    /// The state after `event`.
    ///
    /// A system that is initializing goes online with its first successful
    /// fetch. A system that is online stays so; each wait that ends begins
    /// a tick.
    pub open spec fn after(self, event: SystemEvent) -> SystemState {
        match (self, event) {
            (SystemState::Initializing, SystemEvent::Fetched { ok: true, now }) => {
                SystemState::Online { prev_time: now, delta: 0 }
            },
            (SystemState::Online { prev_time, delta }, SystemEvent::Slept { now }) => {
                SystemState::Online {
                    prev_time: now,
                    delta: if now >= prev_time {
                        (now - prev_time) as u64
                    } else {
                        0
                    },
                }
            },
            _ => self,
        }
    }

    /// What is to be done after `event` came in this state.
    ///
    /// While initializing, a system fetches, and waits for the backoff
    /// after each fetch that failed. Once online it freezes at the start of
    /// each tick, runs if the freeze went well, and pauses before the next
    /// tick whether it ran or not.
    pub open spec fn action(self, event: SystemEvent) -> SystemAction {
        match (self, event) {
            (SystemState::Initializing, SystemEvent::Fetched { ok: true, .. }) => {
                SystemAction::Sleep { millis: 0 }
            },
            (SystemState::Initializing, SystemEvent::Fetched { ok: false, .. }) => {
                SystemAction::Sleep { millis: FETCH_BACKOFF_MILLIS }
            },
            (SystemState::Initializing, _) => SystemAction::Fetch,
            (SystemState::Online { .. }, SystemEvent::Slept { .. }) => SystemAction::Freeze,
            (SystemState::Online { delta, .. }, SystemEvent::Froze { ok: true }) => {
                SystemAction::Run { delta }
            },
            (SystemState::Online { .. }, _) => SystemAction::Sleep { millis: TICK_PAUSE_MILLIS },
        }
    }

    /// The state of a system that was not started yet.
    pub fn new() -> (r: SystemState)
        ensures
            r == SystemState::Initializing,
    {
        SystemState::Initializing
    }

    /// Takes note of `event` and says what the system is to do next.
    pub fn step(&mut self, event: SystemEvent) -> (r: SystemAction)
        ensures
            *final(self) == old(self).after(event),
            r == old(self).action(event),
    {
        match *self {
            SystemState::Initializing => match event {
                SystemEvent::Fetched { ok, now } => {
                    if ok {
                        *self = SystemState::Online { prev_time: now, delta: 0 };
                        SystemAction::Sleep { millis: 0 }
                    } else {
                        SystemAction::Sleep { millis: FETCH_BACKOFF_MILLIS }
                    }
                },
                _ => SystemAction::Fetch,
            },
            SystemState::Online { prev_time, delta } => match event {
                SystemEvent::Slept { now } => {
                    let elapsed: u64 = if now >= prev_time {
                        now - prev_time
                    } else {
                        0
                    };
                    *self = SystemState::Online { prev_time: now, delta: elapsed };
                    SystemAction::Freeze
                },
                SystemEvent::Froze { ok } => {
                    if ok {
                        SystemAction::Run { delta }
                    } else {
                        SystemAction::Sleep { millis: TICK_PAUSE_MILLIS }
                    }
                },
                _ => SystemAction::Sleep { millis: TICK_PAUSE_MILLIS },
            },
        }
    }
}

/// A system that is online stays online, whatever happens.
pub proof fn lemma_online_stays_online(state: SystemState, event: SystemEvent)
    requires
        state is Online,
    ensures
        state.after(event) is Online,
{
}

/// A system goes online with a successful fetch and in no other way.
pub proof fn lemma_online_by_fetch_only(state: SystemState, event: SystemEvent)
    requires
        state is Initializing,
    ensures
        state.after(event) is Online <==> (event matches SystemEvent::Fetched { ok, .. } && ok),
{
}

/// A fetch that failed is followed by the backoff and then by another
/// fetch; the system does not give up.
pub proof fn lemma_failed_fetch_is_retried(now: u64, later: u64)
    ensures
        SystemState::Initializing.action(SystemEvent::Fetched { ok: false, now })
            == (SystemAction::Sleep { millis: FETCH_BACKOFF_MILLIS }),
        SystemState::Initializing.after(SystemEvent::Fetched { ok: false, now })
            == SystemState::Initializing,
        SystemState::Initializing.action(SystemEvent::Slept { now: later }) == SystemAction::Fetch,
{
}

/// A system runs only right after a freeze that went well, and every tick
/// ends in the pause between ticks, whether the system ran or the freeze
/// failed.
pub proof fn lemma_tick_protocol(state: SystemState, event: SystemEvent)
    requires
        state is Online,
    ensures
        state.action(event) is Run <==> (event matches SystemEvent::Froze { ok } && ok),
        event is Ran || (event matches SystemEvent::Froze { ok } && !ok) ==> state.action(event)
            == (SystemAction::Sleep { millis: TICK_PAUSE_MILLIS }),
        event is Slept ==> state.action(event) == SystemAction::Freeze,
{
}

/// The time handed to a run is the time between the starts of the last
/// two ticks.
pub proof fn lemma_delta_is_elapsed(prev_time: u64, delta: u64, now: u64)
    requires
        prev_time <= now,
    ensures
        (SystemState::Online { prev_time, delta }).after(SystemEvent::Slept { now }).action(
            SystemEvent::Froze { ok: true },
        ) == (SystemAction::Run { delta: (now - prev_time) as u64 }),
{
}

} // verus!
