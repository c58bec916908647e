//! The lock's state machine. One owner drives it: requests arrive as events
//! (the three signals and the end of the open-once window), and each event
//! yields what to do with the relay and with the open-once timer.

use vstd::prelude::*;

verus! {

/// The door as the relay holds it.
#[derive(Clone, Copy, Debug, PartialEq, Eq, Structural)]
pub enum DoorState {
    Lock,
    Open,
}

/// How the lock is held.
#[derive(Clone, Copy, Debug, PartialEq, Eq, Structural)]
pub enum DoorMode {
    /// Locked.
    Locked,
    /// Released until told to lock ("stay unlocked").
    HeldOpen,
    /// Released for the open-once window; locks again when it runs out.
    TimedOpen,
}

/// What the door is asked, or told.
#[derive(Clone, Copy, Debug, PartialEq, Eq, Structural)]
pub enum DoorEvent {
    /// Stay unlocked.
    Open,
    /// Open for a few seconds (the web panel's "Open once", or the button).
    OpenOnce,
    /// Lock now, and leave always-unlocked mode.
    Lock,
    /// The open-once window ran out.
    Timeout,
}

/// What to do with the open-once timer.
#[derive(Clone, Copy, Debug, PartialEq, Eq, Structural)]
pub enum TimerCommand {
    /// Leave it as it is (running or not).
    Keep,
    /// Start it (again) for a full window.
    Start,
    /// Stop it.
    Stop,
}

/// What to do after an event: drive the relay to a level (if at all), and
/// what to do with the timer.
#[derive(Clone, Copy, Debug, PartialEq, Eq, Structural)]
pub struct DoorAction {
    pub relay: Option<DoorState>,
    pub timer: TimerCommand,
}

pub open spec fn mode_status(m: DoorMode) -> DoorState {
    match m {
        DoorMode::Locked => DoorState::Lock,
        _ => DoorState::Open,
    }
}

pub open spec fn act(relay: Option<DoorState>, timer: TimerCommand) -> DoorAction {
    DoorAction { relay: relay, timer: timer }
}

/// The lock's transitions.
///
/// Locked: "stay unlocked" releases and holds; "open once" releases and starts
/// the window; "lock" drives the relay low again. Held open: "stay unlocked"
/// releases again, "open once" is ignored, "lock" locks. In the open-once
/// window: "stay unlocked" holds the door open and ends the window, "open once"
/// starts the window anew, "lock" and the end of the window lock.
pub open spec fn door_step(m: DoorMode, e: DoorEvent) -> (DoorMode, DoorAction) {
    match m {
        DoorMode::Locked => match e {
            DoorEvent::Open => (DoorMode::HeldOpen, act(Some(DoorState::Open), TimerCommand::Keep)),
            DoorEvent::OpenOnce => (DoorMode::TimedOpen, act(Some(DoorState::Open), TimerCommand::Start)),
            DoorEvent::Lock => (DoorMode::Locked, act(Some(DoorState::Lock), TimerCommand::Keep)),
            DoorEvent::Timeout => (DoorMode::Locked, act(None, TimerCommand::Keep)),
        },
        DoorMode::HeldOpen => match e {
            DoorEvent::Open => (DoorMode::HeldOpen, act(Some(DoorState::Open), TimerCommand::Keep)),
            DoorEvent::OpenOnce => (DoorMode::HeldOpen, act(None, TimerCommand::Keep)),
            DoorEvent::Lock => (DoorMode::Locked, act(Some(DoorState::Lock), TimerCommand::Keep)),
            DoorEvent::Timeout => (DoorMode::HeldOpen, act(None, TimerCommand::Keep)),
        },
        DoorMode::TimedOpen => match e {
            DoorEvent::Open => (DoorMode::HeldOpen, act(None, TimerCommand::Stop)),
            DoorEvent::OpenOnce => (DoorMode::TimedOpen, act(None, TimerCommand::Start)),
            DoorEvent::Lock => (DoorMode::Locked, act(Some(DoorState::Lock), TimerCommand::Stop)),
            DoorEvent::Timeout => (DoorMode::Locked, act(Some(DoorState::Lock), TimerCommand::Stop)),
        },
    }
}

/// The lock.
pub struct Door {
    mode: DoorMode,
}

impl View for Door {
    type V = DoorMode;

    closed spec fn view(&self) -> DoorMode {
        self.mode
    }
}

impl Door {
    /// A locked door: the relay starts low.
    pub fn new() -> (r: Self)
        ensures
            r@ == DoorMode::Locked,
    {
        Door { mode: DoorMode::Locked }
    }

    /// Whether the door is locked or released.
    pub fn status(&self) -> (r: DoorState)
        ensures
            r == mode_status(self@),
    {
        match self.mode {
            DoorMode::Locked => DoorState::Lock,
            _ => DoorState::Open,
        }
    }

    /// How the lock is held.
    pub fn mode(&self) -> (r: DoorMode)
        ensures
            r == self@,
    {
        self.mode
    }

    /// Takes an event; says what to do with the relay and the timer.
    pub fn handle(&mut self, event: DoorEvent) -> (r: DoorAction)
        ensures
            (final(self)@, r) == door_step(old(self)@, event),
    {
        let (mode, action) = match self.mode {
            DoorMode::Locked => match event {
                DoorEvent::Open => (DoorMode::HeldOpen, DoorAction { relay: Some(DoorState::Open), timer: TimerCommand::Keep }),
                DoorEvent::OpenOnce => (DoorMode::TimedOpen, DoorAction { relay: Some(DoorState::Open), timer: TimerCommand::Start }),
                DoorEvent::Lock => (DoorMode::Locked, DoorAction { relay: Some(DoorState::Lock), timer: TimerCommand::Keep }),
                DoorEvent::Timeout => (DoorMode::Locked, DoorAction { relay: None, timer: TimerCommand::Keep }),
            },
            DoorMode::HeldOpen => match event {
                DoorEvent::Open => (DoorMode::HeldOpen, DoorAction { relay: Some(DoorState::Open), timer: TimerCommand::Keep }),
                DoorEvent::OpenOnce => (DoorMode::HeldOpen, DoorAction { relay: None, timer: TimerCommand::Keep }),
                DoorEvent::Lock => (DoorMode::Locked, DoorAction { relay: Some(DoorState::Lock), timer: TimerCommand::Keep }),
                DoorEvent::Timeout => (DoorMode::HeldOpen, DoorAction { relay: None, timer: TimerCommand::Keep }),
            },
            DoorMode::TimedOpen => match event {
                DoorEvent::Open => (DoorMode::HeldOpen, DoorAction { relay: None, timer: TimerCommand::Stop }),
                DoorEvent::OpenOnce => (DoorMode::TimedOpen, DoorAction { relay: None, timer: TimerCommand::Start }),
                DoorEvent::Lock => (DoorMode::Locked, DoorAction { relay: Some(DoorState::Lock), timer: TimerCommand::Stop }),
                DoorEvent::Timeout => (DoorMode::Locked, DoorAction { relay: Some(DoorState::Lock), timer: TimerCommand::Stop }),
            },
        };
        self.mode = mode;
        action
    }
}

/// The relay follows the status: after any event, a relay that was at the
/// level of the old status is, once the action is applied, at the level of the
/// new status.
pub proof fn lemma_relay_matches_status(m: DoorMode, e: DoorEvent)
    ensures
        ({
            let (next, action) = door_step(m, e);
            match action.relay {
                Some(level) => level == mode_status(next),
                None => mode_status(next) == mode_status(m),
            }
        }),
{
}

/// The open-once timer runs exactly in the open-once window: it starts when
/// the window opens (or opens anew), stops when the window closes, and is
/// otherwise left alone.
pub proof fn lemma_timer_runs_in_window(m: DoorMode, e: DoorEvent)
    ensures
        ({
            let (next, action) = door_step(m, e);
            &&& action.timer == TimerCommand::Start ==> next == DoorMode::TimedOpen
            &&& action.timer == TimerCommand::Stop ==> m == DoorMode::TimedOpen && next != DoorMode::TimedOpen
            &&& action.timer == TimerCommand::Keep ==> (m == DoorMode::TimedOpen <==> next == DoorMode::TimedOpen)
        }),
{
}

/// "Lock" always locks, whatever the door was doing.
pub proof fn lemma_lock_locks(m: DoorMode)
    ensures
        door_step(m, DoorEvent::Lock).0 == DoorMode::Locked,
        door_step(m, DoorEvent::Lock).1.relay == Some(DoorState::Lock),
{
}

/// Held open, the door stays released until told to lock: no other event
/// changes it.
pub proof fn lemma_held_open_until_locked(e: DoorEvent)
    requires
        e != DoorEvent::Lock,
    ensures
        door_step(DoorMode::HeldOpen, e).0 == DoorMode::HeldOpen,
        mode_status(door_step(DoorMode::HeldOpen, e).0) == DoorState::Open,
{
}

/// "Open once" on a locked door releases it for the window, and the end of
/// the window locks it again.
pub proof fn lemma_open_once_relocks()
    ensures
        door_step(DoorMode::Locked, DoorEvent::OpenOnce) == (DoorMode::TimedOpen, act(Some(DoorState::Open), TimerCommand::Start)),
        door_step(DoorMode::TimedOpen, DoorEvent::Timeout) == (DoorMode::Locked, act(Some(DoorState::Lock), TimerCommand::Stop)),
{
}

/// How the lock is held after `events`, starting from `m`.
pub open spec fn door_after(m: DoorMode, events: Seq<DoorEvent>) -> DoorMode
    decreases events.len(),
{
    if events.len() == 0 {
        m
    } else {
        door_step(door_after(m, events.drop_last()), events.last()).0
    }
}

/// `n` requests to open once.
pub open spec fn open_once_requests(n: nat) -> Seq<DoorEvent> {
    Seq::new(n, |i: int| DoorEvent::OpenOnce)
}

/// Open once keeps the door released for a window after the last request:
/// after one or more requests on a locked door it is open in the window,
/// each further request restarts the window's timer, and when the window
/// runs out the door locks.
pub proof fn lemma_open_once_window(n: nat)
    ensures
        door_after(DoorMode::Locked, open_once_requests(n + 1)) == DoorMode::TimedOpen,
        mode_status(door_after(DoorMode::Locked, open_once_requests(n + 1))) == DoorState::Open,
        door_step(DoorMode::TimedOpen, DoorEvent::OpenOnce) == (DoorMode::TimedOpen, act(None, TimerCommand::Start)),
        door_step(door_after(DoorMode::Locked, open_once_requests(n + 1)), DoorEvent::Timeout)
            == (DoorMode::Locked, act(Some(DoorState::Lock), TimerCommand::Stop)),
    decreases n,
{
    let events = open_once_requests(n + 1);
    assert(events.drop_last() =~= open_once_requests(n));
    assert(events.last() == DoorEvent::OpenOnce);
    if n > 0 {
        lemma_open_once_window((n - 1) as nat);
        assert(door_after(DoorMode::Locked, open_once_requests(n)) == DoorMode::TimedOpen);
    } else {
        assert(open_once_requests(0) =~= Seq::<DoorEvent>::empty());
        assert(door_after(DoorMode::Locked, open_once_requests(0)) == DoorMode::Locked);
    }
    assert(door_after(DoorMode::Locked, events)
        == door_step(door_after(DoorMode::Locked, events.drop_last()), events.last()).0);
}

} // verus!
