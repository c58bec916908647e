use ayachi_door_access::door::{Door, DoorAction, DoorEvent, DoorMode, DoorState, TimerCommand};

fn action(relay: Option<DoorState>, timer: TimerCommand) -> DoorAction {
    DoorAction { relay, timer }
}

#[test]
fn door_starts_locked() {
    let door = Door::new();
    assert_eq!(door.status(), DoorState::Lock);
    assert_eq!(door.mode(), DoorMode::Locked);
}

#[test]
fn open_once_releases_then_relocks_on_timeout() {
    let mut door = Door::new();
    assert_eq!(door.handle(DoorEvent::OpenOnce), action(Some(DoorState::Open), TimerCommand::Start));
    assert_eq!(door.status(), DoorState::Open);
    assert_eq!(door.handle(DoorEvent::Timeout), action(Some(DoorState::Lock), TimerCommand::Stop));
    assert_eq!(door.status(), DoorState::Lock);
}

#[test]
fn open_once_again_restarts_the_window() {
    let mut door = Door::new();
    door.handle(DoorEvent::OpenOnce);
    assert_eq!(door.handle(DoorEvent::OpenOnce), action(None, TimerCommand::Start));
    assert_eq!(door.mode(), DoorMode::TimedOpen);
}

#[test]
fn stay_unlocked_during_window_holds_open() {
    let mut door = Door::new();
    door.handle(DoorEvent::OpenOnce);
    assert_eq!(door.handle(DoorEvent::Open), action(None, TimerCommand::Stop));
    assert_eq!(door.mode(), DoorMode::HeldOpen);
    assert_eq!(door.handle(DoorEvent::Timeout), action(None, TimerCommand::Keep));
    assert_eq!(door.status(), DoorState::Open);
}

#[test]
fn held_open_ignores_open_once() {
    let mut door = Door::new();
    assert_eq!(door.handle(DoorEvent::Open), action(Some(DoorState::Open), TimerCommand::Keep));
    assert_eq!(door.handle(DoorEvent::OpenOnce), action(None, TimerCommand::Keep));
    assert_eq!(door.mode(), DoorMode::HeldOpen);
    assert_eq!(door.handle(DoorEvent::Open), action(Some(DoorState::Open), TimerCommand::Keep));
}

#[test]
fn lock_locks_from_every_mode() {
    for first in [None, Some(DoorEvent::Open), Some(DoorEvent::OpenOnce)] {
        let mut door = Door::new();
        if let Some(e) = first {
            door.handle(e);
        }
        let a = door.handle(DoorEvent::Lock);
        assert_eq!(a.relay, Some(DoorState::Lock));
        assert_eq!(door.status(), DoorState::Lock);
        assert_eq!(door.mode(), DoorMode::Locked);
    }
}

#[test]
fn relay_always_matches_status() {
    let events = [DoorEvent::Open, DoorEvent::OpenOnce, DoorEvent::Lock, DoorEvent::Timeout];
    for a in events {
        for b in events {
            for c in events {
                let mut door = Door::new();
                let mut relay = DoorState::Lock;
                for e in [a, b, c] {
                    if let Some(level) = door.handle(e).relay {
                        relay = level;
                    }
                    assert_eq!(relay, door.status());
                }
            }
        }
    }
}
