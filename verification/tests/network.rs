use ayachi_door_access::network::{LinkAction, LinkEvent, LinkPhase, LinkSupervisor, MdnsAnswers};

#[test]
fn join_retry_and_announce() {
    let mut link = LinkSupervisor::new();
    assert_eq!(link.phase(), LinkPhase::Connecting);
    assert_eq!(link.handle(LinkEvent::ConnectFailed), LinkAction::RetryAfterDelay);
    assert_eq!(link.handle(LinkEvent::Connected), LinkAction::AwaitAddress);
    assert_eq!(link.handle(LinkEvent::AddressTimeout), LinkAction::AwaitAddress);
    assert_eq!(link.handle(LinkEvent::AddressUp), LinkAction::AnnounceAddress);
    assert_eq!(link.phase(), LinkPhase::Online);
}

#[test]
fn disconnects_lead_back_to_joining() {
    let mut link = LinkSupervisor::new();
    link.handle(LinkEvent::Connected);
    assert_eq!(link.handle(LinkEvent::Disconnected), LinkAction::Connect);
    assert_eq!(link.phase(), LinkPhase::Connecting);
    link.handle(LinkEvent::Connected);
    link.handle(LinkEvent::AddressUp);
    assert_eq!(link.handle(LinkEvent::WaitFailed { not_connected: true }), LinkAction::Connect);
    link.handle(LinkEvent::Connected);
    link.handle(LinkEvent::AddressUp);
    assert_eq!(link.handle(LinkEvent::Disconnected), LinkAction::Connect);
}

#[test]
fn unexpected_wait_error_stops() {
    let mut link = LinkSupervisor::new();
    link.handle(LinkEvent::Connected);
    link.handle(LinkEvent::AddressUp);
    assert_eq!(link.handle(LinkEvent::WaitFailed { not_connected: false }), LinkAction::Stop);
    assert_eq!(link.handle(LinkEvent::Connected), LinkAction::Stop);
    assert_eq!(link.phase(), LinkPhase::Stopped);
}

#[test]
fn mdns_announces_latest_address() {
    let mut answers = MdnsAnswers::new();
    assert_eq!(answers.ipv4(), [0, 0, 0, 0]);
    answers.update_ipv4([192, 168, 1, 50]);
    assert_eq!(answers.ipv4(), [192, 168, 1, 50]);
}
