//! Keeping the Wi-Fi link up, and the address the mDNS responder announces.

use vstd::prelude::*;

verus! {

/// How long mDNS answers may be cached, in seconds.
pub const MDNS_TTL_SECONDS: u32 = 60;
/// How long to wait for an address before waiting again, in seconds.
pub const ADDRESS_WAIT_SECONDS: u64 = 10;

/// Where the link stands.
#[derive(Clone, Copy, Debug, PartialEq, Eq, Structural)]
pub enum LinkPhase {
    /// Joining the access point.
    Connecting,
    /// Joined; waiting for DHCP.
    AwaitingAddress,
    /// Joined with an address; waiting for a disconnect.
    Online,
    /// Given up after an unexpected error.
    Stopped,
}

/// What happened to the link.
#[derive(Clone, Copy, Debug, PartialEq, Eq, Structural)]
pub enum LinkEvent {
    /// Joining failed.
    ConnectFailed,
    /// Joined the access point.
    Connected,
    /// DHCP configured an address.
    AddressUp,
    /// No address within [`ADDRESS_WAIT_SECONDS`].
    AddressTimeout,
    /// The link went down.
    Disconnected,
    /// Waiting for a disconnect failed: the link was already down
    /// (`not_connected`) or something else went wrong.
    WaitFailed { not_connected: bool },
}

/// What to do next.
#[derive(Clone, Copy, Debug, PartialEq, Eq, Structural)]
pub enum LinkAction {
    /// Try to join now.
    Connect,
    /// Wait the retry delay, then try to join.
    RetryAfterDelay,
    /// Wait for an address, a disconnect or the address timeout.
    AwaitAddress,
    /// Announce the address over mDNS and wait for a disconnect.
    AnnounceAddress,
    /// Stop keeping the link up.
    Stop,
}

/// The supervisor's transitions: a failed join is retried after the delay;
/// a join waits for an address, which is waited for again on a timeout; an
/// address is announced; any disconnect leads back to joining; only an
/// unexpected error while waiting for a disconnect stops the supervisor.
pub open spec fn link_step(p: LinkPhase, e: LinkEvent) -> (LinkPhase, LinkAction) {
    match (p, e) {
        (LinkPhase::Connecting, LinkEvent::ConnectFailed) => (LinkPhase::Connecting, LinkAction::RetryAfterDelay),
        (LinkPhase::Connecting, LinkEvent::Connected) => (LinkPhase::AwaitingAddress, LinkAction::AwaitAddress),
        (LinkPhase::AwaitingAddress, LinkEvent::AddressUp) => (LinkPhase::Online, LinkAction::AnnounceAddress),
        (LinkPhase::AwaitingAddress, LinkEvent::AddressTimeout) => (LinkPhase::AwaitingAddress, LinkAction::AwaitAddress),
        (LinkPhase::AwaitingAddress, LinkEvent::Disconnected) => (LinkPhase::Connecting, LinkAction::Connect),
        (LinkPhase::Online, LinkEvent::Disconnected) => (LinkPhase::Connecting, LinkAction::Connect),
        (LinkPhase::Online, LinkEvent::WaitFailed { not_connected }) => if not_connected {
            (LinkPhase::Connecting, LinkAction::Connect)
        } else {
            (LinkPhase::Stopped, LinkAction::Stop)
        },
        (LinkPhase::Stopped, _) => (LinkPhase::Stopped, LinkAction::Stop),
        (_, _) => (p, waiting_action(p)),
    }
}

/// What a phase waits on.
pub open spec fn waiting_action(p: LinkPhase) -> LinkAction {
    match p {
        LinkPhase::Connecting => LinkAction::Connect,
        LinkPhase::AwaitingAddress => LinkAction::AwaitAddress,
        LinkPhase::Online => LinkAction::AnnounceAddress,
        LinkPhase::Stopped => LinkAction::Stop,
    }
}

/// Keeps the Wi-Fi link up.
pub struct LinkSupervisor {
    phase: LinkPhase,
}

impl View for LinkSupervisor {
    type V = LinkPhase;

    closed spec fn view(&self) -> LinkPhase {
        self.phase
    }
}

impl LinkSupervisor {
    /// Starts by joining.
    pub fn new() -> (r: Self)
        ensures
            r@ == LinkPhase::Connecting,
    {
        LinkSupervisor { phase: LinkPhase::Connecting }
    }

    pub fn phase(&self) -> (r: LinkPhase)
        ensures
            r == self@,
    {
        self.phase
    }

    /// Takes what happened; says what to do next.
    pub fn handle(&mut self, event: LinkEvent) -> (r: LinkAction)
        ensures
            (final(self)@, r) == link_step(old(self)@, event),
    {
        let (phase, action) = match (self.phase, event) {
            (LinkPhase::Connecting, LinkEvent::ConnectFailed) => (LinkPhase::Connecting, LinkAction::RetryAfterDelay),
            (LinkPhase::Connecting, LinkEvent::Connected) => (LinkPhase::AwaitingAddress, LinkAction::AwaitAddress),
            (LinkPhase::AwaitingAddress, LinkEvent::AddressUp) => (LinkPhase::Online, LinkAction::AnnounceAddress),
            (LinkPhase::AwaitingAddress, LinkEvent::AddressTimeout) => (LinkPhase::AwaitingAddress, LinkAction::AwaitAddress),
            (LinkPhase::AwaitingAddress, LinkEvent::Disconnected) => (LinkPhase::Connecting, LinkAction::Connect),
            (LinkPhase::Online, LinkEvent::Disconnected) => (LinkPhase::Connecting, LinkAction::Connect),
            (LinkPhase::Online, LinkEvent::WaitFailed { not_connected }) => if not_connected {
                (LinkPhase::Connecting, LinkAction::Connect)
            } else {
                (LinkPhase::Stopped, LinkAction::Stop)
            },
            (LinkPhase::Stopped, _) => (LinkPhase::Stopped, LinkAction::Stop),
            (p, _) => (p, match p {
                LinkPhase::Connecting => LinkAction::Connect,
                LinkPhase::AwaitingAddress => LinkAction::AwaitAddress,
                LinkPhase::Online => LinkAction::AnnounceAddress,
                LinkPhase::Stopped => LinkAction::Stop,
            }),
        };
        self.phase = phase;
        action
    }
}

/// The link is kept up: a disconnect always leads back to joining, and only
/// an unexpected error while waiting for a disconnect stops the supervisor.
pub proof fn lemma_link_kept_up(p: LinkPhase, e: LinkEvent)
    requires
        p != LinkPhase::Stopped,
    ensures
        e == LinkEvent::Disconnected && p != LinkPhase::Connecting ==> link_step(p, e) == (LinkPhase::Connecting, LinkAction::Connect),
        link_step(p, e).0 == LinkPhase::Stopped <==> (p == LinkPhase::Online && e == (LinkEvent::WaitFailed { not_connected: false })),
{
}

/// The address the mDNS responder announces for the host name.
pub struct MdnsAnswers {
    ipv4: [u8; 4],
}

impl MdnsAnswers {
    /// No address yet: `0.0.0.0`.
    pub fn new() -> (r: Self)
        ensures
            r.address()@ == seq![0u8, 0u8, 0u8, 0u8],
    {
        MdnsAnswers { ipv4: [0u8; 4] }
    }

    pub closed spec fn address(&self) -> [u8; 4] {
        self.ipv4
    }

    /// Announce `ipv4` from now on.
    pub fn update_ipv4(&mut self, ipv4: [u8; 4])
        ensures
            final(self).address() == ipv4,
    {
        self.ipv4 = ipv4;
    }

    /// The address announced.
    pub fn ipv4(&self) -> (r: [u8; 4])
        ensures
            r == self.address(),
    {
        self.ipv4
    }
}

} // verus!
