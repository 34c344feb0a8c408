//! The state machine of one subscriber to the feed of new mail.
//!
//! The connection waits for the next of three things: a frame from the
//! client, an event of the storage, or the time of the next heartbeat. It
//! hands what came to [`SocketState::on_event`] and does what the
//! [`Reaction`] says.

use vstd::prelude::*;
use crate::storage::StorageEvent;

verus! {

/// The seconds between two heartbeats.
pub const HEARTBEAT_SECONDS: u64 = 30;

/// What a client tells the service.
#[derive(Clone, Copy, PartialEq, Eq, Debug)]
pub enum WsMessageFromClient {
    /// Events of new mail are wanted from now on.
    ListenForNewMail,
    /// The client is alive.
    Heartbeat,
}

/// What the service tells a client.
#[derive(Clone, Copy, PartialEq, Eq, Debug)]
pub enum WsMessageFromServer {
    /// Mail has come in since the client last read the list.
    NewMailAvailable,
}

/// A frame as it came from the client.
#[derive(Clone, Copy, PartialEq, Eq, Debug)]
pub enum Frame {
    /// A text frame and the message that it decodes to, if any.
    Text(Option<WsMessageFromClient>),
    /// The answer to a ping.
    Pong,
    /// The client closes the connection.
    Close,
    /// Any other frame.
    Other,
}

/// What the connection waited for and got.
#[derive(Clone, Copy, PartialEq, Eq, Debug)]
pub enum SocketEvent {
    /// A frame came from the client.
    Received(Frame),
    /// Reading from the client failed.
    ReceiveFailed,
    /// The client is gone.
    Disconnected,
    /// The storage published an event.
    Stored(StorageEvent),
    /// Events of the storage were missed, or the storage is gone.
    Lagged,
    /// The heartbeat is due.
    HeartbeatDue,
}

/// What is sent to the client.
#[derive(Clone, Copy, PartialEq, Eq, Debug)]
pub enum Outgoing {
    /// A message as a text frame.
    Message(WsMessageFromServer),
    /// A ping frame.
    Ping,
}

/// What the connection does after an event.
#[derive(Clone, Copy, PartialEq, Eq, Debug)]
pub struct Reaction {
    /// What to send, if anything.
    pub send: Option<Outgoing>,
    /// Whether the connection ends where sending fails.
    pub stop_if_send_fails: bool,
    /// Whether the connection ends now.
    pub stop: bool,
    /// Whether the time until the next heartbeat starts anew.
    pub reset_heartbeat: bool,
}

/// The state of a subscriber.
#[derive(Clone, Copy, PartialEq, Eq, Debug, Default)]
pub struct SocketState {
    listen_for_new_mail: bool,
    active: bool,
    closed: bool,
}

/// The state of a subscriber as plain values.
pub struct SocketView {
    pub listen_for_new_mail: bool,
    pub active: bool,
    pub closed: bool,
}

/// The state after the event, before the connection looks at it.
///
/// A frame from the client marks the subscriber active, whatever it holds;
/// `ListenForNewMail` turns the events on and `Close` closes. An event of
/// the storage marks a listening subscriber active.
pub open spec fn absorb(v: SocketView, event: SocketEvent) -> SocketView {
    match event {
        SocketEvent::Received(frame) => SocketView {
            listen_for_new_mail: v.listen_for_new_mail || frame == Frame::Text(
                Some(WsMessageFromClient::ListenForNewMail),
            ),
            active: true,
            closed: v.closed || frame == Frame::Close,
        },
        SocketEvent::ReceiveFailed => SocketView {
            listen_for_new_mail: v.listen_for_new_mail,
            active: true,
            closed: v.closed,
        },
        SocketEvent::Stored(e) => SocketView {
            listen_for_new_mail: v.listen_for_new_mail,
            active: v.active || v.listen_for_new_mail,
            closed: v.closed,
        },
        _ => v,
    }
}

/// Whether the event ends the connection by itself: the client is gone,
/// reading failed, or events of the storage were missed.
pub open spec fn is_fatal(event: SocketEvent) -> bool {
    event == SocketEvent::ReceiveFailed || event == SocketEvent::Disconnected || event
        == SocketEvent::Lagged
}

/// What is sent after the event: `NewMailAvailable` to a listening
/// subscriber when the storage published an event, a ping when the
/// heartbeat is due.
pub open spec fn outgoing(v: SocketView, event: SocketEvent) -> Option<Outgoing> {
    match event {
        SocketEvent::Stored(e) => if v.listen_for_new_mail {
            Some(Outgoing::Message(WsMessageFromServer::NewMailAvailable))
        } else {
            None
        },
        SocketEvent::HeartbeatDue => Some(Outgoing::Ping),
        _ => None,
    }
}

/// What the connection does after the event in the state `v`.
///
/// A fatal event ends the connection. Otherwise the connection ends
/// where the subscriber is closed; and where the subscriber was active,
/// the heartbeat starts anew. A ping that cannot be sent ends the
/// connection; a message that cannot be sent does not.
pub open spec fn reaction(v: SocketView, event: SocketEvent) -> Reaction {
    let after = absorb(v, event);
    Reaction {
        send: outgoing(v, event),
        stop_if_send_fails: event == SocketEvent::HeartbeatDue,
        stop: is_fatal(event) || after.closed,
        reset_heartbeat: !is_fatal(event) && !after.closed && after.active,
    }
}

/// The state that the connection goes on with. The mark of activity is
/// taken off where the heartbeat was started anew.
pub open spec fn next_state(v: SocketView, event: SocketEvent) -> SocketView {
    let after = absorb(v, event);
    SocketView {
        listen_for_new_mail: after.listen_for_new_mail,
        active: after.active && !reaction(v, event).reset_heartbeat,
        closed: after.closed,
    }
}

impl View for SocketState {
    type V = SocketView;

    closed spec fn view(&self) -> SocketView {
        SocketView {
            listen_for_new_mail: self.listen_for_new_mail,
            active: self.active,
            closed: self.closed,
        }
    }
}

impl SocketState {
    /// The state of a subscriber that has just connected.
    pub fn new() -> (s: SocketState)
        ensures
            !s@.listen_for_new_mail,
            !s@.active,
            !s@.closed,
    {
        SocketState { listen_for_new_mail: false, active: false, closed: false }
    }

    /// Whether the subscriber asked for events of new mail.
    pub fn listens(&self) -> (b: bool)
        ensures
            b == self@.listen_for_new_mail,
    {
        self.listen_for_new_mail
    }

    /// Whether the client closed the connection.
    pub fn closed(&self) -> (b: bool)
        ensures
            b == self@.closed,
    {
        self.closed
    }

    /// Takes a frame of the client into the state.
    pub fn on_recv_ws_message(&mut self, frame: Frame)
        ensures
            final(self)@ == (SocketView {
                listen_for_new_mail: old(self)@.listen_for_new_mail || frame == Frame::Text(
                    Some(WsMessageFromClient::ListenForNewMail),
                ),
                active: old(self)@.active,
                closed: old(self)@.closed || frame == Frame::Close,
            }),
    {
        match frame {
            Frame::Text(Some(WsMessageFromClient::ListenForNewMail)) => {
                self.listen_for_new_mail = true;
            },
            Frame::Close => {
                self.closed = true;
            },
            _ => {},
        }
    }

    /// Takes an event of the storage into the state, and says what is
    /// sent for it.
    pub fn on_recv_storage_event(&mut self, event: StorageEvent) -> (send: Option<Outgoing>)
        ensures
            send == outgoing(old(self)@, SocketEvent::Stored(event)),
            final(self)@ == absorb(old(self)@, SocketEvent::Stored(event)),
    {
        if self.listen_for_new_mail {
            self.active = true;
            Some(Outgoing::Message(WsMessageFromServer::NewMailAvailable))
        } else {
            None
        }
    }

    /// Takes what the connection waited for into the state, and says
    /// what the connection does next.
    pub fn on_event(&mut self, event: SocketEvent) -> (r: Reaction)
        ensures
            r == reaction(old(self)@, event),
            final(self)@ == next_state(old(self)@, event),
    {
        let mut send: Option<Outgoing> = None;
        let mut fatal = false;
        match event {
            SocketEvent::Received(frame) => {
                self.active = true;
                self.on_recv_ws_message(frame);
            },
            SocketEvent::ReceiveFailed => {
                self.active = true;
                fatal = true;
            },
            SocketEvent::Disconnected => {
                fatal = true;
            },
            SocketEvent::Stored(stored) => {
                send = self.on_recv_storage_event(stored);
            },
            SocketEvent::Lagged => {
                fatal = true;
            },
            SocketEvent::HeartbeatDue => {
                send = Some(Outgoing::Ping);
            },
        }
        let stop_if_send_fails = match event {
            SocketEvent::HeartbeatDue => true,
            _ => false,
        };
        if fatal || self.closed {
            return Reaction { send, stop_if_send_fails, stop: true, reset_heartbeat: false };
        }
        let reset_heartbeat = self.active;
        if self.active {
            self.active = false;
        }
        Reaction { send, stop_if_send_fails, stop: false, reset_heartbeat }
    }
}

/// The bytes that a heartbeat ping carries.
pub fn ping_payload() -> (p: Vec<u8>)
    ensures
        p@ == seq![0xEFu8, 0xBEu8, 0xADu8, 0xDEu8],
{
    let mut p: Vec<u8> = Vec::new();
    p.push(0xEF);
    p.push(0xBE);
    p.push(0xAD);
    p.push(0xDE);
    proof {
        assert(p@ =~= seq![0xEFu8, 0xBEu8, 0xADu8, 0xDEu8]);
    }
    p
}

} // verus!
