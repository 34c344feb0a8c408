use mercury::listen::{
    ping_payload, Frame, Outgoing, Reaction, SocketEvent, SocketState, WsMessageFromClient,
    WsMessageFromServer, HEARTBEAT_SECONDS,
};
use mercury::storage::{MailId, StorageEvent};

fn stored() -> SocketEvent {
    SocketEvent::Stored(StorageEvent::NewMail(MailId::new(1)))
}

const LISTEN: SocketEvent =
    SocketEvent::Received(Frame::Text(Some(WsMessageFromClient::ListenForNewMail)));

#[test]
fn events_reach_a_subscriber_only_after_it_asked() {
    let mut state = SocketState::new();
    assert_eq!(
        state.on_event(stored()),
        Reaction {
            send: None,
            stop_if_send_fails: false,
            stop: false,
            reset_heartbeat: false
        }
    );
    assert!(!state.listens());
    assert_eq!(
        state.on_event(LISTEN),
        Reaction {
            send: None,
            stop_if_send_fails: false,
            stop: false,
            reset_heartbeat: true
        }
    );
    assert!(state.listens());
    assert_eq!(
        state.on_event(stored()),
        Reaction {
            send: Some(Outgoing::Message(WsMessageFromServer::NewMailAvailable)),
            stop_if_send_fails: false,
            stop: false,
            reset_heartbeat: true
        }
    );
}

#[test]
fn heartbeat_sends_a_ping_that_must_go_out() {
    let mut state = SocketState::new();
    assert_eq!(
        state.on_event(SocketEvent::HeartbeatDue),
        Reaction {
            send: Some(Outgoing::Ping),
            stop_if_send_fails: true,
            stop: false,
            reset_heartbeat: false
        }
    );
    assert_eq!(ping_payload(), vec![0xEF, 0xBE, 0xAD, 0xDE]);
    assert_eq!(HEARTBEAT_SECONDS, 30);
}

#[test]
fn any_frame_of_the_client_starts_the_heartbeat_anew() {
    let frames = [
        Frame::Text(Some(WsMessageFromClient::Heartbeat)),
        Frame::Text(None),
        Frame::Pong,
        Frame::Other,
    ];
    for frame in frames {
        let mut state = SocketState::new();
        let reaction = state.on_event(SocketEvent::Received(frame));
        assert_eq!(
            reaction,
            Reaction {
                send: None,
                stop_if_send_fails: false,
                stop: false,
                reset_heartbeat: true
            }
        );
        assert!(!state.listens());
        assert!(!state.closed());
    }
}

#[test]
fn close_ends_the_connection() {
    let mut state = SocketState::new();
    state.on_event(LISTEN);
    let reaction = state.on_event(SocketEvent::Received(Frame::Close));
    assert!(reaction.stop);
    assert!(!reaction.reset_heartbeat);
    assert_eq!(reaction.send, None);
    assert!(state.closed());
    assert!(state.on_event(stored()).stop);
}

#[test]
fn lag_and_failures_end_the_connection() {
    for event in [
        SocketEvent::Lagged,
        SocketEvent::Disconnected,
        SocketEvent::ReceiveFailed,
    ] {
        let mut state = SocketState::new();
        state.on_event(LISTEN);
        assert_eq!(
            state.on_event(event),
            Reaction {
                send: None,
                stop_if_send_fails: false,
                stop: true,
                reset_heartbeat: false
            }
        );
    }
}

#[test]
fn frames_and_storage_events_are_taken_one_by_one() {
    let mut state = SocketState::default();
    state.on_recv_ws_message(Frame::Text(Some(WsMessageFromClient::Heartbeat)));
    assert!(!state.listens());
    assert_eq!(
        state.on_recv_storage_event(StorageEvent::NewMail(MailId::new(9))),
        None
    );
    state.on_recv_ws_message(Frame::Text(Some(WsMessageFromClient::ListenForNewMail)));
    assert!(state.listens());
    assert_eq!(
        state.on_recv_storage_event(StorageEvent::NewMail(MailId::new(9))),
        Some(Outgoing::Message(WsMessageFromServer::NewMailAvailable))
    );
    state.on_recv_ws_message(Frame::Close);
    assert!(state.closed());
}
