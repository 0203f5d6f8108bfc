use fmus_core::errors::ClientError;
use fmus_core::json::JsonValue;
use fmus_core::ws::{
    connect_websocket, LoopEnd, LoopOutcome, SessionDriver, WebSocketClient, WsAction, WsCommand,
    WsConfig, WsEvent, WsStatus,
};

fn config(auto: bool, max: u32) -> WsConfig {
    WsConfig {
        headers: None,
        timeout: Some(30),
        auto_reconnect: Some(auto),
        max_reconnect_attempts: Some(max),
    }
}

#[test]
fn a_new_session_is_disconnected_with_defaults() {
    let c = WebSocketClient::new("ws://example.test/socket", None);
    assert_eq!(c.status(), WsStatus::Disconnected);
    assert!(c.command_queue.is_none());
    assert_eq!(c.config.auto_reconnect, Some(true));
    assert_eq!(c.config.max_reconnect_attempts, Some(3));
    assert_eq!(c.config.timeout, Some(30));
}

#[test]
fn connect_accepts_only_from_disconnected() {
    let mut c = WebSocketClient::new("ws://example.test/socket", None);
    assert!(c.connect().is_ok());
    assert_eq!(c.status(), WsStatus::Connecting);
    // A second connect without an intervening disconnect is refused and has
    // no side effects: the one command channel stays as it was.
    let before_len = c.command_queue.as_ref().unwrap().len();
    let second = c.connect();
    assert!(matches!(second, Err(ClientError::WsAlreadyActive)));
    assert_eq!(c.status(), WsStatus::Connecting);
    assert_eq!(c.command_queue.as_ref().unwrap().len(), before_len);
}

#[test]
fn connect_rejects_an_invalid_url() {
    let mut c = WebSocketClient::new("not a url", None);
    assert!(matches!(
        c.connect(),
        Err(ClientError::WsTransportError { .. })
    ));
    assert_eq!(c.status(), WsStatus::Error);
}

#[test]
fn send_while_disconnected_fails_and_enqueues_nothing() {
    let mut c = WebSocketClient::new("ws://example.test/socket", None);
    let r = c.send("hello");
    assert!(matches!(r, Err(ClientError::WsNotConnected)));
    assert!(c.command_queue.is_none());
}

#[test]
fn send_while_connected_enqueues_one_command() {
    let mut c = WebSocketClient::new("ws://example.test/socket", None);
    c.connect().unwrap();
    c.status = WsStatus::Connected;
    c.send("one").unwrap();
    c.send("two").unwrap();
    let q = c.command_queue.as_ref().unwrap();
    assert_eq!(q.len(), 2);
    assert!(matches!(&q[0], WsCommand::Send(t) if t == "one"));
    assert!(matches!(&q[1], WsCommand::Send(t) if t == "two"));
}

#[test]
fn send_structured_enqueues_the_exact_serialization() {
    let mut c = WebSocketClient::new("ws://example.test/socket", None);
    c.connect().unwrap();
    c.status = WsStatus::Connected;
    let value = JsonValue::Obj(vec![
        ("op".to_string(), JsonValue::Str("ping".to_string())),
        ("seq".to_string(), JsonValue::num_u64(9)),
    ]);
    c.send_structured(&value).unwrap();
    let q = c.command_queue.as_ref().unwrap();
    match &q[0] {
        WsCommand::Send(text) => {
            // What a peer receives as text is byte-identical to the
            // serialization of the structured value.
            assert_eq!(text, "{\"op\":\"ping\",\"seq\":9}");
            let reread: serde_json::Value = serde_json::from_str(text).unwrap();
            assert_eq!(reread["op"], "ping");
            assert_eq!(reread["seq"], 9);
        }
        WsCommand::Close => panic!("wrong command"),
    }
}

#[test]
fn close_is_a_noop_when_disconnected_and_enqueues_otherwise() {
    let mut c = WebSocketClient::new("ws://example.test/socket", None);
    assert!(c.close().is_ok());
    assert!(c.command_queue.is_none());
    c.connect().unwrap();
    c.status = WsStatus::Connected;
    c.close().unwrap();
    let q = c.command_queue.as_ref().unwrap();
    assert!(matches!(q[0], WsCommand::Close));
}

#[test]
fn a_connected_session_without_a_channel_reports_it() {
    let mut c = WebSocketClient::new("ws://example.test/socket", None);
    c.status = WsStatus::Connected;
    assert!(matches!(
        c.send("x"),
        Err(ClientError::WsCommandChannelClosed)
    ));
    assert!(matches!(
        c.close(),
        Err(ClientError::WsCommandChannelClosed)
    ));
}

#[test]
fn connect_websocket_starts_the_session() {
    let c = connect_websocket("ws://example.test/s", Some(config(false, 0))).unwrap();
    assert_eq!(c.status, WsStatus::Connecting);
    assert!(connect_websocket("::", None).is_err());
}

fn count_closes(actions: &[WsAction]) -> usize {
    actions
        .iter()
        .filter(|a| matches!(a, WsAction::EmitClose(_, _)))
        .count()
}

#[test]
fn failing_every_handshake_backs_off_2_4_8_then_settles_with_one_close() {
    let mut d = SessionDriver::new(&config(true, 3));
    let mut delays = Vec::new();
    let mut closes = 0;
    loop {
        let (status, actions) = d.handshake_failed("refused");
        assert_eq!(status, WsStatus::Error);
        assert!(matches!(&actions[0], WsAction::EmitError(m) if m == "Connection error: refused"));
        closes += count_closes(&actions);
        let (status, actions, end) = d.after_loop();
        closes += count_closes(&actions);
        match end {
            LoopEnd::Retry { backoff_secs } => {
                assert_eq!(status, WsStatus::Reconnecting);
                delays.push(backoff_secs);
            }
            LoopEnd::Stop => {
                assert_eq!(status, WsStatus::Disconnected);
                break;
            }
        }
    }
    assert_eq!(delays, vec![2, 4, 8]);
    assert_eq!(closes, 1);
}

#[test]
fn a_successful_handshake_resets_the_attempt_counter() {
    let mut d = SessionDriver::new(&config(true, 3));
    d.handshake_failed("x");
    assert!(matches!(d.after_loop().2, LoopEnd::Retry { backoff_secs: 2 }));
    let (status, actions) = d.handshake_succeeded();
    assert_eq!(status, WsStatus::Connected);
    assert!(matches!(actions[0], WsAction::EmitOpen));
    assert_eq!(d.attempts, 0);
    // After a clean run, the next failure starts backing off from the
    // beginning again.
    d.handshake_failed("y");
    assert!(matches!(d.after_loop().2, LoopEnd::Retry { backoff_secs: 2 }));
}

#[test]
fn auto_reconnect_off_stops_at_the_first_loop_end() {
    let mut d = SessionDriver::new(&config(false, 3));
    let (status, actions, end) = d.after_loop();
    assert_eq!(status, WsStatus::Disconnected);
    assert_eq!(count_closes(&actions), 1);
    assert!(matches!(
        &actions[0],
        WsAction::EmitClose(None, reason) if reason == "Connection closed"
    ));
    assert!(matches!(end, LoopEnd::Stop));
}

#[test]
fn message_loop_events_drive_the_expected_actions() {
    let mut d = SessionDriver::new(&config(true, 3));

    let (a, s, o) = d.process_event(WsEvent::TextFrame("hi".to_string()));
    assert!(matches!(&a[0], WsAction::EmitMessage(t) if t == "hi"));
    assert!(s.is_none());
    assert!(matches!(o, LoopOutcome::Continue));

    let (a, _, o) = d.process_event(WsEvent::BinaryFrame("ok".as_bytes().to_vec()));
    assert!(matches!(&a[0], WsAction::EmitMessage(t) if t == "ok"));
    assert!(matches!(o, LoopOutcome::Continue));

    // A malformed binary frame is non-fatal: an error handler call, and the
    // loop goes on.
    let (a, _, o) = d.process_event(WsEvent::BinaryFrame(vec![0xff, 0xfe]));
    assert!(matches!(&a[0], WsAction::EmitError(_)));
    assert!(matches!(o, LoopOutcome::Continue));

    let (a, _, o) = d.process_event(WsEvent::Ping);
    assert!(matches!(a[0], WsAction::SendPong));
    assert!(matches!(o, LoopOutcome::Continue));

    let (a, s, o) = d.process_event(WsEvent::CloseFrame(Some(1000), "bye".to_string()));
    assert!(matches!(&a[0], WsAction::EmitClose(Some(1000), r) if r == "bye"));
    assert_eq!(s, Some(WsStatus::Disconnected));
    assert!(matches!(o, LoopOutcome::EndOk));

    let (a, s, o) = d.process_event(WsEvent::StreamEnd);
    assert!(matches!(&a[0], WsAction::EmitClose(None, r) if r == "Connection closed"));
    assert_eq!(s, Some(WsStatus::Disconnected));
    assert!(matches!(o, LoopOutcome::EndOk));

    let (a, _, o) = d.process_event(WsEvent::TransportError("broken pipe".to_string()));
    assert!(matches!(&a[0], WsAction::EmitError(m) if m == "WebSocket error: broken pipe"));
    assert!(matches!(o, LoopOutcome::EndErr(m) if m == "WebSocket error: broken pipe"));

    let (a, _, o) = d.process_event(WsEvent::Command(WsCommand::Send("out".to_string())));
    assert!(matches!(&a[0], WsAction::SendText(t) if t == "out"));
    assert!(matches!(o, LoopOutcome::Continue));

    let (a, s, o) = d.process_event(WsEvent::Command(WsCommand::Close));
    assert!(matches!(a[0], WsAction::SendClose));
    assert_eq!(s, Some(WsStatus::Disconnected));
    assert!(matches!(o, LoopOutcome::EndOk));

    let (a, _, o) = d.process_event(WsEvent::ChannelClosed);
    assert!(a.is_empty());
    assert!(matches!(o, LoopOutcome::EndOk));
}

#[test]
fn keepalive_pings_after_a_full_interval_without_a_pong() {
    let mut d = SessionDriver::new(&config(true, 3));
    // First tick after connecting: the last liveness mark is recent.
    let (a, _, _) = d.process_event(WsEvent::KeepaliveTick);
    assert!(a.is_empty());
    // A second tick without any pong: ping.
    let (a, _, _) = d.process_event(WsEvent::KeepaliveTick);
    assert!(matches!(a[0], WsAction::SendPing));
    // A pong resets the clock.
    let (a, _, _) = d.process_event(WsEvent::Pong);
    assert!(a.is_empty());
    let (a, _, _) = d.process_event(WsEvent::KeepaliveTick);
    assert!(a.is_empty());
}

#[test]
fn a_failed_write_ends_the_loop_with_an_error() {
    let mut d = SessionDriver::new(&config(true, 3));
    let (a, _, o) = d.process_event(WsEvent::WriteFailed("Failed to send pong: x".to_string()));
    assert!(matches!(&a[0], WsAction::EmitError(m) if m == "Failed to send pong: x"));
    assert!(matches!(o, LoopOutcome::EndErr(_)));
}
