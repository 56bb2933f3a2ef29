use trojan_core::relay::AcceptorAction;
use trojan_core::relay::AcceptorEvent;
use trojan_core::relay::AcceptorState;
use trojan_core::relay::Direction;
use trojan_core::relay::RelayAction;
use trojan_core::relay::RelayEvent;
use trojan_core::relay::RelayState;
use trojan_core::ws::normalize_ws_path;
use trojan_core::ws::ws_path_matches_exec;
use trojan_core::ws::ws_read_feed;
use trojan_core::ws::ws_read_take;
use trojan_core::ws::ws_url;
use trojan_core::ws::ws_write_frame;
use trojan_core::ws::WsFeedResult;
use trojan_core::ws::WsMessage;

#[test]
fn relay_half_close_exactly_once() {
    let mut st = RelayState::new();
    // A's write side closes: the A-to-B copy sees EOF, B gets one FIN
    assert_eq!(
        st.on_event(RelayEvent::Eof(Direction::AToB)),
        RelayAction::HalfClose(Direction::AToB)
    );
    // a second EOF observation does not close again
    assert_eq!(st.on_event(RelayEvent::Eof(Direction::AToB)), RelayAction::Nothing);
    // the reverse direction keeps transporting bytes
    assert_eq!(
        st.on_event(RelayEvent::Data(Direction::BToA, 4096)),
        RelayAction::Forward(Direction::BToA, 4096)
    );
    // until B also closes
    assert_eq!(
        st.on_event(RelayEvent::Eof(Direction::BToA)),
        RelayAction::HalfClose(Direction::BToA)
    );
    assert!(st.finished());
}

#[test]
fn relay_read_error_closes_only_its_direction() {
    let mut st = RelayState::new();
    assert_eq!(
        st.on_event(RelayEvent::ReadError(Direction::BToA)),
        RelayAction::HalfClose(Direction::BToA)
    );
    assert_eq!(
        st.on_event(RelayEvent::Data(Direction::AToB, 1)),
        RelayAction::Forward(Direction::AToB, 1)
    );
}

#[test]
fn relay_write_error_aborts_both() {
    let mut st = RelayState::new();
    assert_eq!(
        st.on_event(RelayEvent::WriteError(Direction::AToB)),
        RelayAction::AbortBoth
    );
    // nothing is forwarded afterwards
    assert_eq!(st.on_event(RelayEvent::Data(Direction::BToA, 9)), RelayAction::Nothing);
}

#[test]
fn relay_shutdown_mid_transfer() {
    let mut st = RelayState::new();
    assert_eq!(
        st.on_event(RelayEvent::Data(Direction::AToB, 8192)),
        RelayAction::Forward(Direction::AToB, 8192)
    );
    // the broadcast fires mid-copy: both endpoints get a clean close
    assert_eq!(st.on_event(RelayEvent::Shutdown), RelayAction::GracefulClose);
    // no byte moves after that
    assert_eq!(st.on_event(RelayEvent::Data(Direction::AToB, 1)), RelayAction::Nothing);
}

#[test]
fn relay_idle_window_drops_only_untouched_connections() {
    let mut st = RelayState::new();
    assert_eq!(
        st.on_event(RelayEvent::Data(Direction::AToB, 1)),
        RelayAction::Forward(Direction::AToB, 1)
    );
    // bytes have moved: the idle window expiring is no longer fatal
    assert_eq!(st.on_event(RelayEvent::IdleExpired), RelayAction::Nothing);
    let mut fresh = RelayState::new();
    assert_eq!(fresh.on_event(RelayEvent::IdleExpired), RelayAction::AbortBoth);
}

#[test]
fn acceptor_refuses_after_shutdown() {
    let mut st = AcceptorState::new();
    assert_eq!(st.on_event(AcceptorEvent::Incoming), AcceptorAction::Spawn);
    assert_eq!(st.on_event(AcceptorEvent::IncomingFailed), AcceptorAction::Retry);
    assert_eq!(st.on_event(AcceptorEvent::ShutdownFired), AcceptorAction::Refuse);
    assert_eq!(st.on_event(AcceptorEvent::Incoming), AcceptorAction::Refuse);
}

#[test]
fn acceptor_quic_stream_end() {
    let mut st = AcceptorState::new();
    assert_eq!(st.on_event(AcceptorEvent::StreamClosed), AcceptorAction::FinishOk);
    assert_eq!(st.on_event(AcceptorEvent::Incoming), AcceptorAction::Refuse);
    let mut st2 = AcceptorState::new();
    assert_eq!(st2.on_event(AcceptorEvent::StreamFatal), AcceptorAction::FinishErr);
}

#[test]
fn ws_read_appends_binary_and_text() {
    let mut buf = Vec::new();
    assert_eq!(
        ws_read_feed(&mut buf, WsMessage::Binary(vec![1, 2, 3])),
        WsFeedResult::Appended
    );
    assert_eq!(
        ws_read_feed(&mut buf, WsMessage::Text(b"hi".to_vec())),
        WsFeedResult::Appended
    );
    assert_eq!(buf, vec![1, 2, 3, b'h', b'i']);
}

#[test]
fn ws_read_control_frames_are_silent() {
    let mut buf = vec![9u8];
    assert_eq!(ws_read_feed(&mut buf, WsMessage::Ping(vec![1])), WsFeedResult::Skipped);
    assert_eq!(ws_read_feed(&mut buf, WsMessage::Pong(vec![2])), WsFeedResult::Skipped);
    assert_eq!(ws_read_feed(&mut buf, WsMessage::Frame(vec![3])), WsFeedResult::Skipped);
    assert_eq!(buf, vec![9u8]);
}

#[test]
fn ws_close_is_eof() {
    let mut buf = Vec::new();
    assert_eq!(ws_read_feed(&mut buf, WsMessage::Close), WsFeedResult::Eof);
    assert!(buf.is_empty());
}

#[test]
fn ws_take_keeps_residual() {
    let mut buf = vec![1u8, 2, 3, 4, 5];
    assert_eq!(ws_read_take(&mut buf, 2), vec![1, 2]);
    assert_eq!(buf, vec![3, 4, 5]);
    assert_eq!(ws_read_take(&mut buf, 10), vec![3, 4, 5]);
    assert!(buf.is_empty());
}

#[test]
fn ws_write_is_one_uncut_binary_frame() {
    match ws_write_frame(&[1, 2, 3]) {
        WsMessage::Binary(p) => assert_eq!(p, vec![1, 2, 3]),
        _ => panic!("a write must become one Binary frame"),
    }
}

#[test]
fn ws_path_normalization_and_match() {
    assert_eq!(normalize_ws_path(b"ws"), b"/ws".to_vec());
    assert_eq!(normalize_ws_path(b"/ws"), b"/ws".to_vec());
    assert!(ws_path_matches_exec(b"/ws", b"/ws"));
    assert!(ws_path_matches_exec(b"/ws/", b"/ws"));
    assert!(ws_path_matches_exec(b"/ws", b"/ws//"));
    assert!(!ws_path_matches_exec(b"/other", b"/ws"));
}

#[test]
fn ws_url_host_choice() {
    assert_eq!(ws_url("cdn.example", "sni.example", "/ws"), "wss://cdn.example/ws");
    assert_eq!(ws_url("", "sni.example", "/ws"), "wss://sni.example/ws");
}
