use ws_echo::frame::OperationCode;
use ws_echo::session::{close_websocket_frame, EchoSession, FragmentViolation, FrameStep, Reply};

const PONG: &str = "卧槽，pong还能带数据？";

fn sent(reply: Reply) -> (Vec<u8>, Vec<u8>) {
    match reply {
        Reply::Send(h, p) => (h.bytes, p),
        _ => panic!("expected a frame to send"),
    }
}

#[test]
fn text_frame_is_echoed() {
    let mut s = EchoSession::new();
    assert_eq!(s.violation(1, OperationCode::Text), None);
    assert_eq!(s.on_header(1, OperationCode::Text), FrameStep::ReadPayload);
    let (h, p) = sent(s.on_payload(1, OperationCode::Text, b"hi".to_vec()));
    assert_eq!(h, vec![0x81, 2]);
    assert_eq!(p, b"hi".to_vec());
    assert!(!s.is_ended());
}

#[test]
fn ping_is_answered_with_pong() {
    let mut s = EchoSession::new();
    assert_eq!(s.on_header(1, OperationCode::Ping), FrameStep::ReadPayload);
    let (h, p) = sent(s.on_payload(1, OperationCode::Ping, b"x".to_vec()));
    assert_eq!(p, PONG.as_bytes().to_vec());
    assert_eq!(h, vec![0x8A, PONG.len() as u8]);
    assert!(!s.is_ended());
}

#[test]
fn close_frame_ends_the_session() {
    let mut s = EchoSession::new();
    assert_eq!(s.on_header(1, OperationCode::Close), FrameStep::ReadPayload);
    assert!(matches!(s.on_payload(1, OperationCode::Close, vec![3, 0xE8]), Reply::Close));
    assert!(s.is_ended());
}

#[test]
fn unanswered_frame_closes_without_reading() {
    for op in [OperationCode::Binary, OperationCode::Pong, OperationCode::Continue, OperationCode::PreserveControl(12)] {
        let mut s = EchoSession::new();
        assert_eq!(s.on_header(1, op), FrameStep::CloseNow);
        assert!(s.is_ended());
    }
}

#[test]
fn fragments_are_sent_back_whole() {
    let mut s = EchoSession::new();
    assert_eq!(s.on_header(0, OperationCode::Binary), FrameStep::ReadPayload);
    assert!(matches!(s.on_payload(0, OperationCode::Binary, b"Hel".to_vec()), Reply::Nothing));
    // A middle fragment's own opcode does not matter.
    assert_eq!(s.violation(0, OperationCode::Text), None);
    assert!(matches!(s.on_payload(0, OperationCode::Text, b"lo".to_vec()), Reply::Nothing));
    assert_eq!(s.violation(1, OperationCode::Continue), None);
    assert_eq!(s.on_header(1, OperationCode::Continue), FrameStep::ReadPayload);
    let (h, p) = sent(s.on_payload(1, OperationCode::Continue, b" there".to_vec()));
    assert_eq!(h, vec![0x82, 11]);
    assert_eq!(p, b"Hello there".to_vec());
    // The next message starts afresh.
    assert!(matches!(s.on_payload(0, OperationCode::Text, b"a".to_vec()), Reply::Nothing));
    let (h, p) = sent(s.on_payload(1, OperationCode::Continue, b"b".to_vec()));
    assert_eq!(h, vec![0x81, 2]);
    assert_eq!(p, b"ab".to_vec());
}

#[test]
fn whole_frames_inside_fragments_are_violations() {
    let mut s = EchoSession::new();
    assert!(matches!(s.on_payload(0, OperationCode::Text, b"a".to_vec()), Reply::Nothing));
    assert_eq!(s.violation(1, OperationCode::Ping), Some(FragmentViolation::Unexpected));
    assert_eq!(s.violation(1, OperationCode::Text), Some(FragmentViolation::Unexpected));
    assert_eq!(s.violation(1, OperationCode::NonContorlPreserve(3)), Some(FragmentViolation::Reserved));
    assert_eq!(s.violation(1, OperationCode::PreserveControl(15)), Some(FragmentViolation::Reserved));
    assert_eq!(s.violation(0, OperationCode::Ping), None);
}

#[test]
fn server_close_frame() {
    let (h, p) = close_websocket_frame();
    let reason = "这水厂要倒闭了，哎...".as_bytes();
    let mut expected = vec![0x03, 0xE8];
    expected.extend_from_slice(reason);
    assert_eq!(p, expected);
    assert_eq!(h.bytes, vec![0x88, (2 + reason.len()) as u8]);
    assert_eq!(h.payload_length, 2 + reason.len() as u64);
}
