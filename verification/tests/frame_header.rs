use ws_echo::frame::{OperationCode, TypeOfPayloadLength, WebSocketHeader};
use ws_echo::payload::unmask_payload;

#[test]
fn new_text_header_with_short_length() {
    let h = WebSocketHeader::new(true, OperationCode::Text, 5);
    assert_eq!(h.bytes, vec![0x81, 5]);
    assert_eq!(h.payload_length, 5);
    assert_eq!(h.get_fin(), 1);
    assert_eq!(h.get_opcode(), OperationCode::Text);
    assert_eq!(h.get_payload_type(), TypeOfPayloadLength::OneByte);
    assert_eq!(h.get_mask(), [0, 0, 0, 0]);
}

#[test]
fn new_header_length_boundaries() {
    assert_eq!(WebSocketHeader::new(true, OperationCode::Binary, 125).bytes, vec![0x82, 125]);
    assert_eq!(WebSocketHeader::new(true, OperationCode::Binary, 126).bytes, vec![0x82, 126, 0, 126]);
    assert_eq!(
        WebSocketHeader::new(true, OperationCode::Binary, 0xFFFF).bytes,
        vec![0x82, 126, 0xFF, 0xFF]
    );
    assert_eq!(
        WebSocketHeader::new(true, OperationCode::Binary, 0x1_0000).bytes,
        vec![0x82, 127, 0, 0, 0, 0, 0, 1, 0, 0]
    );
    assert_eq!(
        WebSocketHeader::new(false, OperationCode::Continue, 0x0102_0304_0506_0708).bytes,
        vec![0x00, 127, 1, 2, 3, 4, 5, 6, 7, 8]
    );
    assert_eq!(
        WebSocketHeader::new(true, OperationCode::Text, 200).get_payload_type(),
        TypeOfPayloadLength::TwoByte
    );
    assert_eq!(
        WebSocketHeader::new(true, OperationCode::Text, 70000).get_payload_type(),
        TypeOfPayloadLength::EightByte
    );
}

#[test]
fn new_header_fin_and_opcode_bits() {
    let h = WebSocketHeader::new(false, OperationCode::Ping, 0);
    assert_eq!(h.bytes, vec![0x09, 0]);
    assert_eq!(h.get_fin(), 0);
    assert_eq!(h.get_opcode(), OperationCode::Ping);
    let h = WebSocketHeader::new(true, OperationCode::Close, 2);
    assert_eq!(h.bytes[0], 0x88);
    let h = WebSocketHeader::new(true, OperationCode::Pong, 2);
    assert_eq!(h.bytes[0], 0x8A);
    // Only the four low bits of a reserved opcode's value are written.
    let h = WebSocketHeader::new(true, OperationCode::NonContorlPreserve(0x13), 0);
    assert_eq!(h.bytes[0], 0x83);
    assert_eq!(h.get_opcode(), OperationCode::NonContorlPreserve(3));
}

#[test]
fn opcodes_decode_from_every_code() {
    let expected = [
        OperationCode::Continue,
        OperationCode::Text,
        OperationCode::Binary,
        OperationCode::NonContorlPreserve(3),
        OperationCode::NonContorlPreserve(4),
        OperationCode::NonContorlPreserve(5),
        OperationCode::NonContorlPreserve(6),
        OperationCode::NonContorlPreserve(7),
        OperationCode::Close,
        OperationCode::Ping,
        OperationCode::Pong,
        OperationCode::PreserveControl(11),
        OperationCode::PreserveControl(12),
        OperationCode::PreserveControl(13),
        OperationCode::PreserveControl(14),
        OperationCode::PreserveControl(15),
    ];
    for code in 0u8..16 {
        let buf = [0x80 | code, 0x80, 1, 2, 3, 4];
        let h = WebSocketHeader::parse(&buf);
        assert_eq!(h.get_opcode(), expected[code as usize]);
        assert_eq!(h.get_fin(), 1);
    }
}

#[test]
fn parse_client_hello_frame() {
    // The masked "Hello" frame of RFC 6455, section 5.7.
    let frame = [0x81u8, 0x85, 0x37, 0xfa, 0x21, 0x3d, 0x7f, 0x9f, 0x4d, 0x51, 0x58];
    assert_eq!(WebSocketHeader::masked_header_size(frame[1]), 6);
    let h = WebSocketHeader::parse(&frame);
    assert_eq!(h.bytes, vec![0x81, 0x85, 0x37, 0xfa, 0x21, 0x3d]);
    assert_eq!(h.payload_length, 5);
    assert_eq!(h.mask, 0x37fa_213d);
    assert_eq!(h.get_mask(), [0x37, 0xfa, 0x21, 0x3d]);
    assert_eq!(h.get_opcode(), OperationCode::Text);
    assert_eq!(h.get_fin(), 1);
    let mut payload = frame[6..].to_vec();
    unmask_payload(&h, &mut payload);
    assert_eq!(payload, b"Hello".to_vec());
}

#[test]
fn parse_extended_lengths() {
    let buf = [0x02u8, 0xFE, 0x01, 0x00, 9, 8, 7, 6];
    assert_eq!(WebSocketHeader::masked_header_size(buf[1]), 8);
    let h = WebSocketHeader::parse(&buf);
    assert_eq!(h.payload_length, 256);
    assert_eq!(h.get_mask(), [9, 8, 7, 6]);
    assert_eq!(h.get_fin(), 0);
    assert_eq!(h.get_payload_type(), TypeOfPayloadLength::TwoByte);

    let buf = [0x82u8, 0xFF, 0, 0, 0, 0, 0, 1, 0, 0, 0xA, 0xB, 0xC, 0xD, 0xEE];
    assert_eq!(WebSocketHeader::masked_header_size(buf[1]), 14);
    let h = WebSocketHeader::parse(&buf);
    assert_eq!(h.payload_length, 65536);
    assert_eq!(h.bytes.len(), 14);
    assert_eq!(h.get_mask(), [0xA, 0xB, 0xC, 0xD]);
    assert_eq!(h.get_payload_type(), TypeOfPayloadLength::EightByte);
}

#[test]
fn parse_reads_back_what_new_writes() {
    for &len in &[0u64, 1, 125, 126, 127, 0xFFFF, 0x1_0000, u64::MAX] {
        for &(fin, op) in &[
            (true, OperationCode::Text),
            (false, OperationCode::Binary),
            (true, OperationCode::PreserveControl(0xB)),
        ] {
            let mut buf = WebSocketHeader::new(fin, op, len).bytes;
            buf.extend_from_slice(&[1, 2, 3, 4]);
            assert_eq!(WebSocketHeader::masked_header_size(buf[1]), buf.len());
            let h = WebSocketHeader::parse(&buf);
            assert_eq!(h.payload_length, len);
            assert_eq!(h.get_fin(), fin as u8);
            assert_eq!(h.get_opcode(), op);
            assert_eq!(h.get_mask(), [1, 2, 3, 4]);
            assert_eq!(h.bytes, buf);
        }
    }
}

#[test]
fn unmasking_twice_restores_the_payload() {
    let h = WebSocketHeader::parse(&[0x81, 0x87, 0xAA, 0x55, 0x0F, 0xF0]);
    let original = b"payload".to_vec();
    let mut data = original.clone();
    unmask_payload(&h, &mut data);
    assert_eq!(data, vec![b'p' ^ 0xAA, b'a' ^ 0x55, b'y' ^ 0x0F, b'l' ^ 0xF0, b'o' ^ 0xAA, b'a' ^ 0x55, b'd' ^ 0x0F]);
    unmask_payload(&h, &mut data);
    assert_eq!(data, original);
}
