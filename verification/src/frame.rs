//! The WebSocket frame header: its kinds, its encoding and its decoding.
use vstd::prelude::*;

use crate::big_endian::{
    be_bytes, be_value, decode_be, encode_be, lemma_be_bytes_len, lemma_be_bytes_of_value,
    lemma_be_value_bound, lemma_be_value_of_bytes, lemma_pow256_values,
};

verus! {

/// How the payload length of a frame is written in its header.
#[derive(Debug, PartialEq, Eq, Structural)]
pub enum TypeOfPayloadLength {
    /// In the seven low bits of the second byte (0 to 125).
    OneByte,
    /// In the two bytes that follow the code 126.
    TwoByte,
    /// In the eight bytes that follow the code 127.
    EightByte,
}

/// The frame opcode (the four low bits of the first header byte).
#[derive(Debug, Clone, Copy, PartialEq, Eq, Structural)]
pub enum OperationCode {
    Continue,
    Text,
    Binary,
    /// Reserved non-control opcodes 0x3 to 0x7, with the raw value.
    NonContorlPreserve(u8),
    Close,
    Ping,
    Pong,
    /// Reserved control opcodes 0xB to 0xF, with the raw value.
    PreserveControl(u8),
}

impl OperationCode {
    /// The number that stands for this opcode in a header.
    pub open spec fn code(self) -> u8 {
        match self {
            OperationCode::Continue => 0,
            OperationCode::Text => 1,
            OperationCode::Binary => 2,
            OperationCode::NonContorlPreserve(v) => v,
            OperationCode::Close => 8,
            OperationCode::Ping => 9,
            OperationCode::Pong => 10,
            OperationCode::PreserveControl(v) => v,
        }
    }

    /// An opcode is canonical when it is the one that its own code decodes to.
    pub open spec fn is_canonical(self) -> bool {
        match self {
            OperationCode::NonContorlPreserve(v) => 3 <= v <= 7,
            OperationCode::PreserveControl(v) => 11 <= v <= 15,
            _ => true,
        }
    }

    pub fn value(&self) -> (r: u8)
        ensures
            r == self.code(),
    {
        match self {
            OperationCode::Continue => 0,
            OperationCode::Text => 1,
            OperationCode::Binary => 2,
            OperationCode::NonContorlPreserve(v) => *v,
            OperationCode::Close => 8,
            OperationCode::Ping => 9,
            OperationCode::Pong => 10,
            OperationCode::PreserveControl(v) => *v,
        }
    }
}

/// The opcode that a four-bit code stands for.
pub open spec fn opcode_of(code: u8) -> OperationCode {
    if code == 0 {
        OperationCode::Continue
    } else if code == 1 {
        OperationCode::Text
    } else if code == 2 {
        OperationCode::Binary
    } else if 3 <= code <= 7 {
        OperationCode::NonContorlPreserve(code)
    } else if code == 8 {
        OperationCode::Close
    } else if code == 9 {
        OperationCode::Ping
    } else if code == 10 {
        OperationCode::Pong
    } else {
        OperationCode::PreserveControl(code)
    }
}

/// The first header byte: the FIN bit and the four low bits of the opcode.
pub open spec fn first_byte(fin: bool, op_code: OperationCode) -> u8 {
    (op_code.code() & 0x0F) | (if fin { 0x80u8 } else { 0u8 })
}

/// The payload length as a header writes it: the second byte, and an
/// extended length where the value does not fit in it.
pub open spec fn length_field(payload_length: u64) -> Seq<u8> {
    if payload_length <= 125 {
        seq![payload_length as u8]
    } else if payload_length <= 0xFFFF {
        seq![126u8] + be_bytes(payload_length as nat, 2)
    } else {
        seq![127u8] + be_bytes(payload_length as nat, 8)
    }
}

/// The header bytes of an unmasked frame.
pub open spec fn header_bytes(fin: bool, op_code: OperationCode, payload_length: u64) -> Seq<u8> {
    seq![first_byte(fin, op_code)] + length_field(payload_length)
}

/// The seven-bit length code of the second header byte.
pub open spec fn length_code(second_byte: u8) -> u8 {
    second_byte & 0x7F
}

/// Where the masking key starts in a header whose second byte is given.
pub open spec fn mask_offset(second_byte: u8) -> nat {
    if length_code(second_byte) <= 125 {
        2
    } else if length_code(second_byte) == 126 {
        4
    } else {
        10
    }
}

/// The size of a header, masking key included, whose second byte is given.
pub open spec fn masked_header_len(second_byte: u8) -> nat {
    mask_offset(second_byte) + 4
}

/// The payload length that the header at the start of `buf` declares.
pub open spec fn declared_length(buf: Seq<u8>) -> nat {
    let code = length_code(buf[1]);
    if code <= 125 {
        code as nat
    } else if code == 126 {
        be_value(buf.subrange(2, 4))
    } else {
        be_value(buf.subrange(2, 10))
    }
}

/// The masking key of the header at the start of `buf`, as a number.
pub open spec fn declared_mask(buf: Seq<u8>) -> nat {
    let start = mask_offset(buf[1]) as int;
    be_value(buf.subrange(start, start + 4))
}

/// How the length code of a second header byte is to be read.
pub open spec fn payload_type_of(second_byte: u8) -> TypeOfPayloadLength {
    if length_code(second_byte) <= 125 {
        TypeOfPayloadLength::OneByte
    } else if length_code(second_byte) == 126 {
        TypeOfPayloadLength::TwoByte
    } else {
        TypeOfPayloadLength::EightByte
    }
}

/// The FIN bit of a first header byte, as 0 or 1.
pub open spec fn fin_bit(first: u8) -> u8 {
    (first & 0x80) >> 7
}

/// A frame header: the bytes it was read from or is written as, the payload
/// length, and the masking key.
pub struct WebSocketHeader {
    pub payload_length: u64,
    pub bytes: Vec<u8>,
    pub mask: u32,
}

/// What a header holds, as mathematical values.
pub ghost struct HeaderView {
    pub payload_length: u64,
    pub bytes: Seq<u8>,
    pub mask: u32,
}

impl View for WebSocketHeader {
    type V = HeaderView;

    open spec fn view(&self) -> HeaderView {
        HeaderView { payload_length: self.payload_length, bytes: self.bytes@, mask: self.mask }
    }
}

impl WebSocketHeader {

    /// The header of an unmasked frame, as the server sends it.
    pub fn new(fin: bool, op_code: OperationCode, payload_length: u64) -> (h: WebSocketHeader)
        ensures
            h@.bytes == header_bytes(fin, op_code, payload_length),
            h@.payload_length == payload_length,
            h@.mask == 0,
    {
        let op_code_value = op_code.value();
        let mut first = op_code_value & 0x0F;
        if fin {
            first = first | 0x80;
        }
        assert(first == first_byte(fin, op_code)) by {
            let c = op_code.code();
            assert((c & 0x0F) | 0u8 == c & 0x0F) by (bit_vector);
        }
        let mut bytes: Vec<u8> = Vec::new();
        bytes.push(first);
        if payload_length <= 125 {
            bytes.push(payload_length as u8);
        } else if payload_length <= 0xFFFF {
            bytes.push(126);
            let mut extended = encode_be(payload_length, 2);
            bytes.append(&mut extended);
        } else {
            bytes.push(127);
            let mut extended = encode_be(payload_length, 8);
            bytes.append(&mut extended);
        }
        assert(bytes@ =~= header_bytes(fin, op_code, payload_length));
        WebSocketHeader { payload_length, bytes, mask: 0 }
    }

    /// The size of a header, masking key included, from its second byte.
    pub fn masked_header_size(second_byte: u8) -> (r: usize)
        ensures
            r == masked_header_len(second_byte),
    {
        let code = second_byte & 0x7F;
        if code <= 125 {
            6
        } else if code == 126 {
            8
        } else {
            14
        }
    }

    /// The header that a client frame starts with: the first
    /// `masked_header_len(buf[1])` bytes of `buf`.
    pub fn parse(buf: &[u8]) -> (h: WebSocketHeader)
        requires
            buf@.len() >= 2,
            buf@.len() >= masked_header_len(buf@[1]),
        ensures
            h@.bytes == buf@.take(masked_header_len(buf@[1]) as int),
            h@.payload_length == declared_length(buf@),
            h@.mask == declared_mask(buf@),
    {
        let second = buf[1];
        let code = second & 0x7F;
        assert(code <= 127) by (bit_vector)
            requires
                code == second & 0x7F,
        ;
        let mask_start: usize;
        let payload_length: u64;
        if code <= 125 {
            mask_start = 2;
            payload_length = code as u64;
        } else if code == 126 {
            mask_start = 4;
            payload_length = decode_be(buf, 2, 4);
        } else {
            mask_start = 10;
            payload_length = decode_be(buf, 2, 10);
        }
        let mask_end = mask_start + 4;
        let mask_value = decode_be(buf, mask_start, mask_end);
        proof {
            lemma_be_value_bound(buf@.subrange(mask_start as int, mask_end as int));
            lemma_pow256_values();
        }
        let mut bytes: Vec<u8> = Vec::new();
        let mut i: usize = 0;
        while i < mask_end
            invariant
                i <= mask_end <= buf@.len(),
                bytes@ == buf@.take(i as int),
            decreases mask_end - i,
        {
            bytes.push(buf[i]);
            i = i + 1;
            assert(bytes@ =~= buf@.take(i as int));
        }
        WebSocketHeader { mask: mask_value as u32, bytes, payload_length }
    }

    /// The masking key as four bytes, most significant first.
    pub fn get_mask(&self) -> (r: [u8; 4])
        ensures
            r@ == be_bytes(self@.mask as nat, 4),
    {
        let b = encode_be(self.mask as u64, 4);
        proof {
            lemma_be_bytes_len(self.mask as nat, 4);
        }
        let r = [b[0], b[1], b[2], b[3]];
        assert(r@ =~= b@);
        r
    }

    /// How the payload length is written in this header.
    pub fn get_payload_type(&self) -> (r: TypeOfPayloadLength)
        requires
            self@.bytes.len() >= 2,
        ensures
            r == payload_type_of(self@.bytes[1]),
    {
        let length = self.bytes[1] & 0x7F;
        if length <= 125 {
            TypeOfPayloadLength::OneByte
        } else if length == 126 {
            TypeOfPayloadLength::TwoByte
        } else {
            TypeOfPayloadLength::EightByte
        }
    }

    /// The opcode of this header.
    pub fn get_opcode(&self) -> (r: OperationCode)
        requires
            self@.bytes.len() >= 1,
        ensures
            r == opcode_of(self@.bytes[0] & 0x0F),
    {
        let code = self.bytes[0] & 0x0F;
        if code == 0 {
            OperationCode::Continue
        } else if code == 1 {
            OperationCode::Text
        } else if code == 2 {
            OperationCode::Binary
        } else if 3 <= code && code <= 7 {
            OperationCode::NonContorlPreserve(code)
        } else if code == 8 {
            OperationCode::Close
        } else if code == 9 {
            OperationCode::Ping
        } else if code == 10 {
            OperationCode::Pong
        } else {
            OperationCode::PreserveControl(code)
        }
    }

    /// The FIN bit of this header, as 0 or 1.
    pub fn get_fin(&self) -> (r: u8)
        requires
            self@.bytes.len() >= 1,
        ensures
            r == fin_bit(self@.bytes[0]),
            r == (if self@.bytes[0] >= 0x80 { 1u8 } else { 0u8 }),
    {
        let first = self.bytes[0];
        assert(fin_bit(first) == (if first >= 0x80 { 1u8 } else { 0u8 })) by (bit_vector);
        (first & 0x80) >> 7
    }
}

/// A canonical opcode is what its own code decodes to.
pub proof fn law_opcode_code_round_trip(op_code: OperationCode)
    requires
        op_code.is_canonical(),
    ensures
        opcode_of(op_code.code() & 0x0F) == op_code,
{
    let c = op_code.code();
    assert(c <= 15 ==> c & 0x0F == c) by (bit_vector);
}

/// The header that `new` writes is two bytes long for a payload length up to
/// 125, four bytes up to 65535, and ten bytes beyond.
pub proof fn law_header_size(fin: bool, op_code: OperationCode, payload_length: u64)
    ensures
        header_bytes(fin, op_code, payload_length).len() == (if payload_length <= 125 {
            2int
        } else if payload_length <= 0xFFFF {
            4int
        } else {
            10int
        }),
{
    lemma_be_bytes_len(payload_length as nat, 2);
    lemma_be_bytes_len(payload_length as nat, 8);
}

/// What the getters read from the header that `new` writes: the FIN flag,
/// the opcode (for a canonical one) and how the payload length is written.
pub proof fn law_getters_read_new(fin: bool, op_code: OperationCode, payload_length: u64)
    ensures
        ({
            let b = header_bytes(fin, op_code, payload_length);
            &&& fin_bit(b[0]) == (if fin { 1u8 } else { 0u8 })
            &&& opcode_of(b[0] & 0x0F) == opcode_of(op_code.code() & 0x0F)
            &&& op_code.is_canonical() ==> opcode_of(b[0] & 0x0F) == op_code
            &&& payload_type_of(b[1]) == (if payload_length <= 125 {
                TypeOfPayloadLength::OneByte
            } else if payload_length <= 0xFFFF {
                TypeOfPayloadLength::TwoByte
            } else {
                TypeOfPayloadLength::EightByte
            })
        }),
{
    let b = header_bytes(fin, op_code, payload_length);
    let c = op_code.code();
    assert(((c & 0x0F) | 0x80u8) & 0x0F == c & 0x0F) by (bit_vector);
    assert(((c & 0x0F) | 0u8) & 0x0F == c & 0x0F) by (bit_vector);
    assert(fin_bit((c & 0x0F) | 0x80u8) == 1u8) by (bit_vector);
    assert(fin_bit((c & 0x0F) | 0u8) == 0u8) by (bit_vector);
    assert(payload_length <= 125 ==> (payload_length as u8) & 0x7F == payload_length as u8)
        by (bit_vector);
    assert(126u8 & 0x7F == 126u8) by (bit_vector);
    assert(127u8 & 0x7F == 127u8) by (bit_vector);
    if op_code.is_canonical() {
        law_opcode_code_round_trip(op_code);
    }
}

/// Decoding the header that `new` writes, followed by any four-byte masking
/// key, gives back its size, the FIN bit, the opcode's four-bit code, the
/// payload length and the key.
pub proof fn law_parse_reads_back_new(
    fin: bool,
    op_code: OperationCode,
    payload_length: u64,
    key: Seq<u8>,
)
    requires
        key.len() == 4,
    ensures
        ({
            let buf = header_bytes(fin, op_code, payload_length) + key;
            &&& buf.len() == masked_header_len(buf[1])
            &&& declared_length(buf) == payload_length
            &&& declared_mask(buf) == be_value(key)
            &&& fin_bit(buf[0]) == (if fin { 1u8 } else { 0u8 })
            &&& opcode_of(buf[0] & 0x0F) == opcode_of(op_code.code() & 0x0F)
        }),
{
    let h = header_bytes(fin, op_code, payload_length);
    let buf = h + key;
    law_getters_read_new(fin, op_code, payload_length);
    law_header_size(fin, op_code, payload_length);
    assert(payload_length <= 125 ==> (payload_length as u8) & 0x7F == payload_length as u8)
        by (bit_vector);
    assert(126u8 & 0x7F == 126u8) by (bit_vector);
    assert(127u8 & 0x7F == 127u8) by (bit_vector);
    assert(buf[0] == h[0] && buf[1] == h[1]);
    lemma_pow256_values();
    if payload_length <= 125 {
        assert(buf.subrange(2, 6) =~= key);
    } else if payload_length <= 0xFFFF {
        lemma_be_bytes_len(payload_length as nat, 2);
        lemma_be_value_of_bytes(payload_length as nat, 2);
        assert(buf.subrange(2, 4) =~= be_bytes(payload_length as nat, 2));
        assert(buf.subrange(4, 8) =~= key);
    } else {
        lemma_be_bytes_len(payload_length as nat, 8);
        lemma_be_value_of_bytes(payload_length as nat, 8);
        assert(buf.subrange(2, 10) =~= be_bytes(payload_length as nat, 8));
        assert(buf.subrange(10, 14) =~= key);
    }
}

/// The masking key that `get_mask` gives of a decoded header is the four
/// key bytes of the header it was decoded from.
pub proof fn law_mask_bytes_read_back(buf: Seq<u8>)
    requires
        buf.len() >= 2,
        buf.len() >= masked_header_len(buf[1]),
    ensures
        be_bytes(declared_mask(buf), 4) == buf.subrange(
            mask_offset(buf[1]) as int,
            mask_offset(buf[1]) + 4int,
        ),
{
    lemma_be_bytes_of_value(buf.subrange(mask_offset(buf[1]) as int, mask_offset(buf[1]) + 4int));
}

/// A client sets the MASK bit (the high bit of the second byte); decoding
/// does not depend on it. The header that `new` writes, with the MASK bit
/// set and followed by a four-byte key, decodes to its payload length, its
/// size and the key.
pub proof fn law_parse_reads_back_masked_new(
    fin: bool,
    op_code: OperationCode,
    payload_length: u64,
    key: Seq<u8>,
)
    requires
        key.len() == 4,
    ensures
        ({
            let h = header_bytes(fin, op_code, payload_length);
            let buf = h.update(1, h[1] | 0x80) + key;
            &&& buf.len() == masked_header_len(buf[1])
            &&& declared_length(buf) == payload_length
            &&& declared_mask(buf) == be_value(key)
            &&& fin_bit(buf[0]) == (if fin { 1u8 } else { 0u8 })
            &&& opcode_of(buf[0] & 0x0F) == opcode_of(op_code.code() & 0x0F)
        }),
{
    let h = header_bytes(fin, op_code, payload_length);
    let plain = h + key;
    let buf = h.update(1, h[1] | 0x80) + key;
    law_parse_reads_back_new(fin, op_code, payload_length, key);
    law_header_size(fin, op_code, payload_length);
    let b = h[1];
    assert((b | 0x80) & 0x7F == b & 0x7F) by (bit_vector);
    assert forall|i: int| 0 <= i < buf.len() && i != 1 implies buf[i] == plain[i] by {}
    if payload_length > 0xFFFF {
        assert(buf.subrange(2, 10) =~= plain.subrange(2, 10));
    } else if payload_length > 125 {
        assert(buf.subrange(2, 4) =~= plain.subrange(2, 4));
    }
    let m = mask_offset(buf[1]) as int;
    assert(buf.subrange(m, m + 4) =~= plain.subrange(m, m + 4));
}

/// The declared payload length, written back in as many bytes as the header
/// gives it, is those bytes: the seven-bit code itself, or the whole two- or
/// eight-byte extended length (most significant byte first), whatever the
/// MASK bit is.
pub proof fn law_declared_length_is_the_length_bytes(buf: Seq<u8>)
    requires
        buf.len() >= 2,
        buf.len() >= masked_header_len(buf[1]),
    ensures
        length_code(buf[1]) <= 125 ==> declared_length(buf) == (buf[1] & 0x7F),
        length_code(buf[1]) == 126 ==> declared_length(buf) == buf[2] * 256 + buf[3]
            && be_bytes(declared_length(buf), 2) == buf.subrange(2, 4),
        length_code(buf[1]) == 127 ==> be_bytes(declared_length(buf), 8) == buf.subrange(2, 10),
{
    let b = buf[1];
    assert((b & 0x7F) <= 127) by (bit_vector);
    if length_code(b) == 126 {
        let s = buf.subrange(2, 4);
        lemma_be_bytes_of_value(s);
        let d = s.drop_last();
        assert(d.drop_last() =~= Seq::<u8>::empty());
        assert(be_value(Seq::<u8>::empty()) == 0);
        assert(be_value(d) == d[0]);
    } else if length_code(b) == 127 {
        lemma_be_bytes_of_value(buf.subrange(2, 10));
    }
}

} // verus!
