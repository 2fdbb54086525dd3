use vstd::prelude::*;

verus! {

use crate::buffer::{BytePacketBuffer, enc_u16, push_u16, splice, u16_at, write_all};
use crate::error::DnsError;

/// Response code of a message, with an explicit fallback so that values
/// outside the known enumeration still round-trip instead of failing.
#[derive(Copy, Clone, Debug, PartialEq, Eq, Structural)]
pub enum ResponseCode {
    NOERROR,
    FORMERR,
    SERVFAIL,
    NXDOMAIN,
    NOTIMP,
    REFUSED,
    UNKNOWN(u8),
}

/// The response code a wire value decodes to.
pub open spec fn rcode_of(num: u8) -> ResponseCode {
    match num {
        0 => ResponseCode::NOERROR,
        1 => ResponseCode::FORMERR,
        2 => ResponseCode::SERVFAIL,
        3 => ResponseCode::NXDOMAIN,
        4 => ResponseCode::NOTIMP,
        5 => ResponseCode::REFUSED,
        _ => ResponseCode::UNKNOWN(num),
    }
}

/// The wire value a response code encodes to.
pub open spec fn rcode_num(rc: ResponseCode) -> u8 {
    match rc {
        ResponseCode::NOERROR => 0,
        ResponseCode::FORMERR => 1,
        ResponseCode::SERVFAIL => 2,
        ResponseCode::NXDOMAIN => 3,
        ResponseCode::NOTIMP => 4,
        ResponseCode::REFUSED => 5,
        ResponseCode::UNKNOWN(n) => n,
    }
}

impl ResponseCode {
    /// The response code for a numeric wire value; only the low byte is
    /// meaningful, since the wire field is four bits wide.
    pub fn value_of(num: usize) -> (r: Self)
        ensures
            r == rcode_of(num as u8),
    {
        let v = num as u8;
        match v {
            0 => ResponseCode::NOERROR,
            1 => ResponseCode::FORMERR,
            2 => ResponseCode::SERVFAIL,
            3 => ResponseCode::NXDOMAIN,
            4 => ResponseCode::NOTIMP,
            5 => ResponseCode::REFUSED,
            _ => ResponseCode::UNKNOWN(v),
        }
    }

    /// The numeric wire value of this response code.
    pub fn num_value(&self) -> (r: u8)
        ensures
            r == rcode_num(*self),
    {
        match *self {
            ResponseCode::NOERROR => 0,
            ResponseCode::FORMERR => 1,
            ResponseCode::SERVFAIL => 2,
            ResponseCode::NXDOMAIN => 3,
            ResponseCode::NOTIMP => 4,
            ResponseCode::REFUSED => 5,
            ResponseCode::UNKNOWN(n) => n,
        }
    }
}

/// The 12-byte fixed header of a message: identifier, bit-packed flags,
/// and the four section counts.  Pure value type.
#[derive(Copy, Clone, Debug, PartialEq, Eq, Structural)]
pub struct Header {
    pub id: u16,
    pub query_response: bool,
    pub opcode: u8,
    pub authoritative_answer: bool,
    pub truncated_message: bool,
    pub recursion_desired: bool,
    pub recursion_available: bool,
    pub reserved: u8,
    pub response_code: ResponseCode,
    pub question_count: u16,
    pub answer_count: u16,
    pub authority_count: u16,
    pub additional_count: u16,
}

/// 1 for true, 0 for false, as a flag bit.
pub open spec fn bool_bit(b: bool) -> u8 {
    if b {
        1
    } else {
        0
    }
}

/// The first flags byte: QR bit, opcode, AA, TC, RD.
pub open spec fn enc_flags1(h: Header) -> u8 {
    (bool_bit(h.query_response) << 7) | (h.opcode << 3) | (bool_bit(h.authoritative_answer) << 2)
        | (bool_bit(h.truncated_message) << 1) | bool_bit(h.recursion_desired)
}

/// The second flags byte: RA bit, reserved bits, response code.
pub open spec fn enc_flags2(h: Header) -> u8 {
    (bool_bit(h.recursion_available) << 7) | (h.reserved << 4) | rcode_num(h.response_code)
}

/// The 12 header bytes a header encodes to.
pub open spec fn enc_header(h: Header) -> Seq<u8> {
    enc_u16(h.id) + seq![enc_flags1(h), enc_flags2(h)] + enc_u16(h.question_count) + enc_u16(
        h.answer_count,
    ) + enc_u16(h.authority_count) + enc_u16(h.additional_count)
}

/// The header the first 12 bytes of a buffer decode to.
pub open spec fn parse_header(b: Seq<u8>) -> Header {
    Header {
        id: u16_at(b, 0),
        query_response: (b[2] & 0x80) > 0,
        opcode: (b[2] >> 3) & 0x0f,
        authoritative_answer: (b[2] & 0x04) > 0,
        truncated_message: (b[2] & 0x02) > 0,
        recursion_desired: (b[2] & 0x01) > 0,
        recursion_available: (b[3] & 0x80) > 0,
        reserved: (b[3] >> 4) & 0x07,
        response_code: rcode_of(b[3] & 0x0f),
        question_count: u16_at(b, 4),
        answer_count: u16_at(b, 6),
        authority_count: u16_at(b, 8),
        additional_count: u16_at(b, 10),
    }
}

/// The all-zero header value.
pub open spec fn empty_header() -> Header {
    Header {
        id: 0,
        query_response: false,
        opcode: 0,
        authoritative_answer: false,
        truncated_message: false,
        recursion_desired: false,
        recursion_available: false,
        reserved: 0,
        response_code: ResponseCode::NOERROR,
        question_count: 0,
        answer_count: 0,
        authority_count: 0,
        additional_count: 0,
    }
}

/// A header whose fields fit their wire slots, so that encoding loses
/// nothing: opcode and response code in four bits, reserved in three.
pub open spec fn wf_header(h: Header) -> bool {
    h.opcode < 16 && h.reserved < 8 && rcode_num(h.response_code) < 16 && rcode_of(
        rcode_num(h.response_code),
    ) == h.response_code
}

impl Header {
    /// An all-zero header.
    pub fn new() -> (r: Self)
        ensures
            r == empty_header(),
    {
        Header {
            id: 0,
            query_response: false,
            opcode: 0,
            authoritative_answer: false,
            truncated_message: false,
            recursion_desired: false,
            recursion_available: false,
            reserved: 0,
            response_code: ResponseCode::NOERROR,
            question_count: 0,
            answer_count: 0,
            authority_count: 0,
            additional_count: 0,
        }
    }

    /// Decodes the header from the start of the buffer: the position is
    /// first moved to offset zero, since a message's header always stands
    /// at the start.  Never fails; leaves the position at 12.
    pub fn read(&mut self, packet_buffer: &mut BytePacketBuffer) -> (r: Result<(), DnsError>)
        requires
            old(packet_buffer).wf(),
        ensures
            final(packet_buffer).wf(),
            final(packet_buffer).buf@ == old(packet_buffer).buf@,
            final(packet_buffer).spec_pos() == 12,
            r == Ok::<(), DnsError>(()),
            *final(self) == parse_header(old(packet_buffer).buf@),
    {
        packet_buffer.seek(0)?;
        self.id = packet_buffer.read_u16()?;
        let b1 = packet_buffer.read()?;
        self.query_response = (b1 & 0x80) > 0;
        self.opcode = (b1 >> 3) & 0x0f;
        self.authoritative_answer = (b1 & 0x04) > 0;
        self.truncated_message = (b1 & 0x02) > 0;
        self.recursion_desired = (b1 & 0x01) > 0;

        let b2 = packet_buffer.read()?;
        self.recursion_available = (b2 & 0x80) > 0;
        self.reserved = (b2 >> 4) & 0x07;
        self.response_code = ResponseCode::value_of((b2 & 0x0f) as usize);
        self.question_count = packet_buffer.read_u16()?;
        self.answer_count = packet_buffer.read_u16()?;
        self.authority_count = packet_buffer.read_u16()?;
        self.additional_count = packet_buffer.read_u16()?;

        Ok(())
    }

    /// Builds the 12 wire bytes of this header.
    pub(crate) fn encode(&self) -> (r: Vec<u8>)
        ensures
            r@ == enc_header(*self),
    {
        let mut out: Vec<u8> = Vec::new();
        push_u16(&mut out, self.id);
        let qr = if self.query_response {
            1u8
        } else {
            0u8
        };
        let aa = if self.authoritative_answer {
            1u8
        } else {
            0u8
        };
        let tc = if self.truncated_message {
            1u8
        } else {
            0u8
        };
        let rd = if self.recursion_desired {
            1u8
        } else {
            0u8
        };
        let ra = if self.recursion_available {
            1u8
        } else {
            0u8
        };
        out.push((qr << 7) | (self.opcode << 3) | (aa << 2) | (tc << 1) | rd);
        out.push((ra << 7) | (self.reserved << 4) | self.response_code.num_value());
        push_u16(&mut out, self.question_count);
        push_u16(&mut out, self.answer_count);
        push_u16(&mut out, self.authority_count);
        push_u16(&mut out, self.additional_count);
        assert(out@ =~= enc_header(*self));
        out
    }

    /// Encodes the 12 header bytes at the buffer's current position.
    /// Fails with `BufferOverrun`, leaving the buffer unchanged, when the
    /// bytes do not fit.
    pub fn write(&self, packet_buf: &mut BytePacketBuffer) -> (r: Result<(), DnsError>)
        requires
            old(packet_buf).wf(),
        ensures
            final(packet_buf).wf(),
            old(packet_buf).spec_pos() + 12 <= 512 ==> r == Ok::<(), DnsError>(())
                && final(packet_buf).buf@ =~= splice(old(packet_buf).buf@, old(packet_buf).spec_pos(), enc_header(*self))
                && final(packet_buf).spec_pos() == old(packet_buf).spec_pos() + 12,
            old(packet_buf).spec_pos() + 12 > 512 ==> r == Err::<(), DnsError>(
                DnsError::BufferOverrun,
            ) && *final(packet_buf) == *old(packet_buf),
    {
        let data = self.encode();
        write_all(packet_buf, &data)
    }
}

/// A big-endian 16-bit value survives being split into two bytes.
proof fn lemma_u16_bytes_round_trip(v: u16)
    ensures
        ((((v >> 8) as u8) as u16) << 8) | (((v & 0xff) as u8) as u16) == v,
{
    assert(((((v >> 8) as u8) as u16) << 8) | (((v & 0xff) as u8) as u16) == v) by (bit_vector);
}

/// Decoding the encoding of a well-formed header gives the header back,
/// whatever bytes follow the 12 header bytes in the buffer.
pub proof fn lemma_header_round_trip(h: Header, rest: Seq<u8>)
    requires
        wf_header(h),
    ensures
        parse_header(enc_header(h) + rest) == h,
{
    let b = enc_header(h) + rest;
    let q = bool_bit(h.query_response);
    let o = h.opcode;
    let a = bool_bit(h.authoritative_answer);
    let t = bool_bit(h.truncated_message);
    let d = bool_bit(h.recursion_desired);
    let v = bool_bit(h.recursion_available);
    let z = h.reserved;
    let c = rcode_num(h.response_code);
    assert(b[2] == enc_flags1(h));
    assert(b[3] == enc_flags2(h));
    let f1 = (q << 7) | (o << 3) | (a << 2) | (t << 1) | d;
    let f2 = (v << 7) | (z << 4) | c;
    assert(q <= 1 && o <= 15 && a <= 1 && t <= 1 && d <= 1 && f1 == ((q << 7) | (o << 3) | (a << 2)
        | (t << 1) | d) ==> ((f1 & 0x80 > 0) <==> q == 1) && ((f1 >> 3) & 0x0f == o) && ((f1 & 0x04
        > 0) <==> a == 1) && ((f1 & 0x02 > 0) <==> t == 1) && ((f1 & 0x01 > 0) <==> d == 1))
        by (bit_vector);
    assert(v <= 1 && z <= 7 && c <= 15 && f2 == ((v << 7) | (z << 4) | c) ==> ((f2 & 0x80 > 0)
        <==> v == 1) && ((f2 >> 4) & 0x07 == z) && (f2 & 0x0f == c)) by (bit_vector);
    lemma_u16_bytes_round_trip(h.id);
    lemma_u16_bytes_round_trip(h.question_count);
    lemma_u16_bytes_round_trip(h.answer_count);
    lemma_u16_bytes_round_trip(h.authority_count);
    lemma_u16_bytes_round_trip(h.additional_count);
    assert(u16_at(b, 0) == h.id);
    assert(u16_at(b, 4) == h.question_count);
    assert(u16_at(b, 6) == h.answer_count);
    assert(u16_at(b, 8) == h.authority_count);
    assert(u16_at(b, 10) == h.additional_count);
}

} // verus!
