use vstd::prelude::*;

verus! {

use crate::buffer::{BytePacketBuffer, enc_u16, push_u16, splice, u16_at, write_all};
use crate::domain::{Domain, encode_name_bytes, enc_name, lossy_chars, parse_name_from};
use crate::error::DnsError;
use vstd::string::StrSliceExecFns;
use vstd::utf8::encode_utf8;

/// Query type of a question or record, with the raw code preserved for
/// types outside the known enumeration.
#[allow(non_camel_case_types)]
#[derive(Copy, Clone, PartialEq, Eq, Debug, Structural)]
pub enum QueryType {
    UNKNOWN(u16),
    A,
    NS,
    CNAME,
    MX,
    AAAA,
}

/// The query type a numeric wire value decodes to.
pub open spec fn qtype_of(num: u16) -> QueryType {
    match num {
        1u16 => QueryType::A,
        2u16 => QueryType::NS,
        5u16 => QueryType::CNAME,
        15u16 => QueryType::MX,
        28u16 => QueryType::AAAA,
        _ => QueryType::UNKNOWN(num),
    }
}

/// The numeric wire value a query type encodes to.
pub open spec fn qtype_num(q: QueryType) -> u16 {
    match q {
        QueryType::A => 1,
        QueryType::NS => 2,
        QueryType::CNAME => 5,
        QueryType::MX => 15,
        QueryType::AAAA => 28,
        QueryType::UNKNOWN(n) => n,
    }
}

impl QueryType {
    /// The query type for a numeric wire value.
    pub fn value_of(num: u16) -> (r: QueryType)
        ensures
            r == qtype_of(num),
    {
        match num {
            1 => QueryType::A,
            2 => QueryType::NS,
            5 => QueryType::CNAME,
            15 => QueryType::MX,
            28 => QueryType::AAAA,
            _ => QueryType::UNKNOWN(num),
        }
    }

    /// The numeric wire value of this query type.
    pub fn num_value(&self) -> (r: u16)
        ensures
            r == qtype_num(*self),
    {
        match *self {
            QueryType::A => 1,
            QueryType::NS => 2,
            QueryType::CNAME => 5,
            QueryType::MX => 15,
            QueryType::AAAA => 28,
            QueryType::UNKNOWN(n) => n,
        }
    }
}

/// An IPv4 address as its four octets.
#[derive(Copy, Clone, PartialEq, Eq, Debug, Hash, Structural)]
pub struct Ipv4Addr {
    pub a: u8,
    pub b: u8,
    pub c: u8,
    pub d: u8,
}

impl Ipv4Addr {
    /// The address `a.b.c.d`.
    pub fn new(a: u8, b: u8, c: u8, d: u8) -> (r: Ipv4Addr)
        ensures
            r == (Ipv4Addr { a, b, c, d }),
    {
        Ipv4Addr { a, b, c, d }
    }
}

/// A resource record: owner name and time-to-live, then a variant payload.
/// Unknown types are first-class: they keep the raw type code and the raw
/// rdata length so the record can be skipped without losing the section's
/// byte alignment.
#[allow(non_camel_case_types)]
#[derive(Clone, PartialEq, Eq, Debug)]
pub enum Record {
    UNKNOWN { domain: String, qtype: u16, ttl: u32, len: u16 },
    A { domain: String, ip: Ipv4Addr, ttl: u32 },
    NS { domain: String, host: String, ttl: u32 },
    CNAME { domain: String, host: String, ttl: u32 },
}

/// The mathematical model of a record: names as character sequences.
#[allow(non_camel_case_types)]
#[verifier::ext_equal]
pub enum RecordV {
    UNKNOWN { domain: Seq<char>, qtype: u16, ttl: u32, len: u16 },
    A { domain: Seq<char>, ip: Ipv4Addr, ttl: u32 },
    NS { domain: Seq<char>, host: Seq<char>, ttl: u32 },
    CNAME { domain: Seq<char>, host: Seq<char>, ttl: u32 },
}

impl View for Record {
    type V = RecordV;

    open spec fn view(&self) -> RecordV {
        match self {
            Record::UNKNOWN { domain, qtype, ttl, len } => RecordV::UNKNOWN {
                domain: domain@,
                qtype: *qtype,
                ttl: *ttl,
                len: *len,
            },
            Record::A { domain, ip, ttl } => RecordV::A { domain: domain@, ip: *ip, ttl: *ttl },
            Record::NS { domain, host, ttl } => RecordV::NS {
                domain: domain@,
                host: host@,
                ttl: *ttl,
            },
            Record::CNAME { domain, host, ttl } => RecordV::CNAME {
                domain: domain@,
                host: host@,
                ttl: *ttl,
            },
        }
    }
}

/// The four big-endian bytes of a 32-bit time-to-live, written as its
/// high and low 16-bit halves.
pub open spec fn enc_ttl(ttl: u32) -> Seq<u8> {
    enc_u16((ttl >> 16) as u16) + enc_u16((ttl & 0xffff) as u16)
}

/// `n` zero bytes: the placeholder payload of an unknown record, whose
/// rdata bytes are not retained by decoding.
pub open spec fn zero_bytes(n: int) -> Seq<u8> {
    Seq::new(n as nat, |i: int| 0u8)
}

/// What decoding a record at offset `pos` of buffer contents `b` yields:
/// the record model and the position the cursor is left at.
///
/// Layout: owner name, type code, class (read and discarded), 32-bit
/// time-to-live combined from its two halves, rdata length, then the
/// payload the type code dispatches on.  Unknown types skip the payload.
pub open spec fn parse_record(b: Seq<u8>, pos: int) -> Result<(RecordV, int), DnsError> {
    match parse_name_from(b, pos, 0, false) {
        Err(e) => Err(e),
        Ok((dom, p1)) => {
            if p1 + 10 > 512 {
                Err(DnsError::BufferOverrun)
            } else {
                let qt = u16_at(b, p1);
                let ttl = ((u16_at(b, p1 + 4) as u32) << 16) | (u16_at(b, p1 + 6) as u32);
                let len = u16_at(b, p1 + 8);
                if qt == 1 {
                    if p1 + 14 > 512 {
                        Err(DnsError::BufferOverrun)
                    } else {
                        Ok(
                            (
                                RecordV::A {
                                    domain: lossy_chars(dom),
                                    ip: Ipv4Addr {
                                        a: b[p1 + 10],
                                        b: b[p1 + 11],
                                        c: b[p1 + 12],
                                        d: b[p1 + 13],
                                    },
                                    ttl: ttl,
                                },
                                p1 + 14,
                            ),
                        )
                    }
                } else if qt == 2 || qt == 5 {
                    match parse_name_from(b, p1 + 10, 0, false) {
                        Err(e) => Err(e),
                        Ok((host, p2)) => Ok(
                            (
                                if qt == 2 {
                                    RecordV::NS {
                                        domain: lossy_chars(dom),
                                        host: lossy_chars(host),
                                        ttl: ttl,
                                    }
                                } else {
                                    RecordV::CNAME {
                                        domain: lossy_chars(dom),
                                        host: lossy_chars(host),
                                        ttl: ttl,
                                    }
                                },
                                p2,
                            ),
                        ),
                    }
                } else {
                    if p1 + 10 + len >= 512 {
                        Err(DnsError::BufferOverrun)
                    } else {
                        Ok(
                            (
                                RecordV::UNKNOWN {
                                    domain: lossy_chars(dom),
                                    qtype: qt,
                                    ttl: ttl,
                                    len: len,
                                },
                                p1 + 10 + len,
                            ),
                        )
                    }
                }
            }
        },
    }
}

/// The wire bytes a record model encodes to.  The rdata length of a name
/// payload is the true byte length of the encoded name; an unknown
/// record's payload is its declared length in zero bytes, since the
/// original bytes are not retained.
pub open spec fn enc_record(r: RecordV) -> Seq<u8> {
    match r {
        RecordV::A { domain, ip, ttl } => enc_name(encode_utf8(domain)) + enc_u16(1) + enc_u16(1)
            + enc_ttl(ttl) + enc_u16(4) + seq![ip.a, ip.b, ip.c, ip.d],
        RecordV::NS { domain, host, ttl } => {
            let w = enc_name(encode_utf8(host));
            enc_name(encode_utf8(domain)) + enc_u16(2) + enc_u16(1) + enc_ttl(ttl) + enc_u16(
                w.len() as u16,
            ) + w
        },
        RecordV::CNAME { domain, host, ttl } => {
            let w = enc_name(encode_utf8(host));
            enc_name(encode_utf8(domain)) + enc_u16(5) + enc_u16(1) + enc_ttl(ttl) + enc_u16(
                w.len() as u16,
            ) + w
        },
        RecordV::UNKNOWN { domain, qtype, ttl, len } => enc_name(encode_utf8(domain)) + enc_u16(
            qtype,
        ) + enc_u16(1) + enc_ttl(ttl) + enc_u16(len) + zero_bytes(len as int),
    }
}

impl Record {
    /// Decodes one record at the buffer's current position.  The buffer
    /// bytes are never changed; on success the position is left just past
    /// the record.
    pub fn read(packet_buf: &mut BytePacketBuffer) -> (r: Result<Record, DnsError>)
        requires
            old(packet_buf).wf(),
        ensures
            final(packet_buf).wf(),
            final(packet_buf).buf@ == old(packet_buf).buf@,
            (match parse_record(old(packet_buf).buf@, old(packet_buf).spec_pos()) {
                Ok((rv, end)) => (r matches Ok(rec) && rec@ == rv)
                    && final(packet_buf).spec_pos() == end,
                Err(e) => r == Err::<Record, DnsError>(e),
            }),
    {
        let domain = Domain::new(String::new()).read(packet_buf)?;
        let qtype = packet_buf.read_u16()?;
        let _ = packet_buf.read_u16()?;
        let hi = packet_buf.read_u16()?;
        let lo = packet_buf.read_u16()?;
        let ttl = ((hi as u32) << 16) | (lo as u32);
        let len = packet_buf.read_u16()?;

        match QueryType::value_of(qtype) {
            QueryType::A => {
                let a = packet_buf.read()?;
                let b = packet_buf.read()?;
                let c = packet_buf.read()?;
                let d = packet_buf.read()?;
                Ok(Record::A { domain, ip: Ipv4Addr::new(a, b, c, d), ttl })
            },
            QueryType::NS => {
                let host = Domain::new(String::new()).read(packet_buf)?;
                Ok(Record::NS { domain, host, ttl })
            },
            QueryType::CNAME => {
                let host = Domain::new(String::new()).read(packet_buf)?;
                Ok(Record::CNAME { domain, host, ttl })
            },
            _ => {
                packet_buf.seek(packet_buf.pos() + len as usize)?;
                Ok(Record::UNKNOWN { domain, qtype, ttl, len })
            },
        }
    }

    /// Builds the wire bytes of this record.
    pub(crate) fn encode(&self) -> (r: Vec<u8>)
        ensures
            r@ == enc_record(self@),
    {
        let mut out: Vec<u8> = Vec::new();
        match self {
            Record::A { domain, ip, ttl } => {
                let name_bytes = domain.as_str().as_bytes_vec();
                let mut enc = encode_name_bytes(&name_bytes);
                out.append(&mut enc);
                push_u16(&mut out, QueryType::A.num_value());
                push_u16(&mut out, 1);
                push_u16(&mut out, (*ttl >> 16) as u16);
                push_u16(&mut out, (*ttl & 0xffff) as u16);
                push_u16(&mut out, 4);
                out.push(ip.a);
                out.push(ip.b);
                out.push(ip.c);
                out.push(ip.d);
                assert(out@ =~= enc_record(self@));
            },
            Record::NS { domain, host, ttl } => {
                let name_bytes = domain.as_str().as_bytes_vec();
                let mut enc = encode_name_bytes(&name_bytes);
                out.append(&mut enc);
                push_u16(&mut out, QueryType::NS.num_value());
                push_u16(&mut out, 1);
                push_u16(&mut out, (*ttl >> 16) as u16);
                push_u16(&mut out, (*ttl & 0xffff) as u16);
                let host_bytes = host.as_str().as_bytes_vec();
                let mut host_enc = encode_name_bytes(&host_bytes);
                push_u16(&mut out, host_enc.len() as u16);
                out.append(&mut host_enc);
                assert(out@ =~= enc_record(self@));
            },
            Record::CNAME { domain, host, ttl } => {
                let name_bytes = domain.as_str().as_bytes_vec();
                let mut enc = encode_name_bytes(&name_bytes);
                out.append(&mut enc);
                push_u16(&mut out, QueryType::CNAME.num_value());
                push_u16(&mut out, 1);
                push_u16(&mut out, (*ttl >> 16) as u16);
                push_u16(&mut out, (*ttl & 0xffff) as u16);
                let host_bytes = host.as_str().as_bytes_vec();
                let mut host_enc = encode_name_bytes(&host_bytes);
                push_u16(&mut out, host_enc.len() as u16);
                out.append(&mut host_enc);
                assert(out@ =~= enc_record(self@));
            },
            Record::UNKNOWN { domain, qtype, ttl, len } => {
                let name_bytes = domain.as_str().as_bytes_vec();
                let mut enc = encode_name_bytes(&name_bytes);
                out.append(&mut enc);
                push_u16(&mut out, *qtype);
                push_u16(&mut out, 1);
                push_u16(&mut out, (*ttl >> 16) as u16);
                push_u16(&mut out, (*ttl & 0xffff) as u16);
                push_u16(&mut out, *len);
                let ghost before = out@;
                let mut i: u16 = 0;
                while i < *len
                    invariant
                        i <= *len,
                        out@ =~= before + zero_bytes(i as int),
                    decreases *len - i,
                {
                    out.push(0);
                    assert(out@ =~= before + zero_bytes(i + 1 as int));
                    i = i + 1;
                }
                assert(out@ =~= enc_record(self@));
            },
        }
        out
    }

    /// Encodes this record at the buffer's current position.  The rdata
    /// length written for a name payload is the true byte length of the
    /// encoded name.  Fails with `BufferOverrun`, leaving the buffer
    /// unchanged, when the encoding does not fit.
    pub fn write(&self, packet_buf: &mut BytePacketBuffer) -> (r: Result<(), DnsError>)
        requires
            old(packet_buf).wf(),
        ensures
            final(packet_buf).wf(),
            old(packet_buf).spec_pos() + enc_record(self@).len() <= 512 ==> r == Ok::<
                (),
                DnsError,
            >(()) && final(packet_buf).buf@ =~= splice(
                old(packet_buf).buf@,
                old(packet_buf).spec_pos(),
                enc_record(self@),
            ) && final(packet_buf).spec_pos() == old(packet_buf).spec_pos() + enc_record(
                self@,
            ).len(),
            old(packet_buf).spec_pos() + enc_record(self@).len() > 512 ==> r == Err::<
                (),
                DnsError,
            >(DnsError::BufferOverrun) && *final(packet_buf) == *old(packet_buf),
    {
        let data = self.encode();
        write_all(packet_buf, &data)
    }
}

/// An A record that encoding loses nothing of: the owner name's labels
/// are nonempty and at most 63 bytes.
pub open spec fn wf_a_record(r: RecordV) -> bool {
    match r {
        RecordV::A { domain, .. } => crate::domain::wf_name_bytes(encode_utf8(domain)),
        _ => false,
    }
}

/// A 32-bit value survives being split into its 16-bit halves.
proof fn lemma_u32_halves_round_trip(v: u32)
    ensures
        ((((v >> 16) as u16) as u32) << 16) | (((v & 0xffff) as u16) as u32) == v,
{
    assert(((((v >> 16) as u16) as u32) << 16) | (((v & 0xffff) as u16) as u32) == v)
        by (bit_vector);
}

/// Decoding the encoding of a well-formed A record at `at` gives the
/// record back and stops right past it.
pub proof fn lemma_parse_enc_a_record(b: Seq<u8>, r: RecordV, at: int)
    requires
        b.len() == 512,
        wf_a_record(r),
        0 <= at,
        at + enc_record(r).len() <= 512,
        b.subrange(at, at + enc_record(r).len()) == enc_record(r),
    ensures
        parse_record(b, at) == Ok::<(RecordV, int), DnsError>((r, at + enc_record(r).len())),
{
    match r {
        RecordV::A { domain, ip, ttl } => {
            let nb = encode_utf8(domain);
            let wn = enc_name(nb);
            let w = enc_record(r);
            assert(w == wn + enc_u16(1) + enc_u16(1) + enc_ttl(ttl) + enc_u16(4) + seq![
                ip.a,
                ip.b,
                ip.c,
                ip.d,
            ]);
            assert(w.len() == wn.len() + 14);
            crate::buffer::lemma_slice_of_slice(b, at, w, 0, wn.len() as int);
            assert(w.subrange(0, wn.len() as int) =~= wn);
            crate::domain::lemma_parse_enc_name(b, nb, 0, at, 0, false);
            assert(nb.subrange(0, nb.len() as int) =~= nb);
            let p1 = at + wn.len();
            crate::buffer::lemma_slice_of_slice(b, at, w, wn.len() as int, 2);
            assert(w.subrange(wn.len() as int, wn.len() as int + 2) =~= enc_u16(1));
            crate::buffer::lemma_enc_u16_at(b, p1, 1);
            crate::buffer::lemma_slice_of_slice(b, at, w, wn.len() as int + 4, 2);
            assert(w.subrange(wn.len() as int + 4, wn.len() as int + 6) =~= enc_u16((ttl >> 16) as u16));
            crate::buffer::lemma_enc_u16_at(b, p1 + 4, (ttl >> 16) as u16);
            crate::buffer::lemma_slice_of_slice(b, at, w, wn.len() as int + 6, 2);
            assert(w.subrange(wn.len() as int + 6, wn.len() as int + 8) =~= enc_u16((ttl & 0xffff) as u16));
            crate::buffer::lemma_enc_u16_at(b, p1 + 6, (ttl & 0xffff) as u16);
            lemma_u32_halves_round_trip(ttl);
            assert(b[p1 + 10] == b.subrange(at, at + w.len())[wn.len() as int + 10]);
            assert(b[p1 + 11] == b.subrange(at, at + w.len())[wn.len() as int + 11]);
            assert(b[p1 + 12] == b.subrange(at, at + w.len())[wn.len() as int + 12]);
            assert(b[p1 + 13] == b.subrange(at, at + w.len())[wn.len() as int + 13]);
            assert(w[wn.len() as int + 10] == ip.a);
            assert(w[wn.len() as int + 11] == ip.b);
            assert(w[wn.len() as int + 12] == ip.c);
            assert(w[wn.len() as int + 13] == ip.d);
            crate::domain::lemma_lossy_chars_of_encoding(domain);
            assert(parse_record(b, at) matches Ok((rv, end)) && rv == r && end == at + w.len());
        },
        _ => {},
    }
}

} // verus!
