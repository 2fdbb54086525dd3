use vstd::prelude::*;

verus! {

use crate::buffer::{BytePacketBuffer, enc_u16, push_u16, splice, u16_at, write_all};
use crate::domain::{Domain, encode_name_bytes, enc_name, lossy_chars, parse_name_from};
use crate::error::DnsError;
use crate::record::{QueryType, qtype_num, qtype_of};
use vstd::string::StrSliceExecFns;
use vstd::utf8::encode_utf8;

/// A question: the queried name and its query type.  The class field is
/// always written as 1 (Internet) and discarded on read.
#[derive(Clone, Debug)]
pub struct Question {
    pub name: String,
    pub qtype: QueryType,
}

/// The mathematical model of a question.
#[verifier::ext_equal]
pub struct QuestionV {
    pub name: Seq<char>,
    pub qtype: QueryType,
}

impl View for Question {
    type V = QuestionV;

    open spec fn view(&self) -> QuestionV {
        QuestionV { name: self.name@, qtype: self.qtype }
    }
}

/// What decoding a question at offset `pos` of buffer contents `b`
/// yields: the question model and the position the cursor is left at.
/// The name is followed by the 16-bit query type and the 16-bit class,
/// which is read and discarded.
pub open spec fn parse_question(b: Seq<u8>, pos: int) -> Result<(QuestionV, int), DnsError> {
    match parse_name_from(b, pos, 0, false) {
        Err(e) => Err(e),
        Ok((nm, p1)) => {
            if p1 + 4 > 512 {
                Err(DnsError::BufferOverrun)
            } else {
                Ok((QuestionV { name: lossy_chars(nm), qtype: qtype_of(u16_at(b, p1)) }, p1 + 4))
            }
        },
    }
}

/// The wire bytes a question model encodes to: the name, the query
/// type's numeric value, then the class constant 1.
pub open spec fn enc_question(q: QuestionV) -> Seq<u8> {
    enc_name(encode_utf8(q.name)) + enc_u16(qtype_num(q.qtype)) + enc_u16(1)
}

impl Question {
    /// A question for the given name and query type.
    pub fn new(name: String, qtype: QueryType) -> (r: Self)
        ensures
            r.name@ == name@,
            r.qtype == qtype,
    {
        Question { name, qtype }
    }

    /// Decodes a question at the buffer's current position, overwriting
    /// this question's fields.  The buffer bytes are never changed; on
    /// success the position is left just past the question.
    pub fn read(&mut self, packet_buf: &mut BytePacketBuffer) -> (r: Result<(), DnsError>)
        requires
            old(packet_buf).wf(),
        ensures
            final(packet_buf).wf(),
            final(packet_buf).buf@ == old(packet_buf).buf@,
            (match parse_question(old(packet_buf).buf@, old(packet_buf).spec_pos()) {
                Ok((qv, end)) => r == Ok::<(), DnsError>(()) && final(self)@ == qv
                    && final(packet_buf).spec_pos() == end,
                Err(e) => r == Err::<(), DnsError>(e),
            }),
    {
        self.name = Domain::new(String::new()).read(packet_buf)?;
        self.qtype = QueryType::value_of(packet_buf.read_u16()?);
        packet_buf.read_u16()?;
        Ok(())
    }

    /// Builds the wire bytes of this question.
    pub(crate) fn encode(&self) -> (r: Vec<u8>)
        ensures
            r@ == enc_question(self@),
    {
        let name_bytes = self.name.as_str().as_bytes_vec();
        let mut out = encode_name_bytes(&name_bytes);
        push_u16(&mut out, self.qtype.num_value());
        push_u16(&mut out, 1);
        assert(out@ =~= enc_question(self@));
        out
    }

    /// Encodes this question at the buffer's current position.  Fails
    /// with `BufferOverrun`, leaving the buffer unchanged, when the
    /// encoding does not fit.
    pub fn write(&self, packet_buf: &mut BytePacketBuffer) -> (r: Result<(), DnsError>)
        requires
            old(packet_buf).wf(),
        ensures
            final(packet_buf).wf(),
            old(packet_buf).spec_pos() + enc_question(self@).len() <= 512 ==> r == Ok::<
                (),
                DnsError,
            >(()) && final(packet_buf).buf@ =~= splice(
                old(packet_buf).buf@,
                old(packet_buf).spec_pos(),
                enc_question(self@),
            ) && final(packet_buf).spec_pos() == old(packet_buf).spec_pos() + enc_question(
                self@,
            ).len(),
            old(packet_buf).spec_pos() + enc_question(self@).len() > 512 ==> r == Err::<
                (),
                DnsError,
            >(DnsError::BufferOverrun) && *final(packet_buf) == *old(packet_buf),
    {
        let data = self.encode();
        write_all(packet_buf, &data)
    }
}

/// A question that encoding loses nothing of: the name's labels are
/// nonempty and at most 63 bytes, and the query type survives its
/// numeric value.
pub open spec fn wf_question(q: QuestionV) -> bool {
    crate::domain::wf_name_bytes(encode_utf8(q.name)) && qtype_of(qtype_num(q.qtype)) == q.qtype
}

/// Decoding the encoding of a well-formed question at `at` gives the
/// question back and stops right past it.
pub proof fn lemma_parse_enc_question(b: Seq<u8>, q: QuestionV, at: int)
    requires
        b.len() == 512,
        wf_question(q),
        0 <= at,
        at + enc_question(q).len() <= 512,
        b.subrange(at, at + enc_question(q).len()) == enc_question(q),
    ensures
        parse_question(b, at) == Ok::<(QuestionV, int), DnsError>(
            (q, at + enc_question(q).len()),
        ),
{
    let nb = encode_utf8(q.name);
    let wn = enc_name(nb);
    let w = enc_question(q);
    assert(w == wn + enc_u16(qtype_num(q.qtype)) + enc_u16(1));
    assert(w.len() == wn.len() as int + 4);
    crate::buffer::lemma_slice_of_slice(b, at, w, 0, wn.len() as int);
    assert(w.subrange(0, wn.len() as int) =~= wn);
    assert(b.subrange(at, at + wn.len()) == wn);
    crate::domain::lemma_parse_enc_name(b, nb, 0, at, 0, false);
    assert(nb.subrange(0, nb.len() as int) =~= nb);
    let p1 = at + wn.len();
    crate::buffer::lemma_slice_of_slice(b, at, w, wn.len() as int, 2);
    assert(w.subrange(wn.len() as int, wn.len() as int + 2) =~= enc_u16(qtype_num(q.qtype)));
    crate::buffer::lemma_enc_u16_at(b, p1, qtype_num(q.qtype));
    crate::domain::lemma_lossy_chars_of_encoding(q.name);
    assert(parse_question(b, at) matches Ok((qv, end)) && qv.name == q.name && qv.qtype == q.qtype
        && end == at + w.len());
}

} // verus!
