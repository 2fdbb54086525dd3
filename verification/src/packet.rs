use vstd::prelude::*;

verus! {

use crate::buffer::{BytePacketBuffer, splice, write_all};
use crate::error::DnsError;
use crate::header::{Header, empty_header, enc_header, lemma_header_round_trip, parse_header, wf_header};
use crate::question::{Question, QuestionV, enc_question, lemma_parse_enc_question, parse_question, wf_question};
use crate::record::{Ipv4Addr, QueryType, Record, RecordV, enc_record, lemma_parse_enc_a_record, parse_record, wf_a_record};
use vstd::utf8::encode_utf8;

/// The models of a sequence of questions.
pub open spec fn views_q(qs: Seq<Question>) -> Seq<QuestionV> {
    qs.map_values(|q: Question| q@)
}

/// The models of a sequence of records.
pub open spec fn views_r(rs: Seq<Record>) -> Seq<RecordV> {
    rs.map_values(|r: Record| r@)
}

/// What decoding `n` questions in a row from offset `pos` yields.
pub open spec fn parse_questions(b: Seq<u8>, pos: int, n: int) -> Result<
    (Seq<QuestionV>, int),
    DnsError,
>
    decreases n,
{
    if n <= 0 {
        Ok((Seq::empty(), pos))
    } else {
        match parse_question(b, pos) {
            Err(e) => Err(e),
            Ok((q, p1)) => match parse_questions(b, p1, n - 1) {
                Err(e) => Err(e),
                Ok((rest, end)) => Ok((seq![q] + rest, end)),
            },
        }
    }
}

/// What decoding `n` records in a row from offset `pos` yields.
pub open spec fn parse_records(b: Seq<u8>, pos: int, n: int) -> Result<
    (Seq<RecordV>, int),
    DnsError,
>
    decreases n,
{
    if n <= 0 {
        Ok((Seq::empty(), pos))
    } else {
        match parse_record(b, pos) {
            Err(e) => Err(e),
            Ok((r, p1)) => match parse_records(b, p1, n - 1) {
                Err(e) => Err(e),
                Ok((rest, end)) => Ok((seq![r] + rest, end)),
            },
        }
    }
}

/// The mathematical model of a message.
#[verifier::ext_equal]
pub struct PacketV {
    pub header: Header,
    pub questions: Seq<QuestionV>,
    pub answers: Seq<RecordV>,
    pub authorities: Seq<RecordV>,
    pub additionals: Seq<RecordV>,
}

/// What decoding a whole message from buffer contents `b` yields: the
/// header from offset 0, then exactly the declared number of questions,
/// answers, authority records and additional records, in that order.
/// Any sub-decode failure fails the whole message with
/// `MalformedMessage`; no partial message is ever returned.
pub open spec fn parse_packet(b: Seq<u8>) -> Result<PacketV, DnsError> {
    let h = parse_header(b);
    match parse_questions(b, 12, h.question_count as int) {
        Err(_) => Err(DnsError::MalformedMessage),
        Ok((qs, p1)) => match parse_records(b, p1, h.answer_count as int) {
            Err(_) => Err(DnsError::MalformedMessage),
            Ok((ans, p2)) => match parse_records(b, p2, h.authority_count as int) {
                Err(_) => Err(DnsError::MalformedMessage),
                Ok((auth, p3)) => match parse_records(b, p3, h.additional_count as int) {
                    Err(_) => Err(DnsError::MalformedMessage),
                    Ok((add, _)) => Ok(
                        PacketV {
                            header: h,
                            questions: qs,
                            answers: ans,
                            authorities: auth,
                            additionals: add,
                        },
                    ),
                },
            },
        },
    }
}

/// Each section's length fits the 16-bit count field of the header.
pub open spec fn counts_fit(p: PacketV) -> bool {
    p.questions.len() <= 0xffff && p.answers.len() <= 0xffff && p.authorities.len() <= 0xffff
        && p.additionals.len() <= 0xffff
}

/// The header with its four section counts recomputed from the actual
/// section lengths, which is what encoding writes: counts are derived
/// from the lists rather than trusted from stale header state.
pub open spec fn header_with_counts(p: PacketV) -> Header {
    Header {
        question_count: p.questions.len() as u16,
        answer_count: p.answers.len() as u16,
        authority_count: p.authorities.len() as u16,
        additional_count: p.additionals.len() as u16,
        ..p.header
    }
}

/// The wire bytes of a sequence of questions.
pub open spec fn enc_question_seq(qs: Seq<QuestionV>) -> Seq<u8>
    decreases qs.len(),
{
    if qs.len() == 0 {
        Seq::empty()
    } else {
        enc_question(qs[0]) + enc_question_seq(qs.drop_first())
    }
}

/// The wire bytes of a sequence of records.
pub open spec fn enc_record_seq(rs: Seq<RecordV>) -> Seq<u8>
    decreases rs.len(),
{
    if rs.len() == 0 {
        Seq::empty()
    } else {
        enc_record(rs[0]) + enc_record_seq(rs.drop_first())
    }
}

/// The wire bytes a message model encodes to: header with recomputed
/// counts, then questions, answers, authorities and additionals in order.
pub open spec fn enc_packet(p: PacketV) -> Seq<u8> {
    enc_header(header_with_counts(p)) + enc_question_seq(p.questions) + enc_record_seq(p.answers)
        + enc_record_seq(p.authorities) + enc_record_seq(p.additionals)
}

/// Appending a question appends its encoding.
pub proof fn lemma_enc_question_seq_snoc(qs: Seq<QuestionV>, q: QuestionV)
    ensures
        enc_question_seq(qs.push(q)) == enc_question_seq(qs) + enc_question(q),
    decreases qs.len(),
{
    if qs.len() == 0 {
        assert(qs.push(q).drop_first() =~= Seq::<QuestionV>::empty());
        assert(qs.push(q)[0] == q);
        assert(enc_question_seq(Seq::<QuestionV>::empty()) =~= Seq::<u8>::empty());
        assert(enc_question_seq(qs.push(q)) =~= enc_question_seq(qs) + enc_question(q));
    } else {
        assert(qs.push(q).drop_first() =~= qs.drop_first().push(q));
        lemma_enc_question_seq_snoc(qs.drop_first(), q);
        assert(enc_question_seq(qs.push(q)) =~= enc_question_seq(qs) + enc_question(q));
    }
}

/// Appending a record appends its encoding.
pub proof fn lemma_enc_record_seq_snoc(rs: Seq<RecordV>, r: RecordV)
    ensures
        enc_record_seq(rs.push(r)) == enc_record_seq(rs) + enc_record(r),
    decreases rs.len(),
{
    if rs.len() == 0 {
        assert(rs.push(r).drop_first() =~= Seq::<RecordV>::empty());
        assert(rs.push(r)[0] == r);
        assert(enc_record_seq(Seq::<RecordV>::empty()) =~= Seq::<u8>::empty());
        assert(enc_record_seq(rs.push(r)) =~= enc_record_seq(rs) + enc_record(r));
    } else {
        assert(rs.push(r).drop_first() =~= rs.drop_first().push(r));
        lemma_enc_record_seq_snoc(rs.drop_first(), r);
        assert(enc_record_seq(rs.push(r)) =~= enc_record_seq(rs) + enc_record(r));
    }
}

/// A suffix relation on byte strings: `suf` ends `of`.
pub open spec fn is_suffix_of(suf: Seq<u8>, of: Seq<u8>) -> bool {
    suf.len() <= of.len() && of.subrange(of.len() - suf.len(), of.len() as int) == suf
}

/// Whether a record is an NS record whose owner name is a suffix of (or
/// equal to) the queried name, compared byte-wise.
pub open spec fn ns_matches(r: RecordV, qname: Seq<char>) -> bool {
    match r {
        RecordV::NS { domain, .. } => is_suffix_of(encode_utf8(domain), encode_utf8(qname)),
        _ => false,
    }
}

/// The target host of an NS record, empty for other variants.
pub open spec fn host_of(r: RecordV) -> Seq<char> {
    match r {
        RecordV::NS { host, .. } => host,
        _ => Seq::empty(),
    }
}

/// The address of the first A record owned by `host`, in section order.
pub open spec fn first_a_for(adds: Seq<RecordV>, host: Seq<char>) -> Option<Ipv4Addr>
    decreases adds.len(),
{
    if adds.len() == 0 {
        None
    } else {
        match adds[0] {
            RecordV::A { domain, ip, .. } => if domain == host {
                Some(ip)
            } else {
                first_a_for(adds.drop_first(), host)
            },
            _ => first_a_for(adds.drop_first(), host),
        }
    }
}

/// The glue address of the first matching NS record that has one: scan
/// the authority records in section order for NS records whose owner is
/// a suffix of the queried name, and return the first additional-section
/// A address for the first such NS target that has one.
pub open spec fn spec_resolved_ns(
    auths: Seq<RecordV>,
    adds: Seq<RecordV>,
    qname: Seq<char>,
) -> Option<Ipv4Addr>
    decreases auths.len(),
{
    if auths.len() == 0 {
        None
    } else if ns_matches(auths[0], qname) && first_a_for(adds, host_of(auths[0])) is Some {
        first_a_for(adds, host_of(auths[0]))
    } else {
        spec_resolved_ns(auths.drop_first(), adds, qname)
    }
}

/// The target host of the first NS record matching the queried name,
/// whether or not it has a glue address.
pub open spec fn spec_unresolved_ns(auths: Seq<RecordV>, qname: Seq<char>) -> Option<Seq<char>>
    decreases auths.len(),
{
    if auths.len() == 0 {
        None
    } else if ns_matches(auths[0], qname) {
        Some(host_of(auths[0]))
    } else {
        spec_unresolved_ns(auths.drop_first(), qname)
    }
}

/// The address of the first A record of a section, in section order.
pub open spec fn spec_first_a(rs: Seq<RecordV>) -> Option<Ipv4Addr>
    decreases rs.len(),
{
    if rs.len() == 0 {
        None
    } else {
        match rs[0] {
            RecordV::A { ip, .. } => Some(ip),
            _ => spec_first_a(rs.drop_first()),
        }
    }
}

/// Whether the byte encoding of `suffix` ends the byte encoding of `s`.
fn str_ends_with(s: &str, suffix: &str) -> (r: bool)
    ensures
        r == is_suffix_of(encode_utf8(suffix@), encode_utf8(s@)),
{
    let sb = s.as_bytes();
    let fb = suffix.as_bytes();
    if fb.len() > sb.len() {
        return false;
    }
    let off = sb.len() - fb.len();
    let sn = sb.len();
    let mut i: usize = 0;
    while i < fb.len()
        invariant
            sn == sb@.len(),
            sb@ == encode_utf8(s@),
            fb@ == encode_utf8(suffix@),
            fb@.len() <= sb@.len(),
            off == sb@.len() - fb@.len(),
            i <= fb@.len(),
            forall|k: int| 0 <= k < i ==> sb@[off + k] == fb@[k],
        decreases fb@.len() - i,
    {
        if sb[off + i] != fb[i] {
            assert(sb@.subrange(off as int, sb@.len() as int)[i as int] == sb@[off + i]);
            return false;
        }
        i = i + 1;
    }
    assert(sb@.subrange(off as int, sb@.len() as int) =~= fb@);
    true
}

/// The address of the first A record in `adds` owned by `host`.
fn first_a_for_host(adds: &Vec<Record>, host: &String) -> (r: Option<Ipv4Addr>)
    ensures
        r == first_a_for(views_r(adds@), host@),
{
    proof {
        assert(views_r(adds@).skip(0) =~= views_r(adds@));
    }
    let mut i: usize = 0;
    while i < adds.len()
        invariant
            i <= adds@.len(),
            first_a_for(views_r(adds@), host@) == first_a_for(
                views_r(adds@).skip(i as int),
                host@,
            ),
        decreases adds@.len() - i,
    {
        match &adds[i] {
            Record::A { domain, ip, .. } => {
                if *domain == *host {
                    return Some(*ip);
                }
            },
            _ => {},
        }
        proof {
            assert(views_r(adds@).skip(i as int).drop_first() =~= views_r(adds@).skip(i + 1));
        }
        i = i + 1;
    }
    None
}

/// A whole message: header plus the four ordered record sections.
#[derive(Clone, Debug)]
pub struct Packet {
    pub header: Header,
    pub questions: Vec<Question>,
    pub answers: Vec<Record>,
    pub authorities: Vec<Record>,
    pub additionals: Vec<Record>,
}

impl View for Packet {
    type V = PacketV;

    open spec fn view(&self) -> PacketV {
        PacketV {
            header: self.header,
            questions: views_q(self.questions@),
            answers: views_r(self.answers@),
            authorities: views_r(self.authorities@),
            additionals: views_r(self.additionals@),
        }
    }
}

/// Decodes `n` records in a row at the buffer's current position.
fn read_records(buf: &mut BytePacketBuffer, n: u16) -> (r: Result<Vec<Record>, DnsError>)
    requires
        old(buf).wf(),
    ensures
        final(buf).wf(),
        final(buf).buf@ == old(buf).buf@,
        (match parse_records(old(buf).buf@, old(buf).spec_pos(), n as int) {
            Ok((rs, end)) => (r matches Ok(v) && views_r(v@) == rs)
                && final(buf).spec_pos() == end,
            Err(e) => r == Err::<Vec<Record>, DnsError>(e),
        }),
{
    let ghost b = old(buf).buf@;
    let ghost p0 = old(buf).spec_pos();
    let mut out: Vec<Record> = Vec::new();
    let mut i: u16 = 0;
    while i < n
        invariant
            buf.wf(),
            b == old(buf).buf@,
            p0 == old(buf).spec_pos(),
            buf.buf@ == b,
            i <= n,
            parse_records(b, p0, n as int) == (match parse_records(
                b,
                buf.spec_pos(),
                n as int - i,
            ) {
                Ok((rest, end)) => Ok::<_, DnsError>((views_r(out@) + rest, end)),
                Err(e) => Err(e),
            }),
        decreases n - i,
    {
        let ghost acc0 = views_r(out@);
        let rec = Record::read(buf)?;
        out.push(rec);
        proof {
            assert(views_r(out@) =~= acc0.push(rec@));
            match parse_records(b, buf.spec_pos(), n as int - i - 1) {
                Ok((rest, end)) => {
                    assert(acc0 + (seq![rec@] + rest) =~= views_r(out@) + rest);
                },
                Err(_) => {},
            }
        }
        i = i + 1;
    }
    proof {
        assert(views_r(out@) + Seq::<RecordV>::empty() =~= views_r(out@));
    }
    Ok(out)
}

impl Packet {
    /// An empty message with an all-zero header.
    pub fn new() -> (r: Packet)
        ensures
            r.header == empty_header(),
            r.questions@.len() == 0,
            r.answers@.len() == 0,
            r.authorities@.len() == 0,
            r.additionals@.len() == 0,
    {
        Packet {
            header: Header::new(),
            questions: Vec::new(),
            answers: Vec::new(),
            authorities: Vec::new(),
            additionals: Vec::new(),
        }
    }

    /// Decodes a whole message from the buffer.  Any failure of a
    /// sub-decode fails the whole message with `MalformedMessage` and no
    /// partial message is returned.  The buffer bytes are never changed.
    pub fn from_buf(buf: &mut BytePacketBuffer) -> (r: Result<Packet, DnsError>)
        requires
            old(buf).wf(),
        ensures
            final(buf).wf(),
            final(buf).buf@ == old(buf).buf@,
            (match parse_packet(old(buf).buf@) {
                Ok(pv) => r matches Ok(p) && p@ == pv,
                Err(e) => r == Err::<Packet, DnsError>(e),
            }),
    {
        let ghost b = old(buf).buf@;
        let mut header = Header::new();
        header.read(buf)?;

        let mut questions: Vec<Question> = Vec::new();
        let mut i: u16 = 0;
        while i < header.question_count
            invariant
                buf.wf(),
                b == old(buf).buf@,
                buf.buf@ == b,
                i <= header.question_count,
                header == parse_header(b),
                parse_questions(b, 12, header.question_count as int) == (match parse_questions(
                    b,
                    buf.spec_pos(),
                    header.question_count as int - i,
                ) {
                    Ok((rest, end)) => Ok::<_, DnsError>((views_q(questions@) + rest, end)),
                    Err(e) => Err(e),
                }),
            decreases header.question_count - i,
        {
            let ghost acc0 = views_q(questions@);
            let mut question = Question::new(String::new(), QueryType::UNKNOWN(0));
            match question.read(buf) {
                Ok(()) => {},
                Err(_) => {
                    return Err(DnsError::MalformedMessage);
                },
            }
            questions.push(question);
            proof {
                assert(views_q(questions@) =~= acc0.push(questions@.last()@));
                match parse_questions(b, buf.spec_pos(), header.question_count as int - i - 1) {
                    Ok((rest, end)) => {
                        assert(acc0 + (seq![questions@.last()@] + rest) =~= views_q(questions@)
                            + rest);
                    },
                    Err(_) => {},
                }
            }
            i = i + 1;
        }
        proof {
            assert(views_q(questions@) + Seq::<QuestionV>::empty() =~= views_q(questions@));
        }

        let answers = match read_records(buf, header.answer_count) {
            Ok(v) => v,
            Err(_) => {
                return Err(DnsError::MalformedMessage);
            },
        };
        let authorities = match read_records(buf, header.authority_count) {
            Ok(v) => v,
            Err(_) => {
                return Err(DnsError::MalformedMessage);
            },
        };
        let additionals = match read_records(buf, header.additional_count) {
            Ok(v) => v,
            Err(_) => {
                return Err(DnsError::MalformedMessage);
            },
        };
        Ok(Packet { header, questions, answers, authorities, additionals })
    }

    /// Builds the wire bytes of this message, with the header's section
    /// counts recomputed from the actual section lengths.
    fn encode(&self) -> (r: Vec<u8>)
        requires
            counts_fit(self@),
        ensures
            r@ == enc_packet(self@),
    {
        let mut h = self.header;
        h.question_count = self.questions.len() as u16;
        h.answer_count = self.answers.len() as u16;
        h.authority_count = self.authorities.len() as u16;
        h.additional_count = self.additionals.len() as u16;
        assert(h == header_with_counts(self@));
        let mut out = h.encode();
        let ghost pre = out@;
        let mut i: usize = 0;
        while i < self.questions.len()
            invariant
                i <= self.questions@.len(),
                pre == enc_header(header_with_counts(self@)),
                out@ =~= pre + enc_question_seq(views_q(self.questions@).take(i as int)),
            decreases self.questions@.len() - i,
        {
            let mut qb = self.questions[i].encode();
            out.append(&mut qb);
            proof {
                lemma_enc_question_seq_snoc(
                    views_q(self.questions@).take(i as int),
                    self.questions@[i as int]@,
                );
                assert(views_q(self.questions@).take(i + 1) =~= views_q(self.questions@).take(
                    i as int,
                ).push(self.questions@[i as int]@));
            }
            i = i + 1;
        }
        assert(views_q(self.questions@).take(self.questions@.len() as int) =~= views_q(
            self.questions@,
        ));
        append_records(&mut out, &self.answers);
        append_records(&mut out, &self.authorities);
        append_records(&mut out, &self.additionals);
        assert(out@ =~= enc_packet(self@));
        out
    }

    /// Encodes this message at the buffer's current position.  Fails with
    /// `MalformedMessage` when a section is too long for its 16-bit count
    /// field, and with `BufferOverrun` when the encoding does not fit; in
    /// both cases the buffer is unchanged.
    pub fn write(&self, buf: &mut BytePacketBuffer) -> (r: Result<(), DnsError>)
        requires
            old(buf).wf(),
        ensures
            final(buf).wf(),
            !counts_fit(self@) ==> r == Err::<(), DnsError>(DnsError::MalformedMessage)
                && *final(buf) == *old(buf),
            counts_fit(self@) && old(buf).spec_pos() + enc_packet(self@).len() <= 512 ==> r
                == Ok::<(), DnsError>(()) && final(buf).buf@ =~= splice(
                old(buf).buf@,
                old(buf).spec_pos(),
                enc_packet(self@),
            ) && final(buf).spec_pos() == old(buf).spec_pos() + enc_packet(self@).len(),
            counts_fit(self@) && old(buf).spec_pos() + enc_packet(self@).len() > 512 ==> r
                == Err::<(), DnsError>(DnsError::BufferOverrun) && *final(buf) == *old(buf),
    {
        if self.questions.len() > 0xffff || self.answers.len() > 0xffff || self.authorities.len()
            > 0xffff || self.additionals.len() > 0xffff {
            return Err(DnsError::MalformedMessage);
        }
        let data = self.encode();
        write_all(buf, &data)
    }

    /// Among authority-section NS records whose owner name is a suffix of
    /// (or equal to) the queried name, the glue address of the first one
    /// whose target host has an A record in the additional section.
    /// First match wins, in section order.
    pub fn resolved_ns(&self, qname: &str) -> (r: Option<Ipv4Addr>)
        ensures
            r == spec_resolved_ns(
                views_r(self.authorities@),
                views_r(self.additionals@),
                qname@,
            ),
    {
        let ghost auths = views_r(self.authorities@);
        proof {
            assert(auths.skip(0) =~= auths);
        }
        let mut i: usize = 0;
        while i < self.authorities.len()
            invariant
                auths == views_r(self.authorities@),
                i <= self.authorities@.len(),
                spec_resolved_ns(auths, views_r(self.additionals@), qname@) == spec_resolved_ns(
                    auths.skip(i as int),
                    views_r(self.additionals@),
                    qname@,
                ),
            decreases self.authorities@.len() - i,
        {
            match &self.authorities[i] {
                Record::NS { domain, host, .. } => {
                    if str_ends_with(qname, domain.as_str()) {
                        match first_a_for_host(&self.additionals, host) {
                            Some(ip) => {
                                return Some(ip);
                            },
                            None => {},
                        }
                    }
                },
                _ => {},
            }
            proof {
                assert(auths.skip(i as int).drop_first() =~= auths.skip(i + 1));
            }
            i = i + 1;
        }
        None
    }

    /// The target host of the first authority-section NS record whose
    /// owner name is a suffix of (or equal to) the queried name, whether
    /// or not it has a glue address.
    pub fn unresolved_ns(&self, qname: &str) -> (r: Option<String>)
        ensures
            (match spec_unresolved_ns(views_r(self.authorities@), qname@) {
                Some(h) => r matches Some(s) && s@ == h,
                None => r is None,
            }),
    {
        let ghost auths = views_r(self.authorities@);
        proof {
            assert(auths.skip(0) =~= auths);
        }
        let mut i: usize = 0;
        while i < self.authorities.len()
            invariant
                auths == views_r(self.authorities@),
                i <= self.authorities@.len(),
                spec_unresolved_ns(auths, qname@) == spec_unresolved_ns(
                    auths.skip(i as int),
                    qname@,
                ),
            decreases self.authorities@.len() - i,
        {
            match &self.authorities[i] {
                Record::NS { domain, host, .. } => {
                    if str_ends_with(qname, domain.as_str()) {
                        return Some(host.clone());
                    }
                },
                _ => {},
            }
            proof {
                assert(auths.skip(i as int).drop_first() =~= auths.skip(i + 1));
            }
            i = i + 1;
        }
        None
    }

    /// The address of the first A record in the answer section, in
    /// section order.
    pub fn random_answer(&self) -> (r: Option<Ipv4Addr>)
        ensures
            r == spec_first_a(views_r(self.answers@)),
    {
        let ghost ans = views_r(self.answers@);
        proof {
            assert(ans.skip(0) =~= ans);
        }
        let mut i: usize = 0;
        while i < self.answers.len()
            invariant
                ans == views_r(self.answers@),
                i <= self.answers@.len(),
                spec_first_a(ans) == spec_first_a(ans.skip(i as int)),
            decreases self.answers@.len() - i,
        {
            match &self.answers[i] {
                Record::A { ip, .. } => {
                    return Some(*ip);
                },
                _ => {},
            }
            proof {
                assert(ans.skip(i as int).drop_first() =~= ans.skip(i + 1));
            }
            i = i + 1;
        }
        None
    }
}

/// Appends the encodings of all records of a section.
fn append_records(out: &mut Vec<u8>, recs: &Vec<Record>)
    ensures
        final(out)@ == old(out)@ + enc_record_seq(views_r(recs@)),
{
    let ghost pre = old(out)@;
    let mut i: usize = 0;
    while i < recs.len()
        invariant
            i <= recs@.len(),
            out@ =~= pre + enc_record_seq(views_r(recs@).take(i as int)),
        decreases recs@.len() - i,
    {
        let mut rb = recs[i].encode();
        out.append(&mut rb);
        proof {
            lemma_enc_record_seq_snoc(views_r(recs@).take(i as int), recs@[i as int]@);
            assert(views_r(recs@).take(i + 1) =~= views_r(recs@).take(i as int).push(
                recs@[i as int]@,
            ));
        }
        i = i + 1;
    }
    assert(views_r(recs@).take(recs@.len() as int) =~= views_r(recs@));
}

/// A message whose encoding loses nothing: a single well-formed
/// question and a single well-formed A answer, a header whose fields fit
/// their wire slots, and section counts that match the section lengths.
pub open spec fn wf_single_a_message(p: PacketV) -> bool {
    wf_header(p.header) && p.header.question_count == 1 && p.header.answer_count == 1
        && p.header.authority_count == 0 && p.header.additional_count == 0 && p.questions.len()
        == 1 && p.answers.len() == 1 && p.authorities.len() == 0 && p.additionals.len() == 0
        && wf_question(p.questions[0]) && wf_a_record(p.answers[0])
}

/// For any well-formed single-question, single-A-answer message whose
/// encoding stands at the start of a buffer, decoding the buffer yields
/// exactly that message back; re-encoding the decoded message therefore
/// reproduces the original bytes exactly.
pub proof fn lemma_single_a_round_trip(p: PacketV, b: Seq<u8>)
    requires
        wf_single_a_message(p),
        b.len() == 512,
        enc_packet(p).len() <= 512,
        b.subrange(0, enc_packet(p).len() as int) == enc_packet(p),
    ensures
        parse_packet(b) == Ok::<PacketV, DnsError>(p),
        (parse_packet(b) matches Ok(q) && enc_packet(q) == enc_packet(p)),
{
    let w = enc_packet(p);
    let hc = header_with_counts(p);
    assert(hc == p.header);
    let wq = enc_question(p.questions[0]);
    let wa = enc_record(p.answers[0]);
    assert(p.questions.drop_first() =~= Seq::<QuestionV>::empty());
    assert(enc_question_seq(Seq::<QuestionV>::empty()) =~= Seq::<u8>::empty());
    assert(enc_question_seq(p.questions) =~= wq);
    assert(p.answers.drop_first() =~= Seq::<RecordV>::empty());
    assert(enc_record_seq(Seq::<RecordV>::empty()) =~= Seq::<u8>::empty());
    assert(enc_record_seq(p.answers) =~= wa);
    assert(enc_record_seq(p.authorities) =~= Seq::<u8>::empty());
    assert(enc_record_seq(p.additionals) =~= Seq::<u8>::empty());
    assert(w =~= enc_header(p.header) + wq + wa);
    assert(w.len() == 12 + wq.len() + wa.len());

    assert(b =~= enc_header(p.header) + b.skip(12)) by {
        assert forall|k: int| 0 <= k < 12 implies b[k] == #[trigger] enc_header(p.header)[k] by {
            assert(b[k] == b.subrange(0, w.len() as int)[k]);
            assert(w[k] == enc_header(p.header)[k]);
        }
    }
    lemma_header_round_trip(p.header, b.skip(12));
    assert(parse_header(b) == p.header);

    crate::buffer::lemma_slice_of_slice(b, 0, w, 12, wq.len() as int);
    assert(w.subrange(12, 12 + wq.len() as int) =~= wq);
    lemma_parse_enc_question(b, p.questions[0], 12);
    let p1 = 12 + wq.len() as int;
    assert(parse_questions(b, p1, 0) == Ok::<(Seq<QuestionV>, int), DnsError>(
        (Seq::empty(), p1),
    ));
    assert(parse_questions(b, 12, 1) == Ok::<(Seq<QuestionV>, int), DnsError>(
        (seq![p.questions[0]], p1),
    )) by {
        assert(seq![p.questions[0]] + Seq::<QuestionV>::empty() =~= seq![p.questions[0]]);
    }
    assert(seq![p.questions[0]] =~= p.questions);

    crate::buffer::lemma_slice_of_slice(b, 0, w, 12 + wq.len() as int, wa.len() as int);
    assert(w.subrange(p1, p1 + wa.len() as int) =~= wa);
    lemma_parse_enc_a_record(b, p.answers[0], p1);
    let p2 = p1 + wa.len() as int;
    assert(parse_records(b, p2, 0) == Ok::<(Seq<RecordV>, int), DnsError>((Seq::empty(), p2)));
    assert(parse_records(b, p1, 1) == Ok::<(Seq<RecordV>, int), DnsError>(
        (seq![p.answers[0]], p2),
    )) by {
        assert(seq![p.answers[0]] + Seq::<RecordV>::empty() =~= seq![p.answers[0]]);
    }
    assert(seq![p.answers[0]] =~= p.answers);

    assert(p.authorities =~= Seq::<RecordV>::empty());
    assert(p.additionals =~= Seq::<RecordV>::empty());
    match parse_packet(b) {
        Ok(q) => {
            assert(q =~= p);
        },
        Err(_) => {
            assert(false);
        },
    }
}

} // verus!
