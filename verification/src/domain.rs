use vstd::prelude::*;

verus! {

use crate::buffer::{BytePacketBuffer, splice, write_all};
use crate::error::DnsError;
use vstd::string::StrSliceExecFns;
use vstd::utf8::{decode_utf8, encode_utf8, valid_utf8};

/// Bound on compression-pointer hops while decoding one name.  Any chain
/// longer than this is malformed: a legal chain shrinks the offset at
/// every hop, and offsets live in one 512-byte datagram.
pub const MAX_POINTER_HOPS: u32 = 32;

/// What lossy UTF-8 decoding yields on bytes that are not valid UTF-8:
/// the result of `String::from_utf8_lossy`, which depends on the bytes
/// alone (invalid sequences become replacement characters).
pub uninterp spec fn lossy_fallback(bs: Seq<u8>) -> Seq<char>;

/// The characters a sequence of raw name bytes decodes to: valid UTF-8
/// decodes to exactly its characters; invalid encodings are substituted
/// lossily rather than failing the decode.
pub open spec fn lossy_chars(bs: Seq<u8>) -> Seq<char> {
    if valid_utf8(bs) {
        decode_utf8(bs)
    } else {
        lossy_fallback(bs)
    }
}

/// Encoding characters to UTF-8 and decoding the bytes lossily gives
/// the characters back: nothing is lost on any name a string can hold.
pub proof fn lemma_lossy_chars_of_encoding(cs: Seq<char>)
    ensures
        lossy_chars(encode_utf8(cs)) == cs,
{
    vstd::utf8::encode_utf8_valid_utf8(cs);
    vstd::utf8::encode_utf8_decode_utf8(cs);
}

/// A decoded label joined onto the rest of a dotted name.
pub open spec fn join_label(lab: Seq<u8>, rest: Seq<u8>) -> Seq<u8> {
    if rest.len() == 0 {
        lab
    } else {
        lab + seq![46u8] + rest
    }
}

/// Dotted name bytes accumulated so far joined onto the rest of a name.
pub open spec fn join_acc(acc: Seq<u8>, rest: Seq<u8>) -> Seq<u8> {
    if acc.len() == 0 {
        rest
    } else if rest.len() == 0 {
        acc
    } else {
        acc + seq![46u8] + rest
    }
}

/// What decoding a name from buffer contents `b` at offset `pos` yields:
/// the dotted name bytes and the position the cursor is left at.
///
/// `hops` counts compression pointers already followed and `jumped` says
/// whether any was: the cursor resumes two bytes past the first pointer,
/// so once `jumped` is set the returned position is decided by the caller
/// and pointer offsets no longer move the cursor.  A pointer must target
/// a strictly smaller offset than its own position and the hop count may
/// not pass `MAX_POINTER_HOPS`; otherwise the name is malformed.  This
/// makes decoding terminate on every input.
pub open spec fn parse_name_from(b: Seq<u8>, pos: int, hops: int, jumped: bool) -> Result<
    (Seq<u8>, int),
    DnsError,
>
    decreases MAX_POINTER_HOPS - hops, 1000 - pos,
{
    if !(0 <= pos < 512) {
        Err(DnsError::BufferOverrun)
    } else {
        let len = b[pos];
        if len & 0xc0 == 0xc0 {
            if !jumped && pos + 2 >= 512 {
                Err(DnsError::BufferOverrun)
            } else if pos + 1 >= 512 {
                Err(DnsError::BufferOverrun)
            } else if hops < 0 || hops >= MAX_POINTER_HOPS {
                Err(DnsError::MalformedCompressionPointer)
            } else {
                let target = ((((len as u16) << 8) | (b[pos + 1] as u16)) ^ 0xc000) as int;
                if target >= pos {
                    Err(DnsError::MalformedCompressionPointer)
                } else {
                    match parse_name_from(b, target, hops + 1, true) {
                        Ok((nm, end)) => Ok(
                            (
                                nm,
                                if jumped {
                                    end
                                } else {
                                    pos + 2
                                },
                            ),
                        ),
                        Err(e) => Err(e),
                    }
                }
            }
        } else if len == 0 {
            if !jumped && pos + 1 >= 512 {
                Err(DnsError::BufferOverrun)
            } else {
                Ok((Seq::empty(), pos + 1))
            }
        } else {
            if pos + 1 + len > 512 {
                Err(DnsError::BufferOverrun)
            } else {
                match parse_name_from(b, pos + 1 + len, hops, jumped) {
                    Ok((rest, end)) => Ok((join_label(b.subrange(pos + 1, pos + 1 + len), rest), end)),
                    Err(e) => Err(e),
                }
            }
        }
    }
}

/// Name bytes accumulated so far, combined with what the rest of the
/// decode yields.  `resume` is the cursor position already fixed by the
/// first pointer, meaningful only when `jumped` is set.
pub open spec fn combine_parse(
    acc: Seq<u8>,
    inner: Result<(Seq<u8>, int), DnsError>,
    jumped: bool,
    resume: int,
) -> Result<(Seq<u8>, int), DnsError> {
    match inner {
        Ok((rest, end)) => Ok(
            (
                join_acc(acc, rest),
                if jumped {
                    resume
                } else {
                    end
                },
            ),
        ),
        Err(e) => Err(e),
    }
}

/// Index of the first dot byte at or after `i`, or the length if none.
pub open spec fn next_dot(s: Seq<u8>, i: int) -> int
    decreases s.len() - i,
{
    if i < 0 || i >= s.len() {
        s.len() as int
    } else if s[i] == 46 {
        i
    } else {
        next_dot(s, i + 1)
    }
}

/// The first dot comes no earlier than `i` and no later than the end.
pub proof fn lemma_next_dot_bounds(s: Seq<u8>, i: int)
    requires
        0 <= i <= s.len(),
    ensures
        i <= next_dot(s, i) <= s.len(),
        next_dot(s, i) < s.len() ==> s[next_dot(s, i)] == 46,
    decreases s.len() - i,
{
    if i < s.len() && s[i] != 46 {
        lemma_next_dot_bounds(s, i + 1);
    }
}

/// The wire encoding of the labels of the dotted name bytes `s` from the
/// label boundary `i` on: each label as a length octet and its raw bytes,
/// then a terminating zero octet.  No compression pointer is ever emitted.
pub open spec fn enc_from(s: Seq<u8>, i: int) -> Seq<u8>
    decreases s.len() - i + 1,
    via enc_from_decreases
{
    if !(0 <= i <= s.len()) {
        Seq::empty()
    } else {
        let j = next_dot(s, i);
        seq![(j - i) as u8] + s.subrange(i, j) + (if j == s.len() {
            seq![0u8]
        } else {
            enc_from(s, j + 1)
        })
    }
}

/// The wire encoding of the dotted name bytes `s`.
pub open spec fn enc_name(s: Seq<u8>) -> Seq<u8> {
    enc_from(s, 0)
}

#[via_fn]
proof fn enc_from_decreases(s: Seq<u8>, i: int) {
    if 0 <= i <= s.len() {
        lemma_next_dot_bounds(s, i);
    }
}

/// From the label boundary `i` on, every label of `s` is nonempty and at
/// most 63 bytes, so its length octet cannot collide with the terminator
/// or the pointer tag.
pub open spec fn wf_name_from(s: Seq<u8>, i: int) -> bool
    decreases s.len() - i + 1,
    via wf_name_from_decreases
{
    if !(0 <= i <= s.len()) {
        false
    } else {
        let j = next_dot(s, i);
        1 <= j - i <= 63 && (j == s.len() || wf_name_from(s, j + 1))
    }
}

#[via_fn]
proof fn wf_name_from_decreases(s: Seq<u8>, i: int) {
    if 0 <= i <= s.len() {
        lemma_next_dot_bounds(s, i);
    }
}

/// Every label of the dotted name bytes `s` is nonempty and at most 63 bytes.
pub open spec fn wf_name_bytes(s: Seq<u8>) -> bool {
    wf_name_from(s, 0)
}

/// Relies on String::from_utf8_lossy: bytes that are valid UTF-8 come
/// back as exactly their characters, and the result is a function of
/// the bytes alone.
#[verifier::external_body]
fn lossy_string(bytes: &Vec<u8>) -> (r: String)
    ensures
        r@ == lossy_chars(bytes@),
        !valid_utf8(bytes@) ==> r@ == lossy_fallback(bytes@),
{
    String::from_utf8_lossy(bytes).into_owned()
}

/// Encodes the dotted name bytes as wire label bytes.
pub(crate) fn encode_name_bytes(bytes: &Vec<u8>) -> (r: Vec<u8>)
    ensures
        r@ == enc_name(bytes@),
{
    let ghost s = bytes@;
    let n = bytes.len();
    let mut out: Vec<u8> = Vec::new();
    let mut i: usize = 0;
    loop
        invariant
            i <= n,
            n == s.len(),
            bytes@ == s,
            enc_name(s) =~= out@ + enc_from(s, i as int),
        decreases n - i + 1,
    {
        let ghost pre = out@;
        let ghost i0 = i as int;
        let mut j = i;
        while j < n && bytes[j] != 46
            invariant
                i <= j <= n,
                n == s.len(),
                bytes@ == s,
                next_dot(s, i as int) == next_dot(s, j as int),
            decreases n - j,
        {
            j = j + 1;
        }
        assert(next_dot(s, j as int) == j);
        out.push((j - i) as u8);
        let mut k = i;
        while k < j
            invariant
                i <= k <= j <= n,
                n == s.len(),
                bytes@ == s,
                out@ =~= pre + seq![((j - i) as u8)] + s.subrange(i as int, k as int),
            decreases j - k,
        {
            out.push(bytes[k]);
            k = k + 1;
        }
        proof {
            lemma_next_dot_bounds(s, i0);
            assert(out@ =~= pre + seq![((j - i0) as u8)] + s.subrange(i0, j as int));
        }
        if j == n {
            out.push(0);
            assert(enc_from(s, i0) =~= seq![((j - i0) as u8)] + s.subrange(i0, j as int)
                + seq![0u8]);
            assert(out@ =~= pre + enc_from(s, i0));
            assert(enc_name(s) =~= out@);
            return out;
        }
        i = j + 1;
        proof {
            assert(enc_from(s, i0) =~= seq![((j - i0) as u8)] + s.subrange(i0, j as int)
                + enc_from(s, j + 1));
            assert(enc_name(s) =~= out@ + enc_from(s, i as int));
        }
    }
}

/// A length octet of a well-formed label can be neither the terminator
/// nor a pointer tag.
proof fn lemma_label_octet(x: u8)
    requires
        1 <= x <= 63,
    ensures
        x & 0xc0 != 0xc0,
        x != 0,
{
    assert(x <= 63 ==> x & 0xc0 != 0xc0) by (bit_vector);
}

/// Decoding an encoded well-formed name gives the name back: from the
/// label boundary `i` on, if the wire encoding of `s[i..]` stands in the
/// buffer at `at` and ends before the buffer does, decoding at `at`
/// yields exactly `s[i..]` and stops right past the terminator, whatever
/// the hop count and jump state so far.
pub proof fn lemma_parse_enc_name(b: Seq<u8>, s: Seq<u8>, i: int, at: int, hops: int, jumped: bool)
    requires
        b.len() == 512,
        wf_name_from(s, i),
        0 <= at,
        at + enc_from(s, i).len() < 512,
        b.subrange(at, at + enc_from(s, i).len()) == enc_from(s, i),
    ensures
        parse_name_from(b, at, hops, jumped) == Ok::<(Seq<u8>, int), DnsError>(
            (s.subrange(i, s.len() as int), at + enc_from(s, i).len()),
        ),
    decreases s.len() - i,
{
    lemma_next_dot_bounds(s, i);
    let j = next_dot(s, i);
    let w = enc_from(s, i);
    let lab = s.subrange(i, j);
    let lab_len = j - i;
    let len_octet = lab_len as u8;
    let tail: Seq<u8> = if j == s.len() {
        seq![0u8]
    } else {
        enc_from(s, j + 1)
    };
    assert(w == seq![len_octet] + lab + tail);
    assert(w.len() == 1 + lab_len + tail.len());
    assert(1 <= lab_len <= 63);
    assert(len_octet == lab_len);
    assert(b[at] == b.subrange(at, at + w.len())[0]);
    assert(w[0] == len_octet);
    lemma_label_octet(len_octet);
    assert(b.subrange(at + 1, at + 1 + lab_len) =~= lab) by {
        assert forall|k: int| 0 <= k < lab_len implies b[at + 1 + k] == #[trigger] lab[k] by {
            assert(b[at + 1 + k] == b.subrange(at, at + w.len())[1 + k]);
            assert(w[1 + k] == lab[k]);
        }
    }
    let at2 = at + 1 + lab_len;
    if j == s.len() {
        assert(b[at2] == b.subrange(at, at + w.len())[1 + lab_len]);
        assert(w[1 + lab_len] == 0);
        assert(b[at2] == 0);
        assert(0u8 & 0xc0 != 0xc0) by (bit_vector);
        assert(0 <= at2 < 512);
        assert(at2 + 1 < 512);
        assert(parse_name_from(b, at2, hops, jumped) == Ok::<(Seq<u8>, int), DnsError>(
            (Seq::empty(), at2 + 1),
        ));
        assert(join_label(lab, Seq::empty()) == s.subrange(i, s.len() as int));
    } else {
        assert(s[j] == 46);
        let w2 = enc_from(s, j + 1);
        assert(w2 == tail);
        assert(b.subrange(at2, at2 + w2.len()) =~= w2) by {
            assert forall|k: int| 0 <= k < w2.len() implies b[at2 + k] == #[trigger] w2[k] by {
                assert(b[at2 + k] == b.subrange(at, at + w.len())[1 + lab_len + k]);
                assert(w[1 + lab_len + k] == w2[k]);
            }
        }
        lemma_parse_enc_name(b, s, j + 1, at2, hops, jumped);
        lemma_next_dot_bounds(s, j + 1);
        assert(wf_name_from(s, j + 1));
        assert(1 <= next_dot(s, j + 1) - (j + 1) <= 63);
        assert(s.subrange(j + 1, s.len() as int).len() >= 1);
        assert(join_label(lab, s.subrange(j + 1, s.len() as int)) =~= s.subrange(
            i,
            s.len() as int,
        ));
    }
}

/// A compression pointer that does not target a strictly smaller offset
/// than its own position is rejected as malformed, before anything is
/// followed: there is no way to make name decoding revisit an offset.
pub proof fn lemma_forward_pointer_rejected(b: Seq<u8>, pos: int, hops: int, jumped: bool)
    requires
        0 <= pos < 512,
        b[pos] & 0xc0 == 0xc0,
        jumped || pos + 2 < 512,
        pos + 1 < 512,
        0 <= hops < MAX_POINTER_HOPS,
        ((((b[pos] as u16) << 8) | (b[pos + 1] as u16)) ^ 0xc000) as int >= pos,
    ensures
        parse_name_from(b, pos, hops, jumped) == Err::<(Seq<u8>, int), DnsError>(
            DnsError::MalformedCompressionPointer,
        ),
{
}

/// A domain name as a dotted label string, e.g. "google.com".
pub struct Domain {
    name: String,
}

impl View for Domain {
    type V = Seq<char>;

    closed spec fn view(&self) -> Seq<char> {
        self.name@
    }
}

impl Domain {
    /// A domain holding the given dotted name.
    pub fn new(name: String) -> (r: Domain)
        ensures
            r@ == name@,
    {
        Domain { name }
    }

    /// Decodes a name starting at the buffer's current position,
    /// following compression pointers, and returns the dotted string.
    ///
    /// The buffer bytes are never changed.  On success the position is
    /// left past the terminating zero, or two bytes past the first
    /// compression pointer if one was followed.  A pointer that does not
    /// target a strictly smaller offset, or a chain of more than
    /// `MAX_POINTER_HOPS` pointers, fails with
    /// `MalformedCompressionPointer`; running off the buffer fails with
    /// `BufferOverrun`.
    pub fn read(&self, packet_buf: &mut BytePacketBuffer) -> (r: Result<String, DnsError>)
        requires
            old(packet_buf).wf(),
        ensures
            final(packet_buf).wf(),
            final(packet_buf).buf@ == old(packet_buf).buf@,
            (match parse_name_from(old(packet_buf).buf@, old(packet_buf).spec_pos(), 0, false) {
                Ok((nm, end)) => (r matches Ok(s) && s@ == lossy_chars(nm))
                    && final(packet_buf).spec_pos() == end,
                Err(e) => r == Err::<String, DnsError>(e),
            }),
    {
        let ghost b = packet_buf.buf@;
        let ghost p0 = packet_buf.spec_pos();
        let mut result: Vec<u8> = Vec::new();
        let mut jumped = false;
        let mut pos = packet_buf.pos();
        let mut hops: u32 = 0;
        loop
            invariant
                packet_buf.wf(),
                b == old(packet_buf).buf@,
                p0 == old(packet_buf).spec_pos(),
                packet_buf.buf@ == b,
                hops <= MAX_POINTER_HOPS,
                pos <= 767,
                !jumped ==> packet_buf.spec_pos() == p0,
                parse_name_from(b, p0, 0, false) == combine_parse(
                    result@,
                    parse_name_from(b, pos as int, hops as int, jumped),
                    jumped,
                    packet_buf.spec_pos(),
                ),
            decreases MAX_POINTER_HOPS - hops, 1000 - pos,
        {
            let len = packet_buf.get(pos)?;
            if len & 0xc0 == 0xc0 {
                if !jumped {
                    packet_buf.seek(pos + 2)?;
                    jumped = true;
                }
                let b2 = packet_buf.get(pos + 1)?;
                if hops >= MAX_POINTER_HOPS {
                    return Err(DnsError::MalformedCompressionPointer);
                }
                let target = ((((len as u16) << 8) | (b2 as u16)) ^ 0xc000) as usize;
                if target >= pos {
                    return Err(DnsError::MalformedCompressionPointer);
                }
                hops = hops + 1;
                pos = target;
            } else {
                pos = pos + 1;
                if len == 0 {
                    if !jumped {
                        packet_buf.seek(pos)?;
                    }
                    return Ok(lossy_string(&result));
                }
                let ghost acc_old = result@;
                if result.len() > 0 {
                    result.push(46);
                }
                let mut lab = packet_buf.read_range(pos, len as usize)?;
                result.append(&mut lab);
                proof {
                    let labseq = b.subrange(pos as int, pos + len as int);
                    match parse_name_from(b, pos + len as int, hops as int, jumped) {
                        Ok((rest, end)) => {
                            assert(join_acc(acc_old, join_label(labseq, rest)) =~= join_acc(
                                result@,
                                rest,
                            ));
                        },
                        Err(_) => {},
                    }
                }
                pos = pos + len as usize;
            }
        }
    }

    /// Encodes the name at the buffer's current position: each dot-separated
    /// label as a length octet and its raw bytes, then a terminating zero.
    /// Fails with `BufferOverrun`, leaving the buffer unchanged, when the
    /// encoding does not fit.
    pub fn write(&self, packet_buf: &mut BytePacketBuffer) -> (r: Result<(), DnsError>)
        requires
            old(packet_buf).wf(),
        ensures
            final(packet_buf).wf(),
            ({
                let w = enc_name(encode_utf8(self@));
                &&& (old(packet_buf).spec_pos() + w.len() <= 512 ==> r == Ok::<(), DnsError>(())
                    && final(packet_buf).buf@ =~= splice(
                    old(packet_buf).buf@,
                    old(packet_buf).spec_pos(),
                    w,
                ) && final(packet_buf).spec_pos() == old(packet_buf).spec_pos() + w.len())
                &&& (old(packet_buf).spec_pos() + w.len() > 512 ==> r == Err::<(), DnsError>(
                    DnsError::BufferOverrun,
                ) && *final(packet_buf) == *old(packet_buf))
            }),
    {
        let bytes = self.name.as_str().as_bytes_vec();
        let enc = encode_name_bytes(&bytes);
        write_all(packet_buf, &enc)
    }
}

} // verus!
