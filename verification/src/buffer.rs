use vstd::prelude::*;

verus! {

use crate::error::DnsError;

/// Capacity of one packet buffer: the historical non-EDNS UDP datagram limit.
pub const PACKET_SIZE: usize = 512;

/// Big-endian 16-bit value formed from the two bytes of `b` at `i`.
pub open spec fn u16_at(b: Seq<u8>, i: int) -> u16 {
    ((b[i] as u16) << 8) | (b[i + 1] as u16)
}

/// The two big-endian bytes of `v`.
pub open spec fn enc_u16(v: u16) -> Seq<u8> {
    seq![(v >> 8) as u8, (v & 0xff) as u8]
}

/// `b` with `d` written over the bytes starting at `at`.
pub open spec fn splice(b: Seq<u8>, at: int, d: Seq<u8>) -> Seq<u8> {
    b.take(at) + d + b.skip(at + d.len())
}

/// A 16-bit value written as its two big-endian bytes reads back as
/// itself from anywhere in a buffer.
pub proof fn lemma_enc_u16_at(b: Seq<u8>, at: int, v: u16)
    requires
        0 <= at,
        at + 2 <= b.len(),
        b.subrange(at, at + 2) == enc_u16(v),
    ensures
        u16_at(b, at) == v,
{
    assert(b[at] == enc_u16(v)[0]);
    assert(b[at + 1] == enc_u16(v)[1]);
    assert(((((v >> 8) as u8) as u16) << 8) | (((v & 0xff) as u8) as u16) == v) by (bit_vector);
}

/// A slice of an embedded byte string equals the matching slice of the
/// original.
pub proof fn lemma_slice_of_slice(b: Seq<u8>, at: int, w: Seq<u8>, off: int, len: int)
    requires
        0 <= at,
        at + w.len() <= b.len(),
        b.subrange(at, at + w.len()) == w,
        0 <= off,
        0 <= len,
        off + len <= w.len(),
    ensures
        b.subrange(at + off, at + off + len) =~= w.subrange(off, off + len),
{
    assert forall|k: int| 0 <= k < len implies b[at + off + k] == #[trigger] w.subrange(
        off,
        off + len,
    )[k] by {
        assert(b[at + off + k] == b.subrange(at, at + w.len())[off + k]);
    }
}

/// Fixed-capacity byte buffer with a movable read/write position.
///
/// All codecs operate through it.  There is no growth: encoding a message
/// that would overflow the capacity is signalled as `BufferOverrun`.
pub struct BytePacketBuffer {
    pub buf: Vec<u8>,
    pub pos: usize,
}

impl BytePacketBuffer {
    /// The current position, for contracts.
    pub open spec fn spec_pos(&self) -> int {
        self.pos as int
    }

    /// Well-formed: full capacity allocated, position within it.
    pub open spec fn wf(&self) -> bool {
        self.buf@.len() == PACKET_SIZE && 0 <= self.spec_pos() <= PACKET_SIZE
    }

    /// A zeroed buffer with the position at the start.
    pub fn new() -> (r: Self)
        ensures
            r.wf(),
            r.spec_pos() == 0,
            r.buf@ =~= Seq::new(PACKET_SIZE as nat, |i: int| 0u8),
    {
        let mut buf: Vec<u8> = Vec::new();
        while buf.len() < PACKET_SIZE
            invariant
                buf@.len() <= PACKET_SIZE,
                forall|i: int| 0 <= i < buf@.len() ==> buf@[i] == 0u8,
            decreases PACKET_SIZE - buf@.len(),
        {
            buf.push(0u8);
        }
        BytePacketBuffer { buf, pos: 0 }
    }

    /// Reads the byte at the current position and advances past it.
    pub fn read(&mut self) -> (r: Result<u8, DnsError>)
        requires
            old(self).wf(),
        ensures
            final(self).wf(),
            final(self).buf@ == old(self).buf@,
            old(self).spec_pos() < 512 ==> r == Ok::<u8, DnsError>(
                old(self).buf@[old(self).spec_pos()],
            ) && final(self).spec_pos() == old(self).spec_pos() + 1,
            old(self).spec_pos() >= 512 ==> r == Err::<u8, DnsError>(DnsError::BufferOverrun)
                && final(self).spec_pos() == old(self).spec_pos(),
    {
        if self.pos >= PACKET_SIZE {
            return Err(DnsError::BufferOverrun);
        }
        let res = self.buf[self.pos];
        self.pos = self.pos + 1;
        Ok(res)
    }

    /// Reads two bytes as one big-endian 16-bit value.
    pub fn read_u16(&mut self) -> (r: Result<u16, DnsError>)
        requires
            old(self).wf(),
        ensures
            final(self).wf(),
            final(self).buf@ == old(self).buf@,
            old(self).spec_pos() + 2 <= 512 ==> r == Ok::<u16, DnsError>(
                u16_at(old(self).buf@, old(self).spec_pos()),
            ) && final(self).spec_pos() == old(self).spec_pos() + 2,
            old(self).spec_pos() + 2 > 512 ==> r == Err::<u16, DnsError>(DnsError::BufferOverrun)
                && final(self).spec_pos() == (if old(self).spec_pos() == 511 {
                512int
            } else {
                old(self).spec_pos()
            }),
    {
        let b1 = self.read()?;
        let b2 = self.read()?;
        Ok(((b1 as u16) << 8) | (b2 as u16))
    }

    /// Copies `len` bytes starting at the absolute offset `start`,
    /// without moving the position.
    pub fn read_range(&mut self, start: usize, len: usize) -> (r: Result<Vec<u8>, DnsError>)
        requires
            old(self).wf(),
        ensures
            *final(self) == *old(self),
            start + len <= 512 ==> (r matches Ok(v) && v@ == old(self).buf@.subrange(
                start as int,
                start + len,
            )),
            start + len > 512 ==> r == Err::<Vec<u8>, DnsError>(DnsError::BufferOverrun),
    {
        if start > PACKET_SIZE || len > PACKET_SIZE - start {
            return Err(DnsError::BufferOverrun);
        }
        let mut out: Vec<u8> = Vec::new();
        let mut i: usize = 0;
        while i < len
            invariant
                self.wf(),
                start + len <= 512,
                i <= len,
                out@ =~= self.buf@.subrange(start as int, start + i),
            decreases len - i,
        {
            out.push(self.buf[start + i]);
            i = i + 1;
        }
        Ok(out)
    }

    /// Moves the position to the absolute offset `pos`.
    pub fn seek(&mut self, pos: usize) -> (r: Result<(), DnsError>)
        requires
            old(self).wf(),
        ensures
            final(self).wf(),
            final(self).buf@ == old(self).buf@,
            pos < 512 ==> r == Ok::<(), DnsError>(()) && final(self).spec_pos() == pos,
            pos >= 512 ==> r == Err::<(), DnsError>(DnsError::BufferOverrun) && final(self).spec_pos() == old(self).spec_pos(),
    {
        if pos >= PACKET_SIZE {
            return Err(DnsError::BufferOverrun);
        }
        self.pos = pos;
        Ok(())
    }

    /// The current position.
    pub fn pos(&self) -> (r: usize)
        ensures
            r as int == self.spec_pos(),
    {
        self.pos
    }

    /// Reads the byte at the absolute offset `pos` without moving the position.
    pub fn get(&mut self, pos: usize) -> (r: Result<u8, DnsError>)
        requires
            old(self).wf(),
        ensures
            *final(self) == *old(self),
            pos < 512 ==> r == Ok::<u8, DnsError>(old(self).buf@[pos as int]),
            pos >= 512 ==> r == Err::<u8, DnsError>(DnsError::BufferOverrun),
    {
        if pos >= PACKET_SIZE {
            return Err(DnsError::BufferOverrun);
        }
        Ok(self.buf[pos])
    }

    /// Writes one byte at the current position and advances past it.
    pub fn write(&mut self, b: u8) -> (r: Result<(), DnsError>)
        requires
            old(self).wf(),
        ensures
            final(self).wf(),
            old(self).spec_pos() < 512 ==> r == Ok::<(), DnsError>(()) && final(self).buf@
                == old(self).buf@.update(old(self).spec_pos(), b) && final(self).spec_pos() == old(self).spec_pos() + 1,
            old(self).spec_pos() >= 512 ==> r == Err::<(), DnsError>(DnsError::BufferOverrun)
                && *final(self) == *old(self),
    {
        if self.pos >= PACKET_SIZE {
            return Err(DnsError::BufferOverrun);
        }
        self.buf[self.pos] = b;
        self.pos = self.pos + 1;
        Ok(())
    }

    /// Writes one byte at the current position and advances past it.
    pub fn write_u8(&mut self, b: u8) -> (r: Result<(), DnsError>)
        requires
            old(self).wf(),
        ensures
            final(self).wf(),
            old(self).spec_pos() < 512 ==> r == Ok::<(), DnsError>(()) && final(self).buf@
                == old(self).buf@.update(old(self).spec_pos(), b) && final(self).spec_pos() == old(self).spec_pos() + 1,
            old(self).spec_pos() >= 512 ==> r == Err::<(), DnsError>(DnsError::BufferOverrun)
                && *final(self) == *old(self),
    {
        self.write(b)
    }

    /// Writes one big-endian 16-bit value at the current position.
    pub fn write_u16(&mut self, b: u16) -> (r: Result<(), DnsError>)
        requires
            old(self).wf(),
        ensures
            final(self).wf(),
            old(self).spec_pos() + 2 <= 512 ==> r == Ok::<(), DnsError>(()) && final(self).buf@
                =~= splice(old(self).buf@, old(self).spec_pos(), enc_u16(b)) && final(self).spec_pos() == old(self).spec_pos() + 2,
            old(self).spec_pos() + 2 > 512 ==> r == Err::<(), DnsError>(DnsError::BufferOverrun)
                && *final(self) == *old(self),
    {
        if self.pos + 2 > PACKET_SIZE {
            return Err(DnsError::BufferOverrun);
        }
        self.write_u8((b >> 8) as u8)?;
        self.write_u8((b & 0xff) as u8)
    }
}

/// Appends the two big-endian bytes of `v` to a byte vector.
pub(crate) fn push_u16(out: &mut Vec<u8>, v: u16)
    ensures
        final(out)@ == old(out)@ + enc_u16(v),
{
    out.push((v >> 8) as u8);
    out.push((v & 0xff) as u8);
    assert(final(out)@ =~= old(out)@ + enc_u16(v));
}

/// Writes all of `data` at the buffer's current position, advancing past
/// it.  Fails with `BufferOverrun`, leaving the buffer unchanged, when the
/// bytes do not fit.
pub(crate) fn write_all(packet_buf: &mut BytePacketBuffer, data: &Vec<u8>) -> (r: Result<
    (),
    DnsError,
>)
    requires
        old(packet_buf).wf(),
    ensures
        final(packet_buf).wf(),
        old(packet_buf).spec_pos() + data@.len() <= 512 ==> r == Ok::<(), DnsError>(())
            && final(packet_buf).buf@ =~= splice(
            old(packet_buf).buf@,
            old(packet_buf).spec_pos(),
            data@,
        ) && final(packet_buf).spec_pos() == old(packet_buf).spec_pos() + data@.len(),
        old(packet_buf).spec_pos() + data@.len() > 512 ==> r == Err::<(), DnsError>(
            DnsError::BufferOverrun,
        ) && *final(packet_buf) == *old(packet_buf),
{
    if packet_buf.pos() > PACKET_SIZE || data.len() > PACKET_SIZE - packet_buf.pos() {
        return Err(DnsError::BufferOverrun);
    }
    let ghost b0 = packet_buf.buf@;
    let ghost p0 = packet_buf.spec_pos();
    let mut i: usize = 0;
    while i < data.len()
        invariant
            packet_buf.wf(),
            i <= data@.len(),
            b0 == old(packet_buf).buf@,
            p0 == old(packet_buf).spec_pos(),
            p0 + data@.len() <= 512,
            b0.len() == 512,
            packet_buf.spec_pos() == p0 + i,
            packet_buf.buf@ =~= splice(b0, p0, data@.take(i as int)),
        decreases data@.len() - i,
    {
        let ghost before = packet_buf.buf@;
        packet_buf.write_u8(data[i])?;
        i = i + 1;
        assert(packet_buf.buf@ =~= splice(b0, p0, data@.take(i as int))) by {
            assert(packet_buf.buf@ == before.update(p0 + i - 1, data@[i - 1]));
        };
    }
    assert(data@.take(data@.len() as int) =~= data@);
    Ok(())
}

} // verus!
