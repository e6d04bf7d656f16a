use vstd::prelude::*;
use vstd::slice::slice_subrange;
use crate::error::DnsError;

verus! {

/// The size of a DNS message over UDP, and of a packet buffer.
pub const BUFFER_SIZE: usize = 512;

/// The 16-bit number that two bytes spell in network order.
pub open spec fn u16_of(hi: u8, lo: u8) -> u16 {
    (hi as int * 256 + lo as int) as u16
}

/// The 32-bit number that four bytes spell in network order.
pub open spec fn u32_of(b0: u8, b1: u8, b2: u8, b3: u8) -> u32 {
    (b0 as int * 16777216 + b1 as int * 65536 + b2 as int * 256 + b3 as int) as u32
}

/// The 16-bit number at offset `at` of `bytes`, in network order.
pub open spec fn u16_at(bytes: Seq<u8>, at: int) -> u16 {
    u16_of(bytes[at], bytes[at + 1])
}

/// The 32-bit number at offset `at` of `bytes`, in network order.
pub open spec fn u32_at(bytes: Seq<u8>, at: int) -> u32 {
    u32_of(bytes[at], bytes[at + 1], bytes[at + 2], bytes[at + 3])
}

/// The two bytes that spell `v` in network order.
pub open spec fn u16_bytes(v: u16) -> Seq<u8> {
    seq![(v / 256) as u8, (v % 256) as u8]
}

/// The four bytes that spell `v` in network order.
pub open spec fn u32_bytes(v: u32) -> Seq<u8> {
    seq![
        (v / 16777216) as u8,
        ((v / 65536) % 256) as u8,
        ((v / 256) % 256) as u8,
        (v % 256) as u8,
    ]
}

/// `bytes` with `part` written over it from offset `at` on.
pub open spec fn splice(bytes: Seq<u8>, at: int, part: Seq<u8>) -> Seq<u8> {
    Seq::new(
        bytes.len(),
        |i: int| if at <= i < at + part.len() { part[i - at] } else { bytes[i] },
    )
}

/// 512 zero bytes: what a fresh buffer holds.
pub open spec fn zeros() -> Seq<u8> {
    Seq::new(512, |i: int| 0u8)
}

/// The bytes of a buffer into which a datagram was loaded: the first 512
/// bytes of the datagram, then zeros.
pub open spec fn loaded(data: Seq<u8>) -> Seq<u8> {
    splice(
        zeros(),
        0,
        if data.len() <= 512 {
            data
        } else {
            data.take(512)
        },
    )
}

/// Appends the two bytes of `val`, in network order, to `out`.
pub fn push_u16(out: &mut Vec<u8>, val: u16)
    ensures
        final(out)@ == old(out)@ + u16_bytes(val),
{
    out.push((val / 256) as u8);
    out.push((val % 256) as u8);
    assert(out@ =~= old(out)@ + u16_bytes(val));
}

/// Appends the four bytes of `val`, in network order, to `out`.
pub fn push_u32(out: &mut Vec<u8>, val: u32)
    ensures
        final(out)@ == old(out)@ + u32_bytes(val),
{
    out.push((val / 16777216) as u8);
    out.push(((val / 65536) % 256) as u8);
    out.push(((val / 256) % 256) as u8);
    out.push((val % 256) as u8);
    assert(out@ =~= old(out)@ + u32_bytes(val));
}

/// A fixed buffer of 512 bytes with a cursor, over which a DNS message is
/// read or written. The cursor never leaves `0 ..= 512`.
#[derive(Clone, Copy, Debug)]
pub struct PacketBuffer {
    pub(crate) buf: [u8; 512],
    pub(crate) pos: usize,
}

impl PacketBuffer {
    #[verifier::type_invariant]
    pub open spec fn inv(self) -> bool {
        0 <= self.cursor() <= 512
    }

    /// The 512 bytes of the buffer.
    pub closed spec fn bytes(self) -> Seq<u8> {
        self.buf@
    }

    /// The position of the cursor.
    pub closed spec fn cursor(self) -> int {
        self.pos as int
    }

    /// What the bytes and the cursor are made of, for the other modules of
    /// this crate that work on the fields.
    pub(crate) proof fn lemma_repr(self)
        ensures
            self.bytes() == self.buf@,
            self.cursor() == self.pos,
    {
    }

    /// Every buffer has 512 bytes.
    pub proof fn lemma_len(self)
        ensures
            self.bytes().len() == 512,
    {
    }

    /// A buffer of zeros with the cursor at the start.
    pub fn new() -> (buffer: PacketBuffer)
        ensures
            buffer.cursor() == 0,
            buffer.bytes() == zeros(),
    {
        let buffer = PacketBuffer { buf: [0u8; 512], pos: 0 };
        assert(buffer.buf@ =~= zeros());
        buffer
    }

    /// A buffer that holds the first 512 bytes of `data`, padded with zeros,
    /// with the cursor at the start.
    pub fn load(data: &[u8]) -> (buffer: PacketBuffer)
        ensures
            buffer.cursor() == 0,
            buffer.bytes() == loaded(data@),
    {
        let mut buffer = PacketBuffer { buf: [0u8; 512], pos: 0 };
        let n: usize = if data.len() <= BUFFER_SIZE {
            data.len()
        } else {
            BUFFER_SIZE
        };
        let mut i: usize = 0;
        while i < n
            invariant
                i <= n <= 512,
                n <= data@.len(),
                buffer.pos == 0,
                forall|k: int| 0 <= k < i ==> buffer.buf@[k] == data@[k],
                forall|k: int| i <= k < 512 ==> buffer.buf@[k] == 0u8,
            decreases n - i,
        {
            buffer.buf[i] = data[i];
            i = i + 1;
        }
        assert(buffer.buf@ =~= loaded(data@));
        buffer
    }

    /// The position of the cursor.
    pub fn pos(&self) -> (pos: usize)
        ensures
            pos == self.cursor(),
            pos <= 512,
    {
        proof {
            use_type_invariant(self);
        }
        self.pos
    }

    /// Moves the cursor forward by `steps` bytes.
    pub fn step(&mut self, steps: usize) -> (res: Result<(), DnsError>)
        ensures
            final(self).bytes() == old(self).bytes(),
            match res {
                Ok(()) => old(self).cursor() + steps <= 512
                    && final(self).cursor() == old(self).cursor() + steps,
                Err(e) => e == DnsError::BufferOverflow && old(self).cursor() + steps > 512
                    && final(self).cursor() == old(self).cursor(),
            },
    {
        proof {
            use_type_invariant(&*self);
        }
        if steps > 512 - self.pos {
            return Err(DnsError::BufferOverflow);
        }
        self.pos = self.pos + steps;
        Ok(())
    }

    /// Moves the cursor to `pos`.
    pub fn seek(&mut self, pos: usize) -> (res: Result<(), DnsError>)
        ensures
            final(self).bytes() == old(self).bytes(),
            match res {
                Ok(()) => pos <= 512 && final(self).cursor() == pos,
                Err(e) => e == DnsError::BufferOverflow && pos > 512 && final(self).cursor()
                    == old(self).cursor(),
            },
    {
        if pos > 512 {
            return Err(DnsError::BufferOverflow);
        }
        self.pos = pos;
        Ok(())
    }

    /// Reads the byte at the cursor and moves the cursor past it.
    pub fn read_u8(&mut self) -> (res: Result<u8, DnsError>)
        ensures
            final(self).bytes() == old(self).bytes(),
            match res {
                Ok(v) => old(self).cursor() < 512 && v == old(self).bytes()[old(self).cursor()]
                    && final(self).cursor() == old(self).cursor() + 1,
                Err(e) => e == DnsError::BufferOverflow && old(self).cursor() >= 512
                    && final(self).cursor() == old(self).cursor(),
            },
    {
        if self.pos >= 512 {
            return Err(DnsError::BufferOverflow);
        }
        let v = self.buf[self.pos];
        self.pos = self.pos + 1;
        Ok(v)
    }

    /// Reads two bytes at the cursor as a number in network order and moves
    /// the cursor past them.
    pub fn read_u16(&mut self) -> (res: Result<u16, DnsError>)
        ensures
            final(self).bytes() == old(self).bytes(),
            match res {
                Ok(v) => old(self).cursor() + 2 <= 512 && v == u16_at(
                    old(self).bytes(),
                    old(self).cursor(),
                ) && final(self).cursor() == old(self).cursor() + 2,
                Err(e) => e == DnsError::BufferOverflow && old(self).cursor() + 2 > 512
                    && final(self).cursor() == old(self).cursor(),
            },
    {
        proof {
            use_type_invariant(&*self);
        }
        if self.pos > 510 {
            return Err(DnsError::BufferOverflow);
        }
        let hi: u16 = self.buf[self.pos] as u16;
        let lo: u16 = self.buf[self.pos + 1] as u16;
        self.pos = self.pos + 2;
        Ok(hi * 256 + lo)
    }

    /// Reads four bytes at the cursor as a number in network order and moves
    /// the cursor past them.
    pub fn read_u32(&mut self) -> (res: Result<u32, DnsError>)
        ensures
            final(self).bytes() == old(self).bytes(),
            match res {
                Ok(v) => old(self).cursor() + 4 <= 512 && v == u32_at(
                    old(self).bytes(),
                    old(self).cursor(),
                ) && final(self).cursor() == old(self).cursor() + 4,
                Err(e) => e == DnsError::BufferOverflow && old(self).cursor() + 4 > 512
                    && final(self).cursor() == old(self).cursor(),
            },
    {
        proof {
            use_type_invariant(&*self);
        }
        if self.pos > 508 {
            return Err(DnsError::BufferOverflow);
        }
        let b0: u32 = self.buf[self.pos] as u32;
        let b1: u32 = self.buf[self.pos + 1] as u32;
        let b2: u32 = self.buf[self.pos + 2] as u32;
        let b3: u32 = self.buf[self.pos + 3] as u32;
        self.pos = self.pos + 4;
        Ok(b0 * 16777216 + b1 * 65536 + b2 * 256 + b3)
    }

    /// The byte at offset `at`; the cursor stays.
    pub fn peek_u8(&self, at: usize) -> (res: Result<u8, DnsError>)
        ensures
            match res {
                Ok(v) => at < 512 && v == self.bytes()[at as int],
                Err(e) => e == DnsError::BufferOverflow && at >= 512,
            },
    {
        if at >= 512 {
            return Err(DnsError::BufferOverflow);
        }
        Ok(self.buf[at])
    }

    /// The `len` bytes from offset `start` on; the cursor stays.
    pub fn read_range(&self, start: usize, len: usize) -> (res: Result<&[u8], DnsError>)
        ensures
            match res {
                Ok(range) => start + len <= 512 && range@ == self.bytes().subrange(
                    start as int,
                    start + len,
                ),
                Err(e) => e == DnsError::BufferOverflow && start + len > 512,
            },
    {
        if start > 512 || len > 512 - start {
            return Err(DnsError::BufferOverflow);
        }
        Ok(slice_subrange(self.buf.as_slice(), start, start + len))
    }

    /// Writes one byte at the cursor and moves the cursor past it.
    pub fn write_u8(&mut self, val: u8) -> (res: Result<(), DnsError>)
        ensures
            match res {
                Ok(()) => old(self).cursor() < 512 && final(self).cursor() == old(self).cursor()
                    + 1 && final(self).bytes() == splice(
                    old(self).bytes(),
                    old(self).cursor(),
                    seq![val],
                ),
                Err(e) => e == DnsError::BufferOverflow && old(self).cursor() >= 512
                    && *final(self) == *old(self),
            },
    {
        if self.pos >= 512 {
            return Err(DnsError::BufferOverflow);
        }
        self.buf[self.pos] = val;
        self.pos = self.pos + 1;
        assert(self.buf@ =~= splice(old(self).buf@, old(self).pos as int, seq![val]));
        Ok(())
    }

    /// Writes a number as two bytes in network order at the cursor and moves
    /// the cursor past them.
    pub fn write_u16(&mut self, val: u16) -> (res: Result<(), DnsError>)
        ensures
            match res {
                Ok(()) => old(self).cursor() + 2 <= 512
                    && final(self).cursor() == old(self).cursor() + 2
                    && final(self).bytes() == splice(
                    old(self).bytes(),
                    old(self).cursor(),
                    u16_bytes(val),
                ),
                Err(e) => e == DnsError::BufferOverflow && old(self).cursor() + 2 > 512
                    && *final(self) == *old(self),
            },
    {
        proof {
            use_type_invariant(&*self);
        }
        if self.pos > 510 {
            return Err(DnsError::BufferOverflow);
        }
        self.buf[self.pos] = (val / 256) as u8;
        self.buf[self.pos + 1] = (val % 256) as u8;
        self.pos = self.pos + 2;
        assert(self.buf@ =~= splice(old(self).buf@, old(self).pos as int, u16_bytes(val)));
        Ok(())
    }

    /// Writes a number as four bytes in network order at the cursor and moves
    /// the cursor past them.
    pub fn write_u32(&mut self, val: u32) -> (res: Result<(), DnsError>)
        ensures
            match res {
                Ok(()) => old(self).cursor() + 4 <= 512
                    && final(self).cursor() == old(self).cursor() + 4
                    && final(self).bytes() == splice(
                    old(self).bytes(),
                    old(self).cursor(),
                    u32_bytes(val),
                ),
                Err(e) => e == DnsError::BufferOverflow && old(self).cursor() + 4 > 512
                    && *final(self) == *old(self),
            },
    {
        proof {
            use_type_invariant(&*self);
        }
        if self.pos > 508 {
            return Err(DnsError::BufferOverflow);
        }
        self.buf[self.pos] = (val / 16777216) as u8;
        self.buf[self.pos + 1] = ((val / 65536) % 256) as u8;
        self.buf[self.pos + 2] = ((val / 256) % 256) as u8;
        self.buf[self.pos + 3] = (val % 256) as u8;
        self.pos = self.pos + 4;
        assert(self.buf@ =~= splice(old(self).buf@, old(self).pos as int, u32_bytes(val)));
        Ok(())
    }

    /// Writes `data` at the cursor and moves the cursor past it, or writes
    /// nothing where `data` does not fit.
    pub fn write_bytes(&mut self, data: &[u8]) -> (res: Result<(), DnsError>)
        ensures
            match res {
                Ok(()) => old(self).cursor() + data@.len() <= 512
                    && final(self).cursor() == old(self).cursor() + data@.len()
                    && final(self).bytes() == splice(
                    old(self).bytes(),
                    old(self).cursor(),
                    data@,
                ),
                Err(e) => e == DnsError::BufferOverflow && old(self).cursor() + data@.len() > 512
                    && *final(self) == *old(self),
            },
    {
        proof {
            use_type_invariant(&*self);
        }
        let n: usize = data.len();
        if n > 512 - self.pos {
            return Err(DnsError::BufferOverflow);
        }
        let start: usize = self.pos;
        let mut i: usize = 0;
        while i < n
            invariant
                i <= n,
                n == data@.len(),
                start + n <= 512,
                self.pos == start,
                start == old(self).pos,
                forall|k: int| 0 <= k < i ==> self.buf@[start + k] == data@[k],
                forall|k: int|
                    0 <= k < 512 && !(start <= k < start + i) ==> self.buf@[k] == old(self).buf@[k],
            decreases n - i,
        {
            self.buf[start + i] = data[i];
            i = i + 1;
        }
        self.pos = start + n;
        assert(self.buf@ =~= splice(old(self).buf@, start as int, data@));
        Ok(())
    }

    /// Overwrites the byte at offset `at`; the cursor stays.
    pub fn set_u8(&mut self, at: usize, val: u8) -> (res: Result<(), DnsError>)
        ensures
            final(self).cursor() == old(self).cursor(),
            match res {
                Ok(()) => at < 512 && final(self).bytes() == splice(
                    old(self).bytes(),
                    at as int,
                    seq![val],
                ),
                Err(e) => e == DnsError::BufferOverflow && at >= 512 && *final(self) == *old(self),
            },
    {
        proof {
            use_type_invariant(&*self);
        }
        if at >= 512 {
            return Err(DnsError::BufferOverflow);
        }
        self.buf[at] = val;
        assert(self.buf@ =~= splice(old(self).buf@, at as int, seq![val]));
        Ok(())
    }

    /// Overwrites the two bytes at offset `at` with a number in network
    /// order; the cursor stays.
    pub fn set_u16(&mut self, at: usize, val: u16) -> (res: Result<(), DnsError>)
        ensures
            final(self).cursor() == old(self).cursor(),
            match res {
                Ok(()) => at + 2 <= 512 && final(self).bytes() == splice(
                    old(self).bytes(),
                    at as int,
                    u16_bytes(val),
                ),
                Err(e) => e == DnsError::BufferOverflow && at + 2 > 512
                    && *final(self) == *old(self),
            },
    {
        proof {
            use_type_invariant(&*self);
        }
        if at > 510 {
            return Err(DnsError::BufferOverflow);
        }
        self.buf[at] = (val / 256) as u8;
        self.buf[at + 1] = (val % 256) as u8;
        assert(self.buf@ =~= splice(old(self).buf@, at as int, u16_bytes(val)));
        Ok(())
    }
}

} // verus!
