use vstd::prelude::*;
use crate::buffer::{splice, u16_at, u16_bytes, PacketBuffer};
use crate::error::DnsError;
use crate::result_code::ResultCode;

verus! {

/// The twelve bytes at the start of a DNS message.
///
/// `opcode` holds four bits and `z`, the reserved field, three: its lowest
/// bit is the "checking disabled" bit, the next the "authentic data" bit, the
/// highest the bit that is still reserved. A header made by `new` has a `z`
/// of zero, and so has every message that this library builds.
#[derive(Clone, Copy, Debug, PartialEq, Eq, Structural)]
pub struct DnsHeader {
    pub id: u16,
    pub response: bool,
    pub opcode: u8,
    pub authoritative: bool,
    pub truncated: bool,
    pub recursion_desired: bool,
    pub recursion_available: bool,
    pub z: u8,
    pub rescode: ResultCode,
    pub questions: u16,
    pub answers: u16,
    pub authorities: u16,
    pub resources: u16,
}

/// One for a flag that is set, zero for one that is not.
pub open spec fn bit(flag: bool) -> int {
    if flag {
        1
    } else {
        0
    }
}

/// The first byte of the flags: RD, TC shifted by one, AA by two, the opcode
/// by three and QR by seven.
pub open spec fn flags_high(h: DnsHeader) -> u8 {
    (bit(h.recursion_desired) + 2 * bit(h.truncated) + 4 * bit(h.authoritative) + 8 * (h.opcode
        % 16) + 128 * bit(h.response)) as u8
}

/// The second byte of the flags: the response code, the three bits of `z`
/// shifted by four, and RA shifted by seven.
pub open spec fn flags_low(h: DnsHeader) -> u8 {
    (h.rescode.code() + 16 * (h.z % 8) + 128 * bit(h.recursion_available)) as u8
}

/// The twelve bytes of a header on the wire.
pub open spec fn header_wire(h: DnsHeader) -> Seq<u8> {
    u16_bytes(h.id) + seq![flags_high(h), flags_low(h)] + u16_bytes(h.questions) + u16_bytes(
        h.answers,
    ) + u16_bytes(h.authorities) + u16_bytes(h.resources)
}

/// The header that the twelve bytes from offset `at` on spell.
pub open spec fn parse_header(bytes: Seq<u8>, at: int) -> DnsHeader {
    let high = bytes[at + 2];
    let low = bytes[at + 3];
    DnsHeader {
        id: u16_at(bytes, at),
        response: high / 128 == 1,
        opcode: ((high / 8) % 16) as u8,
        authoritative: (high / 4) % 2 == 1,
        truncated: (high / 2) % 2 == 1,
        recursion_desired: high % 2 == 1,
        recursion_available: low / 128 == 1,
        z: ((low / 16) % 8) as u8,
        rescode: ResultCode::of_code((low % 16) as u8),
        questions: u16_at(bytes, at + 4),
        answers: u16_at(bytes, at + 6),
        authorities: u16_at(bytes, at + 8),
        resources: u16_at(bytes, at + 10),
    }
}

impl DnsHeader {
    /// Whether the opcode and the reserved field are within their bits.
    pub open spec fn in_range(self) -> bool {
        self.opcode < 16 && self.z < 8
    }

    /// The header of an empty query: everything zero or off.
    pub open spec fn empty() -> DnsHeader {
        DnsHeader {
            id: 0,
            response: false,
            opcode: 0,
            authoritative: false,
            truncated: false,
            recursion_desired: false,
            recursion_available: false,
            z: 0,
            rescode: ResultCode::NOERROR,
            questions: 0,
            answers: 0,
            authorities: 0,
            resources: 0,
        }
    }

    pub fn new() -> (header: DnsHeader)
        ensures
            header == DnsHeader::empty(),
    {
        DnsHeader {
            id: 0,
            response: false,
            opcode: 0,
            authoritative: false,
            truncated: false,
            recursion_desired: false,
            recursion_available: false,
            z: 0,
            rescode: ResultCode::NOERROR,
            questions: 0,
            answers: 0,
            authorities: 0,
            resources: 0,
        }
    }

    /// The twelve bytes of the header.
    pub fn to_wire(&self) -> (wire: Vec<u8>)
        ensures
            wire@ == header_wire(*self),
            wire@.len() == 12,
    {
        let high: u8 = (if self.recursion_desired {
            1u8
        } else {
            0u8
        }) + (if self.truncated {
            2u8
        } else {
            0u8
        }) + (if self.authoritative {
            4u8
        } else {
            0u8
        }) + 8 * (self.opcode % 16) + (if self.response {
            128u8
        } else {
            0u8
        });
        let low: u8 = self.rescode.to_num() + 16 * (self.z % 8) + (if self.recursion_available {
            128u8
        } else {
            0u8
        });
        let mut wire: Vec<u8> = Vec::new();
        wire.push((self.id / 256) as u8);
        wire.push((self.id % 256) as u8);
        wire.push(high);
        wire.push(low);
        wire.push((self.questions / 256) as u8);
        wire.push((self.questions % 256) as u8);
        wire.push((self.answers / 256) as u8);
        wire.push((self.answers % 256) as u8);
        wire.push((self.authorities / 256) as u8);
        wire.push((self.authorities % 256) as u8);
        wire.push((self.resources / 256) as u8);
        wire.push((self.resources % 256) as u8);
        assert(wire@ =~= header_wire(*self));
        wire
    }

    /// Reads a header at the cursor and moves the cursor past it. On failure
    /// the cursor stays.
    pub fn read(buffer: &mut PacketBuffer) -> (res: Result<DnsHeader, DnsError>)
        ensures
            final(buffer).bytes() == old(buffer).bytes(),
            match res {
                Ok(header) => old(buffer).cursor() + 12 <= 512 && header == parse_header(
                    old(buffer).bytes(),
                    old(buffer).cursor(),
                ) && header.in_range() && final(buffer).cursor() == old(buffer).cursor() + 12,
                Err(e) => e == DnsError::BufferOverflow && old(buffer).cursor() + 12 > 512
                    && final(buffer).cursor() == old(buffer).cursor(),
            },
    {
        let start: usize = buffer.pos();
        if start > 500 {
            return Err(DnsError::BufferOverflow);
        }
        let ghost bytes = buffer.bytes();
        let id = match buffer.read_u16() {
            Ok(v) => v,
            Err(e) => {
                return Err(e);
            },
        };
        let high = match buffer.read_u8() {
            Ok(v) => v,
            Err(e) => {
                return Err(e);
            },
        };
        let low = match buffer.read_u8() {
            Ok(v) => v,
            Err(e) => {
                return Err(e);
            },
        };
        let questions = match buffer.read_u16() {
            Ok(v) => v,
            Err(e) => {
                return Err(e);
            },
        };
        let answers = match buffer.read_u16() {
            Ok(v) => v,
            Err(e) => {
                return Err(e);
            },
        };
        let authorities = match buffer.read_u16() {
            Ok(v) => v,
            Err(e) => {
                return Err(e);
            },
        };
        let resources = match buffer.read_u16() {
            Ok(v) => v,
            Err(e) => {
                return Err(e);
            },
        };
        Ok(
            DnsHeader {
                id,
                response: high / 128 == 1,
                opcode: (high / 8) % 16,
                authoritative: (high / 4) % 2 == 1,
                truncated: (high / 2) % 2 == 1,
                recursion_desired: high % 2 == 1,
                recursion_available: low / 128 == 1,
                z: (low / 16) % 8,
                rescode: ResultCode::from_num(low % 16),
                questions,
                answers,
                authorities,
                resources,
            },
        )
    }

    /// Writes the header at the cursor and moves the cursor past it, or
    /// writes nothing where twelve bytes do not fit.
    pub fn write(&self, buffer: &mut PacketBuffer) -> (res: Result<(), DnsError>)
        ensures
            match res {
                Ok(()) => old(buffer).cursor() + 12 <= 512
                    && final(buffer).cursor() == old(buffer).cursor() + 12
                    && final(buffer).bytes() == splice(
                    old(buffer).bytes(),
                    old(buffer).cursor(),
                    header_wire(*self),
                ),
                Err(e) => e == DnsError::BufferOverflow && old(buffer).cursor() + 12 > 512
                    && *final(buffer) == *old(buffer),
            },
    {
        let wire = self.to_wire();
        buffer.write_bytes(wire.as_slice())
    }
}

/// The bytes of the flags, computed with shifts: the first is
/// `RD | TC << 1 | AA << 2 | opcode << 3 | QR << 7`, the second
/// `RCODE | z << 4 | RA << 7`.
pub proof fn lemma_flags_as_bits(h: DnsHeader)
    requires
        h.in_range(),
    ensures
        flags_high(h) == (bit(h.recursion_desired) as u8) | (bit(h.truncated) as u8) << 1 | (bit(
            h.authoritative,
        ) as u8) << 2 | h.opcode << 3 | (bit(h.response) as u8) << 7,
        flags_low(h) == h.rescode.code() | h.z << 4 | (bit(h.recursion_available) as u8) << 7,
{
    let rd = bit(h.recursion_desired) as u8;
    let tc = bit(h.truncated) as u8;
    let aa = bit(h.authoritative) as u8;
    let qr = bit(h.response) as u8;
    let ra = bit(h.recursion_available) as u8;
    let op = h.opcode;
    let code = h.rescode.code();
    let z = h.z;
    assert(rd + 2 * tc + 4 * aa + 8 * op + 128 * qr == rd | tc << 1 | aa << 2 | op << 3 | qr
        << 7) by (bit_vector)
        requires
            rd <= 1,
            tc <= 1,
            aa <= 1,
            qr <= 1,
            op < 16,
    ;
    assert(code + 16 * z + 128 * ra == code | z << 4 | ra << 7) by (bit_vector)
        requires
            code < 16,
            z < 8,
            ra <= 1,
    ;
}

proof fn lemma_flags_high(rd: int, tc: int, aa: int, opcode: int, qr: int)
    requires
        0 <= rd <= 1,
        0 <= tc <= 1,
        0 <= aa <= 1,
        0 <= qr <= 1,
        0 <= opcode < 16,
    ensures
        ({
            let high = rd + 2 * tc + 4 * aa + 8 * opcode + 128 * qr;
            &&& 0 <= high < 256
            &&& high % 2 == rd
            &&& (high / 2) % 2 == tc
            &&& (high / 4) % 2 == aa
            &&& (high / 8) % 16 == opcode
            &&& high / 128 == qr
        }),
{
}

proof fn lemma_flags_low(code: int, z: int, ra: int)
    requires
        0 <= code < 16,
        0 <= z < 8,
        0 <= ra <= 1,
    ensures
        ({
            let low = code + 16 * z + 128 * ra;
            &&& 0 <= low < 256
            &&& low % 16 == code
            &&& (low / 16) % 8 == z
            &&& low / 128 == ra
        }),
{
}

/// A header whose fields are within their bits is read back as it was
/// written.
pub proof fn lemma_header_round_trip(h: DnsHeader, bytes: Seq<u8>, at: int)
    requires
        h.in_range(),
        bytes.len() == 512,
        0 <= at,
        at + 12 <= 512,
    ensures
        parse_header(splice(bytes, at, header_wire(h)), at) == h,
{
    let out = splice(bytes, at, header_wire(h));
    let w = header_wire(h);
    assert(w.len() == 12);
    assert forall|k: int| 0 <= k < 12 implies out[at + k] == w[k] by {}
    assert(out[at + 2] == w[2]);
    assert(out[at + 3] == w[3]);
    assert(w[2] == flags_high(h));
    assert(w[3] == flags_low(h));
    lemma_flags_high(
        bit(h.recursion_desired),
        bit(h.truncated),
        bit(h.authoritative),
        h.opcode as int,
        bit(h.response),
    );
    lemma_flags_low(h.rescode.code() as int, h.z as int, bit(h.recursion_available));
    ResultCode::lemma_code_round_trip(h.rescode);
    let back = parse_header(out, at);
    assert(out[at] == w[0] && out[at + 1] == w[1]);
    assert(back.id == h.id);
    assert(out[at + 4] == w[4] && out[at + 5] == w[5]);
    assert(back.questions == h.questions);
    assert(out[at + 6] == w[6] && out[at + 7] == w[7]);
    assert(back.answers == h.answers);
    assert(out[at + 8] == w[8] && out[at + 9] == w[9]);
    assert(back.authorities == h.authorities);
    assert(out[at + 10] == w[10] && out[at + 11] == w[11]);
    assert(back.resources == h.resources);
    assert(back.response == h.response);
    assert(back.opcode == h.opcode);
    assert(back.authoritative == h.authoritative);
    assert(back.truncated == h.truncated);
    assert(back.recursion_desired == h.recursion_desired);
    assert(back.recursion_available == h.recursion_available);
    assert(back.z == h.z);
    assert(back.rescode == h.rescode);
}

} // verus!
