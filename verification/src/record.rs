use vstd::prelude::*;
use crate::buffer::{push_u16, push_u32, splice, u16_at, u16_bytes, u32_at, u32_bytes, PacketBuffer};
use crate::error::DnsError;
use crate::name::{encodable, encode_name, name_wire, parse_name};
use crate::query_type::QueryType;

verus! {

/// A resource record. An address of an `A` record is its four bytes, one of
/// an `AAAA` record its eight groups of sixteen bits. Of a record of a type
/// that the library does not know, only the type and the length of the data
/// are kept.
#[derive(Debug, PartialEq, Eq)]
#[allow(inconsistent_fields)]
pub enum DnsRecord {
    UNKNOWN { domain: String, qtype: u16, data_len: u16, ttl: u32 },
    A { domain: String, addr: [u8; 4], ttl: u32 },
    NS { domain: String, host: String, ttl: u32 },
    CNAME { domain: String, host: String, ttl: u32 },
    MX { domain: String, priority: u16, host: String, ttl: u32 },
    AAAA { domain: String, addr: [u16; 8], ttl: u32 },
}

/// What a record holds, as plain values.
#[allow(inconsistent_fields)]
pub enum RecordView {
    UNKNOWN { domain: Seq<char>, qtype: u16, data_len: u16, ttl: u32 },
    A { domain: Seq<char>, addr: Seq<u8>, ttl: u32 },
    NS { domain: Seq<char>, host: Seq<char>, ttl: u32 },
    CNAME { domain: Seq<char>, host: Seq<char>, ttl: u32 },
    MX { domain: Seq<char>, priority: u16, host: Seq<char>, ttl: u32 },
    AAAA { domain: Seq<char>, addr: Seq<u16>, ttl: u32 },
}

impl View for DnsRecord {
    type V = RecordView;

    open spec fn view(&self) -> RecordView {
        match *self {
            DnsRecord::UNKNOWN { domain, qtype, data_len, ttl } => RecordView::UNKNOWN {
                domain: domain@,
                qtype,
                data_len,
                ttl,
            },
            DnsRecord::A { domain, addr, ttl } => RecordView::A { domain: domain@, addr: addr@, ttl },
            DnsRecord::NS { domain, host, ttl } => RecordView::NS {
                domain: domain@,
                host: host@,
                ttl,
            },
            DnsRecord::CNAME { domain, host, ttl } => RecordView::CNAME {
                domain: domain@,
                host: host@,
                ttl,
            },
            DnsRecord::MX { domain, priority, host, ttl } => RecordView::MX {
                domain: domain@,
                priority,
                host: host@,
                ttl,
            },
            DnsRecord::AAAA { domain, addr, ttl } => RecordView::AAAA {
                domain: domain@,
                addr: addr@,
                ttl,
            },
        }
    }
}

impl Clone for DnsRecord {
    fn clone(&self) -> (res: DnsRecord)
        ensures
            res@ == self@,
    {
        match self {
            DnsRecord::UNKNOWN { domain, qtype, data_len, ttl } => DnsRecord::UNKNOWN {
                domain: domain.clone(),
                qtype: *qtype,
                data_len: *data_len,
                ttl: *ttl,
            },
            DnsRecord::A { domain, addr, ttl } => DnsRecord::A {
                domain: domain.clone(),
                addr: *addr,
                ttl: *ttl,
            },
            DnsRecord::NS { domain, host, ttl } => DnsRecord::NS {
                domain: domain.clone(),
                host: host.clone(),
                ttl: *ttl,
            },
            DnsRecord::CNAME { domain, host, ttl } => DnsRecord::CNAME {
                domain: domain.clone(),
                host: host.clone(),
                ttl: *ttl,
            },
            DnsRecord::MX { domain, priority, host, ttl } => DnsRecord::MX {
                domain: domain.clone(),
                priority: *priority,
                host: host.clone(),
                ttl: *ttl,
            },
            DnsRecord::AAAA { domain, addr, ttl } => DnsRecord::AAAA {
                domain: domain.clone(),
                addr: *addr,
                ttl: *ttl,
            },
        }
    }
}

/// The `count` 16-bit numbers from offset `at` of `bytes` on, in network order.
pub open spec fn u16s_at(bytes: Seq<u8>, at: int, count: nat) -> Seq<u16> {
    Seq::new(count, |i: int| u16_at(bytes, at + 2 * i))
}

/// The bytes of a sequence of 16-bit numbers, each in network order.
pub open spec fn u16s_wire(groups: Seq<u16>) -> Seq<u8> {
    Seq::new(
        2 * groups.len(),
        |i: int|
            if i % 2 == 0 {
                (groups[i / 2] / 256) as u8
            } else {
                (groups[i / 2] % 256) as u8
            },
    )
}

/// The record that starts at offset `at` of `bytes`, and the offset of the
/// first byte behind it: a name, two bytes of type, two of class, four of
/// time to live, two of data length, and the data. The class is not looked
/// at, and the data length only for a type that the library does not know.
pub open spec fn parse_record(bytes: Seq<u8>, at: int) -> Result<(RecordView, int), DnsError> {
    match parse_name(bytes, at) {
        Err(e) => Err(e),
        Ok(parsed) => if parsed.next + 10 > 512 {
            Err(DnsError::BufferOverflow)
        } else {
            let domain = parsed.name;
            let ttl = u32_at(bytes, parsed.next + 4);
            let data_len = u16_at(bytes, parsed.next + 8);
            let data = parsed.next + 10;
            match QueryType::of_code(u16_at(bytes, parsed.next)) {
                QueryType::A => if data + 4 > 512 {
                    Err(DnsError::BufferOverflow)
                } else {
                    Ok(
                        (
                            RecordView::A { domain, addr: bytes.subrange(data, data + 4), ttl },
                            data + 4,
                        ),
                    )
                },
                QueryType::AAAA => if data + 16 > 512 {
                    Err(DnsError::BufferOverflow)
                } else {
                    Ok((RecordView::AAAA { domain, addr: u16s_at(bytes, data, 8), ttl }, data + 16))
                },
                QueryType::NS => match parse_name(bytes, data) {
                    Err(e) => Err(e),
                    Ok(host) => Ok((RecordView::NS { domain, host: host.name, ttl }, host.next)),
                },
                QueryType::CNAME => match parse_name(bytes, data) {
                    Err(e) => Err(e),
                    Ok(host) => Ok((RecordView::CNAME { domain, host: host.name, ttl }, host.next)),
                },
                QueryType::MX => if data + 2 > 512 {
                    Err(DnsError::BufferOverflow)
                } else {
                    match parse_name(bytes, data + 2) {
                        Err(e) => Err(e),
                        Ok(host) => Ok(
                            (
                                RecordView::MX {
                                    domain,
                                    priority: u16_at(bytes, data),
                                    host: host.name,
                                    ttl,
                                },
                                host.next,
                            ),
                        ),
                    }
                },
                QueryType::UNKNOWN(code) => if data + data_len > 512 {
                    Err(DnsError::BufferOverflow)
                } else {
                    Ok(
                        (
                            RecordView::UNKNOWN { domain, qtype: code, data_len, ttl },
                            data + data_len,
                        ),
                    )
                },
            }
        },
    }
}

impl RecordView {
    /// The name that the record is about.
    pub open spec fn domain(self) -> Seq<char> {
        match self {
            RecordView::UNKNOWN { domain, .. } => domain,
            RecordView::A { domain, .. } => domain,
            RecordView::NS { domain, .. } => domain,
            RecordView::CNAME { domain, .. } => domain,
            RecordView::MX { domain, .. } => domain,
            RecordView::AAAA { domain, .. } => domain,
        }
    }

    /// The time to live of the record.
    pub open spec fn ttl(self) -> u32 {
        match self {
            RecordView::UNKNOWN { ttl, .. } => ttl,
            RecordView::A { ttl, .. } => ttl,
            RecordView::NS { ttl, .. } => ttl,
            RecordView::CNAME { ttl, .. } => ttl,
            RecordView::MX { ttl, .. } => ttl,
            RecordView::AAAA { ttl, .. } => ttl,
        }
    }

    /// The code of the record's type.
    pub open spec fn code(self) -> u16 {
        match self {
            RecordView::UNKNOWN { qtype, .. } => qtype,
            RecordView::A { .. } => 1,
            RecordView::NS { .. } => 2,
            RecordView::CNAME { .. } => 5,
            RecordView::MX { .. } => 15,
            RecordView::AAAA { .. } => 28,
        }
    }

    /// Whether the record is written on encoding: one of a type that the
    /// library does not know is left out.
    pub open spec fn emitted(self) -> bool {
        !(self is UNKNOWN)
    }

    /// Whether the names of the record can be encoded. A record that is left
    /// out on encoding has nothing to encode.
    pub open spec fn encodable(self) -> bool {
        match self {
            RecordView::UNKNOWN { .. } => true,
            RecordView::A { domain, .. } => encodable(domain),
            RecordView::NS { domain, host, .. } => encodable(domain) && encodable(host),
            RecordView::CNAME { domain, host, .. } => encodable(domain) && encodable(host),
            RecordView::MX { domain, host, .. } => encodable(domain) && encodable(host),
            RecordView::AAAA { domain, .. } => encodable(domain),
        }
    }

    /// The data of the record on the wire.
    pub open spec fn data_wire(self) -> Seq<u8> {
        match self {
            RecordView::UNKNOWN { .. } => Seq::empty(),
            RecordView::A { addr, .. } => addr,
            RecordView::NS { host, .. } => name_wire(host),
            RecordView::CNAME { host, .. } => name_wire(host),
            RecordView::MX { priority, host, .. } => u16_bytes(priority) + name_wire(host),
            RecordView::AAAA { addr, .. } => u16s_wire(addr),
        }
    }

    /// The wire form of the record: the name, the code of the type, the
    /// class IN, the time to live, the length of the data, and the data.
    /// A record of a type that the library does not know has none.
    pub open spec fn wire(self) -> Seq<u8> {
        if self is UNKNOWN {
            Seq::empty()
        } else {
            name_wire(self.domain()) + u16_bytes(self.code()) + u16_bytes(1) + u32_bytes(
                self.ttl(),
            ) + u16_bytes(self.data_wire().len() as u16) + self.data_wire()
        }
    }
}

/// Puts a record together from the wire form of its name, the code of its
/// type, its time to live and its data; `BufferOverflow` where the whole is
/// longer than a buffer.
fn assemble(name: Vec<u8>, code: u16, ttl: u32, data: Vec<u8>) -> (res: Result<Vec<u8>, DnsError>)
    ensures
        match res {
            Ok(wire) => wire@ == name@ + u16_bytes(code) + u16_bytes(1) + u32_bytes(ttl)
                + u16_bytes(data@.len() as u16) + data@ && wire@.len() <= 512,
            Err(e) => e == DnsError::BufferOverflow && name@.len() + 10 + data@.len() > 512,
        },
{
    if name.len() > 512 || data.len() > 512 || name.len() + 10 + data.len() > 512 {
        return Err(DnsError::BufferOverflow);
    }
    let mut wire = name;
    let mut data = data;
    let ghost tail = data@;
    push_u16(&mut wire, code);
    push_u16(&mut wire, 1);
    push_u32(&mut wire, ttl);
    push_u16(&mut wire, data.len() as u16);
    wire.append(&mut data);
    Ok(wire)
}

impl DnsRecord {
    /// Reads a record at the cursor and moves the cursor past it. On failure
    /// the cursor stays.
    pub fn read(buffer: &mut PacketBuffer) -> (res: Result<DnsRecord, DnsError>)
        ensures
            final(buffer).bytes() == old(buffer).bytes(),
            match parse_record(old(buffer).bytes(), old(buffer).cursor()) {
                Ok((record, next)) => res is Ok && res->Ok_0@ == record && final(buffer).cursor()
                    == next,
                Err(e) => res is Err && res->Err_0 == e
                    && final(buffer).cursor() == old(buffer).cursor(),
            },
    {
        let start: usize = buffer.pos();
        let ghost bytes = buffer.bytes();
        proof {
            buffer.lemma_len();
        }
        let domain = match buffer.read_qname() {
            Ok(name) => name,
            Err(e) => {
                return Err(e);
            },
        };
        if buffer.pos() > 502 {
            let _ = buffer.seek(start);
            return Err(DnsError::BufferOverflow);
        }
        let code = match buffer.read_u16() {
            Ok(v) => v,
            Err(e) => {
                return Err(e);
            },
        };
        let _ = buffer.read_u16();
        let ttl = match buffer.read_u32() {
            Ok(v) => v,
            Err(e) => {
                return Err(e);
            },
        };
        let data_len = match buffer.read_u16() {
            Ok(v) => v,
            Err(e) => {
                return Err(e);
            },
        };
        let data: usize = buffer.pos();
        match QueryType::from_num(code) {
            QueryType::A => {
                match buffer.read_range(data, 4) {
                    Err(e) => {
                        let _ = buffer.seek(start);
                        Err(e)
                    },
                    Ok(range) => {
                        let addr: [u8; 4] = [range[0], range[1], range[2], range[3]];
                        assert(addr@ =~= bytes.subrange(data as int, data + 4));
                        let _ = buffer.step(4);
                        Ok(DnsRecord::A { domain, addr, ttl })
                    },
                }
            },
            QueryType::AAAA => {
                if data > 496 {
                    let _ = buffer.seek(start);
                    return Err(DnsError::BufferOverflow);
                }
                let mut addr: [u16; 8] = [0u16; 8];
                let mut i: usize = 0;
                while i < 8
                    invariant
                        i <= 8,
                        data + 16 <= 512,
                        buffer.bytes() == bytes,
                        buffer.cursor() == data + 2 * i,
                        forall|k: int| 0 <= k < i ==> addr@[k] == u16_at(bytes, data + 2 * k),
                    decreases 8 - i,
                {
                    match buffer.read_u16() {
                        Ok(v) => {
                            addr[i] = v;
                        },
                        Err(_) => {},
                    }
                    i = i + 1;
                }
                assert(addr@ =~= u16s_at(bytes, data as int, 8));
                Ok(DnsRecord::AAAA { domain, addr, ttl })
            },
            QueryType::NS => {
                match buffer.read_qname() {
                    Err(e) => {
                        let _ = buffer.seek(start);
                        Err(e)
                    },
                    Ok(host) => Ok(DnsRecord::NS { domain, host, ttl }),
                }
            },
            QueryType::CNAME => {
                match buffer.read_qname() {
                    Err(e) => {
                        let _ = buffer.seek(start);
                        Err(e)
                    },
                    Ok(host) => Ok(DnsRecord::CNAME { domain, host, ttl }),
                }
            },
            QueryType::MX => {
                let priority = match buffer.read_u16() {
                    Ok(v) => v,
                    Err(e) => {
                        let _ = buffer.seek(start);
                        return Err(e);
                    },
                };
                match buffer.read_qname() {
                    Err(e) => {
                        let _ = buffer.seek(start);
                        Err(e)
                    },
                    Ok(host) => Ok(DnsRecord::MX { domain, priority, host, ttl }),
                }
            },
            QueryType::UNKNOWN(qtype) => {
                match buffer.step(data_len as usize) {
                    Err(e) => {
                        let _ = buffer.seek(start);
                        Err(e)
                    },
                    Ok(()) => Ok(DnsRecord::UNKNOWN { domain, qtype, data_len, ttl }),
                }
            },
        }
    }
    /// The wire form of the record. `LabelTooLong` where a name of the record
    /// cannot be encoded; otherwise `BufferOverflow` where the wire form is
    /// longer than a buffer.
    pub fn to_wire(&self) -> (res: Result<Vec<u8>, DnsError>)
        ensures
            match res {
                Ok(wire) => self@.encodable() && wire@ == self@.wire() && wire@.len() <= 512,
                Err(e) => if self@.encodable() {
                    e == DnsError::BufferOverflow && self@.wire().len() > 512
                } else {
                    e == DnsError::LabelTooLong
                },
            },
    {
        match self {
            DnsRecord::UNKNOWN { .. } => Ok(Vec::new()),
            DnsRecord::A { domain, addr, ttl } => {
                let name = match encode_name(domain.as_str()) {
                    Ok(name) => name,
                    Err(e) => {
                        return Err(e);
                    },
                };
                let mut data: Vec<u8> = Vec::new();
                data.push(addr[0]);
                data.push(addr[1]);
                data.push(addr[2]);
                data.push(addr[3]);
                assert(data@ =~= addr@);
                assemble(name, 1, *ttl, data)
            },
            DnsRecord::NS { domain, host, ttl } => {
                let name = match encode_name(domain.as_str()) {
                    Ok(name) => name,
                    Err(e) => {
                        return Err(e);
                    },
                };
                let data = match encode_name(host.as_str()) {
                    Ok(data) => data,
                    Err(e) => {
                        return Err(e);
                    },
                };
                assemble(name, 2, *ttl, data)
            },
            DnsRecord::CNAME { domain, host, ttl } => {
                let name = match encode_name(domain.as_str()) {
                    Ok(name) => name,
                    Err(e) => {
                        return Err(e);
                    },
                };
                let data = match encode_name(host.as_str()) {
                    Ok(data) => data,
                    Err(e) => {
                        return Err(e);
                    },
                };
                assemble(name, 5, *ttl, data)
            },
            DnsRecord::MX { domain, priority, host, ttl } => {
                let name = match encode_name(domain.as_str()) {
                    Ok(name) => name,
                    Err(e) => {
                        return Err(e);
                    },
                };
                let mut tail = match encode_name(host.as_str()) {
                    Ok(tail) => tail,
                    Err(e) => {
                        return Err(e);
                    },
                };
                let mut data: Vec<u8> = Vec::new();
                push_u16(&mut data, *priority);
                data.append(&mut tail);
                assemble(name, 15, *ttl, data)
            },
            DnsRecord::AAAA { domain, addr, ttl } => {
                let name = match encode_name(domain.as_str()) {
                    Ok(name) => name,
                    Err(e) => {
                        return Err(e);
                    },
                };
                let mut data: Vec<u8> = Vec::new();
                let mut i: usize = 0;
                while i < 8
                    invariant
                        i <= 8,
                        data@.len() == 2 * i,
                        forall|k: int| 0 <= k < 2 * i ==> data@[k] == u16s_wire(addr@)[k],
                    decreases 8 - i,
                {
                    push_u16(&mut data, addr[i]);
                    i = i + 1;
                }
                assert(data@ =~= u16s_wire(addr@));
                assemble(name, 28, *ttl, data)
            },
        }
    }

    /// Writes the record at the cursor, moves the cursor past it and returns
    /// the number of bytes written. A record of a type that the library does
    /// not know is left out: nothing is written for it. Where a name cannot
    /// be encoded or the record does not fit, nothing is written either.
    pub fn write(&self, buffer: &mut PacketBuffer) -> (res: Result<usize, DnsError>)
        ensures
            match res {
                Ok(written) => self@.encodable() && written == self@.wire().len()
                    && old(buffer).cursor() + written <= 512
                    && final(buffer).cursor() == old(buffer).cursor()
                    + written && final(buffer).bytes() == splice(
                    old(buffer).bytes(),
                    old(buffer).cursor(),
                    self@.wire(),
                ),
                Err(e) => *final(buffer) == *old(buffer) && if self@.encodable() {
                    e == DnsError::BufferOverflow && old(buffer).cursor() + self@.wire().len()
                        > 512
                } else {
                    e == DnsError::LabelTooLong
                },
            },
    {
        proof {
            use_type_invariant(&*buffer);
        }
        match self.to_wire() {
            Err(e) => Err(e),
            Ok(wire) => match buffer.write_bytes(wire.as_slice()) {
                Ok(()) => Ok(wire.len()),
                Err(e) => Err(e),
            },
        }
    }
}

} // verus!
