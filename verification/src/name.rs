use vstd::prelude::*;
use crate::buffer::PacketBuffer;
use crate::error::DnsError;
use crate::text::push_char;
use vstd::utf8::encode_utf8;

verus! {

/// The most compression pointers that one name may follow.
pub const MAX_JUMPS: usize = 5;

/// The longest label that can be encoded.
pub const MAX_LABEL: usize = 63;

/// An ASCII capital letter becomes the small letter; any other byte stays.
pub open spec fn lower(b: u8) -> u8 {
    if 65 <= b <= 90 {
        (b + 32) as u8
    } else {
        b
    }
}

/// The text of a label: one character for each byte, capitals made small.
pub open spec fn label_text(label: Seq<u8>) -> Seq<char> {
    Seq::new(label.len(), |i: int| lower(label[i]) as char)
}

/// Two pieces of a name, with a dot between them where both have text.
pub open spec fn join_names(head: Seq<char>, tail: Seq<char>) -> Seq<char> {
    if head.len() == 0 {
        tail
    } else if tail.len() == 0 {
        head
    } else {
        head + seq!['.'] + tail
    }
}

/// The offset of the first dot of `s` at or after `from`, or the length of
/// `s` where there is none.
pub open spec fn next_dot(s: Seq<u8>, from: int) -> int
    decreases s.len() - from,
{
    if from >= s.len() {
        s.len() as int
    } else if s[from] == 46 {
        from
    } else {
        next_dot(s, from + 1)
    }
}

/// The next dot is not before the place from which it is sought, and not
/// behind the end.
pub proof fn lemma_next_dot_bounds(s: Seq<u8>, from: int)
    requires
        0 <= from <= s.len(),
    ensures
        from <= next_dot(s, from) <= s.len(),
        next_dot(s, from) < s.len() ==> s[next_dot(s, from)] == 46,
        forall|k: int| from <= k < next_dot(s, from) ==> s[k] != 46,
    decreases s.len() - from,
{
    if from < s.len() && s[from] != 46 {
        lemma_next_dot_bounds(s, from + 1);
    }
}

/// Whether every label of `s` from offset `from` on has at most 63 bytes.
/// Labels are what lies between the dots.
pub open spec fn labels_fit_from(s: Seq<u8>, from: int) -> bool
    decreases s.len() - from,
    when 0 <= from <= s.len()
{
    let dot = next_dot(s, from);
    dot - from <= 63 && (dot >= s.len() || {
        proof {
            lemma_next_dot_bounds(s, from);
        }
        labels_fit_from(s, dot + 1)
    })
}

/// The wire form of the labels of `s` from offset `from` on: each label as
/// its length and its bytes, and a zero byte at the end. An empty label is
/// its length alone, a zero byte.
pub open spec fn wire_from(s: Seq<u8>, from: int) -> Seq<u8>
    decreases s.len() - from,
    when 0 <= from <= s.len()
{
    let dot = next_dot(s, from);
    let head = seq![(dot - from) as u8] + s.subrange(from, dot);
    if dot >= s.len() {
        head + seq![0u8]
    } else {
        proof {
            lemma_next_dot_bounds(s, from);
        }
        head + wire_from(s, dot + 1)
    }
}

/// Whether a name can be encoded: no label of it is longer than 63 bytes.
pub open spec fn encodable(name: Seq<char>) -> bool {
    labels_fit_from(encode_utf8(name), 0)
}

/// The wire form of a name: its bytes are split at the dots, each label is
/// written as its length and its bytes, and a zero byte ends the name. No
/// compression pointer is written. The empty name has one label, which is
/// empty.
pub open spec fn name_wire(name: Seq<char>) -> Seq<u8> {
    wire_from(encode_utf8(name), 0)
}

/// A decoded name: its text, the offset of the first byte after what the name
/// takes inline, and the number of compression pointers that were followed.
pub struct ParsedName {
    pub name: Seq<char>,
    pub next: int,
    pub jumps: nat,
}

/// The name that starts at offset `at` of `bytes`, when `jumps` pointers
/// were followed already.
///
/// A length byte of zero ends the name. A length byte with its top two bits
/// set, together with the byte behind it, is a pointer to the offset where
/// the name goes on; the sixth pointer of a name is refused. Any other length
/// byte is followed by that many bytes of label.
pub open spec fn parse_name_from(bytes: Seq<u8>, at: int, jumps: nat) -> Result<
    ParsedName,
    DnsError,
>
    decreases 5 - jumps, 512 - at,
{
    if at < 0 || at >= 512 {
        Err(DnsError::BufferOverflow)
    } else if bytes[at] >= 192 {
        if jumps >= 5 {
            Err(DnsError::BadPacket)
        } else if at + 1 >= 512 {
            Err(DnsError::BufferOverflow)
        } else {
            match parse_name_from(bytes, (bytes[at] - 192) * 256 + bytes[at + 1], jumps + 1) {
                Err(e) => Err(e),
                Ok(rest) => Ok(ParsedName { name: rest.name, next: at + 2, jumps: rest.jumps }),
            }
        }
    } else if bytes[at] == 0 {
        Ok(ParsedName { name: Seq::empty(), next: at + 1, jumps: jumps })
    } else if at + 1 + bytes[at] > 512 {
        Err(DnsError::BufferOverflow)
    } else {
        match parse_name_from(bytes, at + 1 + bytes[at], jumps) {
            Err(e) => Err(e),
            Ok(rest) => Ok(
                ParsedName {
                    name: join_names(
                        label_text(bytes.subrange(at + 1, at + 1 + bytes[at])),
                        rest.name,
                    ),
                    next: rest.next,
                    jumps: rest.jumps,
                },
            ),
        }
    }
}

/// The name that starts at offset `at` of `bytes`.
pub open spec fn parse_name(bytes: Seq<u8>, at: int) -> Result<ParsedName, DnsError> {
    parse_name_from(bytes, at, 0)
}

/// Whatever the bytes are, a name is decoded with at most five jumps, and
/// what it takes inline ends within the buffer; or the decoding fails, with
/// `BadPacket` at a sixth pointer or with `BufferOverflow` at the end of
/// the buffer.
pub proof fn lemma_parse_name_bounds(bytes: Seq<u8>, at: int, jumps: nat)
    requires
        jumps <= 5,
    ensures
        match parse_name_from(bytes, at, jumps) {
            Ok(parsed) => jumps <= parsed.jumps <= 5 && at < parsed.next <= 512,
            Err(e) => e == DnsError::BadPacket || e == DnsError::BufferOverflow,
        },
    decreases 5 - jumps, 512 - at,
{
    if at < 0 || at >= 512 {
    } else if bytes[at] >= 192 {
        if jumps < 5 && at + 1 < 512 {
            lemma_parse_name_bounds(bytes, (bytes[at] - 192) * 256 + bytes[at + 1], jumps + 1);
        }
    } else if bytes[at] == 0 {
    } else if at + 1 + bytes[at] <= 512 {
        lemma_parse_name_bounds(bytes, at + 1 + bytes[at], jumps);
    }
}

proof fn lemma_join_assoc(a: Seq<char>, b: Seq<char>, c: Seq<char>)
    requires
        b.len() > 0,
    ensures
        join_names(join_names(a, b), c) == join_names(a, join_names(b, c)),
{
    assert(join_names(join_names(a, b), c) =~= join_names(a, join_names(b, c)));
}

/// What the whole name is, when `parsed` is what comes from the current
/// offset on, `text` was read before it, and `fixed` is where the main
/// cursor was put by the first jump.
spec fn resume(text: Seq<char>, fixed: Option<int>, rest: Result<ParsedName, DnsError>) -> Result<
    ParsedName,
    DnsError,
> {
    match rest {
        Err(e) => Err(e),
        Ok(parsed) => Ok(
            ParsedName {
                name: join_names(text, parsed.name),
                next: match fixed {
                    Some(next) => next,
                    None => parsed.next,
                },
                jumps: parsed.jumps,
            },
        ),
    }
}

/// The wire form of a name, or `LabelTooLong` where a label of the name has
/// more than 63 bytes.
pub fn encode_name(name: &str) -> (res: Result<Vec<u8>, DnsError>)
    ensures
        match res {
            Ok(wire) => encodable(name@) && wire@ == name_wire(name@),
            Err(e) => e == DnsError::LabelTooLong && !encodable(name@),
        },
{
    let bytes = name.as_bytes();
    let n: usize = bytes.len();
    let ghost s = bytes@;
    let mut out: Vec<u8> = Vec::new();
    let mut start: usize = 0;
    loop
        invariant
            s == bytes@,
            s == encode_utf8(name@),
            n == s.len(),
            start <= n,
            wire_from(s, 0) == out@ + wire_from(s, start as int),
            labels_fit_from(s, 0) == labels_fit_from(s, start as int),
        decreases n - start,
    {
        let mut dot: usize = start;
        while dot < n && bytes[dot] != 46
            invariant
                s == bytes@,
                n == s.len(),
                start <= dot <= n,
                next_dot(s, start as int) == next_dot(s, dot as int),
            decreases n - dot,
        {
            dot = dot + 1;
        }
        let len: usize = dot - start;
        if len > MAX_LABEL {
            return Err(DnsError::LabelTooLong);
        }
        let ghost before = out@;
        out.push(len as u8);
        let mut i: usize = start;
        assert(out@ =~= before + seq![len as u8] + s.subrange(start as int, start as int));
        while i < dot
            invariant
                s == bytes@,
                start <= i <= dot <= n,
                n == s.len(),
                out@ == before + seq![len as u8] + s.subrange(start as int, i as int),
            decreases dot - i,
        {
            out.push(bytes[i]);
            assert(out@ =~= before + seq![len as u8] + s.subrange(start as int, i + 1));
            i = i + 1;
        }
        if dot >= n {
            out.push(0);
            assert(out@ =~= before + wire_from(s, start as int));
            return Ok(out);
        }
        assert(out@ + wire_from(s, dot + 1) =~= before + wire_from(s, start as int));
        start = dot + 1;
    }
}

impl PacketBuffer {
    /// Writes the wire form of `name` at the cursor and moves the cursor past
    /// it. Where the name cannot be encoded or does not fit, nothing is
    /// written.
    pub fn write_qname(&mut self, name: &str) -> (res: Result<(), DnsError>)
        ensures
            match res {
                Ok(()) => encodable(name@) && old(self).cursor() + name_wire(name@).len() <= 512
                    && final(self).cursor() == old(self).cursor() + name_wire(name@).len()
                    && final(self).bytes() == crate::buffer::splice(
                    old(self).bytes(),
                    old(self).cursor(),
                    name_wire(name@),
                ),
                Err(e) => *final(self) == *old(self) && if encodable(name@) {
                    e == DnsError::BufferOverflow && old(self).cursor() + name_wire(name@).len()
                        > 512
                } else {
                    e == DnsError::LabelTooLong
                },
            },
    {
        match encode_name(name) {
            Err(e) => Err(e),
            Ok(wire) => self.write_bytes(wire.as_slice()),
        }
    }

    /// Reads the domain name at the cursor, following compression pointers,
    /// and moves the cursor past the bytes that the name takes inline. On
    /// failure the cursor stays.
    pub fn read_qname(&mut self) -> (res: Result<String, DnsError>)
        ensures
            final(self).bytes() == old(self).bytes(),
            match parse_name(old(self).bytes(), old(self).cursor()) {
                Ok(parsed) => res is Ok && res->Ok_0@ == parsed.name && final(self).cursor()
                    == parsed.next && parsed.jumps <= 5,
                Err(e) => res == Err::<String, DnsError>(e) && final(self).cursor() == old(
                    self,
                ).cursor(),
            },
    {
        proof {
            use_type_invariant(&*self);
            self.lemma_repr();
        }
        let start: usize = self.pos;
        let mut pos: usize = self.pos;
        let mut jumps: usize = 0;
        let mut fixed: Option<usize> = None;
        let mut out = String::new();
        let ghost bytes = self.buf@;
        let ghost whole = parse_name(bytes, start as int);
        loop
            invariant
                self.buf@ == bytes,
                self.pos == start,
                bytes == old(self).bytes(),
                start == old(self).cursor(),
                start <= 512,
                pos <= 65535,
                jumps <= 5,
                fixed matches Some(next) ==> next <= 512,
                whole == parse_name(bytes, start as int),
                whole == resume(
                    out@,
                    match fixed {
                        Some(next) => Some(next as int),
                        None => None,
                    },
                    parse_name_from(bytes, pos as int, jumps as nat),
                ),
            decreases 5 - jumps, 65536 - pos,
        {
            proof {
                self.lemma_repr();
            }
            if pos >= 512 {
                return Err(DnsError::BufferOverflow);
            }
            let len: u8 = self.buf[pos];
            if len >= 192 {
                if jumps >= MAX_JUMPS {
                    return Err(DnsError::BadPacket);
                }
                if pos + 1 >= 512 {
                    return Err(DnsError::BufferOverflow);
                }
                let low: u8 = self.buf[pos + 1];
                if fixed.is_none() {
                    fixed = Some(pos + 2);
                }
                pos = (len - 192) as usize * 256 + low as usize;
                jumps = jumps + 1;
            } else if len == 0 {
                proof {
                    lemma_parse_name_bounds(bytes, pos as int, jumps as nat);
                }
                let next: usize = match fixed {
                    Some(next) => next,
                    None => pos + 1,
                };
                let _ = self.seek(next);
                assert(out@ =~= join_names(out@, Seq::empty()));
                return Ok(out);
            } else {
                let end: usize = pos + 1 + len as usize;
                if end > 512 {
                    return Err(DnsError::BufferOverflow);
                }
                let ghost before = out@;
                let ghost label = bytes.subrange(pos + 1, end as int);
                if !out.as_str().is_empty() {
                    push_char(&mut out, '.');
                }
                let ghost dotted = out@;
                let mut i: usize = pos + 1;
                while i < end
                    invariant
                        self.buf@ == bytes,
                        pos + 1 <= i <= end <= 512,
                        label == bytes.subrange(pos + 1, end as int),
                        out@ == dotted + label_text(label).take(i - (pos + 1)),
                    decreases end - i,
                {
                    let b: u8 = self.buf[i];
                    let c: u8 = if 65 <= b && b <= 90 {
                        b + 32
                    } else {
                        b
                    };
                    push_char(&mut out, c as char);
                    assert(out@ =~= dotted + label_text(label).take(i + 1 - (pos + 1)));
                    i = i + 1;
                }
                proof {
                    assert(label_text(label).take(end - (pos + 1)) =~= label_text(label));
                    assert(out@ =~= join_names(before, label_text(label)));
                    match parse_name_from(bytes, end as int, jumps as nat) {
                        Ok(rest) => {
                            lemma_join_assoc(before, label_text(label), rest.name);
                        },
                        Err(_) => {},
                    }
                }
                pos = end;
            }
        }
    }
}

} // verus!
