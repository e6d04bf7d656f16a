use vstd::prelude::*;
use crate::buffer::{push_u16, splice, u16_at, u16_bytes, PacketBuffer};
use crate::error::DnsError;
use crate::name::{encodable, encode_name, name_wire, parse_name};
use crate::query_type::QueryType;

verus! {

/// A question of a DNS message: a name and the type asked for. The class is
/// always IN and is not kept.
#[derive(Debug, PartialEq, Eq)]
pub struct DnsQuestion {
    pub name: String,
    pub qtype: QueryType,
}

/// What a question holds, as plain values.
pub struct QuestionView {
    pub name: Seq<char>,
    pub qtype: QueryType,
}

impl View for DnsQuestion {
    type V = QuestionView;

    open spec fn view(&self) -> QuestionView {
        QuestionView { name: self.name@, qtype: self.qtype }
    }
}

impl Clone for DnsQuestion {
    fn clone(&self) -> (res: DnsQuestion)
        ensures
            res@ == self@,
    {
        DnsQuestion { name: self.name.clone(), qtype: self.qtype }
    }
}

/// The question that starts at offset `at` of `bytes`, and the offset of the
/// first byte behind it: a name, two bytes of type and two bytes of class.
pub open spec fn parse_question(bytes: Seq<u8>, at: int) -> Result<(QuestionView, int), DnsError> {
    match parse_name(bytes, at) {
        Err(e) => Err(e),
        Ok(parsed) => if parsed.next + 4 > 512 {
            Err(DnsError::BufferOverflow)
        } else {
            Ok(
                (
                    QuestionView {
                        name: parsed.name,
                        qtype: QueryType::of_code(u16_at(bytes, parsed.next)),
                    },
                    parsed.next + 4,
                ),
            )
        },
    }
}

/// The wire form of a question: the name, the code of the type and the
/// class IN.
pub open spec fn question_wire(q: QuestionView) -> Seq<u8> {
    name_wire(q.name) + u16_bytes(q.qtype.code()) + u16_bytes(1)
}

impl DnsQuestion {
    pub fn new(name: String, qtype: QueryType) -> (question: DnsQuestion)
        ensures
            question@ == (QuestionView { name: name@, qtype: qtype }),
    {
        DnsQuestion { name, qtype }
    }

    /// Reads a question at the cursor and moves the cursor past it. On
    /// failure the cursor stays.
    pub fn read(buffer: &mut PacketBuffer) -> (res: Result<DnsQuestion, DnsError>)
        ensures
            final(buffer).bytes() == old(buffer).bytes(),
            match parse_question(old(buffer).bytes(), old(buffer).cursor()) {
                Ok((question, next)) => res is Ok && res->Ok_0@ == question
                    && final(buffer).cursor() == next,
                Err(e) => res is Err && res->Err_0 == e
                    && final(buffer).cursor() == old(buffer).cursor(),
            },
    {
        let start: usize = buffer.pos();
        let name = match buffer.read_qname() {
            Ok(name) => name,
            Err(e) => {
                return Err(e);
            },
        };
        if buffer.pos() > 508 {
            let _ = buffer.seek(start);
            return Err(DnsError::BufferOverflow);
        }
        let code = match buffer.read_u16() {
            Ok(v) => v,
            Err(e) => {
                return Err(e);
            },
        };
        let _ = buffer.read_u16();
        Ok(DnsQuestion { name, qtype: QueryType::from_num(code) })
    }

    /// The wire form of the question, or `LabelTooLong` where its name cannot
    /// be encoded.
    pub fn to_wire(&self) -> (res: Result<Vec<u8>, DnsError>)
        ensures
            match res {
                Ok(wire) => encodable(self@.name) && wire@ == question_wire(self@),
                Err(e) => e == DnsError::LabelTooLong && !encodable(self@.name),
            },
    {
        let mut wire = match encode_name(self.name.as_str()) {
            Ok(wire) => wire,
            Err(e) => {
                return Err(e);
            },
        };
        push_u16(&mut wire, self.qtype.to_num());
        push_u16(&mut wire, 1);
        Ok(wire)
    }

    /// Writes the question at the cursor and moves the cursor past it. Where
    /// the name cannot be encoded or the question does not fit, nothing is
    /// written.
    pub fn write(&self, buffer: &mut PacketBuffer) -> (res: Result<(), DnsError>)
        ensures
            match res {
                Ok(()) => encodable(self@.name)
                    && old(buffer).cursor() + question_wire(self@).len() <= 512
                    && final(buffer).cursor() == old(buffer).cursor()
                    + question_wire(self@).len() && final(buffer).bytes() == splice(
                    old(buffer).bytes(),
                    old(buffer).cursor(),
                    question_wire(self@),
                ),
                Err(e) => *final(buffer) == *old(buffer) && if encodable(self@.name) {
                    e == DnsError::BufferOverflow
                        && old(buffer).cursor() + question_wire(self@).len() > 512
                } else {
                    e == DnsError::LabelTooLong
                },
            },
    {
        match self.to_wire() {
            Err(e) => Err(e),
            Ok(wire) => buffer.write_bytes(wire.as_slice()),
        }
    }
}

} // verus!
