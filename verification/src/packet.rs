use vstd::prelude::*;
use crate::buffer::{splice, PacketBuffer};
use crate::error::DnsError;
use crate::header::{header_wire, parse_header, DnsHeader};
use crate::name::encodable;
use crate::question::{parse_question, question_wire, DnsQuestion, QuestionView};
use crate::record::{parse_record, DnsRecord, RecordView};
use crate::text::{chars_of, ends_with, is_suffix, same_chars};

verus! {

/// A DNS message: the header and the four sections.
#[derive(Debug, PartialEq, Eq)]
pub struct DnsPacket {
    pub header: DnsHeader,
    pub questions: Vec<DnsQuestion>,
    pub answers: Vec<DnsRecord>,
    pub authorities: Vec<DnsRecord>,
    pub resources: Vec<DnsRecord>,
}

/// What a message holds, as plain values.
pub struct PacketView {
    pub header: DnsHeader,
    pub questions: Seq<QuestionView>,
    pub answers: Seq<RecordView>,
    pub authorities: Seq<RecordView>,
    pub resources: Seq<RecordView>,
}

/// The questions of a list, as plain values.
pub open spec fn questions_view(questions: Seq<DnsQuestion>) -> Seq<QuestionView> {
    Seq::new(questions.len(), |i: int| questions[i]@)
}

/// The records of a list, as plain values.
pub open spec fn records_view(records: Seq<DnsRecord>) -> Seq<RecordView> {
    Seq::new(records.len(), |i: int| records[i]@)
}

impl View for DnsPacket {
    type V = PacketView;

    open spec fn view(&self) -> PacketView {
        PacketView {
            header: self.header,
            questions: questions_view(self.questions@),
            answers: records_view(self.answers@),
            authorities: records_view(self.authorities@),
            resources: records_view(self.resources@),
        }
    }
}

/// The `count` questions that follow each other from offset `at` on, and the
/// offset of the first byte behind them.
pub open spec fn parse_questions(bytes: Seq<u8>, at: int, count: nat) -> Result<
    (Seq<QuestionView>, int),
    DnsError,
>
    decreases count,
{
    if count == 0 {
        Ok((Seq::empty(), at))
    } else {
        match parse_questions(bytes, at, (count - 1) as nat) {
            Err(e) => Err(e),
            Ok((init, mid)) => match parse_question(bytes, mid) {
                Err(e) => Err(e),
                Ok((question, next)) => Ok((init.push(question), next)),
            },
        }
    }
}

/// The `count` records that follow each other from offset `at` on, and the
/// offset of the first byte behind them.
pub open spec fn parse_records(bytes: Seq<u8>, at: int, count: nat) -> Result<
    (Seq<RecordView>, int),
    DnsError,
>
    decreases count,
{
    if count == 0 {
        Ok((Seq::empty(), at))
    } else {
        match parse_records(bytes, at, (count - 1) as nat) {
            Err(e) => Err(e),
            Ok((init, mid)) => match parse_record(bytes, mid) {
                Err(e) => Err(e),
                Ok((record, next)) => Ok((init.push(record), next)),
            },
        }
    }
}

/// The message that starts at offset `at` of `bytes`, and the offset of the
/// first byte behind it: the header, then as many questions, answers,
/// authority records and additional records as the header counts.
pub open spec fn parse_packet(bytes: Seq<u8>, at: int) -> Result<(PacketView, int), DnsError> {
    if at + 12 > 512 {
        Err(DnsError::BufferOverflow)
    } else {
        let header = parse_header(bytes, at);
        match parse_questions(bytes, at + 12, header.questions as nat) {
            Err(e) => Err(e),
            Ok((questions, past_questions)) => match parse_records(bytes, past_questions, header.answers as nat) {
                Err(e) => Err(e),
                Ok((answers, past_answers)) => match parse_records(bytes, past_answers, header.authorities as nat) {
                    Err(e) => Err(e),
                    Ok((authorities, past_authorities)) => match parse_records(
                        bytes,
                        past_authorities,
                        header.resources as nat,
                    ) {
                        Err(e) => Err(e),
                        Ok((resources, past_resources)) => Ok(
                            (
                                PacketView { header, questions, answers, authorities, resources },
                                past_resources,
                            ),
                        ),
                    },
                },
            },
        }
    }
}

/// The wire form of a list of questions, one after the other.
pub open spec fn questions_wire(questions: Seq<QuestionView>) -> Seq<u8>
    decreases questions.len(),
{
    if questions.len() == 0 {
        Seq::empty()
    } else {
        questions_wire(questions.drop_last()) + question_wire(questions.last())
    }
}

/// The wire form of a list of records, one after the other. A record of a
/// type that the library does not know adds nothing.
pub open spec fn records_wire(records: Seq<RecordView>) -> Seq<u8>
    decreases records.len(),
{
    if records.len() == 0 {
        Seq::empty()
    } else {
        records_wire(records.drop_last()) + records.last().wire()
    }
}

/// The number of records of a list that are written on encoding.
pub open spec fn emitted_count(records: Seq<RecordView>) -> nat
    decreases records.len(),
{
    if records.len() == 0 {
        0
    } else {
        emitted_count(records.drop_last()) + if records.last().emitted() {
            1nat
        } else {
            0nat
        }
    }
}

/// Whether the name of every question of a list can be encoded.
pub open spec fn questions_encodable(questions: Seq<QuestionView>) -> bool {
    forall|i: int| 0 <= i < questions.len() ==> encodable(#[trigger] questions[i].name)
}

/// Whether the names of every record of a list can be encoded.
pub open spec fn records_encodable(records: Seq<RecordView>) -> bool {
    forall|i: int| 0 <= i < records.len() ==> (#[trigger] records[i]).encodable()
}

impl PacketView {
    /// Whether every name of the message that is written can be encoded.
    pub open spec fn encodable(self) -> bool {
        &&& questions_encodable(self.questions)
        &&& records_encodable(self.answers)
        &&& records_encodable(self.authorities)
        &&& records_encodable(self.resources)
    }

    /// The header that is written for the message: that of the message, with
    /// the four counts set to the numbers of entries that are written.
    pub open spec fn wire_header(self) -> DnsHeader {
        DnsHeader {
            questions: self.questions.len() as u16,
            answers: emitted_count(self.answers) as u16,
            authorities: emitted_count(self.authorities) as u16,
            resources: emitted_count(self.resources) as u16,
            ..self.header
        }
    }

    /// The wire form of the message: the header, the questions, and the
    /// records of the three sections.
    pub open spec fn wire(self) -> Seq<u8> {
        header_wire(self.wire_header()) + questions_wire(self.questions) + records_wire(
            self.answers,
        ) + records_wire(self.authorities) + records_wire(self.resources)
    }
}

/// The records of the zones that `qname` lies in: of each `NS` record of
/// `authorities` whose name `qname` ends with, the name and the host.
pub open spec fn ns_pairs(authorities: Seq<RecordView>, qname: Seq<char>) -> Seq<
    (Seq<char>, Seq<char>),
>
    decreases authorities.len(),
{
    if authorities.len() == 0 {
        Seq::empty()
    } else {
        let init = ns_pairs(authorities.drop_last(), qname);
        match authorities.last() {
            RecordView::NS { domain, host, .. } => if is_suffix(domain, qname) {
                init.push((domain, host))
            } else {
                init
            },
            _ => init,
        }
    }
}

/// Whether a record is an `A` record for one of the hosts of `pairs`.
pub open spec fn is_glue(record: RecordView, pairs: Seq<(Seq<char>, Seq<char>)>) -> bool {
    record matches RecordView::A { domain, .. } && exists|j: int|
        0 <= j < pairs.len() && (#[trigger] pairs[j]).1 == domain
}

/// The address of the first `A` record of `records` from the number `from`
/// on.
pub open spec fn first_a_from(records: Seq<RecordView>, from: int) -> Option<Seq<u8>>
    decreases records.len() - from,
{
    if from < 0 || from >= records.len() {
        None
    } else {
        match records[from] {
            RecordView::A { addr, .. } => Some(addr),
            _ => first_a_from(records, from + 1),
        }
    }
}

/// The address of the first record of `records`, from the number `from` on,
/// that is an `A` record for one of the hosts of `pairs`.
pub open spec fn first_glue_from(
    records: Seq<RecordView>,
    pairs: Seq<(Seq<char>, Seq<char>)>,
    from: int,
) -> Option<Seq<u8>>
    decreases records.len() - from,
{
    if from < 0 || from >= records.len() {
        None
    } else if is_glue(records[from], pairs) {
        Some(records[from]->A_addr)
    } else {
        first_glue_from(records, pairs, from + 1)
    }
}

impl PacketView {
    /// The address of the first `A` record among the answers.
    pub open spec fn first_a(self) -> Option<Seq<u8>> {
        first_a_from(self.answers, 0)
    }

    /// The address of the first additional record that is an `A` record for
    /// the host of a name server of a zone that `qname` lies in.
    pub open spec fn glue_for(self, qname: Seq<char>) -> Option<Seq<u8>> {
        first_glue_from(self.resources, ns_pairs(self.authorities, qname), 0)
    }

    /// The host of the first name server of a zone that `qname` lies in.
    pub open spec fn host_for(self, qname: Seq<char>) -> Option<Seq<char>> {
        if ns_pairs(self.authorities, qname).len() > 0 {
            Some(ns_pairs(self.authorities, qname)[0].1)
        } else {
            None
        }
    }
}

/// An address that may be missing, as plain values.
pub open spec fn addr_view(addr: Option<[u8; 4]>) -> Option<Seq<u8>> {
    match addr {
        Some(a) => Some(a@),
        None => None,
    }
}

/// A list of pairs of names, as plain values.
pub open spec fn pairs_view(pairs: Seq<(String, String)>) -> Seq<(Seq<char>, Seq<char>)> {
    Seq::new(pairs.len(), |i: int| (pairs[i].0@, pairs[i].1@))
}

fn read_questions(buffer: &mut PacketBuffer, count: u16) -> (res: Result<
    Vec<DnsQuestion>,
    DnsError,
>)
    ensures
        final(buffer).bytes() == old(buffer).bytes(),
        match parse_questions(old(buffer).bytes(), old(buffer).cursor(), count as nat) {
            Ok((questions, next)) => res is Ok && questions_view(res->Ok_0@) == questions
                && final(buffer).cursor() == next,
            Err(e) => res is Err && res->Err_0 == e,
        },
{
    let ghost bytes = buffer.bytes();
    let ghost start = buffer.cursor();
    let mut out: Vec<DnsQuestion> = Vec::new();
    let mut i: u16 = 0;
    assert(questions_view(out@) =~= Seq::empty());
    while i < count
        invariant
            i <= count,
            buffer.bytes() == bytes,
            bytes == old(buffer).bytes(),
            start == old(buffer).cursor(),
            parse_questions(bytes, start, i as nat) == Ok::<(Seq<QuestionView>, int), DnsError>(
                (questions_view(out@), buffer.cursor()),
            ),
        decreases count - i,
    {
        let ghost before = questions_view(out@);
        match DnsQuestion::read(buffer) {
            Err(e) => {
                proof {
                    lemma_questions_error(bytes, start, (i + 1) as nat, count as nat);
                }
                return Err(e);
            },
            Ok(question) => {
                out.push(question);
                assert(questions_view(out@) =~= before.push(question@));
            },
        }
        i = i + 1;
    }
    Ok(out)
}

fn read_records(buffer: &mut PacketBuffer, count: u16) -> (res: Result<Vec<DnsRecord>, DnsError>)
    ensures
        final(buffer).bytes() == old(buffer).bytes(),
        match parse_records(old(buffer).bytes(), old(buffer).cursor(), count as nat) {
            Ok((records, next)) => res is Ok && records_view(res->Ok_0@) == records
                && final(buffer).cursor() == next,
            Err(e) => res is Err && res->Err_0 == e,
        },
{
    let ghost bytes = buffer.bytes();
    let ghost start = buffer.cursor();
    let mut out: Vec<DnsRecord> = Vec::new();
    let mut i: u16 = 0;
    assert(records_view(out@) =~= Seq::empty());
    while i < count
        invariant
            i <= count,
            buffer.bytes() == bytes,
            bytes == old(buffer).bytes(),
            start == old(buffer).cursor(),
            parse_records(bytes, start, i as nat) == Ok::<(Seq<RecordView>, int), DnsError>(
                (records_view(out@), buffer.cursor()),
            ),
        decreases count - i,
    {
        let ghost before = records_view(out@);
        match DnsRecord::read(buffer) {
            Err(e) => {
                proof {
                    lemma_records_error(bytes, start, (i + 1) as nat, count as nat);
                }
                return Err(e);
            },
            Ok(record) => {
                out.push(record);
                assert(records_view(out@) =~= before.push(record@));
            },
        }
        i = i + 1;
    }
    Ok(out)
}

/// Where reading the first `failed` questions fails, reading more of them
/// fails in the same way.
proof fn lemma_questions_error(bytes: Seq<u8>, at: int, failed: nat, count: nat)
    requires
        failed <= count,
        parse_questions(bytes, at, failed) is Err,
    ensures
        parse_questions(bytes, at, count) == parse_questions(bytes, at, failed),
    decreases count,
{
    if failed < count {
        lemma_questions_error(bytes, at, failed, (count - 1) as nat);
    }
}

/// Where reading the first `failed` records fails, reading more of them
/// fails in the same way.
proof fn lemma_records_error(bytes: Seq<u8>, at: int, failed: nat, count: nat)
    requires
        failed <= count,
        parse_records(bytes, at, failed) is Err,
    ensures
        parse_records(bytes, at, count) == parse_records(bytes, at, failed),
    decreases count,
{
    if failed < count {
        lemma_records_error(bytes, at, failed, (count - 1) as nat);
    }
}

/// The wire form of a list of questions. `LabelTooLong` where the name of
/// one of them cannot be encoded; otherwise `BufferOverflow` where the wire
/// form is longer than a buffer.
fn questions_to_wire(questions: &Vec<DnsQuestion>) -> (res: Result<Vec<u8>, DnsError>)
    ensures
        match res {
            Ok(wire) => questions_encodable(questions_view(questions@)) && wire@
                == questions_wire(questions_view(questions@)) && questions@.len() <= wire@.len()
                <= 512,
            Err(e) => if questions_encodable(questions_view(questions@)) {
                e == DnsError::BufferOverflow && questions_wire(questions_view(questions@)).len()
                    > 512
            } else {
                e == DnsError::LabelTooLong
            },
        },
{
    let ghost all = questions_view(questions@);
    let mut out: Vec<u8> = Vec::new();
    let mut fits: bool = true;
    let mut i: usize = 0;
    assert(all.take(0) =~= Seq::empty());
    while i < questions.len()
        invariant
            i <= questions@.len(),
            all == questions_view(questions@),
            forall|k: int| 0 <= k < i ==> encodable(#[trigger] all[k].name),
            fits ==> out@ == questions_wire(all.take(i as int)) && i <= out@.len() <= 512,
            !fits ==> questions_wire(all.take(i as int)).len() > 512,
        decreases questions@.len() - i,
    {
        proof {
            assert(all.take(i + 1).drop_last() =~= all.take(i as int));
            assert(all.take(i + 1).last() == all[i as int]);
        }
        match questions[i].to_wire() {
            Err(e) => {
                return Err(e);
            },
            Ok(part) => {
                let mut part = part;
                if fits {
                    if part.len() > 512 - out.len() {
                        fits = false;
                    } else {
                        out.append(&mut part);
                    }
                }
            },
        }
        i = i + 1;
    }
    assert(all.take(i as int) =~= all);
    if fits {
        Ok(out)
    } else {
        Err(DnsError::BufferOverflow)
    }
}

/// The wire form of a list of records and the number of records that are
/// written. `LabelTooLong` where a name of one of them cannot be encoded;
/// otherwise `BufferOverflow` where the wire form is longer than a buffer.
fn records_to_wire(records: &Vec<DnsRecord>) -> (res: Result<(Vec<u8>, usize), DnsError>)
    ensures
        match res {
            Ok((wire, count)) => records_encodable(records_view(records@)) && wire@
                == records_wire(records_view(records@)) && count == emitted_count(
                records_view(records@),
            ) && count <= wire@.len() <= 512,
            Err(e) => if records_encodable(records_view(records@)) {
                e == DnsError::BufferOverflow && records_wire(records_view(records@)).len() > 512
            } else {
                e == DnsError::LabelTooLong
            },
        },
{
    let ghost all = records_view(records@);
    let mut out: Vec<u8> = Vec::new();
    let mut count: usize = 0;
    let mut fits: bool = true;
    let mut i: usize = 0;
    assert(all.take(0) =~= Seq::empty());
    while i < records.len()
        invariant
            i <= records@.len(),
            all == records_view(records@),
            forall|k: int| 0 <= k < i ==> (#[trigger] all[k]).encodable(),
            fits ==> out@ == records_wire(all.take(i as int)) && count == emitted_count(
                all.take(i as int),
            ) && count <= out@.len() <= 512,
            !fits ==> records_wire(all.take(i as int)).len() > 512,
        decreases records@.len() - i,
    {
        proof {
            assert(all.take(i + 1).drop_last() =~= all.take(i as int));
            assert(all.take(i + 1).last() == all[i as int]);
        }
        match records[i].to_wire() {
            Err(e) => {
                match e {
                    DnsError::LabelTooLong => {
                        return Err(DnsError::LabelTooLong);
                    },
                    _ => {
                        fits = false;
                    },
                }
            },
            Ok(part) => {
                let mut part = part;
                if fits {
                    if part.len() > 512 - out.len() {
                        fits = false;
                    } else {
                        if part.len() > 0 {
                            count = count + 1;
                        }
                        out.append(&mut part);
                    }
                }
            },
        }
        i = i + 1;
    }
    assert(all.take(i as int) =~= all);
    if fits {
        Ok((out, count))
    } else {
        Err(DnsError::BufferOverflow)
    }
}

/// Whether a result is the error `LabelTooLong`.
fn is_label_error<T>(res: &Result<T, DnsError>) -> (bad: bool)
    ensures
        bad == (res is Err && res->Err_0 == DnsError::LabelTooLong),
{
    match res {
        Err(DnsError::LabelTooLong) => true,
        _ => false,
    }
}

impl DnsPacket {
    /// An empty message with the header of `DnsHeader::new`.
    pub fn new() -> (packet: DnsPacket)
        ensures
            packet@ == (PacketView {
                header: DnsHeader::empty(),
                questions: Seq::empty(),
                answers: Seq::empty(),
                authorities: Seq::empty(),
                resources: Seq::empty(),
            }),
    {
        let packet = DnsPacket {
            header: DnsHeader::new(),
            questions: Vec::new(),
            answers: Vec::new(),
            authorities: Vec::new(),
            resources: Vec::new(),
        };
        assert(packet@.questions =~= Seq::empty());
        assert(packet@.answers =~= Seq::empty());
        assert(packet@.authorities =~= Seq::empty());
        assert(packet@.resources =~= Seq::empty());
        packet
    }

    /// Reads a message at the cursor and moves the cursor past it. Whatever
    /// is wrong with the bytes, the error is `BadPacket`, and the cursor
    /// stays.
    pub fn from_buffer(buffer: &mut PacketBuffer) -> (res: Result<DnsPacket, DnsError>)
        ensures
            final(buffer).bytes() == old(buffer).bytes(),
            match parse_packet(old(buffer).bytes(), old(buffer).cursor()) {
                Ok((packet, next)) => res is Ok && res->Ok_0@ == packet && final(buffer).cursor()
                    == next,
                Err(_) => res is Err && res->Err_0 == DnsError::BadPacket
                    && final(buffer).cursor() == old(buffer).cursor(),
            },
    {
        let start: usize = buffer.pos();
        let header = match DnsHeader::read(buffer) {
            Ok(header) => header,
            Err(_) => {
                return Err(DnsError::BadPacket);
            },
        };
        let questions = match read_questions(buffer, header.questions) {
            Ok(questions) => questions,
            Err(_) => {
                let _ = buffer.seek(start);
                return Err(DnsError::BadPacket);
            },
        };
        let answers = match read_records(buffer, header.answers) {
            Ok(records) => records,
            Err(_) => {
                let _ = buffer.seek(start);
                return Err(DnsError::BadPacket);
            },
        };
        let authorities = match read_records(buffer, header.authorities) {
            Ok(records) => records,
            Err(_) => {
                let _ = buffer.seek(start);
                return Err(DnsError::BadPacket);
            },
        };
        let resources = match read_records(buffer, header.resources) {
            Ok(records) => records,
            Err(_) => {
                let _ = buffer.seek(start);
                return Err(DnsError::BadPacket);
            },
        };
        Ok(DnsPacket { header, questions, answers, authorities, resources })
    }
    /// Writes the message at the cursor and moves the cursor past it. The
    /// counts of the header that is written are the numbers of entries that
    /// are written, whatever the header of the message says; records of a
    /// type that the library does not know are left out. `LabelTooLong`
    /// where a name that would be written cannot be encoded; otherwise
    /// `BufferOverflow` where the message does not fit. On failure nothing
    /// is written.
    pub fn write(&self, buffer: &mut PacketBuffer) -> (res: Result<(), DnsError>)
        ensures
            match res {
                Ok(()) => self@.encodable() && old(buffer).cursor() + self@.wire().len() <= 512
                    && final(buffer).cursor() == old(buffer).cursor() + self@.wire().len()
                    && final(buffer).bytes() == splice(
                    old(buffer).bytes(),
                    old(buffer).cursor(),
                    self@.wire(),
                ),
                Err(e) => *final(buffer) == *old(buffer) && if self@.encodable() {
                    e == DnsError::BufferOverflow && old(buffer).cursor() + self@.wire().len()
                        > 512
                } else {
                    e == DnsError::LabelTooLong
                },
            },
    {
        proof {
            use_type_invariant(&*buffer);
        }
        match self.to_wire() {
            Err(e) => Err(e),
            Ok(wire) => buffer.write_bytes(wire.as_slice()),
        }
    }

    /// The wire form of the message. `LabelTooLong` where a name that would
    /// be written cannot be encoded; otherwise `BufferOverflow` where the
    /// wire form is longer than a buffer.
    pub fn to_wire(&self) -> (res: Result<Vec<u8>, DnsError>)
        ensures
            match res {
                Ok(wire) => self@.encodable() && wire@ == self@.wire() && wire@.len() <= 512,
                Err(e) => if self@.encodable() {
                    e == DnsError::BufferOverflow && self@.wire().len() > 512
                } else {
                    e == DnsError::LabelTooLong
                },
            },
    {
        let questions = questions_to_wire(&self.questions);
        let answers = records_to_wire(&self.answers);
        let authorities = records_to_wire(&self.authorities);
        let resources = records_to_wire(&self.resources);
        if is_label_error(&questions) || is_label_error(&answers) || is_label_error(&authorities)
            || is_label_error(&resources) {
            return Err(DnsError::LabelTooLong);
        }
        match (questions, answers, authorities, resources) {
            (Ok(q), Ok((a, a_count)), Ok((u, u_count)), Ok((r, r_count))) => {
                if 12 + q.len() + a.len() + u.len() + r.len() > 512 {
                    return Err(DnsError::BufferOverflow);
                }
                let header = DnsHeader {
                    id: self.header.id,
                    response: self.header.response,
                    opcode: self.header.opcode,
                    authoritative: self.header.authoritative,
                    truncated: self.header.truncated,
                    recursion_desired: self.header.recursion_desired,
                    recursion_available: self.header.recursion_available,
                    z: self.header.z,
                    rescode: self.header.rescode,
                    questions: self.questions.len() as u16,
                    answers: a_count as u16,
                    authorities: u_count as u16,
                    resources: r_count as u16,
                };
                assert(header == self@.wire_header());
                let mut wire = header.to_wire();
                let mut q = q;
                let mut a = a;
                let mut u = u;
                let mut r = r;
                wire.append(&mut q);
                wire.append(&mut a);
                wire.append(&mut u);
                wire.append(&mut r);
                Ok(wire)
            },
            _ => Err(DnsError::BufferOverflow),
        }
    }
    /// The address of the first `A` record among the answers, if there is one.
    pub fn random_a(&self) -> (res: Option<[u8; 4]>)
        ensures
            match res {
                Some(addr) => exists|i: int|
                    0 <= i < self@.answers.len() && (#[trigger] self@.answers[i]) is A
                        && self@.answers[i]->A_addr == addr@ && forall|k: int|
                        0 <= k < i ==> !((#[trigger] self@.answers[k]) is A),
                None => forall|i: int|
                    0 <= i < self@.answers.len() ==> !((#[trigger] self@.answers[i]) is A),
            },
            addr_view(res) == self@.first_a(),
    {
        let mut i: usize = 0;
        while i < self.answers.len()
            invariant
                i <= self.answers@.len(),
                forall|k: int| 0 <= k < i ==> !((#[trigger] self@.answers[k]) is A),
                self@.first_a() == first_a_from(self@.answers, i as int),
            decreases self.answers@.len() - i,
        {
            match &self.answers[i] {
                DnsRecord::A { addr, .. } => {
                    assert(self@.answers[i as int] is A);
                    return Some(*addr);
                },
                _ => {
                    assert(!(self@.answers[i as int] is A));
                },
            }
            i = i + 1;
        }
        None
    }

    /// The name servers of the zones that `qname` lies in: of each `NS`
    /// record among the authority records whose name `qname` ends with, the
    /// name and the host, in the order of the records.
    pub fn get_ns(&self, qname: &str) -> (res: Vec<(String, String)>)
        ensures
            pairs_view(res@) == ns_pairs(self@.authorities, qname@),
    {
        let name = chars_of(qname);
        let ghost all = self@.authorities;
        let mut out: Vec<(String, String)> = Vec::new();
        let mut i: usize = 0;
        assert(all.take(0) =~= Seq::empty());
        assert(pairs_view(out@) =~= Seq::empty());
        while i < self.authorities.len()
            invariant
                i <= self.authorities@.len(),
                all == self@.authorities,
                name@ == qname@,
                pairs_view(out@) == ns_pairs(all.take(i as int), qname@),
            decreases self.authorities@.len() - i,
        {
            proof {
                assert(all.take(i + 1).drop_last() =~= all.take(i as int));
                assert(all.take(i + 1).last() == all[i as int]);
            }
            let ghost before = pairs_view(out@);
            match &self.authorities[i] {
                DnsRecord::NS { domain, host, .. } => {
                    let zone = chars_of(domain.as_str());
                    if ends_with(&name, &zone) {
                        out.push((domain.clone(), host.clone()));
                        assert(pairs_view(out@) =~= before.push((domain@, host@)));
                    }
                },
                _ => {},
            }
            i = i + 1;
        }
        assert(all.take(i as int) =~= all);
        out
    }

    /// The address of the first `A` record among the additional records
    /// whose name is the host of one of the name servers of `get_ns`.
    #[verifier::loop_isolation(false)]
    pub fn get_resolved_ns(&self, qname: &str) -> (res: Option<[u8; 4]>)
        ensures
            match res {
                Some(addr) => exists|i: int|
                    0 <= i < self@.resources.len() && is_glue(
                        #[trigger] self@.resources[i],
                        ns_pairs(self@.authorities, qname@),
                    ) && self@.resources[i]->A_addr == addr@ && forall|k: int|
                        0 <= k < i ==> !is_glue(
                            #[trigger] self@.resources[k],
                            ns_pairs(self@.authorities, qname@),
                        ),
                None => forall|i: int|
                    0 <= i < self@.resources.len() ==> !is_glue(
                        #[trigger] self@.resources[i],
                        ns_pairs(self@.authorities, qname@),
                    ),
            },
            addr_view(res) == self@.glue_for(qname@),
    {
        let servers = self.get_ns(qname);
        let ghost pairs = ns_pairs(self@.authorities, qname@);
        let mut i: usize = 0;
        while i < self.resources.len()
            invariant
                i <= self.resources@.len(),
                pairs == ns_pairs(self@.authorities, qname@),
                pairs_view(servers@) == pairs,
                forall|k: int| 0 <= k < i ==> !is_glue(#[trigger] self@.resources[k], pairs),
                self@.glue_for(qname@) == first_glue_from(self@.resources, pairs, i as int),
            decreases self.resources@.len() - i,
        {
            match &self.resources[i] {
                DnsRecord::A { domain, addr, .. } => {
                    let name = chars_of(domain.as_str());
                    let mut j: usize = 0;
                    while j < servers.len()
                        invariant
                            j <= servers@.len(),
                            name@ == domain@,
                            pairs_view(servers@) == pairs,
                            forall|m: int| 0 <= m < j ==> (#[trigger] pairs[m]).1 != domain@,
                        decreases servers@.len() - j,
                    {
                        let host = chars_of(servers[j].1.as_str());
                        assert(pairs[j as int] == (servers@[j as int].0@, servers@[j as int].1@));
                        if same_chars(&host, &name) {
                            assert(is_glue(self@.resources[i as int], pairs));
                            return Some(*addr);
                        }
                        j = j + 1;
                    }
                    assert(!is_glue(self@.resources[i as int], pairs));
                },
                _ => {
                    assert(!is_glue(self@.resources[i as int], pairs));
                },
            }
            i = i + 1;
        }
        None
    }

    /// The host of the first name server of `get_ns`, whether or not its
    /// address is among the additional records.
    pub fn get_unresolved_ns(&self, qname: &str) -> (res: Option<String>)
        ensures
            match res {
                Some(host) => ns_pairs(self@.authorities, qname@).len() > 0 && host@ == ns_pairs(
                    self@.authorities,
                    qname@,
                )[0].1,
                None => ns_pairs(self@.authorities, qname@).len() == 0,
            },
            match res {
                Some(host) => self@.host_for(qname@) == Some(host@),
                None => self@.host_for(qname@) is None,
            },
    {
        let servers = self.get_ns(qname);
        if servers.len() == 0 {
            None
        } else {
            assert(pairs_view(servers@)[0] == (servers@[0].0@, servers@[0].1@));
            Some(servers[0].1.clone())
        }
    }
}

} // verus!
