//! What decoding gives back of a message that this library encoded.

use vstd::prelude::*;
use vstd::utf8::{encode_utf8, is_ascii_chars, is_ascii_chars_encode_utf8};
use crate::buffer::{u16_at, u16_bytes, u32_at, u32_bytes};
use crate::buffer::{splice, zeros};
use crate::header::{header_wire, lemma_header_round_trip, parse_header, DnsHeader};
use crate::packet::{
    emitted_count, parse_packet, parse_questions, parse_records, questions_encodable,
    questions_wire, records_encodable, records_wire, PacketView,
};
use crate::query_type::QueryType;
use crate::question::{parse_question, question_wire, QuestionView};
use crate::record::{parse_record, u16s_at, u16s_wire, RecordView};
use crate::error::DnsError;
use crate::name::{
    encodable, join_names, label_text, labels_fit_from, lemma_next_dot_bounds, lower, name_wire,
    next_dot, parse_name, parse_name_from, wire_from, ParsedName,
};

verus! {

/// Whether `bytes` holds `part` from offset `at` on.
pub open spec fn holds_at(bytes: Seq<u8>, at: int, part: Seq<u8>) -> bool {
    &&& bytes.len() == 512
    &&& 0 <= at
    &&& at + part.len() <= 512
    &&& forall|k: int| 0 <= k < part.len() ==> bytes[at + k] == part[k]
}

/// Where `bytes` holds two parts one behind the other, it holds each.
pub proof fn lemma_holds_split(bytes: Seq<u8>, at: int, first: Seq<u8>, second: Seq<u8>)
    requires
        holds_at(bytes, at, first + second),
    ensures
        holds_at(bytes, at, first),
        holds_at(bytes, at + first.len(), second),
{
    assert forall|k: int| 0 <= k < first.len() implies bytes[at + k] == first[k] by {
        assert((first + second)[k] == first[k]);
    }
    assert forall|k: int| 0 <= k < second.len() implies bytes[at + first.len() + k]
        == second[k] by {
        assert((first + second)[first.len() + k] == second[k]);
    }
}

/// Whether no label of `s` from offset `from` on is empty. On the wire an
/// empty label is a zero byte, at which a reader takes the name to end.
pub open spec fn labels_full_from(s: Seq<u8>, from: int) -> bool
    decreases s.len() - from,
    when 0 <= from <= s.len()
{
    let dot = next_dot(s, from);
    dot > from && (dot >= s.len() || {
        proof {
            lemma_next_dot_bounds(s, from);
        }
        labels_full_from(s, dot + 1)
    })
}

/// Whether a name is read back whole from its wire form: none of its labels
/// is empty. The empty name has an empty label, and so has a name that
/// starts or ends with a dot or has two dots in a row.
pub open spec fn readable(name: Seq<char>) -> bool {
    labels_full_from(encode_utf8(name), 0)
}

/// The text that is read from the wire form of the labels of `s` from offset
/// `from` on, where none of them is empty: the labels, capitals made small,
/// with dots between them.
pub open spec fn text_from(s: Seq<u8>, from: int) -> Seq<char>
    decreases s.len() - from,
    when 0 <= from <= s.len()
{
    let dot = next_dot(s, from);
    let head = label_text(s.subrange(from, dot));
    if dot >= s.len() {
        head
    } else {
        proof {
            lemma_next_dot_bounds(s, from);
        }
        join_names(head, text_from(s, dot + 1))
    }
}

/// The name that is read from the wire form of `name`.
pub open spec fn name_echo(name: Seq<char>) -> Seq<char> {
    text_from(encode_utf8(name), 0)
}

/// A name is canonical when it is made of ASCII characters without
/// capitals, and none of its labels is empty: it is not empty, it neither
/// starts nor ends with a dot, and it has no two dots in a row.
pub open spec fn canonical_name(name: Seq<char>) -> bool {
    &&& forall|i: int|
        0 <= i < name.len() ==> (#[trigger] name[i]) <= '\u{7f}' && !('A' <= name[i] <= 'Z')
    &&& name.len() > 0
    &&& name[0] != '.' && name[name.len() - 1] != '.'
    &&& forall|i: int| 0 <= i < name.len() - 1 ==> !(#[trigger] name[i] == '.'
        && name[i + 1] == '.')
}

/// The wire form of the labels of `s`, none of which is empty, is read back
/// as `text_from` says, and without a jump.
pub proof fn lemma_wire_read_back(bytes: Seq<u8>, at: int, s: Seq<u8>, from: int, jumps: nat)
    requires
        0 <= from <= s.len(),
        labels_fit_from(s, from),
        labels_full_from(s, from),
        holds_at(bytes, at, wire_from(s, from)),
        jumps <= 5,
    ensures
        parse_name_from(bytes, at, jumps) == Ok::<ParsedName, DnsError>(
            ParsedName {
                name: text_from(s, from),
                next: at + wire_from(s, from).len(),
                jumps: jumps,
            },
        ),
    decreases s.len() - from,
{
    lemma_next_dot_bounds(s, from);
    let dot = next_dot(s, from);
    let wire = wire_from(s, from);
    let label = s.subrange(from, dot);
    let len = dot - from;
    let head = seq![len as u8] + label;
    let tail = if dot >= s.len() {
        seq![0u8]
    } else {
        wire_from(s, dot + 1)
    };
    assert(wire =~= head + tail);
    lemma_holds_split(bytes, at, head, tail);
    assert(bytes[at + 0] == head[0]);
    assert(bytes[at] == len as u8);
    assert(head.len() == len + 1);
    assert(bytes.subrange(at + 1, at + 1 + len) =~= label) by {
        assert forall|k: int| 0 <= k < len implies bytes[at + 1 + k] == label[k] by {
            assert(bytes[at + (k + 1)] == head[k + 1]);
        }
    }
    let mid = at + 1 + len;
    if dot >= s.len() {
        assert(bytes[mid + 0] == tail[0]);
        assert(parse_name_from(bytes, mid, jumps) == Ok::<ParsedName, DnsError>(
            ParsedName { name: Seq::empty(), next: mid + 1, jumps: jumps },
        ));
        assert(join_names(label_text(label), Seq::empty()) =~= label_text(label));
    } else {
        lemma_wire_read_back(bytes, mid, s, dot + 1, jumps);
    }
}

/// The wire form of a name that can be encoded and has no empty label is
/// read back as the echo of the name, without a jump, and the cursor ends
/// behind the wire form.
pub proof fn lemma_name_read_back(bytes: Seq<u8>, at: int, name: Seq<char>)
    requires
        encodable(name),
        readable(name),
        holds_at(bytes, at, name_wire(name)),
    ensures
        parse_name(bytes, at) == Ok::<ParsedName, DnsError>(
            ParsedName { name: name_echo(name), next: at + name_wire(name).len(), jumps: 0 },
        ),
{
    lemma_wire_read_back(bytes, at, encode_utf8(name), 0, 0);
}

/// A character is a number from zero up to the largest code point.
proof fn lemma_char_range(c: char)
    ensures
        0 <= c as int <= 0x10FFFF,
        c as u32 == c as int,
        c as int <= 127 ==> c as u8 == c as int && (c as u8) as char == c,
{
}

/// The text of the labels of `s` from a place on where no label is empty is
/// the characters of `s` from that place on, where `s` is the bytes of a
/// canonical name.
proof fn lemma_text_of_canonical(name: Seq<char>, s: Seq<u8>, from: int)
    requires
        canonical_name(name),
        s.len() == name.len(),
        forall|i: int| 0 <= i < name.len() ==> s[i] == (#[trigger] name[i]) as u8,
        0 <= from < s.len(),
        s[from] != 46,
    ensures
        text_from(s, from) == name.skip(from),
        labels_full_from(s, from),
    decreases s.len() - from,
{
    lemma_next_dot_bounds(s, from);
    let dot = next_dot(s, from);
    let head = label_text(s.subrange(from, dot));
    assert forall|k: int| 0 <= k < dot - from implies head[k] == name[from + k] by {
        let c = name[from + k];
        lemma_char_range(c);
        assert(s[from + k] == c as u8);
        assert(lower(s[from + k]) == s[from + k]);
    }
    if dot >= s.len() {
        assert(head =~= name.skip(from));
    } else {
        assert(s[dot] == 46);
        assert(name[dot] == '.') by {
            lemma_char_range(name[dot]);
            assert(s[dot] == name[dot] as u8);
        }
        assert(dot + 1 < s.len());
        assert(s[dot + 1] != 46) by {
            lemma_char_range(name[dot + 1]);
            assert(s[dot + 1] == name[dot + 1] as u8);
            assert(!(name[dot] == '.' && name[dot + 1] == '.'));
        }
        lemma_text_of_canonical(name, s, dot + 1);
        let rest = name.skip(dot + 1);
        assert(rest.len() > 0);
        assert(head.len() > 0);
        assert(join_names(head, rest) =~= name.skip(from));
    }
}

/// A canonical name is read back whole, and is its own echo.
pub proof fn lemma_canonical_echo(name: Seq<char>)
    requires
        canonical_name(name),
    ensures
        readable(name),
        name_echo(name) == name,
{
    assert(is_ascii_chars(name)) by {
        assert forall|i: int| 0 <= i < name.len() implies '\0' <= #[trigger] name[i]
            <= '\u{7f}' by {
            lemma_char_range(name[i]);
        }
    }
    is_ascii_chars_encode_utf8(name);
    let s = encode_utf8(name);
    lemma_char_range(name[0]);
    assert(s[0] == name[0] as u8);
    lemma_text_of_canonical(name, s, 0);
    assert(name.skip(0) =~= name);
}

/// Two bytes that `bytes` holds are read as the number that they spell.
proof fn lemma_u16_read_back(bytes: Seq<u8>, at: int, val: u16)
    requires
        holds_at(bytes, at, u16_bytes(val)),
    ensures
        u16_at(bytes, at) == val,
{
    assert(bytes[at + 0] == u16_bytes(val)[0]);
    assert(bytes[at + 1] == u16_bytes(val)[1]);
}

/// Four bytes that `bytes` holds are read as the number that they spell.
proof fn lemma_u32_read_back(bytes: Seq<u8>, at: int, val: u32)
    requires
        holds_at(bytes, at, u32_bytes(val)),
    ensures
        u32_at(bytes, at) == val,
{
    assert(bytes[at + 0] == u32_bytes(val)[0]);
    assert(bytes[at + 1] == u32_bytes(val)[1]);
    assert(bytes[at + 2] == u32_bytes(val)[2]);
    assert(bytes[at + 3] == u32_bytes(val)[3]);
}

/// The question that is read from the wire form of `q`.
pub open spec fn question_echo(q: QuestionView) -> QuestionView {
    QuestionView { name: name_echo(q.name), qtype: QueryType::of_code(q.qtype.code()) }
}

/// The wire form of a question is read back as the echo of the question.
pub proof fn lemma_question_read_back(bytes: Seq<u8>, at: int, q: QuestionView)
    requires
        encodable(q.name),
        readable(q.name),
        holds_at(bytes, at, question_wire(q)),
    ensures
        parse_question(bytes, at) == Ok::<(QuestionView, int), DnsError>(
            (question_echo(q), at + question_wire(q).len()),
        ),
{
    let name = name_wire(q.name);
    let code = u16_bytes(q.qtype.code());
    lemma_holds_split(bytes, at, name + code, u16_bytes(1));
    lemma_holds_split(bytes, at, name, code);
    lemma_name_read_back(bytes, at, q.name);
    lemma_u16_read_back(bytes, at + name.len(), q.qtype.code());
}

impl RecordView {
    /// Whether the addresses of the record have their length: four bytes,
    /// or eight groups.
    pub open spec fn valid(self) -> bool {
        match self {
            RecordView::A { addr, .. } => addr.len() == 4,
            RecordView::AAAA { addr, .. } => addr.len() == 8,
            _ => true,
        }
    }

    /// Whether every name of the record that is written is read back whole.
    pub open spec fn readable(self) -> bool {
        match self {
            RecordView::UNKNOWN { .. } => true,
            RecordView::A { domain, .. } => readable(domain),
            RecordView::NS { domain, host, .. } => readable(domain) && readable(host),
            RecordView::CNAME { domain, host, .. } => readable(domain) && readable(host),
            RecordView::MX { domain, host, .. } => readable(domain) && readable(host),
            RecordView::AAAA { domain, .. } => readable(domain),
        }
    }

    /// The record that is read from the wire form of this one.
    pub open spec fn echo(self) -> RecordView {
        match self {
            RecordView::UNKNOWN { domain, qtype, data_len, ttl } => self,
            RecordView::A { domain, addr, ttl } => RecordView::A {
                domain: name_echo(domain),
                addr,
                ttl,
            },
            RecordView::NS { domain, host, ttl } => RecordView::NS {
                domain: name_echo(domain),
                host: name_echo(host),
                ttl,
            },
            RecordView::CNAME { domain, host, ttl } => RecordView::CNAME {
                domain: name_echo(domain),
                host: name_echo(host),
                ttl,
            },
            RecordView::MX { domain, priority, host, ttl } => RecordView::MX {
                domain: name_echo(domain),
                priority,
                host: name_echo(host),
                ttl,
            },
            RecordView::AAAA { domain, addr, ttl } => RecordView::AAAA {
                domain: name_echo(domain),
                addr,
                ttl,
            },
        }
    }
}

/// The wire form of a record that is written is read back as the echo of the
/// record.
pub proof fn lemma_record_read_back(bytes: Seq<u8>, at: int, r: RecordView)
    requires
        r.emitted(),
        r.valid(),
        r.readable(),
        r.encodable(),
        holds_at(bytes, at, r.wire()),
    ensures
        parse_record(bytes, at) == Ok::<(RecordView, int), DnsError>(
            (r.echo(), at + r.wire().len()),
        ),
{
    let name = name_wire(r.domain());
    let code = u16_bytes(r.code());
    let class = u16_bytes(1);
    let ttl = u32_bytes(r.ttl());
    let data = r.data_wire();
    let len = u16_bytes(data.len() as u16);
    lemma_holds_split(bytes, at, name + code + class + ttl + len, data);
    lemma_holds_split(bytes, at, name + code + class + ttl, len);
    lemma_holds_split(bytes, at, name + code + class, ttl);
    lemma_holds_split(bytes, at, name + code, class);
    lemma_holds_split(bytes, at, name, code);
    lemma_name_read_back(bytes, at, r.domain());
    let next = at + name.len();
    lemma_u16_read_back(bytes, next, r.code());
    lemma_u32_read_back(bytes, next + 4, r.ttl());
    let start = next + 10;
    assert(holds_at(bytes, start, data));
    match r {
        RecordView::UNKNOWN { .. } => {},
        RecordView::A { addr, .. } => {
            assert(bytes.subrange(start, start + 4) =~= addr) by {
                assert forall|k: int| 0 <= k < 4 implies bytes[start + k] == addr[k] by {
                    assert(bytes[start + k] == data[k]);
                }
            }
        },
        RecordView::NS { host, .. } => {
            lemma_name_read_back(bytes, start, host);
        },
        RecordView::CNAME { host, .. } => {
            lemma_name_read_back(bytes, start, host);
        },
        RecordView::MX { priority, host, .. } => {
            lemma_holds_split(bytes, start, u16_bytes(priority), name_wire(host));
            lemma_u16_read_back(bytes, start, priority);
            lemma_name_read_back(bytes, start + 2, host);
        },
        RecordView::AAAA { addr, .. } => {
            assert(data.len() == 16);
            assert(u16s_at(bytes, start, 8) =~= addr) by {
                assert forall|i: int| 0 <= i < 8 implies u16_at(bytes, start + 2 * i)
                    == addr[i] by {
                    assert(bytes[start + 2 * i] == data[2 * i]);
                    assert(bytes[start + (2 * i + 1)] == data[2 * i + 1]);
                    assert((2 * i) % 2 == 0 && (2 * i) / 2 == i);
                    assert((2 * i + 1) % 2 == 1 && (2 * i + 1) / 2 == i);
                }
            }
        },
    }
}

/// The questions that are read from the wire form of a list of questions.
pub open spec fn questions_echo(questions: Seq<QuestionView>) -> Seq<QuestionView> {
    Seq::new(questions.len(), |i: int| question_echo(questions[i]))
}

/// The records that are read from the wire form of a list of records: the
/// echo of each record that is written, in order.
pub open spec fn records_echo(records: Seq<RecordView>) -> Seq<RecordView>
    decreases records.len(),
{
    if records.len() == 0 {
        Seq::empty()
    } else if records.last().emitted() {
        records_echo(records.drop_last()).push(records.last().echo())
    } else {
        records_echo(records.drop_last())
    }
}

/// The records of a list that are written, in order.
pub open spec fn emitted_records(records: Seq<RecordView>) -> Seq<RecordView>
    decreases records.len(),
{
    if records.len() == 0 {
        Seq::empty()
    } else if records.last().emitted() {
        emitted_records(records.drop_last()).push(records.last())
    } else {
        emitted_records(records.drop_last())
    }
}

/// Whether every record of a list has addresses of the right length.
pub open spec fn records_valid(records: Seq<RecordView>) -> bool {
    forall|i: int| 0 <= i < records.len() ==> (#[trigger] records[i]).valid()
}

/// Whether every name of a list of records that is written is read back
/// whole.
pub open spec fn records_readable(records: Seq<RecordView>) -> bool {
    forall|i: int| 0 <= i < records.len() ==> (#[trigger] records[i]).readable()
}

/// Whether the name of every question of a list is read back whole.
pub open spec fn questions_readable(questions: Seq<QuestionView>) -> bool {
    forall|i: int| 0 <= i < questions.len() ==> readable(#[trigger] questions[i].name)
}

/// The wire form of a list of questions has at least four bytes for each.
pub proof fn lemma_questions_wire_len(questions: Seq<QuestionView>)
    ensures
        4 * questions.len() <= questions_wire(questions).len(),
    decreases questions.len(),
{
    if questions.len() > 0 {
        lemma_questions_wire_len(questions.drop_last());
    }
}

/// The wire form of a list of records has at least ten bytes for each that
/// is written, and as many records are read back as are written.
pub proof fn lemma_records_wire_len(records: Seq<RecordView>)
    ensures
        10 * emitted_count(records) <= records_wire(records).len(),
        records_echo(records).len() == emitted_count(records),
        emitted_records(records).len() == emitted_count(records),
    decreases records.len(),
{
    if records.len() > 0 {
        lemma_records_wire_len(records.drop_last());
    }
}

/// The wire form of a list of questions is read back as their echoes.
pub proof fn lemma_questions_read_back(bytes: Seq<u8>, at: int, questions: Seq<QuestionView>)
    requires
        questions_encodable(questions),
        questions_readable(questions),
        holds_at(bytes, at, questions_wire(questions)),
    ensures
        parse_questions(bytes, at, questions.len()) == Ok::<(Seq<QuestionView>, int), DnsError>(
            (questions_echo(questions), at + questions_wire(questions).len()),
        ),
    decreases questions.len(),
{
    if questions.len() == 0 {
        assert(questions_echo(questions) =~= Seq::empty());
    } else {
        let init = questions.drop_last();
        let last = questions.last();
        lemma_holds_split(bytes, at, questions_wire(init), question_wire(last));
        assert(questions_encodable(init) && questions_readable(init)) by {
            assert forall|i: int| 0 <= i < init.len() implies encodable(
                #[trigger] init[i].name,
            ) && readable(init[i].name) by {
                assert(init[i] == questions[i]);
            }
        }
        lemma_questions_read_back(bytes, at, init);
        assert(encodable(questions[questions.len() - 1].name));
        assert(readable(questions[questions.len() - 1].name));
        lemma_question_read_back(bytes, at + questions_wire(init).len(), last);
        assert(questions_echo(questions) =~= questions_echo(init).push(question_echo(last)));
    }
}

/// The wire form of a list of records is read back as the echoes of the
/// records that are written.
pub proof fn lemma_records_read_back(bytes: Seq<u8>, at: int, records: Seq<RecordView>)
    requires
        records_encodable(records),
        records_valid(records),
        records_readable(records),
        holds_at(bytes, at, records_wire(records)),
    ensures
        parse_records(bytes, at, emitted_count(records)) == Ok::<(Seq<RecordView>, int), DnsError>(
            (records_echo(records), at + records_wire(records).len()),
        ),
    decreases records.len(),
{
    if records.len() > 0 {
        let init = records.drop_last();
        let last = records.last();
        lemma_holds_split(bytes, at, records_wire(init), last.wire());
        assert(records_encodable(init) && records_valid(init) && records_readable(init)) by {
            assert forall|i: int| 0 <= i < init.len() implies (#[trigger] init[i]).encodable()
                && init[i].valid() && init[i].readable() by {
                assert(init[i] == records[i]);
            }
        }
        lemma_records_read_back(bytes, at, init);
        assert(records[records.len() - 1].encodable() && records[records.len() - 1].valid());
        assert(records[records.len() - 1].readable());
        if last.emitted() {
            lemma_record_read_back(bytes, at + records_wire(init).len(), last);
        } else {
            assert(last.wire().len() == 0);
        }
    }
}

impl PacketView {
    /// Whether the fields of the header are within their bits and the
    /// addresses have their length.
    pub open spec fn valid(self) -> bool {
        &&& self.header.in_range()
        &&& records_valid(self.answers)
        &&& records_valid(self.authorities)
        &&& records_valid(self.resources)
    }

    /// Whether every name of the message that is written is read back
    /// whole: none has an empty label.
    pub open spec fn readable(self) -> bool {
        &&& questions_readable(self.questions)
        &&& records_readable(self.answers)
        &&& records_readable(self.authorities)
        &&& records_readable(self.resources)
    }

    /// The message that is read from the wire form of this one.
    pub open spec fn echo(self) -> PacketView {
        PacketView {
            header: self.wire_header(),
            questions: questions_echo(self.questions),
            answers: records_echo(self.answers),
            authorities: records_echo(self.authorities),
            resources: records_echo(self.resources),
        }
    }

    /// The message without the records that are left out on encoding, and
    /// with the counts of the header set to what is left.
    pub open spec fn without_unknown(self) -> PacketView {
        PacketView {
            header: self.wire_header(),
            questions: self.questions,
            answers: emitted_records(self.answers),
            authorities: emitted_records(self.authorities),
            resources: emitted_records(self.resources),
        }
    }
}

/// A header that `bytes` holds is read back as it was written.
proof fn lemma_header_read_back(bytes: Seq<u8>, at: int, h: DnsHeader)
    requires
        h.in_range(),
        holds_at(bytes, at, header_wire(h)),
    ensures
        header_wire(h).len() == 12,
        parse_header(bytes, at) == h,
{
    assert(header_wire(h).len() == 12);
    assert(splice(bytes, at, header_wire(h)) =~= bytes);
    lemma_header_round_trip(h, bytes, at);
}

/// The four parts behind the header, as `bytes` holds them one behind the
/// other, are read back as the echoes of the sections.
proof fn lemma_sections_read_back(bytes: Seq<u8>, at: int, p: PacketView)
    requires
        p.valid(),
        p.readable(),
        p.encodable(),
        holds_at(
            bytes,
            at,
            questions_wire(p.questions) + records_wire(p.answers) + records_wire(p.authorities)
                + records_wire(p.resources),
        ),
    ensures
        ({
            let past_questions = at + questions_wire(p.questions).len();
            let past_answers = past_questions + records_wire(p.answers).len();
            let past_authorities = past_answers + records_wire(p.authorities).len();
            let past_resources = past_authorities + records_wire(p.resources).len();
            &&& parse_questions(bytes, at, p.questions.len()) == Ok::<
                (Seq<QuestionView>, int),
                DnsError,
            >((questions_echo(p.questions), past_questions))
            &&& parse_records(bytes, past_questions, emitted_count(p.answers)) == Ok::<
                (Seq<RecordView>, int),
                DnsError,
            >((records_echo(p.answers), past_answers))
            &&& parse_records(bytes, past_answers, emitted_count(p.authorities)) == Ok::<
                (Seq<RecordView>, int),
                DnsError,
            >((records_echo(p.authorities), past_authorities))
            &&& parse_records(bytes, past_authorities, emitted_count(p.resources)) == Ok::<
                (Seq<RecordView>, int),
                DnsError,
            >((records_echo(p.resources), past_resources))
        }),
{
    let q = questions_wire(p.questions);
    let a = records_wire(p.answers);
    let u = records_wire(p.authorities);
    let r = records_wire(p.resources);
    lemma_holds_split(bytes, at, q + a + u, r);
    lemma_holds_split(bytes, at, q + a, u);
    lemma_holds_split(bytes, at, q, a);
    lemma_questions_read_back(bytes, at, p.questions);
    lemma_records_read_back(bytes, at + q.len(), p.answers);
    lemma_records_read_back(bytes, at + q.len() + a.len(), p.authorities);
    lemma_records_read_back(bytes, at + q.len() + a.len() + u.len(), p.resources);
}

/// Encoding, then decoding: the wire form of a message whose names have no
/// empty label is read back as the echo of the message, and the cursor ends
/// behind the wire form.
pub proof fn lemma_packet_read_back(bytes: Seq<u8>, at: int, p: PacketView)
    requires
        p.valid(),
        p.readable(),
        p.encodable(),
        holds_at(bytes, at, p.wire()),
    ensures
        parse_packet(bytes, at) == Ok::<(PacketView, int), DnsError>(
            (p.echo(), at + p.wire().len()),
        ),
{
    let h = p.wire_header();
    let head = header_wire(h);
    let q = questions_wire(p.questions);
    let a = records_wire(p.answers);
    let u = records_wire(p.authorities);
    let r = records_wire(p.resources);
    let body = q + a + u + r;
    assert(p.wire() =~= head + body);
    lemma_holds_split(bytes, at, head, body);
    lemma_header_read_back(bytes, at, h);
    lemma_sections_read_back(bytes, at + 12, p);
    lemma_questions_wire_len(p.questions);
    lemma_records_wire_len(p.answers);
    lemma_records_wire_len(p.authorities);
    lemma_records_wire_len(p.resources);
    assert(body.len() == q.len() + a.len() + u.len() + r.len());
    assert(h.questions as nat == p.questions.len());
    assert(h.answers as nat == emitted_count(p.answers));
    assert(h.authorities as nat == emitted_count(p.authorities));
    assert(h.resources as nat == emitted_count(p.resources));
}

impl RecordView {
    /// Whether every name of the record that is written is canonical. A
    /// record that is left out on encoding has none.
    pub open spec fn canonical(self) -> bool {
        match self {
            RecordView::UNKNOWN { .. } => true,
            RecordView::A { domain, .. } => canonical_name(domain),
            RecordView::NS { domain, host, .. } => canonical_name(domain) && canonical_name(host),
            RecordView::CNAME { domain, host, .. } => canonical_name(domain) && canonical_name(
                host,
            ),
            RecordView::MX { domain, host, .. } => canonical_name(domain) && canonical_name(host),
            RecordView::AAAA { domain, .. } => canonical_name(domain),
        }
    }
}

/// Whether every name of a list of records is canonical.
pub open spec fn records_canonical(records: Seq<RecordView>) -> bool {
    forall|i: int| 0 <= i < records.len() ==> (#[trigger] records[i]).canonical()
}

impl PacketView {
    /// Whether every name of the message that is written is canonical, and
    /// every type of a question is the one that its code stands for.
    pub open spec fn canonical(self) -> bool {
        &&& forall|i: int|
            0 <= i < self.questions.len() ==> canonical_name((#[trigger] self.questions[i]).name)
                && self.questions[i].qtype.canonical()
        &&& records_canonical(self.answers)
        &&& records_canonical(self.authorities)
        &&& records_canonical(self.resources)
    }

    /// Whether no record of the message is of a type that the library does
    /// not know.
    pub open spec fn all_known(self) -> bool {
        &&& forall|i: int| 0 <= i < self.answers.len() ==> (#[trigger] self.answers[i]).emitted()
        &&& forall|i: int|
            0 <= i < self.authorities.len() ==> (#[trigger] self.authorities[i]).emitted()
        &&& forall|i: int| 0 <= i < self.resources.len() ==> (#[trigger] self.resources[i]).emitted()
    }

    /// Whether the counts of the header are the lengths of the sections.
    pub open spec fn counted(self) -> bool {
        &&& self.header.questions == self.questions.len()
        &&& self.header.answers == self.answers.len()
        &&& self.header.authorities == self.authorities.len()
        &&& self.header.resources == self.resources.len()
    }
}

/// The echo of a list of records with canonical names is the list of those
/// that are written.
pub proof fn lemma_canonical_records_echo(records: Seq<RecordView>)
    requires
        records_canonical(records),
    ensures
        records_echo(records) == emitted_records(records),
        records_readable(records),
    decreases records.len(),
{
    if records.len() > 0 {
        let init = records.drop_last();
        let last = records.last();
        assert(records_canonical(init)) by {
            assert forall|i: int| 0 <= i < init.len() implies (#[trigger] init[i]).canonical() by {
                assert(init[i] == records[i]);
            }
        }
        lemma_canonical_records_echo(init);
        assert(records[records.len() - 1].canonical());
        match last {
            RecordView::UNKNOWN { .. } => {},
            RecordView::A { domain, .. } => {
                lemma_canonical_echo(domain);
            },
            RecordView::NS { domain, host, .. } => {
                lemma_canonical_echo(domain);
                lemma_canonical_echo(host);
            },
            RecordView::CNAME { domain, host, .. } => {
                lemma_canonical_echo(domain);
                lemma_canonical_echo(host);
            },
            RecordView::MX { domain, host, .. } => {
                lemma_canonical_echo(domain);
                lemma_canonical_echo(host);
            },
            RecordView::AAAA { domain, .. } => {
                lemma_canonical_echo(domain);
            },
        }
        assert forall|i: int| 0 <= i < records.len() implies (#[trigger] records[i]).readable() by {
            if i < records.len() - 1 {
                assert(init[i] == records[i]);
                assert(init[i].readable());
            }
        }
    }
}

/// A list of records that are all written is the list of those that are
/// written.
pub proof fn lemma_all_emitted(records: Seq<RecordView>)
    requires
        forall|i: int| 0 <= i < records.len() ==> (#[trigger] records[i]).emitted(),
    ensures
        emitted_records(records) == records,
        emitted_count(records) == records.len(),
    decreases records.len(),
{
    if records.len() > 0 {
        let init = records.drop_last();
        assert forall|i: int| 0 <= i < init.len() implies (#[trigger] init[i]).emitted() by {
            assert(init[i] == records[i]);
        }
        lemma_all_emitted(init);
        assert(records[records.len() - 1].emitted());
        assert(init.push(records.last()) =~= records);
    } else {
        assert(records =~= Seq::empty());
    }
}

/// The echo of a message with canonical names is the message without the
/// records that are left out.
pub proof fn lemma_canonical_packet_echo(p: PacketView)
    requires
        p.canonical(),
    ensures
        p.echo() == p.without_unknown(),
        p.readable(),
{
    assert forall|i: int| 0 <= i < p.questions.len() implies readable(
        #[trigger] p.questions[i].name,
    ) by {
        assert(canonical_name(p.questions[i].name));
        lemma_canonical_echo(p.questions[i].name);
    }
    assert(questions_echo(p.questions) =~= p.questions) by {
        assert forall|i: int| 0 <= i < p.questions.len() implies question_echo(p.questions[i])
            == p.questions[i] by {
            assert(canonical_name(p.questions[i].name) && p.questions[i].qtype.canonical());
            lemma_canonical_echo(p.questions[i].name);
        }
    }
    lemma_canonical_records_echo(p.answers);
    lemma_canonical_records_echo(p.authorities);
    lemma_canonical_records_echo(p.resources);
}

/// The questions that are read are as many as were asked for, and each has
/// the type that its code stands for.
pub proof fn lemma_parsed_questions(bytes: Seq<u8>, at: int, count: nat)
    requires
        parse_questions(bytes, at, count) is Ok,
    ensures
        parse_questions(bytes, at, count)->Ok_0.0.len() == count,
        forall|i: int|
            0 <= i < count ==> (#[trigger] parse_questions(
                bytes,
                at,
                count,
            )->Ok_0.0[i]).qtype.canonical(),
    decreases count,
{
    if count > 0 {
        lemma_parsed_questions(bytes, at, (count - 1) as nat);
        let (init, mid) = parse_questions(bytes, at, (count - 1) as nat)->Ok_0;
        let (last, next) = parse_question(bytes, mid)->Ok_0;
        let all = parse_questions(bytes, at, count)->Ok_0.0;
        assert(all == init.push(last));
        QueryType::lemma_code_round_trip(u16_at(bytes, parse_name(bytes, mid)->Ok_0.next));
        assert forall|i: int| 0 <= i < count implies (#[trigger] all[i]).qtype.canonical() by {
            if i < count - 1 {
                assert(all[i] == init[i]);
            }
        }
    }
}

/// The records that are read are as many as were asked for, and their
/// addresses have their length.
pub proof fn lemma_parsed_records(bytes: Seq<u8>, at: int, count: nat)
    requires
        bytes.len() == 512,
        0 <= at,
        parse_records(bytes, at, count) is Ok,
    ensures
        parse_records(bytes, at, count)->Ok_0.0.len() == count,
        records_valid(parse_records(bytes, at, count)->Ok_0.0),
        at <= parse_records(bytes, at, count)->Ok_0.1,
    decreases count,
{
    if count > 0 {
        lemma_parsed_records(bytes, at, (count - 1) as nat);
        let (init, mid) = parse_records(bytes, at, (count - 1) as nat)->Ok_0;
        let (last, next) = parse_record(bytes, mid)->Ok_0;
        let all = parse_records(bytes, at, count)->Ok_0.0;
        assert(all == init.push(last));
        crate::name::lemma_parse_name_bounds(bytes, mid, 0);
        let head = parse_name(bytes, mid)->Ok_0;
        match QueryType::of_code(u16_at(bytes, head.next)) {
            QueryType::NS => {
                crate::name::lemma_parse_name_bounds(bytes, head.next + 10, 0);
            },
            QueryType::CNAME => {
                crate::name::lemma_parse_name_bounds(bytes, head.next + 10, 0);
            },
            QueryType::MX => {
                crate::name::lemma_parse_name_bounds(bytes, head.next + 12, 0);
            },
            _ => {},
        }
        assert(last.valid());
        assert forall|i: int| 0 <= i < count implies (#[trigger] all[i]).valid() by {
            if i < count - 1 {
                assert(all[i] == init[i]);
            }
        }
    }
}

/// What holds of every message that was read: the counts of its header are
/// the lengths of its sections, the fields of its header are within their
/// bits, its addresses have their length, and the types of its questions are
/// the ones that their codes stand for.
pub proof fn lemma_parsed_packet(bytes: Seq<u8>, at: int)
    requires
        bytes.len() == 512,
        0 <= at,
        parse_packet(bytes, at) is Ok,
    ensures
        parse_packet(bytes, at)->Ok_0.0.counted(),
        parse_packet(bytes, at)->Ok_0.0.valid(),
        forall|i: int|
            0 <= i < parse_packet(bytes, at)->Ok_0.0.questions.len() ==> (
            #[trigger] parse_packet(bytes, at)->Ok_0.0.questions[i]).qtype.canonical(),
{
    let header = parse_header(bytes, at);
    lemma_parsed_questions(bytes, at + 12, header.questions as nat);
    let (questions, past_questions) = parse_questions(bytes, at + 12, header.questions as nat)->Ok_0;
    assert(at + 12 <= past_questions) by {
        lemma_questions_end(bytes, at + 12, header.questions as nat);
    }
    lemma_parsed_records(bytes, past_questions, header.answers as nat);
    let (answers, past_answers) = parse_records(bytes, past_questions, header.answers as nat)->Ok_0;
    lemma_parsed_records(bytes, past_answers, header.authorities as nat);
    let (authorities, past_authorities) = parse_records(bytes, past_answers, header.authorities as nat)->Ok_0;
    lemma_parsed_records(bytes, past_authorities, header.resources as nat);
}

/// Reading questions does not move the cursor backwards.
proof fn lemma_questions_end(bytes: Seq<u8>, at: int, count: nat)
    requires
        0 <= at,
        parse_questions(bytes, at, count) is Ok,
    ensures
        at <= parse_questions(bytes, at, count)->Ok_0.1,
    decreases count,
{
    if count > 0 {
        lemma_questions_end(bytes, at, (count - 1) as nat);
        let (init, mid) = parse_questions(bytes, at, (count - 1) as nat)->Ok_0;
        crate::name::lemma_parse_name_bounds(bytes, mid, 0);
    }
}

/// Decoding, encoding and decoding again gives what the first decoding gave,
/// but for the records of types that the library does not know, which are
/// left out on encoding. This holds of a message whose names are canonical
/// and which can be encoded into a buffer.
pub proof fn lemma_decode_encode_decode(input: Seq<u8>, at: int)
    requires
        input.len() == 512,
        0 <= at,
        parse_packet(input, at) is Ok,
        parse_packet(input, at)->Ok_0.0.canonical(),
        parse_packet(input, at)->Ok_0.0.encodable(),
        parse_packet(input, at)->Ok_0.0.wire().len() <= 512,
    ensures
        ({
            let first = parse_packet(input, at)->Ok_0.0;
            let again = parse_packet(splice(zeros(), 0, first.wire()), 0);
            &&& again == Ok::<(PacketView, int), DnsError>(
                (first.without_unknown(), first.wire().len() as int),
            )
            &&& first.all_known() ==> first.without_unknown() == first
        }),
{
    let first = parse_packet(input, at)->Ok_0.0;
    lemma_parsed_packet(input, at);
    let written = splice(zeros(), 0, first.wire());
    assert(holds_at(written, 0, first.wire()));
    lemma_canonical_packet_echo(first);
    lemma_packet_read_back(written, 0, first);
    if first.all_known() {
        lemma_all_emitted(first.answers);
        lemma_all_emitted(first.authorities);
        lemma_all_emitted(first.resources);
    }
}

/// In every message that was encoded, the four counts of the header are the
/// numbers of entries that were written into the four sections.
pub proof fn lemma_written_counts(bytes: Seq<u8>, at: int, p: PacketView)
    requires
        holds_at(bytes, at, p.wire()),
    ensures
        u16_at(bytes, at + 4) == p.questions.len(),
        u16_at(bytes, at + 6) == emitted_count(p.answers),
        u16_at(bytes, at + 8) == emitted_count(p.authorities),
        u16_at(bytes, at + 10) == emitted_count(p.resources),
{
    let h = p.wire_header();
    let head = header_wire(h);
    let body = questions_wire(p.questions) + records_wire(p.answers) + records_wire(
        p.authorities,
    ) + records_wire(p.resources);
    assert(p.wire() =~= head + body);
    lemma_holds_split(bytes, at, head, body);
    lemma_questions_wire_len(p.questions);
    lemma_records_wire_len(p.answers);
    lemma_records_wire_len(p.authorities);
    lemma_records_wire_len(p.resources);
    assert(head.len() == 12);
    assert(bytes[at + 4] == head[4] && bytes[at + 5] == head[5]);
    assert(bytes[at + 6] == head[6] && bytes[at + 7] == head[7]);
    assert(bytes[at + 8] == head[8] && bytes[at + 9] == head[9]);
    assert(bytes[at + 10] == head[10] && bytes[at + 11] == head[11]);
}

/// A message that was encoded, and whose names have no empty label, is read
/// back with as many questions and records in its four sections as its
/// header counts.
pub proof fn lemma_encoded_counts(bytes: Seq<u8>, at: int, p: PacketView)
    requires
        p.valid(),
        p.readable(),
        p.encodable(),
        holds_at(bytes, at, p.wire()),
    ensures
        parse_packet(bytes, at) is Ok,
        parse_packet(bytes, at)->Ok_0.0.counted(),
{
    lemma_packet_read_back(bytes, at, p);
    lemma_parsed_packet(bytes, at);
}

} // verus!
