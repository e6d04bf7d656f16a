use vstd::prelude::*;
use crate::buffer::{loaded, u16_at, PacketBuffer};
use crate::config::Config;
use crate::error::DnsError;
use crate::header::DnsHeader;
use crate::packet::{parse_packet, questions_view, records_view, DnsPacket, PacketView};
use crate::question::{DnsQuestion, QuestionView};
use crate::record::{DnsRecord, RecordView};
use crate::result_code::ResultCode;
use crate::rules::{first_match, match_rule, rules_view, Rule, RuleAction, RuleView};
use crate::text::{chars_of, pieces_view, split, split_chars};

verus! {

/// The time to live of an answer that a rule gives.
pub const RULE_TTL: u32 = 53000;

/// The number that a decimal digit stands for.
pub open spec fn digit_of(c: char) -> Option<int> {
    if '0' <= c <= '9' {
        Some(c as int - '0' as int)
    } else {
        None
    }
}

/// The number that one part of a dotted address spells: one to three
/// decimal digits, without a zero in front of another digit, and at most 255.
pub open spec fn octet_of(part: Seq<char>) -> Option<u8> {
    if part.len() == 1 && digit_of(part[0]) is Some {
        Some(digit_of(part[0])->Some_0 as u8)
    } else if part.len() == 2 && digit_of(part[0]) is Some && digit_of(part[1]) is Some && part[0]
        != '0' {
        Some((10 * digit_of(part[0])->Some_0 + digit_of(part[1])->Some_0) as u8)
    } else if part.len() == 3 && digit_of(part[0]) is Some && digit_of(part[1]) is Some
        && digit_of(part[2]) is Some && part[0] != '0' && 100 * digit_of(part[0])->Some_0 + 10
        * digit_of(part[1])->Some_0 + digit_of(part[2])->Some_0 <= 255 {
        Some(
            (100 * digit_of(part[0])->Some_0 + 10 * digit_of(part[1])->Some_0 + digit_of(
                part[2],
            )->Some_0) as u8,
        )
    } else {
        None
    }
}

/// The four bytes of the address that a text spells in dotted form: four
/// parts with dots between them, each a number up to 255.
pub open spec fn ipv4_of(text: Seq<char>) -> Option<Seq<u8>> {
    let parts = split(text, '.');
    if parts.len() == 4 && octet_of(parts[0]) is Some && octet_of(parts[1]) is Some && octet_of(
        parts[2],
    ) is Some && octet_of(parts[3]) is Some {
        Some(
            seq![
                octet_of(parts[0])->Some_0,
                octet_of(parts[1])->Some_0,
                octet_of(parts[2])->Some_0,
                octet_of(parts[3])->Some_0,
            ],
        )
    } else {
        None
    }
}

/// The address that a rule answers with: the one that its value spells, or
/// 127.0.0.1 where it has no value or the value spells no address.
pub open spec fn address_of(value: Option<Seq<char>>) -> Seq<u8> {
    match value {
        Some(text) => match ipv4_of(text) {
            Some(addr) => addr,
            None => seq![127u8, 0u8, 0u8, 1u8],
        },
        None => seq![127u8, 0u8, 0u8, 1u8],
    }
}

fn digit(c: char) -> (res: Option<u8>)
    ensures
        match res {
            Some(d) => digit_of(c) == Some(d as int) && d <= 9,
            None => digit_of(c) is None,
        },
{
    if '0' <= c && c <= '9' {
        Some((c as u32 - '0' as u32) as u8)
    } else {
        None
    }
}

fn parse_octet(part: &Vec<char>) -> (res: Option<u8>)
    ensures
        res == octet_of(part@),
{
    let n: usize = part.len();
    if n == 0 || n > 3 {
        return None;
    }
    let d0 = match digit(part[0]) {
        Some(d) => d,
        None => {
            return None;
        },
    };
    if n == 1 {
        return Some(d0);
    }
    if part[0] == '0' {
        return None;
    }
    let d1 = match digit(part[1]) {
        Some(d) => d,
        None => {
            return None;
        },
    };
    if n == 2 {
        return Some(10 * d0 + d1);
    }
    let d2 = match digit(part[2]) {
        Some(d) => d,
        None => {
            return None;
        },
    };
    let value: u16 = 100 * (d0 as u16) + 10 * (d1 as u16) + d2 as u16;
    if value > 255 {
        None
    } else {
        Some(value as u8)
    }
}

/// Reads an address in dotted form.
pub fn parse_ipv4(text: &str) -> (res: Option<[u8; 4]>)
    ensures
        match res {
            Some(addr) => ipv4_of(text@) == Some(addr@),
            None => ipv4_of(text@) is None,
        },
{
    let chars = chars_of(text);
    let parts = split_chars(&chars, '.');
    if parts.len() != 4 {
        return None;
    }
    assert(pieces_view(parts@)[0] == parts@[0]@);
    assert(pieces_view(parts@)[1] == parts@[1]@);
    assert(pieces_view(parts@)[2] == parts@[2]@);
    assert(pieces_view(parts@)[3] == parts@[3]@);
    let a = match parse_octet(&parts[0]) {
        Some(v) => v,
        None => {
            return None;
        },
    };
    let b = match parse_octet(&parts[1]) {
        Some(v) => v,
        None => {
            return None;
        },
    };
    let c = match parse_octet(&parts[2]) {
        Some(v) => v,
        None => {
            return None;
        },
    };
    let d = match parse_octet(&parts[3]) {
        Some(v) => v,
        None => {
            return None;
        },
    };
    let addr: [u8; 4] = [a, b, c, d];
    assert(addr@ =~= seq![a, b, c, d]);
    Some(addr)
}

/// The address that a rule answers with.
pub fn rule_address(rule: &Rule) -> (addr: [u8; 4])
    ensures
        addr@ == address_of(rule@.value),
{
    let local: [u8; 4] = [127, 0, 0, 1];
    assert(local@ =~= seq![127u8, 0u8, 0u8, 1u8]);
    match &rule.value {
        Some(text) => match parse_ipv4(text.as_str()) {
            Some(addr) => addr,
            None => local,
        },
        None => local,
    }
}

/// The header of a reply: a response to the query with the number `id`, with
/// recursion desired and available, and with the reserved bits at zero.
pub open spec fn reply_header(id: u16, rescode: ResultCode) -> DnsHeader {
    DnsHeader {
        id,
        response: true,
        recursion_desired: true,
        recursion_available: true,
        rescode,
        ..DnsHeader::empty()
    }
}

/// A reply without entries.
pub open spec fn empty_reply(id: u16, rescode: ResultCode) -> PacketView {
    PacketView {
        header: reply_header(id, rescode),
        questions: Seq::empty(),
        answers: Seq::empty(),
        authorities: Seq::empty(),
        resources: Seq::empty(),
    }
}

/// A reply that repeats the question and holds nothing else.
pub open spec fn asked_reply(id: u16, question: QuestionView) -> PacketView {
    PacketView { questions: seq![question], ..empty_reply(id, ResultCode::NOERROR) }
}

/// What a rule makes of a reply: a rule that denies sets NXDOMAIN; one that
/// appends sets NOERROR, takes recursion desired and available back, and
/// adds one `A` record for the name asked, with the address of the rule.
pub open spec fn ruled_reply(reply: PacketView, question: QuestionView, rule: RuleView) -> PacketView {
    match rule.action {
        RuleAction::Deny => PacketView {
            header: DnsHeader { rescode: ResultCode::NXDOMAIN, ..reply.header },
            ..reply
        },
        RuleAction::Append => PacketView {
            header: DnsHeader {
                rescode: ResultCode::NOERROR,
                recursion_desired: false,
                recursion_available: false,
                ..reply.header
            },
            answers: reply.answers.push(
                RecordView::A {
                    domain: question.name,
                    addr: address_of(rule.value),
                    ttl: RULE_TTL,
                },
            ),
            ..reply
        },
    }
}

/// What is done with the answer of the resolver: a reply takes its response
/// code and the records of its three sections; where the resolver failed,
/// the response code is SERVFAIL.
pub open spec fn merged_reply(reply: PacketView, upstream: Result<PacketView, DnsError>) -> PacketView {
    match upstream {
        Ok(found) => PacketView {
            header: DnsHeader { rescode: found.header.rescode, ..reply.header },
            questions: reply.questions,
            answers: reply.answers + found.answers,
            authorities: reply.authorities + found.authorities,
            resources: reply.resources + found.resources,
        },
        Err(_) => PacketView {
            header: DnsHeader { rescode: ResultCode::SERVFAIL, ..reply.header },
            ..reply
        },
    }
}

/// What is to be done next for a request.
#[derive(Debug)]
pub enum RequestStep {
    /// The reply is ready to be sent.
    Reply(DnsPacket),
    /// The question is to be resolved upstream; the answer of the resolver
    /// and `response` then go to `finish_request`.
    Resolve { response: DnsPacket, question: DnsQuestion },
}

/// What a step holds, as plain values.
pub enum StepView {
    Reply(PacketView),
    Resolve { response: PacketView, question: QuestionView },
}

impl View for RequestStep {
    type V = StepView;

    open spec fn view(&self) -> StepView {
        match *self {
            RequestStep::Reply(packet) => StepView::Reply(packet@),
            RequestStep::Resolve { response, question } => StepView::Resolve {
                response: response@,
                question: question@,
            },
        }
    }
}

/// What is done for the question of a request: the first rule that is for
/// the name decides; without one, the question is resolved upstream where
/// the mirror is enabled, and the reply stays as it is where it is not.
pub open spec fn planned_query(
    mirror: bool,
    rules: Seq<RuleView>,
    question: QuestionView,
    reply: PacketView,
) -> StepView {
    match first_match(rules, question.name) {
        Some(rule) => StepView::Reply(ruled_reply(reply, question, rule)),
        None => if mirror {
            StepView::Resolve { response: reply, question }
        } else {
            StepView::Reply(reply)
        },
    }
}

/// What is done for a request. One that cannot be decoded is answered with
/// FORMERR and the number that its first two bytes spell; one without a
/// question with FORMERR; of any other the first question is looked at and
/// the others are passed over.
pub open spec fn planned(mirror: bool, rules: Seq<RuleView>, bytes: Seq<u8>) -> StepView {
    match parse_packet(bytes, 0) {
        Err(_) => StepView::Reply(empty_reply(u16_at(bytes, 0), ResultCode::FORMERR)),
        Ok((request, _)) => if request.questions.len() == 0 {
            StepView::Reply(empty_reply(request.header.id, ResultCode::FORMERR))
        } else {
            planned_query(
                mirror,
                rules,
                request.questions[0],
                asked_reply(request.header.id, request.questions[0]),
            )
        },
    }
}

fn new_reply(id: u16, rescode: ResultCode) -> (packet: DnsPacket)
    ensures
        packet@ == empty_reply(id, rescode),
{
    let mut packet = DnsPacket::new();
    packet.header.id = id;
    packet.header.response = true;
    packet.header.recursion_desired = true;
    packet.header.recursion_available = true;
    packet.header.rescode = rescode;
    packet
}

/// Answers a question from the rules, into the reply `out`. The result says
/// whether the question is still to be resolved upstream: it is where no
/// rule is for the name and the mirror is enabled.
pub fn handle_query(
    config: &Config,
    rules: &Vec<Rule>,
    question: &DnsQuestion,
    out: &mut DnsPacket,
) -> (forward: bool)
    ensures
        match planned_query(config.mirror.enabled, rules_view(rules@), question@, old(out)@) {
            StepView::Reply(reply) => !forward && final(out)@ == reply,
            StepView::Resolve { response, .. } => forward && final(out)@ == response,
        },
{
    match match_rule(rules, question.name.as_str()) {
        Some(rule) => {
            match rule.action {
                RuleAction::Deny => {
                    out.header.rescode = ResultCode::NXDOMAIN;
                },
                RuleAction::Append => {
                    out.header.rescode = ResultCode::NOERROR;
                    out.header.recursion_desired = false;
                    out.header.recursion_available = false;
                    let ghost before = records_view(out.answers@);
                    let record = DnsRecord::A {
                        domain: question.name.clone(),
                        addr: rule_address(&rule),
                        ttl: RULE_TTL,
                    };
                    out.answers.push(record);
                    assert(records_view(out.answers@) =~= before.push(record@));
                },
            }
            false
        },
        None => config.mirror.enabled,
    }
}

/// Takes a datagram and says what is to be done for it: the reply to send,
/// or the question to resolve upstream first.
pub fn handle_request(config: &Config, rules: &Vec<Rule>, data: &[u8]) -> (step: RequestStep)
    ensures
        step@ == planned(config.mirror.enabled, rules_view(rules@), loaded(data@)),
{
    let mut buffer = PacketBuffer::load(data);
    let ghost bytes = buffer.bytes();
    let best_id: u16 = match buffer.read_u16() {
        Ok(id) => id,
        Err(_) => 0,
    };
    let _ = buffer.seek(0);
    let request = match DnsPacket::from_buffer(&mut buffer) {
        Ok(request) => request,
        Err(_) => {
            return RequestStep::Reply(new_reply(best_id, ResultCode::FORMERR));
        },
    };
    if request.questions.len() == 0 {
        return RequestStep::Reply(new_reply(request.header.id, ResultCode::FORMERR));
    }
    let question = request.questions[0].clone();
    assert(request@.questions[0] == request.questions@[0]@);
    let mut response = new_reply(request.header.id, ResultCode::NOERROR);
    response.questions.push(question.clone());
    assert(response@.questions =~= seq![question@]);
    assert(response@ == asked_reply(request.header.id, question@));
    if handle_query(config, rules, &question, &mut response) {
        RequestStep::Resolve { response, question }
    } else {
        RequestStep::Reply(response)
    }
}

/// Puts the answer of the resolver into the reply that waited for it.
pub fn finish_request(response: DnsPacket, upstream: Result<DnsPacket, DnsError>) -> (reply:
    DnsPacket)
    ensures
        reply@ == merged_reply(
            response@,
            match upstream {
                Ok(found) => Ok(found@),
                Err(e) => Err(e),
            },
        ),
{
    let mut reply = response;
    match upstream {
        Ok(found) => {
            let mut found = found;
            reply.header.rescode = found.header.rescode;
            let ghost a0 = reply.answers@;
            let ghost a1 = found.answers@;
            let ghost u0 = reply.authorities@;
            let ghost u1 = found.authorities@;
            let ghost r0 = reply.resources@;
            let ghost r1 = found.resources@;
            reply.answers.append(&mut found.answers);
            reply.authorities.append(&mut found.authorities);
            reply.resources.append(&mut found.resources);
            assert(records_view(reply.answers@) =~= records_view(a0) + records_view(a1));
            assert(records_view(reply.authorities@) =~= records_view(u0) + records_view(u1));
            assert(records_view(reply.resources@) =~= records_view(r0) + records_view(r1));
        },
        Err(_) => {
            reply.header.rescode = ResultCode::SERVFAIL;
        },
    }
    reply
}

/// The reserved bits are zero in every reply that is built for a request,
/// and stay zero when the answer of the resolver is put in.
pub proof fn lemma_reply_reserved_zero(
    mirror: bool,
    rules: Seq<RuleView>,
    bytes: Seq<u8>,
    upstream: Result<PacketView, DnsError>,
)
    ensures
        match planned(mirror, rules, bytes) {
            StepView::Reply(reply) => reply.header.z == 0 && reply.header.response,
            StepView::Resolve { response, .. } => response.header.z == 0 && merged_reply(
                response,
                upstream,
            ).header.z == 0 && merged_reply(response, upstream).header.response,
        },
{
}

} // verus!
