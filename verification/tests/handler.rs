use mindns::config::{Config, LoggingSettings, MirrorSettings, ServerSettings};
use mindns::error::DnsError;
use mindns::handler::{
    finish_request, handle_query, handle_request, parse_ipv4, rule_address, RequestStep,
};
use mindns::packet::DnsPacket;
use mindns::query_type::QueryType;
use mindns::question::DnsQuestion;
use mindns::record::DnsRecord;
use mindns::result_code::ResultCode;
use mindns::rules::{parse_rule, Rule};

fn config(mirror: bool) -> Config {
    Config {
        server: ServerSettings { port: 53, bind: "127.0.0.1".to_string() },
        mirror: MirrorSettings { enabled: mirror, server: "198.41.0.4".to_string() },
        rules: vec![],
        logs: LoggingSettings { save_as: "stdout".to_string(), path: String::new() },
    }
}

fn query(id: u16, name: &str, qtype: QueryType) -> Vec<u8> {
    let mut packet = DnsPacket::new();
    packet.header.id = id;
    packet.header.recursion_desired = true;
    packet.questions.push(DnsQuestion::new(name.to_string(), qtype));
    packet.to_wire().unwrap()
}

fn rules(lines: &[&str]) -> Vec<Rule> {
    lines.iter().map(|line| parse_rule(line).unwrap()).collect()
}

fn reply_of(step: RequestStep) -> DnsPacket {
    match step {
        RequestStep::Reply(packet) => packet,
        RequestStep::Resolve { .. } => panic!("the request should have been answered"),
    }
}

#[test]
fn deny_rule_answers_nxdomain() {
    let rules = rules(&["deny *.ads.example"]);
    let data = query(7, "banner.ads.example", QueryType::A);
    let reply = reply_of(handle_request(&config(true), &rules, &data));
    assert_eq!(reply.header.id, 7);
    assert!(reply.header.response);
    assert_eq!(reply.header.rescode, ResultCode::NXDOMAIN);
    assert!(reply.answers.is_empty());
    assert_eq!(reply.questions, vec![DnsQuestion::new("banner.ads.example".to_string(), QueryType::A)]);
    assert_eq!(reply.header.z, 0);
}

#[test]
fn append_rule_answers_with_its_address() {
    let rules = rules(&["apnd host.lan = 10.0.0.5"]);
    let data = query(0x1001, "host.lan", QueryType::A);
    let reply = reply_of(handle_request(&config(false), &rules, &data));
    assert_eq!(reply.header.id, 0x1001);
    assert_eq!(reply.header.rescode, ResultCode::NOERROR);
    assert!(reply.header.response);
    assert!(!reply.header.recursion_desired);
    assert!(!reply.header.recursion_available);
    assert_eq!(
        reply.answers,
        vec![DnsRecord::A { domain: "host.lan".to_string(), addr: [10, 0, 0, 5], ttl: 53000 }]
    );
    // The reply can be sent: the answer is counted in what is written.
    let wire = reply.to_wire().unwrap();
    assert_eq!(&wire[4..8], &[0, 1, 0, 1]);
}

#[test]
fn append_rule_without_usable_value_answers_with_localhost() {
    for line in ["apnd host.lan", "apnd host.lan = nonsense", "apnd host.lan = 1.2.3"] {
        let rules = rules(&[line]);
        let data = query(1, "host.lan", QueryType::A);
        let reply = reply_of(handle_request(&config(false), &rules, &data));
        assert_eq!(
            reply.answers,
            vec![DnsRecord::A { domain: "host.lan".to_string(), addr: [127, 0, 0, 1], ttl: 53000 }]
        );
    }
}

#[test]
fn negated_deny_rule_lets_inside_names_go_upstream() {
    let rules = rules(&["deny !*.corp.local"]);
    let inside = query(2, "pc.corp.local", QueryType::A);
    match handle_request(&config(true), &rules, &inside) {
        RequestStep::Resolve { response, question } => {
            assert_eq!(question, DnsQuestion::new("pc.corp.local".to_string(), QueryType::A));
            assert_eq!(response.header.id, 2);
            assert!(response.header.response);
            assert!(response.header.recursion_desired);
            assert!(response.header.recursion_available);
            assert_eq!(response.questions, vec![question]);
        }
        RequestStep::Reply(_) => panic!("the name should have gone upstream"),
    }
    let outside = query(3, "extern.com", QueryType::A);
    let reply = reply_of(handle_request(&config(true), &rules, &outside));
    assert_eq!(reply.header.rescode, ResultCode::NXDOMAIN);
}

#[test]
fn unmatched_name_goes_upstream_and_takes_the_answer() {
    let data = query(0x0303, "extern.com", QueryType::A);
    let step = handle_request(&config(true), &vec![], &data);
    let response = match step {
        RequestStep::Resolve { response, question } => {
            assert_eq!(question.name, "extern.com");
            assert_eq!(question.qtype, QueryType::A);
            response
        }
        RequestStep::Reply(_) => panic!("the name should have gone upstream"),
    };
    let mut upstream = DnsPacket::new();
    upstream.answers.push(DnsRecord::A {
        domain: "extern.com".to_string(),
        addr: [1, 2, 3, 4],
        ttl: 99,
    });
    upstream.authorities.push(DnsRecord::NS {
        domain: "com".to_string(),
        host: "ns.com".to_string(),
        ttl: 5,
    });
    upstream.resources.push(DnsRecord::A { domain: "ns.com".to_string(), addr: [5, 5, 5, 5], ttl: 5 });
    let reply = finish_request(response, Ok(upstream));
    assert_eq!(reply.header.id, 0x0303);
    assert_eq!(reply.header.rescode, ResultCode::NOERROR);
    assert_eq!(
        reply.answers,
        vec![DnsRecord::A { domain: "extern.com".to_string(), addr: [1, 2, 3, 4], ttl: 99 }]
    );
    assert_eq!(reply.authorities.len(), 1);
    assert_eq!(reply.resources.len(), 1);
    assert_eq!(reply.questions.len(), 1);
}

#[test]
fn upstream_failure_answers_servfail() {
    for error in [DnsError::UpstreamTimeout, DnsError::UpstreamIoError, DnsError::ResolverLoop] {
        let data = query(4, "loop.test", QueryType::A);
        let response = match handle_request(&config(true), &vec![], &data) {
            RequestStep::Resolve { response, .. } => response,
            RequestStep::Reply(_) => panic!("the name should have gone upstream"),
        };
        let reply = finish_request(response, Err(error));
        assert_eq!(reply.header.rescode, ResultCode::SERVFAIL);
        assert_eq!(reply.header.id, 4);
        assert!(reply.answers.is_empty());
    }
}

#[test]
fn upstream_nxdomain_is_handed_on_with_its_records() {
    let data = query(5, "gone.test", QueryType::A);
    let response = match handle_request(&config(true), &vec![], &data) {
        RequestStep::Resolve { response, .. } => response,
        RequestStep::Reply(_) => panic!("the name should have gone upstream"),
    };
    let mut upstream = DnsPacket::new();
    upstream.header.rescode = ResultCode::NXDOMAIN;
    upstream.authorities.push(DnsRecord::NS {
        domain: "test".to_string(),
        host: "ns.test".to_string(),
        ttl: 5,
    });
    let reply = finish_request(response, Ok(upstream));
    assert_eq!(reply.header.rescode, ResultCode::NXDOMAIN);
    assert_eq!(reply.authorities.len(), 1);
}

#[test]
fn without_rule_and_mirror_the_reply_is_empty() {
    let data = query(6, "extern.com", QueryType::AAAA);
    let reply = reply_of(handle_request(&config(false), &vec![], &data));
    assert_eq!(reply.header.rescode, ResultCode::NOERROR);
    assert!(reply.header.recursion_desired);
    assert!(reply.header.recursion_available);
    assert_eq!(reply.questions.len(), 1);
    assert!(reply.answers.is_empty());
    assert!(reply.authorities.is_empty());
    assert!(reply.resources.is_empty());
}

#[test]
fn malformed_three_byte_datagram_answers_formerr() {
    let reply = reply_of(handle_request(&config(true), &vec![], &[0x00, 0x01, 0x02]));
    assert_eq!(reply.header.rescode, ResultCode::FORMERR);
    assert_eq!(reply.header.id, 0x0001);
    assert!(reply.header.response);
    assert!(reply.questions.is_empty());
    let wire = reply.to_wire().unwrap();
    assert_eq!(wire, vec![0x00, 0x01, 0x81, 0x81, 0, 0, 0, 0, 0, 0, 0, 0]);
}

#[test]
fn undecodable_datagram_answers_formerr_with_its_number() {
    // One question is counted, and its name is a pointer to itself.
    let mut data = vec![0xAB, 0xCD, 0x01, 0x00, 0, 1, 0, 0, 0, 0, 0, 0];
    data.extend_from_slice(&[0xC0, 0x0C]);
    let reply = reply_of(handle_request(&config(true), &vec![], &data));
    assert_eq!(reply.header.rescode, ResultCode::FORMERR);
    assert_eq!(reply.header.id, 0xABCD);
    assert!(reply.questions.is_empty());
}

#[test]
fn only_the_first_question_is_answered() {
    let mut packet = DnsPacket::new();
    packet.header.id = 8;
    packet.questions.push(DnsQuestion::new("first.lan".to_string(), QueryType::A));
    packet.questions.push(DnsQuestion::new("second.lan".to_string(), QueryType::A));
    let data = packet.to_wire().unwrap();
    let rules = rules(&["apnd second.lan = 2.2.2.2", "apnd first.lan = 1.1.1.1"]);
    let reply = reply_of(handle_request(&config(false), &rules, &data));
    assert_eq!(reply.questions, vec![DnsQuestion::new("first.lan".to_string(), QueryType::A)]);
    assert_eq!(
        reply.answers,
        vec![DnsRecord::A { domain: "first.lan".to_string(), addr: [1, 1, 1, 1], ttl: 53000 }]
    );
}

#[test]
fn query_name_is_matched_in_lower_case() {
    // The name comes in capitals and is made small by the decoder.
    let mut data = vec![0, 9, 1, 0, 0, 1, 0, 0, 0, 0, 0, 0];
    data.extend_from_slice(&[4, b'H', b'O', b'S', b'T', 3, b'L', b'a', b'n', 0, 0, 1, 0, 1]);
    let rules = rules(&["apnd host.lan = 10.0.0.5"]);
    let reply = reply_of(handle_request(&config(false), &rules, &data));
    assert_eq!(
        reply.answers,
        vec![DnsRecord::A { domain: "host.lan".to_string(), addr: [10, 0, 0, 5], ttl: 53000 }]
    );
}

#[test]
fn handle_query_says_whether_to_go_upstream() {
    let question = DnsQuestion::new("x.test".to_string(), QueryType::A);
    let mut out = DnsPacket::new();
    assert!(handle_query(&config(true), &vec![], &question, &mut out));
    assert_eq!(out, DnsPacket::new());
    assert!(!handle_query(&config(false), &vec![], &question, &mut out));
    assert_eq!(out, DnsPacket::new());
    let denied = rules(&["deny x.test"]);
    assert!(!handle_query(&config(true), &denied, &question, &mut out));
    assert_eq!(out.header.rescode, ResultCode::NXDOMAIN);
}

#[test]
fn dotted_addresses_are_parsed() {
    assert_eq!(parse_ipv4("10.0.0.5"), Some([10, 0, 0, 5]));
    assert_eq!(parse_ipv4("255.255.255.255"), Some([255, 255, 255, 255]));
    assert_eq!(parse_ipv4("0.0.0.0"), Some([0, 0, 0, 0]));
    assert_eq!(parse_ipv4("192.168.1.99"), Some([192, 168, 1, 99]));
    assert_eq!(parse_ipv4("256.0.0.1"), None);
    assert_eq!(parse_ipv4("1.2.3"), None);
    assert_eq!(parse_ipv4("1.2.3.4.5"), None);
    assert_eq!(parse_ipv4("1.2.3."), None);
    assert_eq!(parse_ipv4(".1.2.3"), None);
    assert_eq!(parse_ipv4("01.2.3.4"), None);
    assert_eq!(parse_ipv4("1.2.3.0004"), None);
    assert_eq!(parse_ipv4("1.2.3.a"), None);
    assert_eq!(parse_ipv4(" 1.2.3.4"), None);
    assert_eq!(parse_ipv4("1.2.3.999"), None);
    assert_eq!(parse_ipv4(""), None);
}

#[test]
fn zeros_in_front_of_a_number_are_refused() {
    assert_eq!(parse_ipv4("1.02.3.4"), None);
    assert_eq!(parse_ipv4("0.00.0.0"), None);
    assert_eq!(parse_ipv4("1..1.1"), None);
    assert_eq!(parse_ipv4("7.8.9.10"), Some([7, 8, 9, 10]));
    assert_eq!(parse_ipv4("100.200.0.9"), Some([100, 200, 0, 9]));
}

#[test]
fn rule_address_falls_back_to_localhost() {
    assert_eq!(rule_address(&parse_rule("apnd a = 8.8.4.4").unwrap()), [8, 8, 4, 4]);
    assert_eq!(rule_address(&parse_rule("apnd a").unwrap()), [127, 0, 0, 1]);
    assert_eq!(rule_address(&parse_rule("apnd a = 8.8.4").unwrap()), [127, 0, 0, 1]);
}
