use mindns::error::DnsError;
use mindns::packet::DnsPacket;
use mindns::query_type::QueryType;
use mindns::question::DnsQuestion;
use mindns::record::DnsRecord;
use mindns::resolver::{build_query, Resolver, ResolverStep, UpstreamEvent};
use mindns::result_code::ResultCode;

const ROOT: [u8; 4] = [198, 41, 0, 4];

fn datagram(packet: &DnsPacket) -> UpstreamEvent {
    UpstreamEvent::Datagram(packet.to_wire().unwrap())
}

fn started(name: &str, qtype: QueryType) -> Resolver {
    match Resolver::start(ROOT, name.to_string(), qtype) {
        ResolverStep::Query { resolver, server, qname, qtype: asked } => {
            assert_eq!(server, ROOT);
            assert_eq!(qname, name);
            assert_eq!(asked, qtype);
            resolver
        }
        ResolverStep::Done(_) => panic!("a lookup starts with a query"),
    }
}

fn next_query(step: ResolverStep) -> (Resolver, [u8; 4], String, QueryType) {
    match step {
        ResolverStep::Query { resolver, server, qname, qtype } => (resolver, server, qname, qtype),
        ResolverStep::Done(result) => panic!("expected a query, got {:?}", result),
    }
}

fn done(step: ResolverStep) -> Result<DnsPacket, DnsError> {
    match step {
        ResolverStep::Done(result) => result,
        ResolverStep::Query { qname, .. } => panic!("expected the end, got a query for {}", qname),
    }
}

fn answer(name: &str, addr: [u8; 4]) -> DnsPacket {
    let mut packet = DnsPacket::new();
    packet.header.response = true;
    packet.answers.push(DnsRecord::A { domain: name.to_string(), addr, ttl: 30 });
    packet
}

fn referral(zone: &str, host: &str, glue: Option<[u8; 4]>) -> DnsPacket {
    let mut packet = DnsPacket::new();
    packet.header.response = true;
    packet.authorities.push(DnsRecord::NS {
        domain: zone.to_string(),
        host: host.to_string(),
        ttl: 30,
    });
    if let Some(addr) = glue {
        packet.resources.push(DnsRecord::A { domain: host.to_string(), addr, ttl: 30 });
    }
    packet
}

#[test]
fn query_has_one_question_and_no_recursion() {
    let packet = build_query(0x7777, "www.example.com", QueryType::MX);
    assert_eq!(packet.header.id, 0x7777);
    assert!(!packet.header.response);
    assert!(!packet.header.recursion_desired);
    assert_eq!(
        packet.questions,
        vec![DnsQuestion::new("www.example.com".to_string(), QueryType::MX)]
    );
    assert!(packet.answers.is_empty());
    let wire = packet.to_wire().unwrap();
    assert_eq!(&wire[..12], &[0x77, 0x77, 0, 0, 0, 1, 0, 0, 0, 0, 0, 0]);
}

#[test]
fn answer_ends_the_lookup() {
    let resolver = started("www.example.com", QueryType::A);
    let reply = answer("www.example.com", [1, 2, 3, 4]);
    let found = done(resolver.step(datagram(&reply))).unwrap();
    assert_eq!(found.answers, reply.answers);
}

#[test]
fn nxdomain_ends_the_lookup() {
    let resolver = started("gone.example.com", QueryType::A);
    let mut reply = referral("com", "ns.com", Some([9, 9, 9, 9]));
    reply.header.rescode = ResultCode::NXDOMAIN;
    let found = done(resolver.step(datagram(&reply))).unwrap();
    assert_eq!(found.header.rescode, ResultCode::NXDOMAIN);
}

#[test]
fn empty_reply_without_delegation_ends_the_lookup() {
    let resolver = started("www.example.com", QueryType::A);
    let reply = referral("org", "ns.org", Some([9, 9, 9, 9]));
    let found = done(resolver.step(datagram(&reply))).unwrap();
    assert!(found.answers.is_empty());
    assert_eq!(found.authorities, reply.authorities);
}

#[test]
fn referral_with_glue_moves_to_the_name_server() {
    let resolver = started("www.example.com", QueryType::A);
    let step = resolver.step(datagram(&referral("com", "a.gtld.net", Some([192, 5, 6, 30]))));
    let (resolver, server, qname, qtype) = next_query(step);
    assert_eq!(server, [192, 5, 6, 30]);
    assert_eq!(qname, "www.example.com");
    assert_eq!(qtype, QueryType::A);
    let step = resolver.step(datagram(&referral("example.com", "ns.example.com", Some([10, 1, 1, 1]))));
    let (resolver, server, _, _) = next_query(step);
    assert_eq!(server, [10, 1, 1, 1]);
    let found = done(resolver.step(datagram(&answer("www.example.com", [93, 184, 216, 34])))).unwrap();
    assert_eq!(found.random_a(), Some([93, 184, 216, 34]));
}

#[test]
fn referral_without_glue_resolves_the_name_server_from_the_root() {
    let resolver = started("www.example.com", QueryType::MX);
    let step = resolver.step(datagram(&referral("example.com", "ns.other.net", None)));
    let (resolver, server, qname, qtype) = next_query(step);
    assert_eq!(server, ROOT);
    assert_eq!(qname, "ns.other.net");
    assert_eq!(qtype, QueryType::A);
    // The address of the name server is found; the first lookup goes on there.
    let step = resolver.step(datagram(&answer("ns.other.net", [7, 7, 7, 7])));
    let (resolver, server, qname, qtype) = next_query(step);
    assert_eq!(server, [7, 7, 7, 7]);
    assert_eq!(qname, "www.example.com");
    assert_eq!(qtype, QueryType::MX);
    let mut reply = DnsPacket::new();
    reply.answers.push(DnsRecord::MX {
        domain: "www.example.com".to_string(),
        priority: 5,
        host: "mail.example.com".to_string(),
        ttl: 1,
    });
    let found = done(resolver.step(datagram(&reply))).unwrap();
    assert_eq!(found.answers, reply.answers);
}

#[test]
fn name_server_without_address_gives_the_referral_back() {
    let resolver = started("www.example.com", QueryType::A);
    let first = referral("example.com", "ns.other.net", None);
    let (resolver, _, qname, _) = next_query(resolver.step(datagram(&first)));
    assert_eq!(qname, "ns.other.net");
    // The lookup for the name server ends without an address.
    let mut nothing = DnsPacket::new();
    nothing.header.rescode = ResultCode::NXDOMAIN;
    let found = done(resolver.step(datagram(&nothing))).unwrap();
    assert_eq!(found.authorities, first.authorities);
    assert_eq!(found.header.rescode, ResultCode::NOERROR);
}

#[test]
fn endless_referrals_end_with_resolver_loop_after_sixteen_queries() {
    let mut resolver = started("loop.test", QueryType::A);
    let mut queries = 1;
    let result = loop {
        // Every reply refers to a name server whose address is not known.
        let reply = referral("test", "ns.loop.test", None);
        match resolver.step(datagram(&reply)) {
            ResolverStep::Query { resolver: next, server, qname, .. } => {
                assert_eq!(server, ROOT);
                assert_eq!(qname, "ns.loop.test");
                queries += 1;
                assert!(queries <= 16);
                resolver = next;
            }
            ResolverStep::Done(result) => break result,
        }
    };
    assert_eq!(queries, 16);
    assert_eq!(result, Err(DnsError::ResolverLoop));
}

#[test]
fn endless_glue_ends_with_resolver_loop_after_sixteen_queries() {
    let mut resolver = started("www.example.com", QueryType::A);
    let mut queries = 1;
    let result = loop {
        let reply = referral("com", "a.gtld.net", Some([8, 8, 8, queries as u8]));
        match resolver.step(datagram(&reply)) {
            ResolverStep::Query { resolver: next, server, .. } => {
                assert_eq!(server, [8, 8, 8, queries as u8]);
                queries += 1;
                resolver = next;
            }
            ResolverStep::Done(result) => break result,
        }
    };
    assert_eq!(queries, 16);
    assert_eq!(result, Err(DnsError::ResolverLoop));
}

#[test]
fn timeout_and_transport_failure_end_the_lookup() {
    let resolver = started("www.example.com", QueryType::A);
    assert_eq!(done(resolver.step(UpstreamEvent::Timeout)), Err(DnsError::UpstreamTimeout));
    let resolver = started("www.example.com", QueryType::A);
    assert_eq!(done(resolver.step(UpstreamEvent::IoError)), Err(DnsError::UpstreamIoError));
}

#[test]
fn reply_that_is_no_message_ends_the_lookup_as_bad_packet() {
    let resolver = started("www.example.com", QueryType::A);
    let garbage = vec![0, 1, 0, 0, 0, 1, 0, 0, 0, 0, 0, 0, 0xC0, 0x0C];
    assert_eq!(
        done(resolver.step(UpstreamEvent::Datagram(garbage))),
        Err(DnsError::BadPacket)
    );
}

#[test]
fn failure_inside_the_lookup_of_a_name_server_ends_the_whole() {
    let resolver = started("www.example.com", QueryType::A);
    let (resolver, _, _, _) =
        next_query(resolver.step(datagram(&referral("example.com", "ns.other.net", None))));
    assert_eq!(done(resolver.step(UpstreamEvent::Timeout)), Err(DnsError::UpstreamTimeout));
}
