use dns_resolver::error::DnsError;
use dns_resolver::header::ResponseCode;
use dns_resolver::packet::Packet;
use dns_resolver::question::Question;
use dns_resolver::record::{Ipv4Addr, QueryType, Record};
use dns_resolver::resolver::{Resolver, ResolverAction, ResolverConfig};
use dns_resolver::server::Server;

fn config() -> ResolverConfig {
    ResolverConfig {
        root: Ipv4Addr::new(198, 41, 0, 4),
        port: 53,
        max_steps: 8,
        retries: 1,
    }
}

fn delegation(ns_domain: &str, ns_host: &str, glue: Option<Ipv4Addr>) -> Packet {
    let mut p = Packet::new();
    p.header.query_response = true;
    p.authorities.push(Record::NS {
        domain: ns_domain.to_string(),
        host: ns_host.to_string(),
        ttl: 60,
    });
    if let Some(ip) = glue {
        p.additionals.push(Record::A {
            domain: ns_host.to_string(),
            ip,
            ttl: 60,
        });
    }
    p
}

fn answer(qname: &str, ip: Ipv4Addr) -> Packet {
    let mut p = Packet::new();
    p.header.query_response = true;
    p.answers.push(Record::A {
        domain: qname.to_string(),
        ip,
        ttl: 60,
    });
    p
}

#[test]
fn nxdomain_answered_after_one_exchange() {
    let cfg = config();
    let (mut resolver, action) =
        Resolver::start("nonexistent.example".to_string(), QueryType::A, cfg);
    let mut exchanges = 0;
    match action {
        ResolverAction::SendQuery { ns, qname, qtype, .. } => {
            exchanges += 1;
            assert_eq!(ns, cfg.root);
            assert_eq!(qname, "nonexistent.example");
            assert_eq!(qtype, QueryType::A);
        }
        _ => panic!("expected the first query"),
    }

    let mut reply = Packet::new();
    reply.header.query_response = true;
    reply.header.response_code = ResponseCode::NXDOMAIN;

    match resolver.on_response(reply) {
        ResolverAction::Finished { response } => {
            assert_eq!(response.header.response_code, ResponseCode::NXDOMAIN);
            assert!(response.answers.is_empty());
        }
        _ => panic!("expected the resolution to finish"),
    }
    assert_eq!(exchanges, 1);
}

#[test]
fn delegation_chain_resolves_in_three_exchanges() {
    let cfg = config();
    let tld_ip = Ipv4Addr::new(192, 5, 6, 30);
    let auth_ip = Ipv4Addr::new(93, 184, 216, 1);
    let final_ip = Ipv4Addr::new(93, 184, 216, 34);

    let (mut resolver, action) = Resolver::start("example.com".to_string(), QueryType::A, cfg);
    let mut exchanges = 0;
    match action {
        ResolverAction::SendQuery { ns, .. } => {
            exchanges += 1;
            assert_eq!(ns, cfg.root);
        }
        _ => panic!("expected the first query"),
    }

    let root_reply = delegation("com", "a.gtld.test", Some(tld_ip));
    match resolver.on_response(root_reply) {
        ResolverAction::SendQuery { ns, qname, .. } => {
            exchanges += 1;
            assert_eq!(ns, tld_ip);
            assert_eq!(qname, "example.com");
        }
        _ => panic!("expected a query to the TLD server"),
    }

    let tld_reply = delegation("example.com", "ns1.example.com", Some(auth_ip));
    match resolver.on_response(tld_reply) {
        ResolverAction::SendQuery { ns, qname, .. } => {
            exchanges += 1;
            assert_eq!(ns, auth_ip);
            assert_eq!(qname, "example.com");
        }
        _ => panic!("expected a query to the authoritative server"),
    }

    let auth_reply = answer("example.com", final_ip);
    match resolver.on_response(auth_reply) {
        ResolverAction::Finished { response } => {
            assert_eq!(response.random_answer(), Some(final_ip));
        }
        _ => panic!("expected the resolution to finish"),
    }
    assert_eq!(exchanges, 3);
}

#[test]
fn glueless_delegation_resolves_nameserver_first() {
    let cfg = config();
    let ns_ip = Ipv4Addr::new(10, 0, 0, 53);
    let final_ip = Ipv4Addr::new(1, 2, 3, 4);

    let (mut resolver, action) = Resolver::start("example.com".to_string(), QueryType::A, cfg);
    assert!(matches!(action, ResolverAction::SendQuery { .. }));

    // a delegation without glue: the nameserver's own address is
    // resolved first, from the root
    let reply = delegation("com", "ns.other.test", None);
    match resolver.on_response(reply) {
        ResolverAction::SendQuery { ns, qname, qtype, .. } => {
            assert_eq!(ns, cfg.root);
            assert_eq!(qname, "ns.other.test");
            assert_eq!(qtype, QueryType::A);
        }
        _ => panic!("expected a query for the nameserver's address"),
    }

    let ns_reply = answer("ns.other.test", ns_ip);
    match resolver.on_response(ns_reply) {
        ResolverAction::SendQuery { ns, qname, .. } => {
            assert_eq!(ns, ns_ip);
            assert_eq!(qname, "example.com");
        }
        _ => panic!("expected the original lookup to resume"),
    }

    let final_reply = answer("example.com", final_ip);
    match resolver.on_response(final_reply) {
        ResolverAction::Finished { response } => {
            assert_eq!(response.random_answer(), Some(final_ip));
        }
        _ => panic!("expected the resolution to finish"),
    }
}

#[test]
fn transport_failure_is_retried_once_then_fatal() {
    let cfg = config();
    let (mut resolver, action) = Resolver::start("example.com".to_string(), QueryType::A, cfg);
    let first_ns = match action {
        ResolverAction::SendQuery { ns, .. } => ns,
        _ => panic!("expected the first query"),
    };

    match resolver.on_transport_failure(DnsError::ResolutionTimeout) {
        ResolverAction::SendQuery { ns, qname, .. } => {
            assert_eq!(ns, first_ns);
            assert_eq!(qname, "example.com");
        }
        _ => panic!("expected a retry against the same nameserver"),
    }

    match resolver.on_transport_failure(DnsError::ResolutionTimeout) {
        ResolverAction::Failed { error } => {
            assert_eq!(error, DnsError::ResolutionTimeout);
        }
        _ => panic!("expected the retry budget to be spent"),
    }
}

#[test]
fn transport_error_without_retries_is_fatal() {
    let mut cfg = config();
    cfg.retries = 0;
    let (mut resolver, _) = Resolver::start("example.com".to_string(), QueryType::A, cfg);
    match resolver.on_transport_failure(DnsError::TransportError) {
        ResolverAction::Failed { error } => assert_eq!(error, DnsError::TransportError),
        _ => panic!("expected the failure to be final"),
    }
}

#[test]
fn exhausted_step_budget_fails_resolution() {
    let mut cfg = config();
    cfg.max_steps = 1;
    let (mut resolver, action) = Resolver::start("example.com".to_string(), QueryType::A, cfg);
    assert!(matches!(action, ResolverAction::SendQuery { .. }));

    let reply = delegation("com", "a.gtld.test", Some(Ipv4Addr::new(192, 5, 6, 30)));
    match resolver.on_response(reply) {
        ResolverAction::Failed { error } => {
            assert_eq!(error, DnsError::ResolutionExhausted);
        }
        _ => panic!("expected the step budget to be spent"),
    }
}

#[test]
fn delegation_loop_back_to_visited_server_fails() {
    let cfg = config();
    let (mut resolver, _) = Resolver::start("example.com".to_string(), QueryType::A, cfg);

    // the delegation points back at the root that was just queried
    let reply = delegation("com", "a.gtld.test", Some(cfg.root));
    match resolver.on_response(reply) {
        ResolverAction::Failed { error } => {
            assert_eq!(error, DnsError::ResolutionExhausted);
        }
        _ => panic!("expected the loop to be detected"),
    }
}

#[test]
fn unhelpful_response_finishes_with_that_response() {
    let cfg = config();
    let (mut resolver, _) = Resolver::start("example.com".to_string(), QueryType::A, cfg);

    // NOERROR, no answers, no matching delegation: nothing to follow
    let mut reply = Packet::new();
    reply.header.query_response = true;
    reply.header.id = 77;
    match resolver.on_response(reply) {
        ResolverAction::Finished { response } => {
            assert_eq!(response.header.id, 77);
            assert!(response.answers.is_empty());
        }
        _ => panic!("expected the resolution to finish"),
    }
}

#[test]
fn resolved_ns_prefers_first_glued_match_in_section_order() {
    let mut p = Packet::new();
    p.authorities.push(Record::NS {
        domain: "org".to_string(),
        host: "wrong.test".to_string(),
        ttl: 60,
    });
    p.authorities.push(Record::NS {
        domain: "com".to_string(),
        host: "h1.test".to_string(),
        ttl: 60,
    });
    p.authorities.push(Record::NS {
        domain: "com".to_string(),
        host: "h2.test".to_string(),
        ttl: 60,
    });
    p.authorities.push(Record::NS {
        domain: "example.com".to_string(),
        host: "h3.test".to_string(),
        ttl: 60,
    });
    p.additionals.push(Record::A {
        domain: "h2.test".to_string(),
        ip: Ipv4Addr::new(2, 2, 2, 2),
        ttl: 60,
    });
    p.additionals.push(Record::A {
        domain: "h3.test".to_string(),
        ip: Ipv4Addr::new(3, 3, 3, 3),
        ttl: 60,
    });

    // h1 matches first but has no glue; h2 is the first match with glue
    assert_eq!(p.resolved_ns("example.com"), Some(Ipv4Addr::new(2, 2, 2, 2)));
    // the first match wins regardless of glue
    assert_eq!(p.unresolved_ns("example.com"), Some("h1.test".to_string()));
    // no authority matches an unrelated name
    assert_eq!(p.resolved_ns("example.net"), None);
    assert_eq!(p.unresolved_ns("example.net"), None);
}

#[test]
fn random_answer_takes_first_a_record() {
    let mut p = Packet::new();
    p.answers.push(Record::CNAME {
        domain: "example.com".to_string(),
        host: "alias.example.com".to_string(),
        ttl: 60,
    });
    p.answers.push(Record::A {
        domain: "alias.example.com".to_string(),
        ip: Ipv4Addr::new(7, 7, 7, 7),
        ttl: 60,
    });
    p.answers.push(Record::A {
        domain: "alias.example.com".to_string(),
        ip: Ipv4Addr::new(8, 8, 8, 8),
        ttl: 60,
    });
    assert_eq!(p.random_answer(), Some(Ipv4Addr::new(7, 7, 7, 7)));

    let empty = Packet::new();
    assert_eq!(empty.random_answer(), None);
}

#[test]
fn build_query_sends_a_single_question() {
    let q = Server::build_query("example.com", QueryType::A);
    assert_eq!(q.header.id, 1000);
    assert_eq!(q.header.query_response, false);
    assert_eq!(q.header.recursion_desired, true);
    assert_eq!(q.header.question_count, 1);
    assert_eq!(q.questions.len(), 1);
    assert_eq!(q.questions[0].name, "example.com");
    assert_eq!(q.questions[0].qtype, QueryType::A);
}

#[test]
fn build_response_echoes_question_and_copies_sections() {
    let mut request = Packet::new();
    request.header.id = 4711;
    request.questions.push(Question::new("example.com".to_string(), QueryType::A));

    let lookup = answer("example.com", Ipv4Addr::new(5, 6, 7, 8));
    let reply = Server::build_response(request, Some(lookup));

    assert_eq!(reply.header.id, 4711);
    assert_eq!(reply.header.query_response, true);
    assert_eq!(reply.header.recursion_desired, true);
    assert_eq!(reply.header.recursion_available, true);
    assert_eq!(reply.header.response_code, ResponseCode::NOERROR);
    assert_eq!(reply.questions.len(), 1);
    assert_eq!(reply.questions[0].name, "example.com");
    assert_eq!(reply.answers.len(), 1);
    assert_eq!(
        reply.answers[0],
        Record::A {
            domain: "example.com".to_string(),
            ip: Ipv4Addr::new(5, 6, 7, 8),
            ttl: 60,
        }
    );
}

#[test]
fn build_response_answers_servfail_without_question() {
    let mut request = Packet::new();
    request.header.id = 99;
    let reply = Server::build_response(request, None);
    assert_eq!(reply.header.id, 99);
    assert_eq!(reply.header.response_code, ResponseCode::SERVFAIL);
    assert!(reply.questions.is_empty());
}

#[test]
fn build_response_answers_servfail_on_failed_resolution() {
    let mut request = Packet::new();
    request.header.id = 100;
    request.questions.push(Question::new("example.com".to_string(), QueryType::A));
    let reply = Server::build_response(request, None);
    assert_eq!(reply.header.id, 100);
    assert_eq!(reply.header.response_code, ResponseCode::SERVFAIL);
}
