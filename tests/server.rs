use hesiod::config::{GroupEntry, HesiodConfig, ServiceEntry, UserEntry};
use hesiod::resolver::resolve_name;
use hesiod::server::{handle_query, DnsServerState, QueryError};
use hesiod::zone::HesiodZone;
use hickory_proto::op::{Message, MessageType, OpCode, Query, ResponseCode};
use hickory_proto::rr::record_data::RData;
use hickory_proto::rr::{DNSClass, Name, RecordType};

fn test_config() -> HesiodConfig {
    HesiodConfig {
        domain: "test.internal".into(),
        lhs: ".ns".into(),
        rhs: ".test.internal".into(),
        ttl: 300,
        dns_port: 53,
        http_port: 8080,
        services: vec![ServiceEntry {
            name: "web".into(),
            host: "web.svc".into(),
            port: 443,
            protocol: "tcp".into(),
        }],
        users: vec![],
        groups: vec![],
    }
}

fn test_zone() -> HesiodZone {
    HesiodZone::from_config(&test_config())
}

#[test]
fn resolve_service_name() {
    let zone = test_zone();
    let name: Name = "web.service.ns.test.internal".parse().unwrap();
    let result = resolve_name(&name.to_string(), &zone);
    assert_eq!(result, Some("web.svc:443:tcp".into()));
}

#[test]
fn resolve_missing_name() {
    let zone = test_zone();
    let name: Name = "missing.service.ns.test.internal".parse().unwrap();
    assert!(resolve_name(&name.to_string(), &zone).is_none());
}

#[test]
fn resolve_wrong_suffix() {
    let zone = test_zone();
    let name: Name = "web.service.ns.other.internal".parse().unwrap();
    assert!(resolve_name(&name.to_string(), &zone).is_none());
}

fn full_zone() -> HesiodZone {
    let mut config = test_config();
    config.users = vec![
        UserEntry {
            username: "admin".into(),
            uid: 1000,
            gid: 1000,
            gecos: "Admin".into(),
            home: "/home/admin".into(),
            shell: "/bin/zsh".into(),
        },
        UserEntry {
            username: "j.doe".into(),
            uid: 1002,
            gid: 1000,
            gecos: "".into(),
            home: "/home/jd".into(),
            shell: "/bin/sh".into(),
        },
        UserEntry {
            username: "admin".into(),
            uid: 1001,
            gid: 1000,
            gecos: "Second".into(),
            home: "/home/admin2".into(),
            shell: "/bin/bash".into(),
        },
    ];
    config.groups = vec![GroupEntry { name: "ops".into(), gid: 1001, members: vec!["admin".into()] }];
    HesiodZone::from_config(&config)
}

#[test]
fn zone_counts_and_overwrites() {
    let zone = full_zone();
    assert_eq!(zone.record_count(), 4);
    let admin = zone.lookup("admin", hesiod::records::MapType::Passwd).unwrap();
    assert_eq!(admin.to_txt(), "admin:*:1001:1000:Second:/home/admin2:/bin/bash");
    assert!(zone.lookup("admin", hesiod::records::MapType::Group).is_none());
    assert!(zone.lookup("web", hesiod::records::MapType::Service).is_some());
    assert_eq!(zone.domain, "test.internal");
    assert_eq!(test_zone().record_count(), 1);
}

#[test]
fn resolve_name_forms() {
    let zone = full_zone();
    assert_eq!(resolve_name("ops.group.ns.test.internal.", &zone), Some("ops:*:1001:admin".into()));
    assert_eq!(
        resolve_name("j.doe.PASSWD.ns.test.internal", &zone),
        Some("j.doe:*:1002:1000::/home/jd:/bin/sh".into())
    );
    assert_eq!(resolve_name("admin.users.ns.test.internal", &zone), None);
    assert_eq!(resolve_name("passwd.ns.test.internal", &zone), None);
    assert_eq!(resolve_name("ADMIN.passwd.ns.test.internal", &zone), None);
    assert_eq!(resolve_name("", &zone), None);
}

fn query_bytes(name: &str, class: DNSClass, rtype: RecordType, op: OpCode) -> Vec<u8> {
    let mut query = Query::new();
    query.set_name(name.parse().unwrap());
    query.set_query_type(rtype);
    query.set_query_class(class);
    let mut msg = Message::new();
    msg.set_id(4242);
    msg.set_message_type(MessageType::Query);
    msg.set_op_code(op);
    msg.add_query(query);
    msg.to_vec().unwrap()
}

fn answer_texts(msg: &Message) -> Vec<String> {
    let mut out = Vec::new();
    for answer in msg.answers() {
        if let RData::TXT(txt) = answer.data() {
            for s in txt.iter() {
                out.push(String::from_utf8(s.to_vec()).unwrap());
            }
        }
    }
    out
}

#[test]
fn hs_txt_query_is_answered() {
    let zone = full_zone();
    let data = query_bytes("web.service.ns.test.internal.", DNSClass::HS, RecordType::TXT, OpCode::Query);
    let resp = Message::from_vec(&handle_query(&data, &zone).unwrap()).unwrap();
    assert_eq!(resp.id(), 4242);
    assert_eq!(resp.message_type(), MessageType::Response);
    assert!(resp.authoritative());
    assert_eq!(resp.response_code(), ResponseCode::NoError);
    assert_eq!(resp.queries().len(), 1);
    assert_eq!(resp.answers().len(), 1);
    assert_eq!(resp.answers()[0].dns_class(), DNSClass::HS);
    assert_eq!(resp.answers()[0].ttl(), 300);
    assert_eq!(answer_texts(&resp), vec!["web.svc:443:tcp".to_string()]);
}

#[test]
fn in_class_query_is_answered() {
    let zone = full_zone();
    let data = query_bytes("ops.group.ns.test.internal.", DNSClass::IN, RecordType::TXT, OpCode::Query);
    let resp = Message::from_vec(&handle_query(&data, &zone).unwrap()).unwrap();
    assert_eq!(resp.response_code(), ResponseCode::NoError);
    assert_eq!(resp.answers()[0].dns_class(), DNSClass::HS);
    assert_eq!(answer_texts(&resp), vec!["ops:*:1001:admin".to_string()]);
}

#[test]
fn missing_key_is_nxdomain() {
    let zone = full_zone();
    let data = query_bytes("nobody.passwd.ns.test.internal.", DNSClass::HS, RecordType::TXT, OpCode::Query);
    let resp = Message::from_vec(&handle_query(&data, &zone).unwrap()).unwrap();
    assert_eq!(resp.response_code(), ResponseCode::NXDomain);
    assert_eq!(resp.answers().len(), 0);
}

#[test]
fn other_class_or_type_is_nxdomain() {
    let zone = full_zone();
    let data = query_bytes("web.service.ns.test.internal.", DNSClass::CH, RecordType::TXT, OpCode::Query);
    let resp = Message::from_vec(&handle_query(&data, &zone).unwrap()).unwrap();
    assert_eq!(resp.response_code(), ResponseCode::NXDomain);
    assert_eq!(resp.answers().len(), 0);
    let data = query_bytes("web.service.ns.test.internal.", DNSClass::HS, RecordType::A, OpCode::Query);
    let resp = Message::from_vec(&handle_query(&data, &zone).unwrap()).unwrap();
    assert_eq!(resp.response_code(), ResponseCode::NXDomain);
    assert_eq!(resp.answers().len(), 0);
}

#[test]
fn other_opcode_is_notimp() {
    let zone = full_zone();
    let data = query_bytes("web.service.ns.test.internal.", DNSClass::HS, RecordType::TXT, OpCode::Status);
    let resp = Message::from_vec(&handle_query(&data, &zone).unwrap()).unwrap();
    assert_eq!(resp.response_code(), ResponseCode::NotImp);
    assert_eq!(resp.op_code(), OpCode::Status);
    assert_eq!(resp.answers().len(), 0);
    assert_eq!(resp.queries().len(), 1);
}

#[test]
fn malformed_datagram_gets_no_response() {
    let zone = full_zone();
    assert_eq!(handle_query(&[1, 2, 3], &zone), Err(QueryError::Malformed));
    let mut state = DnsServerState::new(zone);
    assert_eq!(state.handle_datagram(&[0xff]), None);
    assert_eq!(state.query_count(), 1);
}

#[test]
fn query_counter_counts_datagrams() {
    let mut state = DnsServerState::new(full_zone());
    assert_eq!(state.query_count(), 0);
    let data = query_bytes("web.service.ns.test.internal.", DNSClass::HS, RecordType::TXT, OpCode::Query);
    for _ in 0..5 {
        assert!(state.handle_datagram(&data).is_some());
    }
    assert_eq!(state.query_count(), 5);
}

#[test]
fn config_defaults() {
    assert_eq!(hesiod::config::default_ttl(), 300);
    assert_eq!(hesiod::config::default_dns_port(), 53);
    assert_eq!(hesiod::config::default_http_port(), 8080);
    assert_eq!(hesiod::config::default_protocol(), "tcp");
    assert_eq!(hesiod::config::default_shell(), "/bin/bash");
}

#[test]
fn response_echoes_request_header() {
    let zone = full_zone();
    let mut query = Query::new();
    query.set_name("web.service.ns.test.internal.".parse().unwrap());
    query.set_query_type(RecordType::TXT);
    query.set_query_class(DNSClass::HS);
    let mut msg = Message::new();
    msg.set_id(7);
    msg.set_message_type(MessageType::Query);
    msg.set_op_code(OpCode::Query);
    msg.set_recursion_desired(true);
    msg.set_checking_disabled(true);
    msg.add_query(query.clone());
    let resp = Message::from_vec(&handle_query(&msg.to_vec().unwrap(), &zone).unwrap()).unwrap();
    assert_eq!(resp.id(), 7);
    assert!(resp.recursion_desired());
    assert!(resp.checking_disabled());
    assert!(!resp.truncated());
    assert_eq!(resp.queries(), &[query]);
    assert_eq!(resp.answers()[0].name().to_string(), "web.service.ns.test.internal.");
}

#[test]
fn too_long_text_gets_no_response() {
    let mut config = test_config();
    config.services.push(ServiceEntry {
        name: "long".into(),
        host: "h".repeat(300),
        port: 80,
        protocol: "tcp".into(),
    });
    let zone = HesiodZone::from_config(&config);
    let data = query_bytes("long.service.ns.test.internal.", DNSClass::HS, RecordType::TXT, OpCode::Query);
    assert_eq!(handle_query(&data, &zone), Err(QueryError::Unencodable));
    let mut state = DnsServerState::new(zone);
    assert_eq!(state.handle_datagram(&data), None);
    assert_eq!(state.query_count(), 1);
}

#[test]
fn batch_of_datagrams_is_counted() {
    let mut state = DnsServerState::new(full_zone());
    let good = query_bytes("web.service.ns.test.internal.", DNSClass::HS, RecordType::TXT, OpCode::Query);
    let batch = vec![good.clone(), vec![1, 2], good];
    let replies = state.handle_datagrams(&batch);
    assert_eq!(replies.len(), 3);
    assert!(replies[0].is_some());
    assert!(replies[1].is_none());
    assert!(replies[2].is_some());
    assert_eq!(state.query_count(), 3);
}

#[test]
fn query_id_from_nanos() {
    assert_eq!(hesiod::server::rand_id(0x0012_3456), 0x3456);
    assert_eq!(hesiod::server::rand_id(65535), 65535);
    assert_eq!(hesiod::server::rand_id(65536), 0);
}

#[test]
fn oversized_response_keeps_answer_prefix() {
    let mut config = test_config();
    config.services.push(ServiceEntry {
        name: "big".into(),
        host: "h".repeat(240),
        port: 80,
        protocol: "tcp".into(),
    });
    let zone = HesiodZone::from_config(&config);
    let text = format!("{}:80:tcp", "h".repeat(240));
    let mut msg = Message::new();
    msg.set_id(9);
    msg.set_message_type(MessageType::Query);
    msg.set_op_code(OpCode::Query);
    for _ in 0..300 {
        let mut query = Query::new();
        query.set_name("big.service.ns.test.internal.".parse().unwrap());
        query.set_query_type(RecordType::TXT);
        query.set_query_class(DNSClass::HS);
        msg.add_query(query);
    }
    let resp = Message::from_vec(&handle_query(&msg.to_vec().unwrap(), &zone).unwrap()).unwrap();
    assert!(resp.truncated());
    assert_eq!(resp.queries().len(), 300);
    assert!(resp.answers().len() < 300);
    assert!(!resp.answers().is_empty());
    assert!(answer_texts(&resp).iter().all(|t| *t == text));
}
