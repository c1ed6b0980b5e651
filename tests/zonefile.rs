use hesiod::config::{GroupEntry, HesiodConfig, ServiceEntry, UserEntry};
use hesiod::zone::HesiodZone;
use hesiod::records::{MapType, NumericField, RecordError};
use hesiod::zonefile::{check_zone_line, tally, LineCheck};

#[test]
fn zone_lines_skipped() {
    assert_eq!(check_zone_line(""), LineCheck::Skipped);
    assert_eq!(check_zone_line("   \t "), LineCheck::Skipped);
    assert_eq!(check_zone_line("; HS TXT \"x\""), LineCheck::Skipped);
    assert_eq!(check_zone_line("$ORIGIN ns.example.internal."), LineCheck::Skipped);
    assert_eq!(check_zone_line("@ IN SOA ns. admin. 1 2 3 4 5"), LineCheck::Skipped);
    assert_eq!(check_zone_line("web.service IN TXT \"web.svc:443:tcp\""), LineCheck::Skipped);
}

#[test]
fn zone_lines_checked() {
    assert_eq!(check_zone_line("  web.service.ns HS TXT \"web.svc:443:tcp\"  "), LineCheck::Checked);
    assert_eq!(
        check_zone_line("admin.passwd.ns HS TXT \"admin:*:1000:1000:Admin:/home/admin:/bin/bash\""),
        LineCheck::Checked
    );
    assert_eq!(check_zone_line("ops.group.ns HS TXT \"ops:*:1001:\""), LineCheck::Checked);
    assert_eq!(check_zone_line("thing.other.ns HS TXT \"anything\""), LineCheck::Checked);
}

#[test]
fn zone_lines_with_errors() {
    assert_eq!(check_zone_line("web.service.ns HS TXT web.svc"), LineCheck::MissingOpenQuote);
    assert_eq!(check_zone_line("web.service.ns HS TXT \"web.svc"), LineCheck::MissingCloseQuote);
    assert_eq!(check_zone_line("web.service.ns HS TXT \"\""), LineCheck::MissingCloseQuote);
    assert_eq!(
        check_zone_line("web.service.ns HS TXT \"web.svc:https:tcp\""),
        LineCheck::Invalid {
            map_type: MapType::Service,
            error: RecordError::InvalidNumber { field: NumericField::Port }
        }
    );
    assert_eq!(
        check_zone_line("admin.passwd.ns HS TXT \"admin:*:1000\""),
        LineCheck::Invalid {
            map_type: MapType::Passwd,
            error: RecordError::FieldCount { expected: 7, found: 3 }
        }
    );
    assert_eq!(
        check_zone_line("home.filsys.ns HS TXT \"nfs /home\""),
        LineCheck::Invalid {
            map_type: MapType::Filsys,
            error: RecordError::FieldCount { expected: 4, found: 2 }
        }
    );
}

#[test]
fn line_verdict_kinds() {
    assert!(!LineCheck::Skipped.is_record());
    assert!(!LineCheck::Skipped.is_error());
    assert!(LineCheck::Checked.is_record());
    assert!(!LineCheck::Checked.is_error());
    assert!(LineCheck::MissingOpenQuote.is_error());
    assert!(LineCheck::MissingCloseQuote.is_record());
    assert!(LineCheck::Invalid {
        map_type: MapType::Group,
        error: RecordError::InvalidNumber { field: NumericField::Gid }
    }
    .is_error());
}

#[test]
fn generated_zone_file_checks_clean() {
    let config = HesiodConfig {
        domain: "example.internal".into(),
        lhs: ".ns".into(),
        rhs: ".example.internal".into(),
        ttl: 600,
        dns_port: 53,
        http_port: 8080,
        services: vec![ServiceEntry {
            name: "web".into(),
            host: "web.svc".into(),
            port: 443,
            protocol: "tcp".into(),
        }],
        users: vec![UserEntry {
            username: "admin".into(),
            uid: 1000,
            gid: 1000,
            gecos: "Admin".into(),
            home: "/home/admin".into(),
            shell: "/bin/zsh".into(),
        }],
        groups: vec![GroupEntry { name: "ops".into(), gid: 1001, members: vec![] }],
    };
    let zone = HesiodZone::from_config(&config);
    let text = zone.to_bind_zone();
    assert_eq!(
        text,
        "$ORIGIN example.internal.\n$TTL 600\n\
         admin.passwd.ns HS TXT \"admin:*:1000:1000:Admin:/home/admin:/bin/zsh\"\n\
         ops.group.ns HS TXT \"ops:*:1001:\"\n\
         web.service.ns HS TXT \"web.svc:443:tcp\"\n"
    );
    let verdicts: Vec<LineCheck> = text.lines().map(check_zone_line).collect();
    assert_eq!(
        verdicts,
        vec![
            LineCheck::Skipped,
            LineCheck::Skipped,
            LineCheck::Checked,
            LineCheck::Checked,
            LineCheck::Checked
        ]
    );
}

#[test]
fn tally_counts_records_and_errors() {
    let v = vec![
        LineCheck::Skipped,
        LineCheck::Checked,
        LineCheck::MissingOpenQuote,
        LineCheck::Invalid {
            map_type: MapType::Passwd,
            error: RecordError::FieldCount { expected: 7, found: 2 },
        },
        LineCheck::Checked,
    ];
    assert_eq!(tally(&v), (4, 2));
    assert_eq!(tally(&vec![]), (0, 0));
}
