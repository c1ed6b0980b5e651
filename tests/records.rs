use hesiod::records::{
    FilsysRecord, GroupRecord, HesiodRecord, MapType, NumericField, PasswdRecord, RecordError,
    ServiceRecord,
};

#[test]
fn passwd_round_trip() {
    let record = PasswdRecord {
        username: "admin".into(),
        uid: 1000,
        gid: 1000,
        gecos: "FlatRacoon Admin".into(),
        home: "/home/admin".into(),
        shell: "/bin/bash".into(),
    };
    let txt = record.to_txt();
    assert_eq!(txt, "admin:*:1000:1000:FlatRacoon Admin:/home/admin:/bin/bash");
    let parsed = PasswdRecord::from_txt(&txt).unwrap();
    assert_eq!(record, parsed);
}

#[test]
fn group_round_trip() {
    let record = GroupRecord {
        name: "operators".into(),
        gid: 1001,
        members: vec!["admin".into(), "operator".into()],
    };
    let txt = record.to_txt();
    assert_eq!(txt, "operators:*:1001:admin,operator");
    let parsed = GroupRecord::from_txt(&txt).unwrap();
    assert_eq!(record, parsed);
}

#[test]
fn group_empty_members() {
    let record = GroupRecord { name: "empty".into(), gid: 9999, members: vec![] };
    let txt = record.to_txt();
    assert_eq!(txt, "empty:*:9999:");
    let parsed = GroupRecord::from_txt(&txt).unwrap();
    assert_eq!(parsed.members, Vec::<String>::new());
}

#[test]
fn service_round_trip() {
    let record = ServiceRecord { host: "twingate.svc".into(), port: 443, protocol: "tcp".into() };
    let txt = record.to_txt();
    assert_eq!(txt, "twingate.svc:443:tcp");
    let parsed = ServiceRecord::from_txt(&txt).unwrap();
    assert_eq!(record, parsed);
}

#[test]
fn filsys_round_trip() {
    let record = FilsysRecord {
        fs_type: "nfs".into(),
        mount_path: "/home".into(),
        source: "nfsserver:/export".into(),
        mode: "rw".into(),
    };
    let txt = record.to_txt();
    assert_eq!(txt, "nfs /home nfsserver:/export rw");
    let parsed = FilsysRecord::from_txt(&txt).unwrap();
    assert_eq!(record, parsed);
}

#[test]
fn hesiod_record_enum_round_trip() {
    let record = HesiodRecord::Service(ServiceRecord {
        host: "ipfs.svc".into(),
        port: 8080,
        protocol: "tcp".into(),
    });
    let txt = record.to_txt();
    let parsed = HesiodRecord::from_txt(MapType::Service, &txt).unwrap();
    assert_eq!(record, parsed);
}

#[test]
fn map_type_parse() {
    assert_eq!("passwd".parse::<MapType>().unwrap(), MapType::Passwd);
    assert_eq!("GROUP".parse::<MapType>().unwrap(), MapType::Group);
    assert!("bogus".parse::<MapType>().is_err());
}

#[test]
fn map_type_labels() {
    assert_eq!(MapType::Passwd.label(), "passwd");
    assert_eq!(MapType::Group.label(), "group");
    assert_eq!(MapType::Service.label(), "service");
    assert_eq!(MapType::Filsys.label(), "filsys");
    assert_eq!(MapType::parse_label("FilSys"), Some(MapType::Filsys));
    assert_eq!(MapType::parse_label("services"), None);
    assert_eq!(MapType::parse_label(""), None);
}

#[test]
fn passwd_too_few_fields() {
    let r = PasswdRecord::from_txt("admin:*:1000:1000:gecos:/home/admin");
    assert_eq!(r, Err(RecordError::FieldCount { expected: 7, found: 6 }));
    let r = PasswdRecord::from_txt("");
    assert_eq!(r, Err(RecordError::FieldCount { expected: 7, found: 1 }));
}

#[test]
fn passwd_shell_keeps_colons() {
    let r = PasswdRecord::from_txt("u:*:1:2:g:/h:/bin/sh:extra").unwrap();
    assert_eq!(r.shell, "/bin/sh:extra");
    assert_eq!(r.uid, 1);
    assert_eq!(r.gid, 2);
}

#[test]
fn passwd_bad_numbers() {
    let r = PasswdRecord::from_txt("admin:*:abc:1000:g:/h:/bin/sh");
    assert_eq!(r, Err(RecordError::InvalidNumber { field: NumericField::Uid }));
    let r = PasswdRecord::from_txt("admin:*:1000:-1:g:/h:/bin/sh");
    assert_eq!(r, Err(RecordError::InvalidNumber { field: NumericField::Gid }));
    let r = PasswdRecord::from_txt("admin:*:4294967296:1:g:/h:/bin/sh");
    assert_eq!(r, Err(RecordError::InvalidNumber { field: NumericField::Uid }));
    let r = PasswdRecord::from_txt("admin:*::1:g:/h:/bin/sh");
    assert_eq!(r, Err(RecordError::InvalidNumber { field: NumericField::Uid }));
}

#[test]
fn passwd_number_limits() {
    let r = PasswdRecord::from_txt("root:*:0:4294967295:g:/root:/bin/sh").unwrap();
    assert_eq!(r.uid, 0);
    assert_eq!(r.gid, 4294967295);
    assert_eq!(r.to_txt(), "root:*:0:4294967295:g:/root:/bin/sh");
    let r = PasswdRecord::from_txt("root:*:+7:007:g:/root:/bin/sh").unwrap();
    assert_eq!(r.uid, 7);
    assert_eq!(r.gid, 7);
}

#[test]
fn service_bad_port() {
    let r = ServiceRecord::from_txt("web.svc:65536:tcp");
    assert_eq!(r, Err(RecordError::InvalidNumber { field: NumericField::Port }));
    let r = ServiceRecord::from_txt("web.svc:http:tcp");
    assert_eq!(r, Err(RecordError::InvalidNumber { field: NumericField::Port }));
    let r = ServiceRecord::from_txt("web.svc:80");
    assert_eq!(r, Err(RecordError::FieldCount { expected: 3, found: 2 }));
    let r = ServiceRecord::from_txt("web.svc:65535:tcp").unwrap();
    assert_eq!(r.port, 65535);
}

#[test]
fn group_bad_gid_and_count() {
    let r = GroupRecord::from_txt("ops:*:x:a");
    assert_eq!(r, Err(RecordError::InvalidNumber { field: NumericField::Gid }));
    let r = GroupRecord::from_txt("ops:*:1");
    assert_eq!(r, Err(RecordError::FieldCount { expected: 4, found: 3 }));
}

#[test]
fn group_single_member_and_empty_names() {
    let r = GroupRecord::from_txt("ops:*:5:solo").unwrap();
    assert_eq!(r.members, vec!["solo".to_string()]);
    let r = GroupRecord::from_txt("ops:*:5:a,,b").unwrap();
    assert_eq!(r.members, vec!["a".to_string(), "".to_string(), "b".to_string()]);
}

#[test]
fn filsys_field_count() {
    let r = FilsysRecord::from_txt("nfs /home rw");
    assert_eq!(r, Err(RecordError::FieldCount { expected: 4, found: 3 }));
    let r = FilsysRecord::from_txt("nfs /home src:/x rw extra").unwrap();
    assert_eq!(r.mode, "rw extra");
}

#[test]
fn record_keys_and_map_types() {
    let p = HesiodRecord::Passwd(PasswdRecord {
        username: "admin".into(),
        uid: 1,
        gid: 2,
        gecos: "".into(),
        home: "/h".into(),
        shell: "/bin/sh".into(),
    });
    assert_eq!(p.key(), "admin");
    assert_eq!(p.map_type(), MapType::Passwd);
    let f = HesiodRecord::Filsys(FilsysRecord {
        fs_type: "nfs".into(),
        mount_path: "/home".into(),
        source: "s:/e".into(),
        mode: "rw".into(),
    });
    assert_eq!(f.key(), "/home");
    assert_eq!(f.map_type(), MapType::Filsys);
    assert_eq!(HesiodRecord::from_txt(MapType::Filsys, &f.to_txt()).unwrap(), f);
    let g = HesiodRecord::Group(GroupRecord { name: "ops".into(), gid: 3, members: vec![] });
    assert_eq!(g.key(), "ops");
    assert_eq!(HesiodRecord::from_txt(MapType::Group, &g.to_txt()).unwrap(), g);
    assert_eq!(HesiodRecord::from_txt(MapType::Passwd, &p.to_txt()).unwrap(), p);
    assert_eq!(
        HesiodRecord::from_txt(MapType::Passwd, "a:b"),
        Err(RecordError::FieldCount { expected: 7, found: 2 })
    );
}
