//! Hesiod record types (passwd, group, service, filsys) and their TXT text
//! forms. Every record reads back from the text it writes.
use vstd::prelude::*;
use vstd::string::*;

use crate::text::{
    all_digits, chars_of, decimal, join, lacks, lemma_join_len, lemma_join_push,
    lemma_parse_decimal, lemma_split_all_join, lemma_splitn_join, lemma_splitn_len,
    lemma_splitn_len_count, count_char, limit_of, parse_number, parse_unsigned, push_char,
    push_decimal, split_fields, splitn,
};

verus! {

/// The four Hesiod maps; each has the label used in query names.
#[derive(Debug, Clone, Copy, PartialEq, Eq, Hash, Structural)]
pub enum MapType {
    Passwd,
    Group,
    Service,
    Filsys,
}

/// ASCII letters folded to lower case; every other character kept.
pub open spec fn lower_char(c: char) -> char {
    if 'A' <= c && c <= 'Z' {
        ((c as int) + 32) as char
    } else {
        c
    }
}

pub open spec fn to_lower(s: Seq<char>) -> Seq<char> {
    s.map_values(|c: char| lower_char(c))
}

/// The map whose label is `s`, letters compared without regard to case.
pub open spec fn map_type_of_label(s: Seq<char>) -> Option<MapType> {
    let l = to_lower(s);
    if l == MapType::Passwd.label_spec() {
        Some(MapType::Passwd)
    } else if l == MapType::Group.label_spec() {
        Some(MapType::Group)
    } else if l == MapType::Service.label_spec() {
        Some(MapType::Service)
    } else if l == MapType::Filsys.label_spec() {
        Some(MapType::Filsys)
    } else {
        None
    }
}

impl MapType {
    pub open spec fn label_spec(self) -> Seq<char> {
        match self {
            MapType::Passwd => seq!['p', 'a', 's', 's', 'w', 'd'],
            MapType::Group => seq!['g', 'r', 'o', 'u', 'p'],
            MapType::Service => seq!['s', 'e', 'r', 'v', 'i', 'c', 'e'],
            MapType::Filsys => seq!['f', 'i', 'l', 's', 'y', 's'],
        }
    }

    /// The label used in zone names (`admin.passwd.ns`).
    pub fn label(&self) -> (r: &'static str)
        ensures
            r@ == self.label_spec(),
    {
        match self {
            MapType::Passwd => {
                proof {
                    reveal_strlit("passwd");
                }
                "passwd"
            },
            MapType::Group => {
                proof {
                    reveal_strlit("group");
                }
                "group"
            },
            MapType::Service => {
                proof {
                    reveal_strlit("service");
                }
                "service"
            },
            MapType::Filsys => {
                proof {
                    reveal_strlit("filsys");
                }
                "filsys"
            },
        }
    }

    /// The map named by `s`, whatever the case of its letters.
    pub fn parse_label(s: &str) -> (r: Option<MapType>)
        ensures
            r == map_type_of_label(s@),
    {
        let cs = chars_of(s);
        if label_matches(&cs, MapType::Passwd) {
            Some(MapType::Passwd)
        } else if label_matches(&cs, MapType::Group) {
            Some(MapType::Group)
        } else if label_matches(&cs, MapType::Service) {
            Some(MapType::Service)
        } else if label_matches(&cs, MapType::Filsys) {
            Some(MapType::Filsys)
        } else {
            None
        }
    }
}

fn lower(c: char) -> (r: char)
    ensures
        r == lower_char(c),
{
    if 'A' <= c && c <= 'Z' {
        (((c as u32) as u8) + 32u8) as char
    } else {
        c
    }
}

/// Whether `s`, folded to lower case, is the label of `m`.
fn label_matches(s: &Vec<char>, m: MapType) -> (r: bool)
    ensures
        r == (to_lower(s@) == m.label_spec()),
{
    let label = chars_of(m.label());
    if s.len() != label.len() {
        return false;
    }
    let mut i: usize = 0;
    while i < s.len()
        invariant
            s@.len() == label@.len(),
            label@ == m.label_spec(),
            i <= s@.len(),
            forall|j: int| 0 <= j < i ==> lower_char(s@[j]) == label@[j],
        decreases s@.len() - i,
    {
        if lower(s[i]) != label[i] {
            assert(to_lower(s@)[i as int] != m.label_spec()[i as int]);
            return false;
        }
        i = i + 1;
    }
    assert(to_lower(s@) =~= m.label_spec());
    true
}

/// A label that names no map.
#[derive(Debug, Clone)]
pub struct UnknownMapType {
    pub label: String,
}

impl std::str::FromStr for MapType {
    type Err = UnknownMapType;

    fn from_str(s: &str) -> Result<MapType, UnknownMapType> {
        match MapType::parse_label(s) {
            Some(m) => Ok(m),
            None => Err(UnknownMapType { label: s.to_string() }),
        }
    }
}

/// A numeric field of a record text.
#[derive(Debug, Clone, Copy, PartialEq, Eq, Structural)]
pub enum NumericField {
    Uid,
    Gid,
    Port,
}

/// Why a record text could not be read.
#[derive(Debug, Clone, Copy, PartialEq, Eq, Structural)]
pub enum RecordError {
    /// The text does not split into the number of fields its map needs.
    FieldCount { expected: usize, found: usize },
    /// A numeric field is not an unsigned number of its width.
    InvalidNumber { field: NumericField },
}

/// A decoded record agrees with what the text form says it is.
pub open spec fn decoded_as<T: View>(r: Result<T, RecordError>, s: Result<T::V, RecordError>) -> bool {
    match (r, s) {
        (Ok(v), Ok(w)) => v@ == w,
        (Err(e), Err(f)) => e == f,
        _ => false,
    }
}

pub open spec fn field_count_error(expected: usize, parts: Seq<Seq<char>>) -> RecordError {
    RecordError::FieldCount { expected, found: parts.len() as usize }
}

// --- passwd -----------------------------------------------------------------

/// Unix passwd entry: `user:*:uid:gid:gecos:home:shell`.
#[derive(Debug, Clone, PartialEq, Eq)]
pub struct PasswdRecord {
    pub username: String,
    pub uid: u32,
    pub gid: u32,
    pub gecos: String,
    pub home: String,
    pub shell: String,
}

pub struct PasswdView {
    pub username: Seq<char>,
    pub uid: u32,
    pub gid: u32,
    pub gecos: Seq<char>,
    pub home: Seq<char>,
    pub shell: Seq<char>,
}

impl View for PasswdRecord {
    type V = PasswdView;

    open spec fn view(&self) -> PasswdView {
        PasswdView {
            username: self.username@,
            uid: self.uid,
            gid: self.gid,
            gecos: self.gecos@,
            home: self.home@,
            shell: self.shell@,
        }
    }
}

/// The password placeholder field.
pub open spec fn star() -> Seq<char> {
    seq!['*']
}

pub open spec fn passwd_fields(r: PasswdView) -> Seq<Seq<char>> {
    seq![r.username, star(), decimal(r.uid as nat), decimal(r.gid as nat), r.gecos, r.home, r.shell]
}

pub open spec fn passwd_text(r: PasswdView) -> Seq<char> {
    join(passwd_fields(r), ':')
}

pub open spec fn passwd_decode(s: Seq<char>) -> Result<PasswdView, RecordError> {
    let p = splitn(s, ':', 7);
    if p.len() != 7 {
        Err(field_count_error(7, p))
    } else {
        match (parse_unsigned(p[2], u32::MAX as nat), parse_unsigned(p[3], u32::MAX as nat)) {
            (None, _) => Err(RecordError::InvalidNumber { field: NumericField::Uid }),
            (_, None) => Err(RecordError::InvalidNumber { field: NumericField::Gid }),
            (Some(uid), Some(gid)) => Ok(
                PasswdView {
                    username: p[0],
                    uid: uid as u32,
                    gid: gid as u32,
                    gecos: p[4],
                    home: p[5],
                    shell: p[6],
                },
            ),
        }
    }
}

/// The text form can hold the record: no field before the last holds a `:`.
pub open spec fn passwd_valid(r: PasswdView) -> bool {
    lacks(r.username, ':') && lacks(r.gecos, ':') && lacks(r.home, ':')
}

/// Appends `:` and then `field`.
fn push_field(s: &mut String, sep: char, field: &String)
    ensures
        final(s)@ == old(s)@ + seq![sep] + field@,
{
    push_char(s, sep);
    s.append(field.as_str());
}

/// Appends `:` and then the decimal text of `n`.
fn push_number(s: &mut String, sep: char, n: u32)
    ensures
        final(s)@ == old(s)@ + seq![sep] + decimal(n as nat),
{
    push_char(s, sep);
    push_decimal(s, n);
}

impl PasswdRecord {
    pub fn to_txt(&self) -> (r: String)
        ensures
            r@ == passwd_text(self@),
    {
        let mut s = self.username.clone();
        push_char(&mut s, ':');
        push_char(&mut s, '*');
        push_number(&mut s, ':', self.uid);
        push_number(&mut s, ':', self.gid);
        push_field(&mut s, ':', &self.gecos);
        push_field(&mut s, ':', &self.home);
        push_field(&mut s, ':', &self.shell);
        proof {
            reveal_with_fuel(join, 8);
            assert(s@ =~= passwd_text(self@));
        }
        s
    }

    pub fn from_txt(txt: &str) -> (r: Result<PasswdRecord, RecordError>)
        ensures
            decoded_as(r, passwd_decode(txt@)),
    {
        let cs = chars_of(txt);
        let parts = split_fields(&cs, ':', Some(7));
        if parts.len() != 7 {
            return Err(RecordError::FieldCount { expected: 7, found: parts.len() });
        }
        let uid = match parse_number(&parts[2], u32::MAX) {
            Some(v) => v,
            None => return Err(RecordError::InvalidNumber { field: NumericField::Uid }),
        };
        let gid = match parse_number(&parts[3], u32::MAX) {
            Some(v) => v,
            None => return Err(RecordError::InvalidNumber { field: NumericField::Gid }),
        };
        let r = PasswdRecord {
            username: parts[0].clone(),
            uid,
            gid,
            gecos: parts[4].clone(),
            home: parts[5].clone(),
            shell: parts[6].clone(),
        };
        proof {
            assert(limit_of(Some(7usize), cs@) == 7);
        }
        Ok(r)
    }
}

pub proof fn lemma_passwd_round_trip(r: PasswdView)
    requires
        passwd_valid(r),
    ensures
        passwd_decode(passwd_text(r)) == Ok::<PasswdView, RecordError>(r),
{
    let f = passwd_fields(r);
    assert(lacks(star(), ':'));
    lemma_decimal_lacks(r.uid as nat, ':');
    lemma_decimal_lacks(r.gid as nat, ':');
    lemma_splitn_join(f, ':');
    lemma_parse_decimal(r.uid as nat, u32::MAX as nat);
    lemma_parse_decimal(r.gid as nat, u32::MAX as nat);
}

/// Decimal text holds digits only, so no separator.
pub proof fn lemma_decimal_lacks(n: nat, sep: char)
    requires
        !('0' <= sep && sep <= '9'),
    ensures
        lacks(decimal(n), sep),
{
    crate::text::lemma_decimal_digits(n);
    assert(all_digits(decimal(n)));
}

// --- group ------------------------------------------------------------------

/// Unix group entry: `group:*:gid:member1,member2`.
#[derive(Debug, Clone, PartialEq, Eq)]
pub struct GroupRecord {
    pub name: String,
    pub gid: u32,
    pub members: Vec<String>,
}

pub struct GroupView {
    pub name: Seq<char>,
    pub gid: u32,
    pub members: Seq<Seq<char>>,
}

pub open spec fn views_of(v: Seq<String>) -> Seq<Seq<char>> {
    v.map_values(|m: String| m@)
}

impl View for GroupRecord {
    type V = GroupView;

    open spec fn view(&self) -> GroupView {
        GroupView { name: self.name@, gid: self.gid, members: views_of(self.members@) }
    }
}

pub open spec fn group_fields(r: GroupView) -> Seq<Seq<char>> {
    seq![r.name, star(), decimal(r.gid as nat), join(r.members, ',')]
}

pub open spec fn group_text(r: GroupView) -> Seq<char> {
    join(group_fields(r), ':')
}

/// The member list of a group text: none when the field is empty, else the
/// field split at every `,`.
pub open spec fn members_of(field: Seq<char>) -> Seq<Seq<char>> {
    if field.len() == 0 {
        Seq::empty()
    } else {
        splitn(field, ',', field.len() + 1)
    }
}

pub open spec fn group_decode(s: Seq<char>) -> Result<GroupView, RecordError> {
    let p = splitn(s, ':', 4);
    if p.len() != 4 {
        Err(field_count_error(4, p))
    } else {
        match parse_unsigned(p[2], u32::MAX as nat) {
            None => Err(RecordError::InvalidNumber { field: NumericField::Gid }),
            Some(gid) => Ok(GroupView { name: p[0], gid: gid as u32, members: members_of(p[3]) }),
        }
    }
}

/// The text form can hold the group: its name holds no `:`, no member holds
/// a `,`, and the list is not a single empty name, which reads back as none.
pub open spec fn group_valid(r: GroupView) -> bool {
    &&& lacks(r.name, ':')
    &&& forall|i: int| 0 <= i < r.members.len() ==> lacks(#[trigger] r.members[i], ',')
    &&& r.members != seq![Seq::<char>::empty()]
}

pub proof fn lemma_group_round_trip(r: GroupView)
    requires
        group_valid(r),
    ensures
        group_decode(group_text(r)) == Ok::<GroupView, RecordError>(r),
{
    let f = group_fields(r);
    assert(lacks(star(), ':'));
    lemma_decimal_lacks(r.gid as nat, ':');
    lemma_splitn_join(f, ':');
    lemma_parse_decimal(r.gid as nat, u32::MAX as nat);
    let field = join(r.members, ',');
    if r.members.len() == 0 {
        assert(members_of(field) =~= r.members);
    } else {
        lemma_join_len(r.members, ',');
        if r.members.len() == 1 {
            assert(field == r.members[0]);
            assert(field.len() > 0) by {
                if field.len() == 0 {
                    assert(r.members[0] =~= Seq::<char>::empty());
                    assert(r.members =~= seq![Seq::<char>::empty()]);
                }
            }
        }
        lemma_split_all_join(r.members, ',', field.len() + 1);
    }
}

/// A group with no members is written with an empty last field.
pub proof fn lemma_group_no_members_text(r: GroupView)
    requires
        r.members.len() == 0,
    ensures
        group_text(r) == r.name + seq![':', '*', ':'] + decimal(r.gid as nat) + seq![':'],
{
    reveal_with_fuel(join, 5);
    assert(join(r.members, ',') == Seq::<char>::empty());
    assert(group_text(r) =~= r.name + seq![':', '*', ':'] + decimal(r.gid as nat) + seq![':']);
}

/// Appends the members, separated by `,`.
fn push_members(s: &mut String, members: &Vec<String>)
    ensures
        final(s)@ == old(s)@ + join(views_of(members@), ','),
{
    let mut i: usize = 0;
    while i < members.len()
        invariant
            i <= members@.len(),
            s@ == old(s)@ + join(views_of(members@.take(i as int)), ','),
        decreases members@.len() - i,
    {
        let ghost done = views_of(members@.take(i as int));
        assert(views_of(members@.take(i + 1)) =~= done.push(members@[i as int]@));
        if i > 0 {
            push_char(s, ',');
            proof {
                lemma_join_push(done, members@[i as int]@, ',');
            }
        } else {
            assert(done.push(members@[0]@) =~= seq![members@[0]@]);
        }
        s.append(members[i].as_str());
        i = i + 1;
    }
    assert(members@.take(i as int) =~= members@);
}

impl GroupRecord {
    pub fn to_txt(&self) -> (r: String)
        ensures
            r@ == group_text(self@),
    {
        let mut s = self.name.clone();
        push_char(&mut s, ':');
        push_char(&mut s, '*');
        push_number(&mut s, ':', self.gid);
        push_char(&mut s, ':');
        push_members(&mut s, &self.members);
        proof {
            reveal_with_fuel(join, 5);
            assert(s@ =~= group_text(self@));
        }
        s
    }

    pub fn from_txt(txt: &str) -> (r: Result<GroupRecord, RecordError>)
        ensures
            decoded_as(r, group_decode(txt@)),
    {
        let cs = chars_of(txt);
        let parts = split_fields(&cs, ':', Some(4));
        if parts.len() != 4 {
            return Err(RecordError::FieldCount { expected: 4, found: parts.len() });
        }
        let gid = match parse_number(&parts[2], u32::MAX) {
            Some(v) => v,
            None => return Err(RecordError::InvalidNumber { field: NumericField::Gid }),
        };
        let field = chars_of(parts[3].as_str());
        let members = if field.len() == 0 {
            Vec::new()
        } else {
            split_fields(&field, ',', None)
        };
        assert(views_of(members@) =~= members_of(parts@[3]@));
        Ok(GroupRecord { name: parts[0].clone(), gid, members })
    }
}

// --- service ----------------------------------------------------------------

/// Service location: `host:port:protocol`.
#[derive(Debug, Clone, PartialEq, Eq)]
pub struct ServiceRecord {
    pub host: String,
    pub port: u16,
    pub protocol: String,
}

pub struct ServiceView {
    pub host: Seq<char>,
    pub port: u16,
    pub protocol: Seq<char>,
}

impl View for ServiceRecord {
    type V = ServiceView;

    open spec fn view(&self) -> ServiceView {
        ServiceView { host: self.host@, port: self.port, protocol: self.protocol@ }
    }
}

pub open spec fn service_fields(r: ServiceView) -> Seq<Seq<char>> {
    seq![r.host, decimal(r.port as nat), r.protocol]
}

pub open spec fn service_text(r: ServiceView) -> Seq<char> {
    join(service_fields(r), ':')
}

pub open spec fn service_decode(s: Seq<char>) -> Result<ServiceView, RecordError> {
    let p = splitn(s, ':', 3);
    if p.len() != 3 {
        Err(field_count_error(3, p))
    } else {
        match parse_unsigned(p[1], u16::MAX as nat) {
            None => Err(RecordError::InvalidNumber { field: NumericField::Port }),
            Some(port) => Ok(ServiceView { host: p[0], port: port as u16, protocol: p[2] }),
        }
    }
}

/// The text form can hold the service: its host holds no `:`.
pub open spec fn service_valid(r: ServiceView) -> bool {
    lacks(r.host, ':')
}

pub proof fn lemma_service_round_trip(r: ServiceView)
    requires
        service_valid(r),
    ensures
        service_decode(service_text(r)) == Ok::<ServiceView, RecordError>(r),
{
    lemma_decimal_lacks(r.port as nat, ':');
    lemma_splitn_join(service_fields(r), ':');
    lemma_parse_decimal(r.port as nat, u16::MAX as nat);
}

impl ServiceRecord {
    pub fn to_txt(&self) -> (r: String)
        ensures
            r@ == service_text(self@),
    {
        let mut s = self.host.clone();
        push_number(&mut s, ':', self.port as u32);
        push_field(&mut s, ':', &self.protocol);
        proof {
            reveal_with_fuel(join, 4);
            assert(s@ =~= service_text(self@));
        }
        s
    }

    pub fn from_txt(txt: &str) -> (r: Result<ServiceRecord, RecordError>)
        ensures
            decoded_as(r, service_decode(txt@)),
    {
        let cs = chars_of(txt);
        let parts = split_fields(&cs, ':', Some(3));
        if parts.len() != 3 {
            return Err(RecordError::FieldCount { expected: 3, found: parts.len() });
        }
        let port = match parse_number(&parts[1], 65535) {
            Some(v) => v as u16,
            None => return Err(RecordError::InvalidNumber { field: NumericField::Port }),
        };
        Ok(ServiceRecord { host: parts[0].clone(), port, protocol: parts[2].clone() })
    }
}

// --- filsys -----------------------------------------------------------------

/// Filesystem mount: `type path server:export mode`.
#[derive(Debug, Clone, PartialEq, Eq)]
pub struct FilsysRecord {
    pub fs_type: String,
    pub mount_path: String,
    pub source: String,
    pub mode: String,
}

pub struct FilsysView {
    pub fs_type: Seq<char>,
    pub mount_path: Seq<char>,
    pub source: Seq<char>,
    pub mode: Seq<char>,
}

impl View for FilsysRecord {
    type V = FilsysView;

    open spec fn view(&self) -> FilsysView {
        FilsysView {
            fs_type: self.fs_type@,
            mount_path: self.mount_path@,
            source: self.source@,
            mode: self.mode@,
        }
    }
}

pub open spec fn filsys_fields(r: FilsysView) -> Seq<Seq<char>> {
    seq![r.fs_type, r.mount_path, r.source, r.mode]
}

pub open spec fn filsys_text(r: FilsysView) -> Seq<char> {
    join(filsys_fields(r), ' ')
}

pub open spec fn filsys_decode(s: Seq<char>) -> Result<FilsysView, RecordError> {
    let p = splitn(s, ' ', 4);
    if p.len() != 4 {
        Err(field_count_error(4, p))
    } else {
        Ok(FilsysView { fs_type: p[0], mount_path: p[1], source: p[2], mode: p[3] })
    }
}

/// The text form can hold the mount: no field before the mode holds a space.
pub open spec fn filsys_valid(r: FilsysView) -> bool {
    lacks(r.fs_type, ' ') && lacks(r.mount_path, ' ') && lacks(r.source, ' ')
}

pub proof fn lemma_filsys_round_trip(r: FilsysView)
    requires
        filsys_valid(r),
    ensures
        filsys_decode(filsys_text(r)) == Ok::<FilsysView, RecordError>(r),
{
    lemma_splitn_join(filsys_fields(r), ' ');
}

impl FilsysRecord {
    pub fn to_txt(&self) -> (r: String)
        ensures
            r@ == filsys_text(self@),
    {
        let mut s = self.fs_type.clone();
        push_field(&mut s, ' ', &self.mount_path);
        push_field(&mut s, ' ', &self.source);
        push_field(&mut s, ' ', &self.mode);
        proof {
            reveal_with_fuel(join, 5);
            assert(s@ =~= filsys_text(self@));
        }
        s
    }

    pub fn from_txt(txt: &str) -> (r: Result<FilsysRecord, RecordError>)
        ensures
            decoded_as(r, filsys_decode(txt@)),
    {
        let cs = chars_of(txt);
        let parts = split_fields(&cs, ' ', Some(4));
        if parts.len() != 4 {
            return Err(RecordError::FieldCount { expected: 4, found: parts.len() });
        }
        Ok(
            FilsysRecord {
                fs_type: parts[0].clone(),
                mount_path: parts[1].clone(),
                source: parts[2].clone(),
                mode: parts[3].clone(),
            },
        )
    }
}

// --- any record -------------------------------------------------------------

/// A record of any of the four maps.
#[derive(Debug, Clone, PartialEq, Eq)]
pub enum HesiodRecord {
    Passwd(PasswdRecord),
    Group(GroupRecord),
    Service(ServiceRecord),
    Filsys(FilsysRecord),
}

pub enum RecordView {
    Passwd(PasswdView),
    Group(GroupView),
    Service(ServiceView),
    Filsys(FilsysView),
}

impl View for HesiodRecord {
    type V = RecordView;

    open spec fn view(&self) -> RecordView {
        match self {
            HesiodRecord::Passwd(r) => RecordView::Passwd(r@),
            HesiodRecord::Group(r) => RecordView::Group(r@),
            HesiodRecord::Service(r) => RecordView::Service(r@),
            HesiodRecord::Filsys(r) => RecordView::Filsys(r@),
        }
    }
}

impl RecordView {
    pub open spec fn map_type(self) -> MapType {
        match self {
            RecordView::Passwd(_) => MapType::Passwd,
            RecordView::Group(_) => MapType::Group,
            RecordView::Service(_) => MapType::Service,
            RecordView::Filsys(_) => MapType::Filsys,
        }
    }

    /// The record's own key: user name, group name, host, or mount path.
    pub open spec fn key(self) -> Seq<char> {
        match self {
            RecordView::Passwd(r) => r.username,
            RecordView::Group(r) => r.name,
            RecordView::Service(r) => r.host,
            RecordView::Filsys(r) => r.mount_path,
        }
    }

    /// The canonical text form.
    pub open spec fn text(self) -> Seq<char> {
        match self {
            RecordView::Passwd(r) => passwd_text(r),
            RecordView::Group(r) => group_text(r),
            RecordView::Service(r) => service_text(r),
            RecordView::Filsys(r) => filsys_text(r),
        }
    }

    /// The text form can hold the record.
    pub open spec fn valid(self) -> bool {
        match self {
            RecordView::Passwd(r) => passwd_valid(r),
            RecordView::Group(r) => group_valid(r),
            RecordView::Service(r) => service_valid(r),
            RecordView::Filsys(r) => filsys_valid(r),
        }
    }
}

/// Reading the text form of a record of map `m`.
pub open spec fn record_decode(m: MapType, s: Seq<char>) -> Result<RecordView, RecordError> {
    match m {
        MapType::Passwd => match passwd_decode(s) {
            Ok(r) => Ok(RecordView::Passwd(r)),
            Err(e) => Err(e),
        },
        MapType::Group => match group_decode(s) {
            Ok(r) => Ok(RecordView::Group(r)),
            Err(e) => Err(e),
        },
        MapType::Service => match service_decode(s) {
            Ok(r) => Ok(RecordView::Service(r)),
            Err(e) => Err(e),
        },
        MapType::Filsys => match filsys_decode(s) {
            Ok(r) => Ok(RecordView::Filsys(r)),
            Err(e) => Err(e),
        },
    }
}

impl HesiodRecord {
    pub fn map_type(&self) -> (r: MapType)
        ensures
            r == self@.map_type(),
    {
        match self {
            HesiodRecord::Passwd(_) => MapType::Passwd,
            HesiodRecord::Group(_) => MapType::Group,
            HesiodRecord::Service(_) => MapType::Service,
            HesiodRecord::Filsys(_) => MapType::Filsys,
        }
    }

    pub fn to_txt(&self) -> (r: String)
        ensures
            r@ == self@.text(),
    {
        match self {
            HesiodRecord::Passwd(r) => r.to_txt(),
            HesiodRecord::Group(r) => r.to_txt(),
            HesiodRecord::Service(r) => r.to_txt(),
            HesiodRecord::Filsys(r) => r.to_txt(),
        }
    }

    pub fn from_txt(map_type: MapType, txt: &str) -> (r: Result<HesiodRecord, RecordError>)
        ensures
            decoded_as(r, record_decode(map_type, txt@)),
    {
        match map_type {
            MapType::Passwd => match PasswdRecord::from_txt(txt) {
                Ok(r) => Ok(HesiodRecord::Passwd(r)),
                Err(e) => Err(e),
            },
            MapType::Group => match GroupRecord::from_txt(txt) {
                Ok(r) => Ok(HesiodRecord::Group(r)),
                Err(e) => Err(e),
            },
            MapType::Service => match ServiceRecord::from_txt(txt) {
                Ok(r) => Ok(HesiodRecord::Service(r)),
                Err(e) => Err(e),
            },
            MapType::Filsys => match FilsysRecord::from_txt(txt) {
                Ok(r) => Ok(HesiodRecord::Filsys(r)),
                Err(e) => Err(e),
            },
        }
    }

    /// The record's own key (a user name for a passwd record).
    pub fn key(&self) -> (r: &str)
        ensures
            r@ == self@.key(),
    {
        match self {
            HesiodRecord::Passwd(r) => r.username.as_str(),
            HesiodRecord::Group(r) => r.name.as_str(),
            HesiodRecord::Service(r) => r.host.as_str(),
            HesiodRecord::Filsys(r) => r.mount_path.as_str(),
        }
    }
}

/// Every record that its text form can hold reads back, under its own map,
/// as the same record; a group with no members included, whose member field
/// is written empty.
pub proof fn lemma_record_round_trip(r: RecordView)
    requires
        r.valid(),
    ensures
        record_decode(r.map_type(), r.text()) == Ok::<RecordView, RecordError>(r),
{
    match r {
        RecordView::Passwd(p) => lemma_passwd_round_trip(p),
        RecordView::Group(g) => {
            lemma_group_round_trip(g);
            if g.members.len() == 0 {
                assert(join(g.members, ',') == Seq::<char>::empty());
            }
        },
        RecordView::Service(v) => lemma_service_round_trip(v),
        RecordView::Filsys(f) => lemma_filsys_round_trip(f),
    }
}

/// A passwd text with fewer than six `:`, so fewer than seven fields, is
/// refused for its field count.
pub proof fn lemma_passwd_short_text(s: Seq<char>)
    requires
        count_char(s, ':') < 6,
    ensures
        passwd_decode(s) matches Err(RecordError::FieldCount { expected: 7, found: n }) && n < 7,
{
    lemma_splitn_len_count(s, ':', 7);
    lemma_splitn_len(s, ':', 7);
}

/// A passwd text with seven fields whose uid, or gid, is no unsigned 32-bit
/// number is refused for that number, the uid first.
pub proof fn lemma_passwd_bad_number(s: Seq<char>)
    requires
        splitn(s, ':', 7).len() == 7,
        parse_unsigned(splitn(s, ':', 7)[2], u32::MAX as nat) is None
            || parse_unsigned(splitn(s, ':', 7)[3], u32::MAX as nat) is None,
    ensures
        passwd_decode(s) matches Err(RecordError::InvalidNumber { field: f })
            && (f == NumericField::Uid || f == NumericField::Gid),
{
}

/// A service text with three fields whose port is no unsigned 16-bit number
/// is refused for its port.
pub proof fn lemma_service_bad_port(s: Seq<char>)
    requires
        splitn(s, ':', 3).len() == 3,
        parse_unsigned(splitn(s, ':', 3)[1], u16::MAX as nat) is None,
    ensures
        service_decode(s) == Err::<ServiceView, RecordError>(
            RecordError::InvalidNumber { field: NumericField::Port },
        ),
{
}

/// A group text with four fields whose gid is no unsigned 32-bit number is
/// refused for its gid.
pub proof fn lemma_group_bad_gid(s: Seq<char>)
    requires
        splitn(s, ':', 4).len() == 4,
        parse_unsigned(splitn(s, ':', 4)[2], u32::MAX as nat) is None,
    ensures
        group_decode(s) == Err::<GroupView, RecordError>(
            RecordError::InvalidNumber { field: NumericField::Gid },
        ),
{
}

} // verus!
