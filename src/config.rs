//! The configuration a zone is built from: the naming suffixes, the time to
//! live, and the service, user and group entries.
use vstd::prelude::*;

use crate::records::{GroupRecord, GroupView, PasswdRecord, PasswdView, ServiceRecord, ServiceView, views_of};

verus! {

/// Top-level Hesiod configuration.
#[derive(Debug, Clone)]
pub struct HesiodConfig {
    pub domain: String,
    pub lhs: String,
    pub rhs: String,
    pub ttl: u32,
    pub dns_port: u16,
    pub http_port: u16,
    pub services: Vec<ServiceEntry>,
    pub users: Vec<UserEntry>,
    pub groups: Vec<GroupEntry>,
}

/// The time to live of answers when the configuration gives none.
pub fn default_ttl() -> (r: u32)
    ensures
        r == 300,
{
    300
}

/// The DNS port when the configuration gives none.
pub fn default_dns_port() -> (r: u16)
    ensures
        r == 53,
{
    53
}

/// The health and metrics port when the configuration gives none.
pub fn default_http_port() -> (r: u16)
    ensures
        r == 8080,
{
    8080
}

/// The service protocol when an entry gives none.
pub fn default_protocol() -> (r: String)
    ensures
        r@ == seq!['t', 'c', 'p'],
{
    proof {
        reveal_strlit("tcp");
    }
    String::from_str("tcp")
}

/// The login shell when a user entry gives none.
pub fn default_shell() -> (r: String)
    ensures
        r@ == seq!['/', 'b', 'i', 'n', '/', 'b', 'a', 's', 'h'],
{
    proof {
        reveal_strlit("/bin/bash");
    }
    String::from_str("/bin/bash")
}

/// A service entry; its name is the key that queries use.
#[derive(Debug, Clone)]
pub struct ServiceEntry {
    pub name: String,
    pub host: String,
    pub port: u16,
    pub protocol: String,
}

/// A user entry.
#[derive(Debug, Clone)]
pub struct UserEntry {
    pub username: String,
    pub uid: u32,
    pub gid: u32,
    pub gecos: String,
    pub home: String,
    pub shell: String,
}

/// A group entry.
#[derive(Debug, Clone)]
pub struct GroupEntry {
    pub name: String,
    pub gid: u32,
    pub members: Vec<String>,
}

impl ServiceEntry {
    pub open spec fn record_view(self) -> ServiceView {
        ServiceView { host: self.host@, port: self.port, protocol: self.protocol@ }
    }

    /// The service record that the entry describes.
    pub fn to_record(&self) -> (r: ServiceRecord)
        ensures
            r@ == self.record_view(),
    {
        ServiceRecord { host: self.host.clone(), port: self.port, protocol: self.protocol.clone() }
    }
}

impl UserEntry {
    pub open spec fn record_view(self) -> PasswdView {
        PasswdView {
            username: self.username@,
            uid: self.uid,
            gid: self.gid,
            gecos: self.gecos@,
            home: self.home@,
            shell: self.shell@,
        }
    }

    /// The passwd record that the entry describes.
    pub fn to_record(&self) -> (r: PasswdRecord)
        ensures
            r@ == self.record_view(),
    {
        PasswdRecord {
            username: self.username.clone(),
            uid: self.uid,
            gid: self.gid,
            gecos: self.gecos.clone(),
            home: self.home.clone(),
            shell: self.shell.clone(),
        }
    }
}

/// Copies a list of names.
fn clone_names(v: &Vec<String>) -> (r: Vec<String>)
    ensures
        views_of(r@) == views_of(v@),
{
    let mut r: Vec<String> = Vec::new();
    let mut i: usize = 0;
    while i < v.len()
        invariant
            i <= v@.len(),
            views_of(r@) == views_of(v@.take(i as int)),
        decreases v@.len() - i,
    {
        let ghost before = r@;
        r.push(v[i].clone());
        assert(views_of(r@) =~= views_of(before).push(v@[i as int]@));
        assert(views_of(v@.take(i + 1)) =~= views_of(v@.take(i as int)).push(v@[i as int]@));
        i = i + 1;
    }
    assert(v@.take(i as int) =~= v@);
    r
}

impl GroupEntry {
    pub open spec fn record_view(self) -> GroupView {
        GroupView { name: self.name@, gid: self.gid, members: views_of(self.members@) }
    }

    /// The group record that the entry describes.
    pub fn to_record(&self) -> (r: GroupRecord)
        ensures
            r@ == self.record_view(),
    {
        GroupRecord { name: self.name.clone(), gid: self.gid, members: clone_names(&self.members) }
    }
}

} // verus!
