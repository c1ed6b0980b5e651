//! The zone: the naming suffixes, the time to live, and the records indexed
//! by map and key, built once from the configuration.
use vstd::prelude::*;

use crate::config::HesiodConfig;
use crate::records::{HesiodRecord, MapType, RecordView};
use crate::text::{decimal, push_char, push_decimal};
use vstd::string::*;

verus! {

/// Where a record is found: its map and its key.
pub type ZoneKey = (MapType, Seq<char>);

/// The index that a list of (key, record) pairs builds when each pair is
/// inserted in turn: a later pair replaces an earlier one with its key.
pub open spec fn index_of(pairs: Seq<(ZoneKey, RecordView)>) -> Map<ZoneKey, RecordView>
    decreases pairs.len(),
{
    if pairs.len() == 0 {
        Map::empty()
    } else {
        index_of(pairs.drop_last()).insert(pairs.last().0, pairs.last().1)
    }
}

/// No two pairs share a key.
pub open spec fn keys_unique(pairs: Seq<(ZoneKey, RecordView)>) -> bool {
    forall|i: int, j: int| 0 <= i < j < pairs.len() ==> pairs[i].0 != pairs[j].0
}

pub proof fn lemma_index_contents(pairs: Seq<(ZoneKey, RecordView)>)
    requires
        keys_unique(pairs),
    ensures
        index_of(pairs).dom().finite(),
        index_of(pairs).dom().len() == pairs.len(),
        forall|k: ZoneKey|
            index_of(pairs).contains_key(k) <==> exists|i: int|
                0 <= i < pairs.len() && (#[trigger] pairs[i]).0 == k,
        forall|i: int| 0 <= i < pairs.len() ==> index_of(pairs)[(#[trigger] pairs[i]).0] == pairs[i].1,
    decreases pairs.len(),
{
    if pairs.len() > 0 {
        let d = pairs.drop_last();
        assert(keys_unique(d));
        lemma_index_contents(d);
        let n = pairs.len() - 1;
        assert forall|k: ZoneKey|
            index_of(pairs).contains_key(k) <==> exists|i: int|
                0 <= i < pairs.len() && (#[trigger] pairs[i]).0 == k by {
            if index_of(d).contains_key(k) {
                let i = choose|i: int| 0 <= i < d.len() && (#[trigger] d[i]).0 == k;
                assert(pairs[i] == d[i]);
            }
            if exists|i: int| 0 <= i < pairs.len() && (#[trigger] pairs[i]).0 == k {
                let i = choose|i: int| 0 <= i < pairs.len() && (#[trigger] pairs[i]).0 == k;
                if i < n {
                    assert(d[i] == pairs[i]);
                }
            }
        }
        assert(!index_of(d).contains_key(pairs[n].0)) by {
            if index_of(d).contains_key(pairs[n].0) {
                let i = choose|i: int| 0 <= i < d.len() && (#[trigger] d[i]).0 == pairs[n].0;
                assert(pairs[i] == d[i]);
            }
        }
        assert forall|i: int| 0 <= i < pairs.len() implies index_of(pairs)[(#[trigger] pairs[i]).0]
            == pairs[i].1 by {
            if i < n {
                assert(d[i] == pairs[i]);
            }
        }
    }
}

/// Replacing the pair that holds a key changes the index at that key alone.
pub proof fn lemma_index_update(
    pairs: Seq<(ZoneKey, RecordView)>,
    i: int,
    p: (ZoneKey, RecordView),
)
    requires
        keys_unique(pairs),
        0 <= i < pairs.len(),
        pairs[i].0 == p.0,
    ensures
        index_of(pairs.update(i, p)) == index_of(pairs).insert(p.0, p.1),
        keys_unique(pairs.update(i, p)),
    decreases pairs.len(),
{
    let u = pairs.update(i, p);
    let n = pairs.len() - 1;
    if i == n {
        assert(u.drop_last() =~= pairs.drop_last());
        assert(index_of(u) =~= index_of(pairs).insert(p.0, p.1));
    } else {
        let d = pairs.drop_last();
        assert(u.drop_last() =~= d.update(i, p));
        assert(keys_unique(d));
        lemma_index_update(d, i, p);
        assert(pairs[n].0 != p.0);
        assert(index_of(u) =~= index_of(pairs).insert(p.0, p.1));
    }
}

/// The owner name of a record in a zone file: `<key>.<map><lhs>`.
pub open spec fn owner_name(key: Seq<char>, m: MapType, lhs: Seq<char>) -> Seq<char> {
    key + seq!['.'] + m.label_spec() + lhs
}

/// ` HS TXT "`, between an owner name and its quoted text.
pub open spec fn hs_txt_open() -> Seq<char> {
    seq![' ', 'H', 'S', ' ', 'T', 'X', 'T', ' ', '"']
}

/// One zone-file line: `<owner> HS TXT "<text>"`, and a line break.
pub open spec fn zone_line(p: (ZoneKey, RecordView), lhs: Seq<char>) -> Seq<char> {
    owner_name(p.0.1, p.0.0, lhs) + hs_txt_open() + p.1.text() + seq!['"', '\n']
}

/// The zone-file lines of the pairs, in order.
pub open spec fn zone_lines(pairs: Seq<(ZoneKey, RecordView)>, lhs: Seq<char>) -> Seq<char>
    decreases pairs.len(),
{
    if pairs.len() == 0 {
        Seq::empty()
    } else {
        zone_lines(pairs.drop_last(), lhs) + zone_line(pairs.last(), lhs)
    }
}

/// `$ORIGIN <domain>.` and `$TTL <ttl>`, each on its own line.
pub open spec fn zone_header(domain: Seq<char>, ttl: u32) -> Seq<char> {
    seq!['$', 'O', 'R', 'I', 'G', 'I', 'N', ' '] + domain + seq!['.', '\n', '$', 'T', 'T', 'L', ' ']
        + decimal(ttl as nat) + seq!['\n']
}

/// One record of the zone, under the key that queries use.
#[derive(Debug, Clone)]
pub struct ZoneEntry {
    pub key: String,
    pub record: HesiodRecord,
}

impl ZoneEntry {
    pub open spec fn pair(self) -> (ZoneKey, RecordView) {
        ((self.record@.map_type(), self.key@), self.record@)
    }
}

/// A Hesiod zone. Each map holds at most one record per key.
#[derive(Debug, Clone)]
pub struct HesiodZone {
    pub domain: String,
    pub lhs: String,
    pub rhs: String,
    pub ttl: u32,
    pub entries: Vec<ZoneEntry>,
}

/// The pairs that the configuration lists: users, then groups, then services
/// under their entry names.
pub open spec fn config_pairs(c: HesiodConfig) -> Seq<(ZoneKey, RecordView)> {
    c.users@.map_values(|u: crate::config::UserEntry| ((MapType::Passwd, u.username@), RecordView::Passwd(u.record_view())))
        + c.groups@.map_values(|g: crate::config::GroupEntry| ((MapType::Group, g.name@), RecordView::Group(g.record_view())))
        + c.services@.map_values(|s: crate::config::ServiceEntry| ((MapType::Service, s.name@), RecordView::Service(s.record_view())))
}

impl HesiodZone {
    pub open spec fn pairs(&self) -> Seq<(ZoneKey, RecordView)> {
        self.entries@.map_values(|e: ZoneEntry| e.pair())
    }

    /// The zone's records by map and key.
    pub open spec fn index(&self) -> Map<ZoneKey, RecordView> {
        index_of(self.pairs())
    }

    pub open spec fn wf(&self) -> bool {
        keys_unique(self.pairs())
    }

    /// A zone with no records.
    pub fn new(domain: String, lhs: String, rhs: String, ttl: u32) -> (r: HesiodZone)
        ensures
            r.wf(),
            r.index() == Map::<ZoneKey, RecordView>::empty(),
            r.domain == domain,
            r.lhs == lhs,
            r.rhs == rhs,
            r.ttl == ttl,
    {
        let r = HesiodZone { domain, lhs, rhs, ttl, entries: Vec::new() };
        assert(r.pairs() =~= Seq::<(ZoneKey, RecordView)>::empty());
        r
    }

    /// Adds `record` under `key` in its map, replacing what the map held
    /// under that key.
    pub fn insert(&mut self, key: String, record: HesiodRecord)
        requires
            old(self).wf(),
        ensures
            final(self).wf(),
            final(self).index() == old(self).index().insert((record@.map_type(), key@), record@),
            final(self).domain == old(self).domain,
            final(self).lhs == old(self).lhs,
            final(self).rhs == old(self).rhs,
            final(self).ttl == old(self).ttl,
    {
        let m = record.map_type();
        let entry = ZoneEntry { key, record };
        let ghost p = entry.pair();
        let mut i: usize = 0;
        while i < self.entries.len()
            invariant
                i <= self.entries@.len(),
                forall|j: int| 0 <= j < i ==> self.pairs()[j].0 != p.0,
                *self == *old(self),
                self.wf(),
                p == entry.pair(),
                p == ((record@.map_type(), key@), record@),
                p.0.0 == m,
                p.0.1 == entry.key@,
            decreases self.entries@.len() - i,
        {
            if self.entries[i].record.map_type() == m && self.entries[i].key == entry.key {
                let ghost old_pairs = self.pairs();
                proof {
                    assert(old_pairs[i as int] == self.entries@[i as int].pair());
                    lemma_index_update(old_pairs, i as int, p);
                }
                self.entries.set(i, entry);
                assert(self.pairs() =~= old_pairs.update(i as int, p));
                return;
            }
            assert(self.pairs()[i as int] == self.entries@[i as int].pair());
            i = i + 1;
        }
        let ghost old_pairs = self.pairs();
        self.entries.push(entry);
        assert(self.pairs() =~= old_pairs.push(p));
        assert(self.pairs().drop_last() =~= old_pairs);
    }

    /// The zone as a BIND-style zone file: a header, then one `HS TXT` line
    /// per record, whose text is the record's canonical text form.
    pub fn to_bind_zone(&self) -> (r: String)
        ensures
            r@ == zone_header(self.domain@, self.ttl) + zone_lines(self.pairs(), self.lhs@),
    {
        proof {
            reveal_strlit("$ORIGIN ");
            reveal_strlit(".\n$TTL ");
        }
        let mut out = String::from_str("$ORIGIN ");
        out.append(self.domain.as_str());
        out.append(".\n$TTL ");
        push_decimal(&mut out, self.ttl);
        push_char(&mut out, '\n');
        assert(out@ =~= zone_header(self.domain@, self.ttl));
        let ghost head = out@;
        let mut i: usize = 0;
        assert(self.pairs().take(0) =~= Seq::<(ZoneKey, RecordView)>::empty());
        while i < self.entries.len()
            invariant
                i <= self.entries@.len(),
                out@ == head + zone_lines(self.pairs().take(i as int), self.lhs@),
            decreases self.entries@.len() - i,
        {
            let e = &self.entries[i];
            let ghost before = out@;
            out.append(e.key.as_str());
            push_char(&mut out, '.');
            out.append(e.record.map_type().label());
            out.append(self.lhs.as_str());
            out.append(" HS TXT \"");
            out.append(e.record.to_txt().as_str());
            out.append("\"\n");
            proof {
                reveal_strlit(" HS TXT \"");
                reveal_strlit("\"\n");
                let p = self.pairs()[i as int];
                assert(p == e.pair());
                assert(self.pairs().take(i + 1).drop_last() =~= self.pairs().take(i as int));
                assert(out@ =~= before + zone_line(p, self.lhs@));
            }
            i = i + 1;
        }
        assert(self.pairs().take(i as int) =~= self.pairs());
        out
    }

    /// The record that `map_type` holds under `key`.
    pub fn lookup(&self, key: &str, map_type: MapType) -> (r: Option<&HesiodRecord>)
        requires
            self.wf(),
        ensures
            match r {
                Some(rec) => self.index().contains_key((map_type, key@)) && self.index()[(
                    map_type,
                    key@,
                )] == rec@,
                None => !self.index().contains_key((map_type, key@)),
            },
    {
        let wanted = String::from_str(key);
        proof {
            lemma_index_contents(self.pairs());
        }
        let mut i: usize = 0;
        while i < self.entries.len()
            invariant
                i <= self.entries@.len(),
                wanted@ == key@,
                self.wf(),
                forall|j: int| 0 <= j < i ==> self.pairs()[j].0 != (map_type, key@),
            decreases self.entries@.len() - i,
        {
            assert(self.pairs()[i as int] == self.entries@[i as int].pair());
            if self.entries[i].record.map_type() == map_type && self.entries[i].key == wanted {
                assert(self.pairs()[i as int].0 == (map_type, key@));
                proof {
                    lemma_index_contents(self.pairs());
                }
                return Some(&self.entries[i].record);
            }
            i = i + 1;
        }
        proof {
            lemma_index_contents(self.pairs());
        }
        None
    }

    /// The number of records, over all maps.
    pub fn record_count(&self) -> (r: usize)
        requires
            self.wf(),
        ensures
            r == self.index().len(),
    {
        proof {
            lemma_index_contents(self.pairs());
        }
        self.entries.len()
    }

    /// The zone that the configuration describes: its users, groups and
    /// services, each under its name; where two entries of one map share a
    /// name, the later one stands.
    pub fn from_config(config: &HesiodConfig) -> (r: HesiodZone)
        ensures
            r.wf(),
            r.index() == index_of(config_pairs(*config)),
            r.domain@ == config.domain@,
            r.lhs@ == config.lhs@,
            r.rhs@ == config.rhs@,
            r.ttl == config.ttl,
    {
        let ghost all = config_pairs(*config);
        let mut zone = HesiodZone::new(
            config.domain.clone(),
            config.lhs.clone(),
            config.rhs.clone(),
            config.ttl,
        );
        let nu = config.users.len();
        let ng = config.groups.len();
        assert(all.take(0) =~= Seq::<(ZoneKey, RecordView)>::empty());
        let mut i: usize = 0;
        while i < nu
            invariant
                nu == config.users@.len(),
                all == config_pairs(*config),
                i <= nu,
                zone.wf(),
                zone.index() == index_of(all.take(i as int)),
                zone.domain@ == config.domain@,
                zone.lhs@ == config.lhs@,
                zone.rhs@ == config.rhs@,
                zone.ttl == config.ttl,
            decreases nu - i,
        {
            let u = &config.users[i];
            zone.insert(u.username.clone(), HesiodRecord::Passwd(u.to_record()));
            assert(all.take(i + 1).drop_last() =~= all.take(i as int));
            i = i + 1;
        }
        let mut i: usize = 0;
        while i < ng
            invariant
                nu == config.users@.len(),
                ng == config.groups@.len(),
                all == config_pairs(*config),
                i <= ng,
                zone.wf(),
                zone.index() == index_of(all.take(nu + i)),
                zone.domain@ == config.domain@,
                zone.lhs@ == config.lhs@,
                zone.rhs@ == config.rhs@,
                zone.ttl == config.ttl,
            decreases ng - i,
        {
            let g = &config.groups[i];
            zone.insert(g.name.clone(), HesiodRecord::Group(g.to_record()));
            assert(all.take(nu + i + 1).drop_last() =~= all.take(nu + i));
            i = i + 1;
        }
        let mut i: usize = 0;
        while i < config.services.len()
            invariant
                nu == config.users@.len(),
                ng == config.groups@.len(),
                all == config_pairs(*config),
                i <= config.services@.len(),
                zone.wf(),
                zone.index() == index_of(all.take(nu + ng + i)),
                zone.domain@ == config.domain@,
                zone.lhs@ == config.lhs@,
                zone.rhs@ == config.rhs@,
                zone.ttl == config.ttl,
            decreases config.services@.len() - i,
        {
            let s = &config.services[i];
            zone.insert(s.name.clone(), HesiodRecord::Service(s.to_record()));
            assert(all.take(nu + ng + i + 1).drop_last() =~= all.take(nu + ng + i));
            i = i + 1;
        }
        assert(all.take(nu + ng + i) =~= all);
        zone
    }
}

} // verus!
