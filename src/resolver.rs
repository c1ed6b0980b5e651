//! Name resolution: a query name `<key>.<map><lhs><rhs>` to the text of the
//! record that the zone holds there.
use vstd::prelude::*;

use crate::records::{map_type_of_label, MapType};
use crate::text::{chars_of, lemma_rfind_bounds, rfind_char, rfind_in, string_of};
use crate::zone::{HesiodZone, ZoneKey};
use crate::records::RecordView;

verus! {

/// The name without one trailing root `.`.
pub open spec fn strip_root(s: Seq<char>) -> Seq<char> {
    if s.len() > 0 && s.last() == '.' {
        s.drop_last()
    } else {
        s
    }
}

/// `s` ends with `suffix`.
pub open spec fn ends_with(s: Seq<char>, suffix: Seq<char>) -> bool {
    suffix.len() <= s.len() && s.subrange(s.len() - suffix.len(), s.len() as int) == suffix
}

/// Where `name` points in a zone with suffixes `lhs` and `rhs`: the map named
/// after the last `.` before the suffix, and the key before that `.`.
pub open spec fn name_target(name: Seq<char>, lhs: Seq<char>, rhs: Seq<char>) -> Option<ZoneKey> {
    let n = strip_root(name);
    let suffix = lhs + rhs;
    if !ends_with(n, suffix) {
        None
    } else {
        let prefix = n.take(n.len() - suffix.len());
        let d = rfind_char(prefix, '.');
        if d < 0 {
            None
        } else {
            match map_type_of_label(prefix.skip(d + 1)) {
                None => None,
                Some(m) => Some((m, prefix.take(d))),
            }
        }
    }
}

/// The text of the record that `name` finds in a zone with these suffixes
/// and this index.
pub open spec fn resolve(
    name: Seq<char>,
    lhs: Seq<char>,
    rhs: Seq<char>,
    index: Map<ZoneKey, RecordView>,
) -> Option<Seq<char>> {
    match name_target(name, lhs, rhs) {
        None => None,
        Some(k) => if index.contains_key(k) {
            Some(index[k].text())
        } else {
            None
        },
    }
}

impl HesiodZone {
    pub open spec fn resolve_spec(&self, name: Seq<char>) -> Option<Seq<char>> {
        resolve(name, self.lhs@, self.rhs@, self.index())
    }
}

/// Whether `s[..end]` ends with `suffix`.
fn ends_with_at(s: &Vec<char>, end: usize, suffix: &Vec<char>) -> (r: bool)
    requires
        end <= s@.len(),
    ensures
        r == ends_with(s@.take(end as int), suffix@),
{
    if suffix.len() > end {
        return false;
    }
    let base = end - suffix.len();
    let mut i: usize = 0;
    while i < suffix.len()
        invariant
            base + suffix@.len() == end,
            end <= s@.len(),
            i <= suffix@.len(),
            forall|j: int| 0 <= j < i ==> s@[base + j] == suffix@[j],
        decreases suffix@.len() - i,
    {
        if s[base + i] != suffix[i] {
            assert(s@.take(end as int).subrange(base as int, end as int)[i as int] != suffix@[i as int]);
            return false;
        }
        i = i + 1;
    }
    assert(s@.take(end as int).subrange(base as int, end as int) =~= suffix@);
    true
}

/// The text of the record that `name` finds in the zone, if any.
pub fn resolve_name(name: &str, zone: &HesiodZone) -> (r: Option<String>)
    requires
        zone.wf(),
    ensures
        match r {
            Some(t) => zone.resolve_spec(name@) == Some(t@),
            None => zone.resolve_spec(name@) is None,
        },
{
    let cs = chars_of(name);
    let end = if cs.len() > 0 && cs[cs.len() - 1] == '.' {
        cs.len() - 1
    } else {
        cs.len()
    };
    let ghost n = strip_root(name@);
    assert(cs@.take(end as int) =~= n);
    let mut suffix = zone.lhs.clone();
    suffix.append(zone.rhs.as_str());
    let suffix_chars = chars_of(suffix.as_str());
    if !ends_with_at(&cs, end, &suffix_chars) {
        return None;
    }
    let cut = end - suffix_chars.len();
    assert(cs@.take(cut as int) =~= n.take(n.len() - (zone.lhs@ + zone.rhs@).len()));
    let dot = match rfind_in(&cs, cut, '.') {
        Some(d) => d,
        None => return None,
    };
    proof {
        lemma_rfind_bounds(cs@.take(cut as int), '.');
    }
    let label = string_of(&cs, dot + 1, cut);
    let key = string_of(&cs, 0, dot);
    assert(label@ =~= cs@.take(cut as int).skip(dot + 1));
    assert(key@ =~= cs@.take(cut as int).take(dot as int));
    let map_type = match MapType::parse_label(label.as_str()) {
        Some(m) => m,
        None => return None,
    };
    match zone.lookup(key.as_str(), map_type) {
        Some(record) => Some(record.to_txt()),
        None => None,
    }
}

} // verus!
