//! Checking the lines of a BIND-style zone file: each `HS TXT` line must
//! quote a record text that reads back under the map its name gives.
use vstd::prelude::*;

use crate::records::{record_decode, HesiodRecord, MapType, RecordError};
use crate::text::{chars_of, find_char, find_in, rfind_char, rfind_in};

verus! {

/// Unicode white space, as Rust's `char::is_whitespace` has it.
pub open spec fn is_ws(c: char) -> bool {
    ||| '\t' <= c && c <= '\r'
    ||| c == ' '
    ||| c == '\u{85}'
    ||| c == '\u{a0}'
    ||| c == '\u{1680}'
    ||| '\u{2000}' <= c && c <= '\u{200a}'
    ||| c == '\u{2028}'
    ||| c == '\u{2029}'
    ||| c == '\u{202f}'
    ||| c == '\u{205f}'
    ||| c == '\u{3000}'
}

pub open spec fn trim_start(s: Seq<char>) -> Seq<char>
    decreases s.len(),
{
    if s.len() > 0 && is_ws(s[0]) {
        trim_start(s.drop_first())
    } else {
        s
    }
}

pub open spec fn trim_end(s: Seq<char>) -> Seq<char>
    decreases s.len(),
{
    if s.len() > 0 && is_ws(s.last()) {
        trim_end(s.drop_last())
    } else {
        s
    }
}

/// `s` without leading and trailing white space.
pub open spec fn trim(s: Seq<char>) -> Seq<char> {
    trim_end(trim_start(s))
}

/// Length of the leading run of characters that are not white space.
pub open spec fn word_len(s: Seq<char>) -> nat
    decreases s.len(),
{
    if s.len() == 0 || is_ws(s[0]) {
        0
    } else {
        1 + word_len(s.drop_first())
    }
}

/// `pat` occurs in `s` at `i`.
pub open spec fn occurs_at(s: Seq<char>, pat: Seq<char>, i: int) -> bool {
    0 <= i && i + pat.len() <= s.len() && s.subrange(i, i + pat.len()) == pat
}

/// `pat` occurs somewhere in `s`.
pub open spec fn occurs(s: Seq<char>, pat: Seq<char>) -> bool {
    exists|i: int| occurs_at(s, pat, i)
}

pub open spec fn hs_txt() -> Seq<char> {
    seq!['H', 'S', ' ', 'T', 'X', 'T']
}

/// `.` and then the label of `m`.
pub open spec fn dotted_label(m: MapType) -> Seq<char> {
    seq!['.'] + m.label_spec()
}

/// The map that an owner name mentions, tried in the order passwd, group,
/// service, filsys.
pub open spec fn map_of_owner(w: Seq<char>) -> Option<MapType> {
    if occurs(w, dotted_label(MapType::Passwd)) {
        Some(MapType::Passwd)
    } else if occurs(w, dotted_label(MapType::Group)) {
        Some(MapType::Group)
    } else if occurs(w, dotted_label(MapType::Service)) {
        Some(MapType::Service)
    } else if occurs(w, dotted_label(MapType::Filsys)) {
        Some(MapType::Filsys)
    } else {
        None
    }
}

/// The verdict on one line of a zone file.
#[derive(Debug, Clone, Copy, PartialEq, Eq, Structural)]
pub enum LineCheck {
    /// Blank, a comment or directive, or no `HS TXT` line.
    Skipped,
    /// An `HS TXT` line whose text reads back, or whose name gives no map.
    Checked,
    /// An `HS TXT` line with no `"`.
    MissingOpenQuote,
    /// An `HS TXT` line with no closing `"` after a non-empty text.
    MissingCloseQuote,
    /// An `HS TXT` line whose text does not read back under its map.
    Invalid { map_type: MapType, error: RecordError },
}

impl LineCheck {
    /// The line holds an `HS TXT` record.
    pub fn is_record(&self) -> (r: bool)
        ensures
            r == !(*self is Skipped),
    {
        !matches!(self, LineCheck::Skipped)
    }

    /// The line holds an `HS TXT` record that is not well formed.
    pub fn is_error(&self) -> (r: bool)
        ensures
            r == (*self is MissingOpenQuote || *self is MissingCloseQuote || *self is Invalid),
    {
        matches!(self, LineCheck::MissingOpenQuote | LineCheck::MissingCloseQuote | LineCheck::Invalid { .. })
    }
}

/// The verdict on `line`: trimmed, a line that is blank or starts with `;`,
/// `$` or `@`, or that holds no `HS TXT`, is skipped; else the text between
/// its first and last `"` is read under the map that its first word names.
pub open spec fn line_check(line: Seq<char>) -> LineCheck {
    let t = trim(line);
    if t.len() == 0 || t[0] == ';' || t[0] == '$' || t[0] == '@' {
        LineCheck::Skipped
    } else if !occurs(t, hs_txt()) {
        LineCheck::Skipped
    } else {
        let open = find_char(t, '"');
        let close = rfind_char(t, '"');
        if open < 0 {
            LineCheck::MissingOpenQuote
        } else if close <= open + 1 {
            LineCheck::MissingCloseQuote
        } else {
            match map_of_owner(t.take(word_len(t) as int)) {
                None => LineCheck::Checked,
                Some(m) => match record_decode(m, t.subrange(open + 1, close)) {
                    Ok(_) => LineCheck::Checked,
                    Err(e) => LineCheck::Invalid { map_type: m, error: e },
                },
            }
        }
    }
}

/// Whether `pat` occurs in `s[from..to]` at `i`.
fn occurs_here(s: &Vec<char>, i: usize, pat: &Vec<char>) -> (r: bool)
    requires
        i + pat@.len() <= s@.len(),
    ensures
        r == occurs_at(s@, pat@, i as int),
{
    let n = s.len();
    let mut j: usize = 0;
    while j < pat.len()
        invariant
            n == s@.len(),
            i + pat@.len() <= s@.len(),
            j <= pat@.len(),
            forall|k: int| 0 <= k < j ==> s@[i + k] == pat@[k],
        decreases pat@.len() - j,
    {
        if s[i + j] != pat[j] {
            assert(s@.subrange(i as int, i + pat@.len())[j as int] != pat@[j as int]);
            return false;
        }
        j = j + 1;
    }
    assert(s@.subrange(i as int, i + pat@.len()) =~= pat@);
    true
}

/// Whether `pat` occurs in `s`.
fn occurs_in(s: &Vec<char>, pat: &Vec<char>) -> (r: bool)
    ensures
        r == occurs(s@, pat@),
{
    if pat.len() > s.len() {
        return false;
    }
    let last = s.len() - pat.len();
    let mut i: usize = 0;
    loop
        invariant
            last + pat@.len() == s@.len(),
            i <= last,
            forall|k: int| 0 <= k < i ==> !occurs_at(s@, pat@, k),
        ensures
            forall|k: int| 0 <= k <= last ==> !occurs_at(s@, pat@, k),
        decreases last - i,
    {
        if occurs_here(s, i, pat) {
            return true;
        }
        if i == last {
            break;
        }
        i = i + 1;
    }
    assert forall|k: int| !occurs_at(s@, pat@, k) by {
        if 0 <= k <= last {
        }
    }
    false
}

proof fn lemma_trim_start(s: Seq<char>, lo: int)
    requires
        0 <= lo <= s.len(),
        forall|k: int| 0 <= k < lo ==> is_ws(s[k]),
    ensures
        trim_start(s) == trim_start(s.skip(lo)),
    decreases lo,
{
    if lo > 0 {
        let d = s.drop_first();
        assert forall|k: int| 0 <= k < lo - 1 implies is_ws(d[k]) by {
            assert(d[k] == s[k + 1]);
        }
        lemma_trim_start(d, lo - 1);
        assert(d.skip(lo - 1) =~= s.skip(lo));
    } else {
        assert(s.skip(0) =~= s);
    }
}

/// `s` without leading and trailing white space, as `trim` says.
fn trimmed(s: &Vec<char>) -> (r: Vec<char>)
    ensures
        r@ == trim(s@),
{
    let mut lo: usize = 0;
    while lo < s.len() && is_whitespace(s[lo])
        invariant
            lo <= s@.len(),
            forall|k: int| 0 <= k < lo ==> is_ws(s@[k]),
        decreases s@.len() - lo,
    {
        lo = lo + 1;
    }
    proof {
        lemma_trim_start(s@, lo as int);
    }
    let ghost rest = s@.skip(lo as int);
    let mut hi: usize = s.len();
    assert(rest.subrange(0, (hi - lo) as int) =~= rest);
    while hi > lo && is_whitespace(s[hi - 1])
        invariant
            lo <= hi <= s@.len(),
            rest == s@.skip(lo as int),
            lo < s@.len() ==> hi > lo && !is_ws(s@[lo as int]),
            trim_end(rest) == trim_end(rest.subrange(0, hi - lo)),
        decreases hi,
    {
        assert(rest.subrange(0, hi - lo).drop_last() =~= rest.subrange(0, hi - 1 - lo));
        hi = hi - 1;
    }
    let ghost kept = rest.subrange(0, hi - lo);
    proof {
        if lo < s@.len() {
            assert(kept.len() > 0);
            assert(!is_ws(kept[0]));
        }
        assert(trim_start(s@) == rest);
        if kept.len() > 0 {
            assert(kept.last() == s@[hi - 1]);
        }
    }
    let mut r: Vec<char> = Vec::new();
    let mut i = lo;
    while i < hi
        invariant
            lo <= i <= hi <= s@.len(),
            r@ == s@.subrange(lo as int, i as int),
        decreases hi - i,
    {
        r.push(s[i]);
        assert(s@.subrange(lo as int, i + 1) =~= s@.subrange(lo as int, i as int).push(s@[i as int]));
        i = i + 1;
    }
    assert(r@ =~= kept);
    r
}

fn is_whitespace(c: char) -> (r: bool)
    ensures
        r == is_ws(c),
{
    ('\t' <= c && c <= '\r') || c == ' ' || c == '\u{85}' || c == '\u{a0}' || c == '\u{1680}' || (
    '\u{2000}' <= c && c <= '\u{200a}') || c == '\u{2028}' || c == '\u{2029}' || c == '\u{202f}'
        || c == '\u{205f}' || c == '\u{3000}'
}

/// The leading run of `t` that is not white space.
fn first_word(t: &Vec<char>) -> (r: Vec<char>)
    ensures
        r@ == t@.take(word_len(t@) as int),
{
    let mut r: Vec<char> = Vec::new();
    let mut i: usize = 0;
    assert(t@.skip(0) =~= t@);
    while i < t.len() && !is_whitespace(t[i])
        invariant
            i <= t@.len(),
            r@ == t@.take(i as int),
            word_len(t@) == i + word_len(t@.skip(i as int)),
        decreases t@.len() - i,
    {
        assert(t@.skip(i as int).drop_first() =~= t@.skip(i + 1));
        r.push(t[i]);
        assert(t@.take(i + 1) =~= t@.take(i as int).push(t@[i as int]));
        i = i + 1;
    }
    r
}

/// The map that an owner name mentions, as `map_of_owner` says.
fn owner_map(w: &Vec<char>) -> (r: Option<MapType>)
    ensures
        r == map_of_owner(w@),
{
    let p = pat_of(MapType::Passwd);
    if occurs_in(w, &p) {
        return Some(MapType::Passwd);
    }
    let g = pat_of(MapType::Group);
    if occurs_in(w, &g) {
        return Some(MapType::Group);
    }
    let s = pat_of(MapType::Service);
    if occurs_in(w, &s) {
        return Some(MapType::Service);
    }
    let f = pat_of(MapType::Filsys);
    if occurs_in(w, &f) {
        return Some(MapType::Filsys);
    }
    None
}

fn pat_of(m: MapType) -> (r: Vec<char>)
    ensures
        r@ == dotted_label(m),
{
    let mut r: Vec<char> = Vec::new();
    r.push('.');
    let label = chars_of(m.label());
    let mut i: usize = 0;
    while i < label.len()
        invariant
            i <= label@.len(),
            label@ == m.label_spec(),
            r@ == seq!['.'] + label@.take(i as int),
        decreases label@.len() - i,
    {
        r.push(label[i]);
        assert(label@.take(i + 1) =~= label@.take(i as int).push(label@[i as int]));
        assert(r@ =~= seq!['.'] + label@.take(i + 1));
        i = i + 1;
    }
    assert(label@.take(i as int) =~= label@);
    r
}

/// The verdict on one line of a zone file, as `line_check` says.
pub fn check_zone_line(line: &str) -> (r: LineCheck)
    ensures
        r == line_check(line@),
{
    let t = trimmed(&chars_of(line));
    if t.len() == 0 || t[0] == ';' || t[0] == '$' || t[0] == '@' {
        return LineCheck::Skipped;
    }
    let marker = chars_of("HS TXT");
    proof {
        reveal_strlit("HS TXT");
    }
    assert(marker@ =~= hs_txt());
    if !occurs_in(&t, &marker) {
        return LineCheck::Skipped;
    }
    let open = match find_in(&t, '"') {
        Some(i) => i,
        None => return LineCheck::MissingOpenQuote,
    };
    assert(t@.take(t@.len() as int) =~= t@);
    proof {
        crate::text::lemma_find_char_bounds(t@, '"');
        crate::text::lemma_rfind_bounds(t@, '"');
    }
    let close = match rfind_in(&t, t.len(), '"') {
        Some(i) => i,
        None => return LineCheck::MissingCloseQuote,
    };
    assert(t@.take(t@.len() as int) =~= t@);
    if close <= open + 1 {
        return LineCheck::MissingCloseQuote;
    }
    let word = first_word(&t);
    let map_type = match owner_map(&word) {
        Some(m) => m,
        None => return LineCheck::Checked,
    };
    let text = crate::text::string_of(&t, open + 1, close);
    match HesiodRecord::from_txt(map_type, text.as_str()) {
        Ok(_) => LineCheck::Checked,
        Err(error) => LineCheck::Invalid { map_type, error },
    }
}

/// The number of verdicts that are records.
pub open spec fn count_records(v: Seq<LineCheck>) -> nat
    decreases v.len(),
{
    if v.len() == 0 {
        0
    } else {
        count_records(v.drop_last()) + if v.last() is Skipped {
            0nat
        } else {
            1nat
        }
    }
}

/// The number of verdicts that are errors.
pub open spec fn count_errors(v: Seq<LineCheck>) -> nat
    decreases v.len(),
{
    if v.len() == 0 {
        0
    } else {
        count_errors(v.drop_last()) + if v.last() is Skipped || v.last() is Checked {
            0nat
        } else {
            1nat
        }
    }
}

/// The records and the errors among the verdicts on a file's lines.
pub fn tally(verdicts: &Vec<LineCheck>) -> (r: (usize, usize))
    ensures
        r.0 == count_records(verdicts@),
        r.1 == count_errors(verdicts@),
{
    let mut records: usize = 0;
    let mut errors: usize = 0;
    let mut i: usize = 0;
    while i < verdicts.len()
        invariant
            i <= verdicts@.len(),
            records <= i,
            errors <= i,
            records == count_records(verdicts@.take(i as int)),
            errors == count_errors(verdicts@.take(i as int)),
        decreases verdicts@.len() - i,
    {
        assert(verdicts@.take(i + 1).drop_last() =~= verdicts@.take(i as int));
        if verdicts[i].is_record() {
            records = records + 1;
        }
        if verdicts[i].is_error() {
            errors = errors + 1;
        }
        i = i + 1;
    }
    assert(verdicts@.take(i as int) =~= verdicts@);
    (records, errors)
}

} // verus!
