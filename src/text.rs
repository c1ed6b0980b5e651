//! Character-level helpers shared by the record codec and the name resolver:
//! separator splitting, joining, and unsigned decimal numbers.
use vstd::prelude::*;
use vstd::std_specs::iter::IteratorSpec;

verus! {

/// Index of the first occurrence of `c` in `s`, or -1 when there is none.
pub open spec fn find_char(s: Seq<char>, c: char) -> int
    decreases s.len(),
{
    if s.len() == 0 {
        -1
    } else if s[0] == c {
        0
    } else {
        let r = find_char(s.drop_first(), c);
        if r < 0 {
            -1
        } else {
            r + 1
        }
    }
}

/// `s` holds no occurrence of `c`.
pub open spec fn lacks(s: Seq<char>, c: char) -> bool {
    forall|i: int| 0 <= i < s.len() ==> s[i] != c
}

/// Split `s` on `sep` into at most `n` parts: the first `n - 1` occurrences of
/// `sep` separate parts, and the last part keeps whatever follows.
pub open spec fn splitn(s: Seq<char>, sep: char, n: nat) -> Seq<Seq<char>>
    decreases s.len(),
{
    let i = find_char(s, sep);
    if n <= 1 || i < 0 || i >= s.len() {
        seq![s]
    } else {
        seq![s.take(i)] + splitn(s.skip(i + 1), sep, (n - 1) as nat)
    }
}

/// The part limit that `split_fields` applies: the given one, or one more
/// than the text's length, which no split can reach.
pub open spec fn limit_of(limit: Option<usize>, s: Seq<char>) -> nat {
    match limit {
        Some(n) => n as nat,
        None => s.len() + 1,
    }
}

/// The parts written one after another with `sep` between neighbours.
pub open spec fn join(parts: Seq<Seq<char>>, sep: char) -> Seq<char>
    decreases parts.len(),
{
    if parts.len() == 0 {
        Seq::empty()
    } else if parts.len() == 1 {
        parts[0]
    } else {
        parts[0] + seq![sep] + join(parts.drop_first(), sep)
    }
}

pub proof fn lemma_find_char_bounds(s: Seq<char>, c: char)
    ensures
        -1 <= find_char(s, c) < s.len(),
        find_char(s, c) >= 0 ==> s[find_char(s, c)] == c,
        find_char(s, c) < 0 <==> lacks(s, c),
        forall|j: int| 0 <= j < find_char(s, c) ==> s[j] != c,
    decreases s.len(),
{
    if s.len() > 0 && s[0] != c {
        lemma_find_char_bounds(s.drop_first(), c);
        if find_char(s, c) < 0 {
            assert forall|i: int| 0 <= i < s.len() implies s[i] != c by {
                if i > 0 {
                    assert(s[i] == s.drop_first()[i - 1]);
                }
            }
        }
        assert forall|j: int| 0 <= j < find_char(s, c) implies s[j] != c by {
            if j > 0 {
                assert(s[j] == s.drop_first()[j - 1]);
            }
        }
    }
}

/// The first separator after a separator-free prefix is the one that follows it.
pub proof fn lemma_find_after_prefix(pre: Seq<char>, sep: char, rest: Seq<char>)
    requires
        lacks(pre, sep),
    ensures
        find_char(pre + seq![sep] + rest, sep) == pre.len(),
    decreases pre.len(),
{
    let s = pre + seq![sep] + rest;
    if pre.len() > 0 {
        assert(s.drop_first() =~= pre.drop_first() + seq![sep] + rest);
        assert(s[0] == pre[0]);
        lemma_find_after_prefix(pre.drop_first(), sep, rest);
    } else {
        assert(s[0] == sep);
    }
}

/// Splitting at the separator that ends a separator-free prefix.
pub proof fn lemma_splitn_step(pre: Seq<char>, sep: char, rest: Seq<char>, n: nat)
    requires
        lacks(pre, sep),
        n > 1,
    ensures
        splitn(pre + seq![sep] + rest, sep, n) == seq![pre] + splitn(rest, sep, (n - 1) as nat),
{
    let s = pre + seq![sep] + rest;
    lemma_find_after_prefix(pre, sep, rest);
    assert(s.take(pre.len() as int) =~= pre);
    assert(s.skip(pre.len() as int + 1) =~= rest);
}

/// A separator-free text is a single part.
pub proof fn lemma_splitn_whole(s: Seq<char>, sep: char, n: nat)
    requires
        lacks(s, sep) || n <= 1,
    ensures
        splitn(s, sep, n) == seq![s],
{
    lemma_find_char_bounds(s, sep);
}

/// Splitting what `join` wrote gives the parts back.
pub proof fn lemma_splitn_join(parts: Seq<Seq<char>>, sep: char)
    requires
        parts.len() >= 1,
        forall|i: int| 0 <= i < parts.len() - 1 ==> lacks(#[trigger] parts[i], sep),
    ensures
        splitn(join(parts, sep), sep, parts.len()) == parts,
    decreases parts.len(),
{
    if parts.len() == 1 {
        lemma_splitn_whole(parts[0], sep, 1);
        assert(seq![parts[0]] =~= parts);
    } else {
        let tail = parts.drop_first();
        assert forall|i: int| 0 <= i < tail.len() - 1 implies lacks(#[trigger] tail[i], sep) by {
            assert(tail[i] == parts[i + 1]);
        }
        lemma_splitn_join(tail, sep);
        lemma_splitn_step(parts[0], sep, join(tail, sep), parts.len());
        assert(seq![parts[0]] + tail =~= parts);
    }
}

/// With room for every part, splitting what `join` wrote gives the parts back.
pub proof fn lemma_split_all_join(parts: Seq<Seq<char>>, sep: char, n: nat)
    requires
        1 <= parts.len() <= n,
        forall|i: int| 0 <= i < parts.len() ==> lacks(#[trigger] parts[i], sep),
    ensures
        splitn(join(parts, sep), sep, n) == parts,
    decreases parts.len(),
{
    if parts.len() == 1 {
        lemma_splitn_whole(parts[0], sep, n);
        assert(seq![parts[0]] =~= parts);
    } else {
        let tail = parts.drop_first();
        assert forall|i: int| 0 <= i < tail.len() implies lacks(#[trigger] tail[i], sep) by {
            assert(tail[i] == parts[i + 1]);
        }
        lemma_split_all_join(tail, sep, (n - 1) as nat);
        lemma_splitn_step(parts[0], sep, join(tail, sep), n);
        assert(seq![parts[0]] + tail =~= parts);
    }
}

/// `join` writes at least one separator between each pair of parts.
pub proof fn lemma_join_len(parts: Seq<Seq<char>>, sep: char)
    ensures
        join(parts, sep).len() + 1 >= parts.len(),
    decreases parts.len(),
{
    if parts.len() > 1 {
        lemma_join_len(parts.drop_first(), sep);
    }
}

/// Appending one more part to a non-empty list.
pub proof fn lemma_join_push(parts: Seq<Seq<char>>, x: Seq<char>, sep: char)
    requires
        parts.len() >= 1,
    ensures
        join(parts.push(x), sep) == join(parts, sep) + seq![sep] + x,
    decreases parts.len(),
{
    let q = parts.push(x);
    if parts.len() == 1 {
        assert(q.drop_first() =~= seq![x]);
        assert(join(seq![x], sep) == x);
        assert(q[0] == parts[0]);
        assert(join(q, sep) =~= join(parts, sep) + seq![sep] + x);
    } else {
        assert(q.drop_first() =~= parts.drop_first().push(x));
        lemma_join_push(parts.drop_first(), x, sep);
        assert(q[0] == parts[0]);
        assert(join(q, sep) =~= join(parts, sep) + seq![sep] + x);
    }
}

/// A split into at most `n` parts yields between one and `n` parts.
pub proof fn lemma_splitn_len(s: Seq<char>, sep: char, n: nat)
    requires
        n >= 1,
    ensures
        1 <= splitn(s, sep, n).len() <= n,
    decreases s.len(),
{
    lemma_find_char_bounds(s, sep);
    let i = find_char(s, sep);
    if n > 1 && i >= 0 {
        lemma_splitn_len(s.skip(i + 1), sep, (n - 1) as nat);
    }
}

/// Number of occurrences of `c` in `s`.
pub open spec fn count_char(s: Seq<char>, c: char) -> nat
    decreases s.len(),
{
    if s.len() == 0 {
        0
    } else {
        count_char(s.drop_first(), c) + if s[0] == c {
            1nat
        } else {
            0nat
        }
    }
}

pub proof fn lemma_count_prefix(pre: Seq<char>, sep: char, rest: Seq<char>)
    requires
        lacks(pre, sep),
    ensures
        count_char(pre + seq![sep] + rest, sep) == count_char(rest, sep) + 1,
    decreases pre.len(),
{
    let s = pre + seq![sep] + rest;
    if pre.len() > 0 {
        assert(s.drop_first() =~= pre.drop_first() + seq![sep] + rest);
        lemma_count_prefix(pre.drop_first(), sep, rest);
    } else {
        assert(s.drop_first() =~= rest);
    }
}

/// Each part after the first is bought with one separator.
pub proof fn lemma_splitn_len_count(s: Seq<char>, sep: char, n: nat)
    requires
        n >= 1,
    ensures
        splitn(s, sep, n).len() <= count_char(s, sep) + 1,
    decreases s.len(),
{
    lemma_find_char_bounds(s, sep);
    let i = find_char(s, sep);
    if n > 1 && i >= 0 {
        let pre = s.take(i);
        let rest = s.skip(i + 1);
        assert(s =~= pre + seq![sep] + rest);
        lemma_count_prefix(pre, sep, rest);
        lemma_splitn_len_count(rest, sep, (n - 1) as nat);
    }
}

/// An ASCII decimal digit.
pub open spec fn is_digit(c: char) -> bool {
    '0' <= c && c <= '9'
}

pub open spec fn all_digits(s: Seq<char>) -> bool {
    forall|i: int| 0 <= i < s.len() ==> is_digit(#[trigger] s[i])
}

/// The digit character for `d < 10`.
pub open spec fn digit_char(d: nat) -> char {
    (d + 48) as char
}

/// The canonical decimal text of `n`: no sign, no leading zeros.
pub open spec fn decimal(n: nat) -> Seq<char>
    decreases n,
{
    if n < 10 {
        seq![digit_char(n)]
    } else {
        decimal(n / 10).push(digit_char(n % 10))
    }
}

/// The value of a run of decimal digits.
pub open spec fn digits_value(s: Seq<char>) -> nat
    decreases s.len(),
{
    if s.len() == 0 {
        0
    } else {
        digits_value(s.drop_last()) * 10 + ((s.last() as int - 48) as nat)
    }
}

/// An unsigned number no greater than `max`, as Rust's integer parsing reads
/// it: an optional `+`, then one or more decimal digits.
pub open spec fn parse_unsigned(s: Seq<char>, max: nat) -> Option<nat> {
    let t = if s.len() > 0 && s[0] == '+' {
        s.drop_first()
    } else {
        s
    };
    if t.len() > 0 && all_digits(t) && digits_value(t) <= max {
        Some(digits_value(t))
    } else {
        None
    }
}

pub proof fn lemma_decimal_digits(n: nat)
    ensures
        all_digits(decimal(n)),
        decimal(n).len() >= 1,
        digits_value(decimal(n)) == n,
    decreases n,
{
    if n >= 10 {
        lemma_decimal_digits(n / 10);
        let d = decimal(n);
        assert(d.drop_last() =~= decimal(n / 10));
        assert(d.last() == digit_char(n % 10));
        assert(digit_char(n % 10) as int == n % 10 + 48);
        assert(n == (n / 10) * 10 + n % 10);
        assert(digits_value(d) == digits_value(d.drop_last()) * 10 + ((d.last() as int - 48) as nat));
        assert forall|i: int| 0 <= i < d.len() implies is_digit(#[trigger] d[i]) by {
            if i < d.len() - 1 {
                assert(d[i] == decimal(n / 10)[i]);
            }
        }
    } else {
        assert(seq![digit_char(n)].drop_last() =~= Seq::<char>::empty());
        assert(digit_char(n) as int == n + 48);
        assert(digits_value(Seq::<char>::empty()) == 0);
    }
}

/// Reading back a decimal text gives the number.
pub proof fn lemma_parse_decimal(n: nat, max: nat)
    requires
        n <= max,
    ensures
        parse_unsigned(decimal(n), max) == Some(n),
{
    lemma_decimal_digits(n);
    assert(is_digit(decimal(n)[0]));
}

proof fn lemma_digits_value_prefix(t: Seq<char>, k: int)
    requires
        0 <= k <= t.len(),
    ensures
        digits_value(t.take(k)) <= digits_value(t),
    decreases t.len() - k,
{
    if k < t.len() {
        lemma_digits_value_prefix(t, k + 1);
        assert(t.take(k + 1).drop_last() =~= t.take(k));
    } else {
        assert(t.take(k) =~= t);
    }
}

/// Appends the decimal text of `n`.
pub fn push_decimal(s: &mut String, n: u32)
    ensures
        final(s)@ == old(s)@ + decimal(n as nat),
    decreases n,
{
    if n >= 10 {
        push_decimal(s, n / 10);
    }
    let d: u8 = (n % 10) as u8;
    let c = (d + 48u8) as char;
    push_char(s, c);
    assert(s@ =~= old(s)@ + decimal(n as nat));
}

/// Reads an unsigned number no greater than `max`, as `parse_unsigned` says.
pub fn parse_number(s: &String, max: u32) -> (r: Option<u32>)
    ensures
        r == (match parse_unsigned(s@, max as nat) {
            Some(v) => Some(v as u32),
            None => None,
        }),
{
    let cs = chars_of(s.as_str());
    let start: usize = if cs.len() > 0 && cs[0] == '+' {
        1
    } else {
        0
    };
    let ghost t = cs@.skip(start as int);
    assert(t =~= (if s@.len() > 0 && s@[0] == '+' { s@.drop_first() } else { s@ }));
    if start == cs.len() {
        return None;
    }
    let mut acc: u64 = 0;
    let mut i: usize = start;
    while i < cs.len()
        invariant
            start <= i <= cs@.len(),
            t == cs@.skip(start as int),
            t == (if s@.len() > 0 && s@[0] == '+' {
                s@.drop_first()
            } else {
                s@
            }),
            t.len() > 0,
            acc <= max,
            acc == digits_value(t.take(i - start)),
            all_digits(t.take(i - start)),
        decreases cs@.len() - i,
    {
        let c = cs[i];
        if !('0' <= c && c <= '9') {
            assert(t[i - start] == c);
            assert(!is_digit(t[i - start]));
            return None;
        }
        let d: u64 = ((c as u32) - 48) as u64;
        acc = acc * 10 + d;
        proof {
            let p = t.take(i + 1 - start);
            assert(p.drop_last() =~= t.take(i - start));
            assert(t[i - start] == c);
            assert(p.last() == c);
            assert(acc == digits_value(p));
            assert forall|j: int| 0 <= j < p.len() implies is_digit(#[trigger] p[j]) by {
                if j < p.len() - 1 {
                    assert(p[j] == t.take(i - start)[j]);
                }
            }
        }
        if acc > max as u64 {
            proof {
                if all_digits(t) {
                    lemma_digits_value_prefix(t, i + 1 - start);
                    assert(digits_value(t) > max);
                }
            }
            return None;
        }
        i = i + 1;
    }
    assert(t.take(i - start) =~= t);
    Some(acc as u32)
}

/// Index of the last occurrence of `c` in `s`, or -1 when there is none.
pub open spec fn rfind_char(s: Seq<char>, c: char) -> int
    decreases s.len(),
{
    if s.len() == 0 {
        -1
    } else if s.last() == c {
        s.len() - 1
    } else {
        rfind_char(s.drop_last(), c)
    }
}

pub proof fn lemma_rfind_bounds(s: Seq<char>, c: char)
    ensures
        -1 <= rfind_char(s, c) < s.len(),
        rfind_char(s, c) >= 0 ==> s[rfind_char(s, c)] == c,
        forall|j: int| rfind_char(s, c) < j < s.len() ==> s[j] != c,
    decreases s.len(),
{
    if s.len() > 0 && s.last() != c {
        lemma_rfind_bounds(s.drop_last(), c);
        assert forall|j: int| rfind_char(s, c) < j < s.len() implies s[j] != c by {
            if j < s.len() - 1 {
                assert(s[j] == s.drop_last()[j]);
            }
        }
    }
}

/// The last `c` in `s[..end]`, as `rfind_char` says.
pub fn rfind_in(s: &Vec<char>, end: usize, c: char) -> (r: Option<usize>)
    requires
        end <= s@.len(),
    ensures
        match r {
            Some(d) => rfind_char(s@.take(end as int), c) == d as int,
            None => rfind_char(s@.take(end as int), c) < 0,
        },
{
    let mut i = end;
    while i > 0
        invariant
            i <= end <= s@.len(),
            rfind_char(s@.take(end as int), c) == rfind_char(s@.take(i as int), c),
        decreases i,
    {
        assert(s@.take(i as int).drop_last() =~= s@.take(i - 1));
        if s[i - 1] == c {
            return Some(i - 1);
        }
        i = i - 1;
    }
    None
}

/// The first `c` in `s`, as `find_char` says.
pub fn find_in(s: &Vec<char>, c: char) -> (r: Option<usize>)
    ensures
        match r {
            Some(d) => find_char(s@, c) == d as int,
            None => find_char(s@, c) < 0,
        },
{
    let mut i: usize = 0;
    assert(s@.skip(0) =~= s@);
    while i < s.len()
        invariant
            i <= s@.len(),
            find_char(s@, c) == if find_char(s@.skip(i as int), c) < 0 {
                -1
            } else {
                find_char(s@.skip(i as int), c) + i
            },
        decreases s@.len() - i,
    {
        assert(s@.skip(i as int).drop_first() =~= s@.skip(i + 1));
        if s[i] == c {
            return Some(i);
        }
        i = i + 1;
    }
    None
}

/// Relies on String::push: the character is appended at the end.
#[verifier::external_body]
pub(crate) fn push_char(s: &mut String, c: char)
    ensures
        final(s)@ == old(s)@.push(c),
{
    s.push(c)
}

/// The characters of the text, in order.
pub(crate) fn chars_of(s: &str) -> (r: Vec<char>)
    ensures
        r@ == s@,
{
    broadcast use vstd::string::group_string_axioms;

    let n = s.unicode_len();
    let mut it = s.chars();
    let mut r: Vec<char> = Vec::new();
    assert(it.remaining() == s@);
    while r.len() < n
        invariant
            n == s@.len(),
            it.obeys_prophetic_iter_laws(),
            s@ == r@ + it.remaining(),
        decreases n - r@.len(),
    {
        match it.next() {
            Some(c) => {
                r.push(c);
                assert(s@ =~= r@ + it.remaining());
            },
            None => {
                assert(false);
            },
        }
    }
    assert(it.remaining().len() == 0);
    assert(r@ + it.remaining() =~= r@);
    r
}

/// The characters `s[from..to]` as a new string.
pub fn string_of(s: &Vec<char>, from: usize, to: usize) -> (r: String)
    requires
        from <= to <= s@.len(),
    ensures
        r@ == s@.subrange(from as int, to as int),
{
    let mut r = String::new();
    let mut i = from;
    while i < to
        invariant
            from <= i <= to <= s@.len(),
            r@ == s@.subrange(from as int, i as int),
        decreases to - i,
    {
        push_char(&mut r, s[i]);
        assert(s@.subrange(from as int, i + 1) =~= s@.subrange(from as int, i as int).push(s@[i as int]));
        i = i + 1;
    }
    r
}

/// Split `s` on `sep` into at most `limit` parts, or at every separator when
/// there is no limit, as `splitn` says.
pub fn split_fields(s: &Vec<char>, sep: char, limit: Option<usize>) -> (r: Vec<String>)
    requires
        limit matches Some(n) ==> n >= 1,
    ensures
        r@.len() == splitn(s@, sep, limit_of(limit, s@)).len(),
        forall|k: int|
            0 <= k < r@.len() ==> (#[trigger] r@[k])@ == splitn(s@, sep, limit_of(limit, s@))[k],
{
    let ghost n = limit_of(limit, s@);
    let mut parts: Vec<String> = Vec::new();
    let mut start: usize = 0;
    let mut i: usize = 0;
    assert(s@.skip(0) =~= s@);
    assert(parts@.map_values(|p: String| p@) + splitn(s@, sep, n) =~= splitn(s@, sep, n));
    while i < s.len()
        invariant
            n == limit_of(limit, s@),
            n >= 1,
            start <= i <= s@.len(),
            parts@.len() < n,
            parts@.len() <= start,
            lacks(s@.subrange(start as int, i as int), sep) || parts@.len() + 1 == n,
            splitn(s@, sep, n) == parts@.map_values(|p: String| p@) + splitn(
                s@.skip(start as int),
                sep,
                (n - parts@.len()) as nat,
            ),
        decreases s@.len() - i,
    {
        let room = match limit {
            Some(m) => parts.len() + 1 < m,
            None => true,
        };
        if s[i] == sep && room {
            let ghost pre = s@.subrange(start as int, i as int);
            let ghost rest = s@.skip(i + 1);
            proof {
                assert(s@.skip(start as int) =~= pre + seq![sep] + rest);
                lemma_splitn_step(pre, sep, rest, (n - parts@.len()) as nat);
            }
            let part = string_of(s, start, i);
            let ghost before = parts@;
            parts.push(part);
            proof {
                assert(parts@.map_values(|p: String| p@) =~= before.map_values(|p: String| p@) + seq![
                    pre,
                ]);
                assert(s@.skip(i + 1) == rest);
            }
            start = i + 1;
            assert(s@.subrange(start as int, start as int) =~= Seq::<char>::empty());
        } else {
            assert(s@.subrange(start as int, i + 1) =~= s@.subrange(start as int, i as int).push(
                s@[i as int],
            ));
        }
        i = i + 1;
    }
    let ghost last = s@.skip(start as int);
    proof {
        assert(s@.subrange(start as int, i as int) =~= last);
        lemma_splitn_whole(last, sep, (n - parts@.len()) as nat);
    }
    let part = string_of(s, start, s.len());
    let ghost before = parts@;
    parts.push(part);
    proof {
        assert(parts@.map_values(|p: String| p@) =~= before.map_values(|p: String| p@) + seq![last]);
    }
    parts
}

} // verus!
