//! A dictionary loaded from tab-separated text: `text<TAB>key<TAB>weight`
//! per line, `#` comments allowed, weight optional. Entries are grouped
//! by key; an initials index supports first-letter lookup.

use vstd::prelude::*;
use crate::dictionary::Dictionary;
use crate::model::Candidate;
use crate::engine::Analyzer;
use crate::pinyin::QuanpinPreeditor;
use crate::strutil::{
    concat_seqs, is_lower_char, lemma_lex_le_total, lemma_lex_le_trans, lex_le, parse_i32_spec,
    split_seq, to_lower_seq, trim_spec,
};

verus! {

/// One dictionary entry: the committed text and its ranking weight.
pub struct Entry {
    /// The committed text.
    pub text: String,
    /// Ranking weight; higher first.
    pub weight: i32,
}

impl Clone for Entry {
    fn clone(&self) -> (r: Self)
        ensures
            r == *self,
    {
        Entry { text: self.text.clone(), weight: self.weight }
    }
}

/// A malformed dictionary line: the text or the key field is missing.
#[derive(Clone, PartialEq, Eq, Debug)]
pub struct DictError {
    /// One-based number of the offending line.
    pub line: usize,
}

/// The key-grouped entry store and the initials index: each initials
/// group holds `(full key, entry)` pairs.
pub struct TsvDictionary {
    map: Vec<(String, Vec<Entry>)>,
    initials_map: Vec<(String, Vec<(String, Entry)>)>,
}

/// The store has a group for `key`.
pub open spec fn map_has_key(m: Seq<(String, Vec<Entry>)>, key: Seq<char>) -> bool {
    exists|i: int| 0 <= i < m.len() && (#[trigger] m[i]).0@ == key
}

/// The store has a group whose key strictly extends `prefix`.
pub open spec fn map_has_extension(m: Seq<(String, Vec<Entry>)>, prefix: Seq<char>) -> bool {
    exists|i: int|
        0 <= i < m.len() && prefix.is_prefix_of((#[trigger] m[i]).0@) && m[i].0@ != prefix
}

/// The initials index has a group for `ikey`.
pub open spec fn initials_has_key(m: Seq<(String, Vec<(String, Entry)>)>, ikey: Seq<char>) -> bool {
    exists|i: int| 0 <= i < m.len() && (#[trigger] m[i]).0@ == ikey
}

/// The group keys are strictly ascending in lexicographic order: each
/// key appears once, in the order a range scan visits them.
pub open spec fn keys_sorted(m: Seq<(String, Vec<Entry>)>) -> bool {
    forall|i: int, j: int|
        0 <= i < j < m.len() ==> lex_le((#[trigger] m[i]).0@, (#[trigger] m[j]).0@) && m[i].0@
            != m[j].0@
}

/// The store holds `text` with `weight` under `key`.
pub open spec fn map_has(
    m: Seq<(String, Vec<Entry>)>,
    key: Seq<char>,
    text: Seq<char>,
    weight: i32,
) -> bool {
    exists|i: int, j: int|
        0 <= i < m.len() && 0 <= j < m[i].1@.len() && m[i].0@ == key && (#[trigger] m[i].1@[j]).text@
            == text && m[i].1@[j].weight == weight
}

/// The initials index holds, under `ikey`, the pair of full key `key`
/// and an entry with `text` and `weight`.
pub open spec fn initials_has(
    m: Seq<(String, Vec<(String, Entry)>)>,
    ikey: Seq<char>,
    key: Seq<char>,
    text: Seq<char>,
    weight: i32,
) -> bool {
    exists|i: int, j: int|
        0 <= i < m.len() && 0 <= j < m[i].1@.len() && m[i].0@ == ikey && (#[trigger] m[i].1@[j]).0@
            == key && m[i].1@[j].1.text@ == text && m[i].1@[j].1.weight == weight
}

impl TsvDictionary {
    /// The key-grouped store, for contracts over lookups.
    pub closed spec fn spec_map(&self) -> Seq<(String, Vec<Entry>)> {
        self.map@
    }

    /// The initials index, for contracts over lookups.
    pub closed spec fn spec_initials(&self) -> Seq<(String, Vec<(String, Entry)>)> {
        self.initials_map@
    }

    /// A group exists only because an entry was put in it, so none is
    /// ever empty: a key that is present always yields a candidate. Keys
    /// are kept unique and in ascending order, as a range scan expects,
    /// every group's entries are ranked weight descending then text
    /// ascending, and the initials index keeps the same shape.
    #[verifier::type_invariant]
    pub open spec fn wf(self) -> bool {
        &&& groups_nonempty(self.spec_map())
        &&& keys_sorted(self.spec_map())
        &&& groups_ranked(self.spec_map())
        &&& initials_nonempty(self.spec_initials())
        &&& initials_ranked(self.spec_initials())
    }
}

/// The trimmed form of a dictionary line.
pub open spec fn line_trimmed(l: Seq<char>) -> Seq<char> {
    trim_spec(l)
}

/// A line the loader ignores: blank, or a comment.
pub open spec fn line_is_skip(l: Seq<char>) -> bool {
    line_trimmed(l).len() == 0 || line_trimmed(l)[0] == '#'
}

/// The text field of a line: the first tab field, trimmed.
pub open spec fn line_text(l: Seq<char>) -> Seq<char> {
    trim_spec(split_seq(line_trimmed(l), '\t')[0])
}

/// The key field of a line: the second tab field, trimmed; empty when
/// the line has a single field.
pub open spec fn line_key(l: Seq<char>) -> Seq<char> {
    let f = split_seq(line_trimmed(l), '\t');
    if f.len() > 1 {
        trim_spec(f[1])
    } else {
        Seq::empty()
    }
}

/// A rejected line: not ignorable, yet its text or key field is empty.
pub open spec fn line_bad(l: Seq<char>) -> bool {
    !line_is_skip(l) && (line_text(l).len() == 0 || line_key(l).len() == 0)
}

/// A key the initials index is guaranteed to cover: one to six
/// lower-case letters. Such a key always segments (by parse or by the
/// initials fallback), so its first letters always form an index key.
pub open spec fn initials_indexed_key(k: Seq<char>) -> bool {
    1 <= k.len() <= 6 && (forall|p: int| 0 <= p < k.len() ==> is_lower_char(#[trigger] k[p]))
}

/// Some data line of the file carries exactly this key, text and weight.
pub open spec fn entry_from_lines(
    lines: Seq<Seq<char>>,
    key: Seq<char>,
    text: Seq<char>,
    weight: i32,
) -> bool {
    exists|i: int|
        0 <= i < lines.len() && !line_is_skip(#[trigger] lines[i]) && line_key(lines[i]) == key
            && line_text(lines[i]) == text && line_weight(lines[i]) == weight
}

/// An entry witnessed in a prefix of the lines is witnessed in any
/// longer prefix.
proof fn lemma_entry_from_lines_extend(
    lines: Seq<Seq<char>>,
    n1: int,
    n2: int,
    key: Seq<char>,
    text: Seq<char>,
    weight: i32,
)
    requires
        0 <= n1 <= n2 <= lines.len(),
        entry_from_lines(lines.take(n1), key, text, weight),
    ensures
        entry_from_lines(lines.take(n2), key, text, weight),
{
    let i = choose|i: int|
        0 <= i < lines.take(n1).len() && !line_is_skip(#[trigger] lines.take(n1)[i]) && line_key(
            lines.take(n1)[i],
        ) == key && line_text(lines.take(n1)[i]) == text && line_weight(lines.take(n1)[i])
            == weight;
    assert(lines.take(n2)[i] == lines.take(n1)[i]);
}

/// The initials index holds this line's entry under some non-empty
/// initials string.
pub open spec fn line_initials_covered(
    im: Seq<(String, Vec<(String, Entry)>)>,
    l: Seq<char>,
) -> bool {
    exists|ini: Seq<char>|
        ini.len() > 0 && initials_has(im, ini, line_key(l), line_text(l), line_weight(l))
}

/// The weight of a line: the third tab field parsed as an `i32`; zero
/// when the field is absent, blank, or unparseable.
pub open spec fn line_weight(l: Seq<char>) -> i32 {
    let f = split_seq(line_trimmed(l), '\t');
    if f.len() > 2 && trim_spec(f[2]).len() > 0 {
        match parse_i32_spec(trim_spec(f[2])) {
            Some(w) => w,
            None => 0,
        }
    } else {
        0
    }
}

/// Entry ranking: weight descending, then text ascending.
pub open spec fn entry_le(a: Entry, b: Entry) -> bool {
    a.weight > b.weight || (a.weight == b.weight && lex_le(a.text@, b.text@))
}

/// The entry list is ranked.
pub open spec fn entries_ranked(es: Seq<Entry>) -> bool {
    forall|i: int, j: int| 0 <= i < j < es.len() ==> #[trigger] entry_le(es[i], es[j])
}

/// Every group's entry list is ranked.
pub open spec fn groups_ranked(m: Seq<(String, Vec<Entry>)>) -> bool {
    forall|g: int| 0 <= g < m.len() ==> entries_ranked((#[trigger] m[g]).1@)
}

/// Pair ranking for the initials index, by the entry's weight and text.
pub open spec fn pair_le(a: (String, Entry), b: (String, Entry)) -> bool {
    a.1.weight > b.1.weight || (a.1.weight == b.1.weight && lex_le(a.1.text@, b.1.text@))
}

/// The pair list is ranked.
pub open spec fn pairs_ranked(ps: Seq<(String, Entry)>) -> bool {
    forall|i: int, j: int| 0 <= i < j < ps.len() ==> #[trigger] pair_le(ps[i], ps[j])
}

/// Every initials group's pair list is ranked.
pub open spec fn initials_ranked(m: Seq<(String, Vec<(String, Entry)>)>) -> bool {
    forall|g: int| 0 <= g < m.len() ==> pairs_ranked((#[trigger] m[g]).1@)
}

/// No group of the store is empty.
pub open spec fn groups_nonempty(m: Seq<(String, Vec<Entry>)>) -> bool {
    forall|i: int| 0 <= i < m.len() ==> (#[trigger] m[i]).1@.len() > 0
}

/// No group of the initials index is empty.
pub open spec fn initials_nonempty(m: Seq<(String, Vec<(String, Entry)>)>) -> bool {
    forall|i: int| 0 <= i < m.len() ==> (#[trigger] m[i]).1@.len() > 0
}

/// The entry rank is total.
proof fn lemma_entry_le_total(a: Entry, b: Entry)
    ensures
        entry_le(a, b) || entry_le(b, a),
{
    crate::strutil::lemma_lex_le_total(a.text@, b.text@);
}

/// The entry rank is transitive.
proof fn lemma_entry_le_trans(a: Entry, b: Entry, c: Entry)
    requires
        entry_le(a, b),
        entry_le(b, c),
    ensures
        entry_le(a, c),
{
    if a.weight == b.weight && b.weight == c.weight {
        crate::strutil::lemma_lex_le_trans(a.text@, b.text@, c.text@);
    }
}

/// The pair rank is total.
proof fn lemma_pair_le_total(a: (String, Entry), b: (String, Entry))
    ensures
        pair_le(a, b) || pair_le(b, a),
{
    crate::strutil::lemma_lex_le_total(a.1.text@, b.1.text@);
}

/// The pair rank is transitive.
proof fn lemma_pair_le_trans(a: (String, Entry), b: (String, Entry), c: (String, Entry))
    requires
        pair_le(a, b),
        pair_le(b, c),
    ensures
        pair_le(a, c),
{
    if a.1.weight == b.1.weight && b.1.weight == c.1.weight {
        crate::strutil::lemma_lex_le_trans(a.1.text@, b.1.text@, c.1.text@);
    }
}

/// Decides `entry_le`.
fn entry_le_exec(a: &Entry, b: &Entry) -> (r: bool)
    ensures
        r == entry_le(*a, *b),
{
    if a.weight > b.weight {
        true
    } else if a.weight == b.weight {
        crate::strutil::str_lex_le(a.text.as_str(), b.text.as_str())
    } else {
        false
    }
}

/// Decides `pair_le`.
fn pair_le_exec(a: &(String, Entry), b: &(String, Entry)) -> (r: bool)
    ensures
        r == pair_le(*a, *b),
{
    if a.1.weight > b.1.weight {
        true
    } else if a.1.weight == b.1.weight {
        crate::strutil::str_lex_le(a.1.text.as_str(), b.1.text.as_str())
    } else {
        false
    }
}

/// Growing a group keeps every recorded entry findable, and records the
/// new one.
proof fn lemma_map_update_group(
    m: Seq<(String, Vec<Entry>)>,
    gi: int,
    g2: (String, Vec<Entry>),
)
    requires
        0 <= gi < m.len(),
        g2.0@ == m[gi].0@,
        forall|j: int| 0 <= j < m[gi].1@.len() ==> g2.1@.contains(#[trigger] m[gi].1@[j]),
    ensures
        forall|key: Seq<char>, text: Seq<char>, weight: i32|
            map_has(m, key, text, weight) ==> #[trigger] map_has(
                m.update(gi, g2),
                key,
                text,
                weight,
            ),
{
    assert forall|key: Seq<char>, text: Seq<char>, weight: i32|
        map_has(m, key, text, weight) implies #[trigger] map_has(
        m.update(gi, g2),
        key,
        text,
        weight,
    ) by {
        let (i, j): (int, int) = choose|i: int, j: int|
            0 <= i < m.len() && 0 <= j < m[i].1@.len() && m[i].0@ == key && (#[trigger] m[i].1@[j]).text@
                == text && m[i].1@[j].weight == weight;
        let m2 = m.update(gi, g2);
        if i == gi {
            assert(g2.1@.contains(m[gi].1@[j]));
            let j2 = choose|j2: int| 0 <= j2 < g2.1@.len() && g2.1@[j2] == m[gi].1@[j];
            assert(0 <= i < m2.len() && 0 <= j2 < m2[i].1@.len() && m2[i].0@ == key
                && m2[i].1@[j2].text@ == text && m2[i].1@[j2].weight == weight);
        } else {
            assert(m2[i] == m[i]);
            assert(0 <= i < m2.len() && 0 <= j < m2[i].1@.len() && m2[i].0@ == key
                && m2[i].1@[j].text@ == text && m2[i].1@[j].weight == weight);
        }
    }
}

/// Inserting a whole new group keeps every recorded entry findable.
proof fn lemma_map_insert_group(m: Seq<(String, Vec<Entry>)>, p: int, g: (String, Vec<Entry>))
    requires
        0 <= p <= m.len(),
    ensures
        forall|key: Seq<char>, text: Seq<char>, weight: i32|
            map_has(m, key, text, weight) ==> #[trigger] map_has(m.insert(p, g), key, text, weight),
{
    assert forall|key: Seq<char>, text: Seq<char>, weight: i32|
        map_has(m, key, text, weight) implies #[trigger] map_has(
        m.insert(p, g),
        key,
        text,
        weight,
    ) by {
        let (i, j): (int, int) = choose|i: int, j: int|
            0 <= i < m.len() && 0 <= j < m[i].1@.len() && m[i].0@ == key && (#[trigger] m[i].1@[j]).text@
                == text && m[i].1@[j].weight == weight;
        let m2 = m.insert(p, g);
        m.insert_ensures(p, g);
        let i2: int = if i < p {
            i
        } else {
            i + 1
        };
        assert(m2[i2] == m[i]);
        assert(0 <= i2 < m2.len() && 0 <= j < m2[i2].1@.len() && m2[i2].0@ == key
            && m2[i2].1@[j].text@ == text && m2[i2].1@[j].weight == weight);
    }
}

/// Inserts an entry under its key: into the existing group at its rank
/// position, or as a new group at its key position. Everything already
/// recorded stays findable.
fn find_group(map: &Vec<(String, Vec<Entry>)>, key: &String) -> (r: Option<usize>)
    ensures
        r matches Some(gi) ==> gi < map@.len() && map@[gi as int].0@ == key@,
        r is None ==> !map_has_key(map@, key@),
{
    let mut gi: usize = 0;
    while gi < map.len()
        invariant
            gi <= map@.len(),
            forall|k: int| 0 <= k < gi ==> (#[trigger] map@[k]).0@ != key@,
        decreases map@.len() - gi,
    {
        if map[gi].0 == *key {
            return Some(gi);
        }
        gi = gi + 1;
    }
    None
}

fn find_initials_group(im: &Vec<(String, Vec<(String, Entry)>)>, ikey: &String) -> (r: Option<
    usize,
>)
    ensures
        r matches Some(gi) ==> gi < im@.len() && im@[gi as int].0@ == ikey@,
        r is None ==> !initials_has_key(im@, ikey@),
{
    let mut gi: usize = 0;
    while gi < im.len()
        invariant
            gi <= im@.len(),
            forall|k: int| 0 <= k < gi ==> (#[trigger] im@[k]).0@ != ikey@,
        decreases im@.len() - gi,
    {
        if im[gi].0 == *ikey {
            return Some(gi);
        }
        gi = gi + 1;
    }
    None
}

fn insert_entry(map: &mut Vec<(String, Vec<Entry>)>, key: &String, e: Entry)
    ensures
        map_has(final(map)@, key@, e.text@, e.weight),
        forall|k: Seq<char>, t: Seq<char>, w: i32|
            map_has(old(map)@, k, t, w) ==> #[trigger] map_has(final(map)@, k, t, w),
        (forall|i: int| 0 <= i < old(map)@.len() ==> (#[trigger] old(map)@[i]).1@.len() > 0)
            ==> (forall|i: int|
            0 <= i < final(map)@.len() ==> (#[trigger] final(map)@[i]).1@.len() > 0),
        keys_sorted(old(map)@) ==> keys_sorted(final(map)@),
        groups_ranked(old(map)@) ==> groups_ranked(final(map)@),
        forall|k: Seq<char>, t: Seq<char>, w: i32|
            #[trigger] map_has(final(map)@, k, t, w) ==> map_has(old(map)@, k, t, w) || (k == key@
                && t == e.text@ && w == e.weight),
{
    let fg = find_group(map, key);
    if let Some(gi) = fg {
        let mut q: usize = 0;
        while q < map[gi].1.len() && entry_le_exec(&map[gi].1[q], &e)
            invariant
                gi < map@.len(),
                q <= map@[gi as int].1@.len(),
                forall|k: int| 0 <= k < q ==> entry_le(#[trigger] map@[gi as int].1@[k], e),
            decreases map@[gi as int].1@.len() - q,
        {
            q = q + 1;
        }
        let ghost m0 = map@;
        let ghost g0 = map@[gi as int];
        proof {
            g0.1@.insert_ensures(q as int, e);
        }
        map[gi].1.insert(q, e);
        proof {
            let g2 = m0[gi as int].1@.insert(q as int, e);
            assert(map@ == m0.update(gi as int, (g0.0, map@[gi as int].1)));
            assert(map@[gi as int].1@ == g2);
            if groups_ranked(m0) {
                assert(entries_ranked(g0.1@));
                if (q as int) < g0.1@.len() {
                    lemma_entry_le_total(g0.1@[q as int], e);
                }
                assert forall|k: int| q <= k < g0.1@.len() implies entry_le(
                    e,
                    #[trigger] g0.1@[k],
                ) by {
                    if k > q {
                        lemma_entry_le_trans(e, g0.1@[q as int], g0.1@[k]);
                    }
                }
                assert(entries_ranked(g2)) by {
                    assert forall|a: int, b: int|
                        0 <= a < b < g2.len() implies #[trigger] entry_le(g2[a], g2[b]) by {
                        g0.1@.insert_ensures(q as int, e);
                    }
                }
                assert forall|g: int| 0 <= g < map@.len() implies entries_ranked(
                    (#[trigger] map@[g]).1@,
                ) by {
                    if g != gi as int {
                        assert(map@[g] == m0[g]);
                    }
                }
            }
            assert forall|j: int| 0 <= j < g0.1@.len() implies map@[gi as int].1@.contains(
                #[trigger] g0.1@[j],
            ) by {
                let j2: int = if j < q {
                    j
                } else {
                    j + 1
                };
                assert(g2[j2] == g0.1@[j]);
            }
            lemma_map_update_group(m0, gi as int, map@[gi as int]);
            assert(map@[gi as int].1@[q as int] == e);
            assert(map_has(map@, key@, e.text@, e.weight)) by {
                assert(map@[gi as int].0@ == key@);
            }
        }
    } else {
        let mut p: usize = 0;
        while p < map.len() && crate::strutil::str_lex_le(map[p].0.as_str(), key.as_str())
            invariant
                p <= map@.len(),
                forall|q: int| 0 <= q < p ==> lex_le((#[trigger] map@[q]).0@, key@),
            decreases map@.len() - p,
        {
            p = p + 1;
        }
        let mut entries: Vec<Entry> = Vec::new();
        entries.push(e);
        let ghost m0 = map@;
        let g = (key.clone(), entries);
        proof {
            m0.insert_ensures(p as int, g);
            if p < m0.len() {
                lemma_lex_le_total(m0[p as int].0@, key@);
            }
        }
        map.insert(p, g);
        proof {
            lemma_map_insert_group(m0, p as int, map@[p as int]);
            assert(map@[p as int].0@ == key@ && map@[p as int].1@[0].text@ == e.text@
                && map@[p as int].1@[0].weight == e.weight);
            if keys_sorted(m0) {
                assert forall|a: int, b: int|
                    0 <= a < b < map@.len() implies lex_le(
                    (#[trigger] map@[a]).0@,
                    (#[trigger] map@[b]).0@,
                ) && map@[a].0@ != map@[b].0@ by {
                    let pi = p as int;
                    if a < pi && b == pi {
                        assert(lex_le(m0[a].0@, key@));
                        assert(m0[a].0@ != key@);
                    } else if a == pi && b > pi {
                        assert(map@[b] == m0[b - 1]);
                        assert(lex_le(key@, m0[pi].0@));
                        if b - 1 > pi {
                            assert(lex_le(m0[pi].0@, m0[b - 1].0@));
                            lemma_lex_le_trans(key@, m0[pi].0@, m0[b - 1].0@);
                        }
                        assert(m0[b - 1].0@ != key@);
                    } else if b < pi {
                        assert(map@[a] == m0[a] && map@[b] == m0[b]);
                    } else if a < pi {
                        assert(map@[a] == m0[a] && map@[b] == m0[b - 1]);
                        assert(a < b - 1 || m0[a].0@ != key@);
                        if a == b - 1 {
                            assert(lex_le(m0[a].0@, m0[a].0@)) by {
                                lemma_lex_le_total(m0[a].0@, m0[a].0@);
                            }
                        }
                    } else {
                        assert(map@[a] == m0[a - 1] && map@[b] == m0[b - 1]);
                    }
                }
            }
        }
    }
}

/// Inserts a `(full key, entry)` pair into the initials index, keeping
/// each group ranked. The pair becomes findable under `ikey` and no
/// group is left empty.
fn insert_pair(im: &mut Vec<(String, Vec<(String, Entry)>)>, ikey: &String, pr: (String, Entry))
    ensures
        initials_has(final(im)@, ikey@, pr.0@, pr.1.text@, pr.1.weight),
        (forall|i: int| 0 <= i < old(im)@.len() ==> (#[trigger] old(im)@[i]).1@.len() > 0) ==> (
        forall|i: int| 0 <= i < final(im)@.len() ==> (#[trigger] final(im)@[i]).1@.len() > 0),
        forall|ik: Seq<char>, k2: Seq<char>, t: Seq<char>, w: i32|
            initials_has(old(im)@, ik, k2, t, w) ==> #[trigger] initials_has(
                final(im)@,
                ik,
                k2,
                t,
                w,
            ),
        initials_ranked(old(im)@) ==> initials_ranked(final(im)@),
{
    let fg = find_initials_group(im, ikey);
    if let Some(gi) = fg {
        let mut q: usize = 0;
        while q < im[gi].1.len() && pair_le_exec(&im[gi].1[q], &pr)
            invariant
                gi < im@.len(),
                q <= im@[gi as int].1@.len(),
                forall|k: int| 0 <= k < q ==> pair_le(#[trigger] im@[gi as int].1@[k], pr),
            decreases im@[gi as int].1@.len() - q,
        {
            q = q + 1;
        }
        let ghost m0 = im@;
        let ghost g0 = im@[gi as int];
        proof {
            g0.1@.insert_ensures(q as int, pr);
        }
        im[gi].1.insert(q, pr);
        proof {
            assert(im@ == m0.update(gi as int, (g0.0, im@[gi as int].1)));
            assert(im@[gi as int].1@[q as int] == pr);
            assert(im@[gi as int].0@ == ikey@);
            if initials_ranked(m0) {
                let g2 = m0[gi as int].1@.insert(q as int, pr);
                assert(im@[gi as int].1@ == g2);
                assert(pairs_ranked(g0.1@));
                if (q as int) < g0.1@.len() {
                    lemma_pair_le_total(g0.1@[q as int], pr);
                }
                assert forall|k: int| q <= k < g0.1@.len() implies pair_le(
                    pr,
                    #[trigger] g0.1@[k],
                ) by {
                    if k > q {
                        lemma_pair_le_trans(pr, g0.1@[q as int], g0.1@[k]);
                    }
                }
                assert(pairs_ranked(g2)) by {
                    assert forall|a: int, b: int|
                        0 <= a < b < g2.len() implies #[trigger] pair_le(g2[a], g2[b]) by {
                        g0.1@.insert_ensures(q as int, pr);
                    }
                }
                assert forall|g: int| 0 <= g < im@.len() implies pairs_ranked(
                    (#[trigger] im@[g]).1@,
                ) by {
                    if g != gi as int {
                        assert(im@[g] == m0[g]);
                    }
                }
            }
            let m2 = im@;
            assert forall|ik: Seq<char>, k2: Seq<char>, t: Seq<char>, w: i32|
                initials_has(m0, ik, k2, t, w) implies #[trigger] initials_has(
                m2,
                ik,
                k2,
                t,
                w,
            ) by {
                let (i, j): (int, int) = choose|i: int, j: int|
                    0 <= i < m0.len() && 0 <= j < m0[i].1@.len() && m0[i].0@ == ik && (
                    #[trigger] m0[i].1@[j]).0@ == k2 && m0[i].1@[j].1.text@ == t
                        && m0[i].1@[j].1.weight == w;
                if i == gi as int {
                    let j2: int = if j < q as int {
                        j
                    } else {
                        j + 1
                    };
                    assert(m2[i].1@[j2] == m0[i].1@[j]);
                } else {
                    assert(m2[i] == m0[i]);
                }
            }
        }
    } else {
        let mut p: usize = 0;
        while p < im.len() && crate::strutil::str_lex_le(im[p].0.as_str(), ikey.as_str())
            invariant
                p <= im@.len(),
            decreases im@.len() - p,
        {
            p = p + 1;
        }
        let mut pairs: Vec<(String, Entry)> = Vec::new();
        pairs.push(pr);
        let ghost m0 = im@;
        let g = (ikey.clone(), pairs);
        proof {
            m0.insert_ensures(p as int, g);
        }
        im.insert(p, g);
        proof {
            assert(im@[p as int].0@ == ikey@ && im@[p as int].1@[0] == pr);
            let m2 = im@;
            m0.insert_ensures(p as int, g);
            assert forall|ik: Seq<char>, k2: Seq<char>, t: Seq<char>, w: i32|
                initials_has(m0, ik, k2, t, w) implies #[trigger] initials_has(
                m2,
                ik,
                k2,
                t,
                w,
            ) by {
                let (i, j): (int, int) = choose|i: int, j: int|
                    0 <= i < m0.len() && 0 <= j < m0[i].1@.len() && m0[i].0@ == ik && (
                    #[trigger] m0[i].1@[j]).0@ == k2 && m0[i].1@[j].1.text@ == t
                        && m0[i].1@[j].1.weight == w;
                let i2: int = if i < p as int {
                    i
                } else {
                    i + 1
                };
                assert(m2[i2] == m0[i]);
            }
        }
    }
}

impl TsvDictionary {
    /// Parses tab-separated dictionary text. Fails at the first line
    /// whose text or key field is missing (with its one-based number);
    /// on success every data line's entry stands in the store under its
    /// key, with the weight its third field parses to (zero when absent,
    /// blank or malformed).
    pub fn from_tsv_str(s: &str) -> (r: Result<TsvDictionary, DictError>)
        ensures
            ({
                let lines = split_seq(s@, '\n');
                &&& (r matches Err(e) ==> 1 <= e.line <= lines.len() && line_bad(
                    lines[e.line - 1],
                ) && (forall|j: int| 0 <= j < e.line - 1 ==> !line_bad(#[trigger] lines[j])))
                &&& (r is Ok ==> forall|i: int|
                    0 <= i < lines.len() ==> !line_bad(#[trigger] lines[i]))
                &&& (r matches Ok(d) ==> forall|i: int|
                    0 <= i < lines.len() && !line_is_skip(#[trigger] lines[i]) ==> map_has(
                        d.spec_map(),
                        line_key(lines[i]),
                        line_text(lines[i]),
                        line_weight(lines[i]),
                    ))
                &&& (r matches Ok(d) ==> forall|i: int|
                    0 <= i < lines.len() && !line_is_skip(#[trigger] lines[i])
                        && initials_indexed_key(line_key(lines[i])) ==> line_initials_covered(
                        d.spec_initials(),
                        lines[i],
                    ))
                &&& (r matches Ok(d) ==> d.wf())
                &&& (r matches Ok(d) ==> forall|k: Seq<char>, t: Seq<char>, w: i32|
                    #[trigger] map_has(d.spec_map(), k, t, w) ==> entry_from_lines(
                        lines,
                        k,
                        t,
                        w,
                    ))
            }),
    {
        let lines = crate::strutil::split_on(s, '\n');
        let syllabifier = QuanpinPreeditor::new();
        let mut map: Vec<(String, Vec<Entry>)> = Vec::new();
        let mut initials_map: Vec<(String, Vec<(String, Entry)>)> = Vec::new();
        let mut idx: usize = 0;
        while idx < lines.len()
            invariant
                idx <= lines@.len(),
                lines.deep_view() == split_seq(s@, '\n'),
                lines.deep_view().len() == lines@.len(),
                forall|i: int| 0 <= i < idx ==> !line_bad(#[trigger] lines.deep_view()[i]),
                forall|i: int|
                    0 <= i < idx && !line_is_skip(#[trigger] lines.deep_view()[i]) ==> map_has(
                        map@,
                        line_key(lines.deep_view()[i]),
                        line_text(lines.deep_view()[i]),
                        line_weight(lines.deep_view()[i]),
                    ),
                forall|i: int| 0 <= i < map@.len() ==> (#[trigger] map@[i]).1@.len() > 0,
                keys_sorted(map@),
                groups_ranked(map@),
                initials_ranked(initials_map@),
                forall|i: int|
                    0 <= i < initials_map@.len() ==> (#[trigger] initials_map@[i]).1@.len() > 0,
                forall|i: int|
                    0 <= i < idx && !line_is_skip(#[trigger] lines.deep_view()[i])
                        && initials_indexed_key(line_key(lines.deep_view()[i]))
                        ==> line_initials_covered(initials_map@, lines.deep_view()[i]),
                forall|k: Seq<char>, t: Seq<char>, w: i32|
                    #[trigger] map_has(map@, k, t, w) ==> entry_from_lines(
                        lines.deep_view().take(idx as int),
                        k,
                        t,
                        w,
                    ),
            decreases lines@.len() - idx,
        {
            let ghost l = lines.deep_view()[idx as int];
            proof {
                assert(lines@[idx as int]@ == l);
            }
            let t = crate::strutil::trim(lines[idx].as_str());
            let tlen = t.as_str().unicode_len();
            let skip = tlen == 0 || t.as_str().get_char(0) == '#';
            if !skip {
                let fields = crate::strutil::split_on(t.as_str(), '\t');
                proof {
                    crate::strutil::lemma_split_shape(t@, '\t');
                    assert(fields@[0]@ == split_seq(line_trimmed(l), '\t')[0]);
                }
                let text = crate::strutil::trim(fields[0].as_str());
                let key = if fields.len() > 1 {
                    proof {
                        assert(fields@[1]@ == split_seq(line_trimmed(l), '\t')[1]);
                    }
                    crate::strutil::trim(fields[1].as_str())
                } else {
                    String::new()
                };
                proof {
                    assert(text@ == line_text(l));
                    assert(key@ == line_key(l));
                }
                if text.as_str().unicode_len() == 0 || key.as_str().unicode_len() == 0 {
                    return Err(DictError { line: idx + 1 });
                }
                let weight: i32 = if fields.len() > 2 {
                    proof {
                        assert(fields@[2]@ == split_seq(line_trimmed(l), '\t')[2]);
                    }
                    let w = crate::strutil::trim(fields[2].as_str());
                    if w.as_str().unicode_len() > 0 {
                        match crate::strutil::parse_i32(w.as_str()) {
                            Some(v) => v,
                            None => 0,
                        }
                    } else {
                        0
                    }
                } else {
                    0
                };
                proof {
                    assert(weight == line_weight(l));
                }
                let entry = Entry { text, weight };
                let ghost map0 = map@;
                insert_entry(&mut map, &key, entry.clone());
                proof {
                    assert forall|k: Seq<char>, t2: Seq<char>, w: i32|
                        #[trigger] map_has(map@, k, t2, w) implies entry_from_lines(
                        lines.deep_view().take(idx + 1),
                        k,
                        t2,
                        w,
                    ) by {
                        if map_has(map0, k, t2, w) {
                            lemma_entry_from_lines_extend(
                                lines.deep_view(),
                                idx as int,
                                idx + 1,
                                k,
                                t2,
                                w,
                            );
                        } else {
                            assert(k == key@ && t2 == entry.text@ && w == entry.weight);
                            assert(lines.deep_view().take(idx + 1)[idx as int] == l);
                        }
                    }
                }
                proof {
                    use_type_invariant(&syllabifier);
                    if initials_indexed_key(key@) {
                        assert(to_lower_seq(key@) =~= key@) by {
                            assert forall|p: int| 0 <= p < key@.len() implies to_lower_seq(key@)[p]
                                == key@[p] by {
                                assert(is_lower_char(key@[p]));
                            }
                        }
                        assert(forall|p: int| 0 <= p < key@.len() ==> (#[trigger] key@[p]) != '\'');
                        crate::strutil::lemma_remove_sep_absent(key@, '\'');
                        assert(crate::pinyin::letters_only(key@));
                    }
                }
                let analysis = syllabifier.analyze(key.as_str());
                let ghost toks = analysis.segment.deep_view();
                proof {
                    use_type_invariant(&syllabifier);
                    if initials_indexed_key(key@) {
                        let vocab = syllabifier.vocab();
                        assert(crate::pinyin::vocab_wf(vocab));
                        if crate::pinyin::all_chunks_decomposable(key@, vocab)
                            && crate::strutil::remove_sep(key@, '\'').len() > 0 {
                            assert(toks.len() > 0);
                            assert forall|p: int| 0 <= p < toks.len() implies (
                            #[trigger] toks[p]).len() > 0 by {
                                assert(vocab.contains(toks[p]));
                                let t = choose|t: int|
                                    0 <= t < vocab.len() && vocab[t] == toks[p];
                                assert(crate::pinyin::vocab_entry_wf(vocab[t]));
                            }
                        } else {
                            crate::pinyin::lemma_singles_no_breaks(key@);
                            assert(toks == crate::pinyin::singles(key@));
                            assert(toks.len() == key@.len());
                            assert forall|p: int| 0 <= p < toks.len() implies (
                            #[trigger] toks[p]).len() > 0 by {
                                assert(crate::pinyin::singles(key@)[p] == seq![key@[p]]);
                            }
                        }
                        assert(toks.len() > 0);
                    }
                }
                if analysis.segment.len() > 0 {
                    let mut initials = String::new();
                    let mut ti: usize = 0;
                    while ti < analysis.segment.len()
                        invariant
                            toks == analysis.segment.deep_view(),
                            toks.len() == analysis.segment@.len(),
                            ti <= toks.len(),
                            (ti > 0 && toks[0].len() > 0) ==> initials@.len() > 0,
                        decreases analysis.segment@.len() - ti,
                    {
                        proof {
                            assert(analysis.segment@[ti as int]@ == toks[ti as int]);
                        }
                        if analysis.segment[ti].as_str().unicode_len() > 0 {
                            crate::strutil::push_char(
                                &mut initials,
                                analysis.segment[ti].as_str().get_char(0),
                            );
                        }
                        ti = ti + 1;
                    }
                    if initials.as_str().unicode_len() > 0 {
                        let ghost im0 = initials_map@;
                        let ghost iniv = initials@;
                        insert_pair(&mut initials_map, &initials, (key.clone(), entry));
                        proof {
                            assert(initials_has(
                                initials_map@,
                                iniv,
                                key@,
                                line_text(l),
                                line_weight(l),
                            ));
                            assert(iniv.len() > 0);
                            assert(line_initials_covered(initials_map@, l)) by {
                                assert(initials_has(
                                    initials_map@,
                                    iniv,
                                    line_key(l),
                                    line_text(l),
                                    line_weight(l),
                                ));
                            }
                            assert forall|i2: int|
                                0 <= i2 < idx && !line_is_skip(
                                    #[trigger] lines.deep_view()[i2],
                                ) && initials_indexed_key(line_key(lines.deep_view()[i2])) implies
                                line_initials_covered(initials_map@, lines.deep_view()[i2]) by {
                                let ini0 = choose|ini: Seq<char>|
                                    ini.len() > 0 && initials_has(
                                        im0,
                                        ini,
                                        line_key(lines.deep_view()[i2]),
                                        line_text(lines.deep_view()[i2]),
                                        line_weight(lines.deep_view()[i2]),
                                    );
                                assert(initials_has(
                                    initials_map@,
                                    ini0,
                                    line_key(lines.deep_view()[i2]),
                                    line_text(lines.deep_view()[i2]),
                                    line_weight(lines.deep_view()[i2]),
                                ));
                            }
                        }
                    }
                }
            }
            proof {
                if skip {
                    assert forall|k: Seq<char>, t2: Seq<char>, w: i32|
                        #[trigger] map_has(map@, k, t2, w) implies entry_from_lines(
                        lines.deep_view().take(idx + 1),
                        k,
                        t2,
                        w,
                    ) by {
                        lemma_entry_from_lines_extend(
                            lines.deep_view(),
                            idx as int,
                            idx + 1,
                            k,
                            t2,
                            w,
                        );
                    }
                }
            }
            idx = idx + 1;
        }
        proof {
            assert(idx == lines@.len());
            assert(lines.deep_view().take(idx as int) =~= split_seq(s@, '\n'));
            assert forall|k: Seq<char>, t: Seq<char>, w: i32|
                #[trigger] map_has(map@, k, t, w) implies entry_from_lines(
                split_seq(s@, '\n'),
                k,
                t,
                w,
            ) by {
                assert(entry_from_lines(lines.deep_view().take(idx as int), k, t, w));
            }
        }
        let d = TsvDictionary { map, initials_map };
        proof {
            use_type_invariant(&d);
            assert forall|k: Seq<char>, t: Seq<char>, w: i32|
                #[trigger] map_has(d.spec_map(), k, t, w) implies entry_from_lines(
                split_seq(s@, '\n'),
                k,
                t,
                w,
            ) by {
                assert(map_has(map@, k, t, w));
            }
        }
        Ok(d)
    }
}

/// Where a lookup result may come from: an exact match under the queried
/// key (no comment), a prefix completion (commented with a stored key
/// that strictly extends the query), or an initials hit (commented with
/// the full key it was found under the queried initials).
pub open spec fn lookup_cand_ok(
    m: Seq<(String, Vec<Entry>)>,
    im: Seq<(String, Vec<(String, Entry)>)>,
    key: Seq<char>,
    start: usize,
    end: usize,
    c: Candidate,
) -> bool {
    &&& c.segment_start == start
    &&& c.segment_end == end
    &&& match c.comment {
        Option::None => map_has(m, key, c.text@, c.weight),
        Option::Some(k2) => (map_has(m, k2@, c.text@, c.weight) && key.is_prefix_of(k2@) && k2@
            != key) || initials_has(im, key, k2@, c.text@, c.weight),
    }
}

/// The result begins with the queried key's own entries: for some group
/// holding the key, the first `min(limit, group size)` results copy that
/// group's entries in their ranked order, untagged.
pub open spec fn exact_prefix_served(
    m: Seq<(String, Vec<Entry>)>,
    key: Seq<char>,
    limit: int,
    r: Seq<Candidate>,
) -> bool {
    exists|gi: int|
        {
            &&& 0 <= gi < m.len()
            &&& (#[trigger] m[gi]).0@ == key
            &&& r.len() >= vstd::math::min(limit, m[gi].1@.len() as int)
            &&& forall|q: int|
                0 <= q < vstd::math::min(limit, m[gi].1@.len() as int) ==> ((#[trigger] r[q]).text@
                    == m[gi].1@[q].text@ && r[q].weight == m[gi].1@[q].weight && r[q].comment
                    is None)
        }
}

/// The result is exactly the queried initials group's pairs, in their
/// ranked order, up to the limit, each tagged with its full key.
pub open spec fn initials_group_served(
    im: Seq<(String, Vec<(String, Entry)>)>,
    key: Seq<char>,
    limit: int,
    r: Seq<Candidate>,
) -> bool {
    exists|gi: int|
        {
            &&& 0 <= gi < im.len()
            &&& (#[trigger] im[gi]).0@ == key
            &&& r.len() == vstd::math::min(limit, im[gi].1@.len() as int)
            &&& forall|q: int|
                0 <= q < r.len() ==> ((#[trigger] r[q]).text@ == im[gi].1@[q].1.text@ && r[q].weight
                    == im[gi].1@[q].1.weight && (r[q].comment matches Some(c2) && c2@
                    == im[gi].1@[q].0@))
        }
}

/// Every token is a single lower-case letter: the shape the initials
/// index answers for.
pub open spec fn all_single_lower(ss: Seq<Seq<char>>) -> bool {
    forall|p: int|
        0 <= p < ss.len() ==> (#[trigger] ss[p]).len() == 1 && is_lower_char(ss[p][0])
}

/// The appended region of the output holds a completion with this text,
/// weight and source key.
pub open spec fn appended_completion(
    out: Seq<Candidate>,
    from: int,
    key: Seq<char>,
    text: Seq<char>,
    weight: i32,
) -> bool {
    exists|k: int|
        from <= k < out.len() && (#[trigger] out[k]).text@ == text && out[k].weight == weight
            && (out[k].comment matches Some(c2) && c2@ == key)
}

/// Two completions in walk order: source keys ascending, and within one
/// source key the group's ranked entry order.
pub open spec fn completion_pair_ordered(a: Candidate, b: Candidate) -> bool {
    match (a.comment, b.comment) {
        (Option::Some(c1), Option::Some(c2)) => lex_le(c1@, c2@) && (c1@ == c2@
            ==> crate::model::cand_le(a, b)),
        _ => false,
    }
}

/// The completions appear grouped by source key in ascending key order,
/// and within one key in that group's ranked entry order.
pub open spec fn completions_ordered(r: Seq<Candidate>, from: int) -> bool {
    forall|k1: int, k2: int|
        from <= k1 < k2 < r.len() ==> completion_pair_ordered(#[trigger] r[k1], #[trigger] r[k2])
}

/// A prefix-completion result: an entry found under a strictly longer
/// key that the query is a prefix of, commented with that key.
pub open spec fn prefix_cand_ok(
    m: Seq<(String, Vec<Entry>)>,
    prefix: Seq<char>,
    start: usize,
    end: usize,
    c: Candidate,
) -> bool {
    &&& c.segment_start == start
    &&& c.segment_end == end
    &&& match c.comment {
        Option::Some(k2) => map_has(m, k2@, c.text@, c.weight) && prefix.is_prefix_of(k2@) && k2@
            != prefix,
        Option::None => false,
    }
}

/// Adjacent provenance facts chain across any gap: group indices are
/// monotone, and within one group the entry indices strictly rise.
proof fn lemma_prov_chain(gidx: Seq<int>, eidx: Seq<int>, k1: int, k2: int)
    requires
        gidx.len() == eidx.len(),
        forall|k: int| 0 <= k < gidx.len() - 1 ==> #[trigger] gidx[k] <= gidx[k + 1],
        forall|k: int|
            0 <= k < gidx.len() - 1 && gidx[k] == gidx[k + 1] ==> #[trigger] eidx[k] < eidx[k
                + 1],
        0 <= k1 <= k2 < gidx.len(),
    ensures
        gidx[k1] <= gidx[k2],
        gidx[k1] == gidx[k2] ==> (k1 < k2 ==> eidx[k1] < eidx[k2]),
    decreases k2 - k1,
{
    if k1 < k2 {
        lemma_prov_chain(gidx, eidx, k1, k2 - 1);
    }
}

/// Provenance of the appended completions gives their ordering: grouped
/// by ascending source key, ranked within each key.
#[verifier::rlimit(100)]
proof fn lemma_completions_from_provenance(
    m: Seq<(String, Vec<Entry>)>,
    out: Seq<Candidate>,
    from: int,
    gidx: Seq<int>,
    eidx: Seq<int>,
)
    requires
        keys_sorted(m),
        groups_ranked(m),
        0 <= from <= out.len(),
        gidx.len() == out.len() - from,
        eidx.len() == gidx.len(),
        forall|k: int|
            0 <= k < gidx.len() ==> 0 <= #[trigger] gidx[k] < m.len() && 0 <= eidx[k] < m[
                gidx[k]].1@.len(),
        forall|k: int|
            0 <= k < gidx.len() ==> ((#[trigger] out[from + k]).comment matches Some(c2) && c2@
                == m[gidx[k]].0@) && out[from + k].text@ == m[gidx[k]].1@[eidx[k]].text@ && out[
                from + k].weight == m[gidx[k]].1@[eidx[k]].weight,
        forall|k: int| 0 <= k < gidx.len() - 1 ==> #[trigger] gidx[k] <= gidx[k + 1],
        forall|k: int|
            0 <= k < gidx.len() - 1 && gidx[k] == gidx[k + 1] ==> #[trigger] eidx[k] < eidx[k
                + 1],
    ensures
        completions_ordered(out, from),
{
    assert forall|k1: int, k2: int|
        from <= k1 < k2 < out.len() implies match (
        (#[trigger] out[k1]).comment,
        (#[trigger] out[k2]).comment,
    ) {
        (Option::Some(c1), Option::Some(c2)) => lex_le(c1@, c2@) && (c1@ == c2@
            ==> crate::model::cand_le(out[k1], out[k2])),
        _ => false,
    } by {
        let p1 = k1 - from;
        let p2 = k2 - from;
        assert((out[from + p1].comment matches Some(c2) && c2@ == m[gidx[p1]].0@) && out[from
            + p1].text@ == m[gidx[p1]].1@[eidx[p1]].text@ && out[from + p1].weight == m[
        gidx[p1]].1@[eidx[p1]].weight);
        assert((out[from + p2].comment matches Some(c2) && c2@ == m[gidx[p2]].0@) && out[from
            + p2].text@ == m[gidx[p2]].1@[eidx[p2]].text@ && out[from + p2].weight == m[
        gidx[p2]].1@[eidx[p2]].weight);
        lemma_prov_chain(gidx, eidx, p1, p2);
        if gidx[p1] == gidx[p2] {
            lemma_lex_le_total(m[gidx[p1]].0@, m[gidx[p1]].0@);
            assert(entries_ranked(m[gidx[p1]].1@));
            assert(entry_le(m[gidx[p1]].1@[eidx[p1]], m[gidx[p1]].1@[eidx[p2]]));
            assert(crate::model::cand_le(out[k1], out[k2]));
        } else {
            assert(lex_le(m[gidx[p1]].0@, m[gidx[p2]].0@) && m[gidx[p1]].0@ != m[gidx[p2]].0@);
        }
    }
}

impl TsvDictionary {
    /// Appends completions whose keys strictly extend the query key, in
    /// key order, stopping once `limit` is reached.
    fn prefix_candidates(
        &self,
        prefix: &String,
        start: usize,
        end: usize,
        limit: usize,
        out: &mut Vec<Candidate>,
    )
        ensures
            old(out)@.len() <= final(out)@.len() <= vstd::math::max(
                old(out)@.len() as int + 1,
                limit as int,
            ),
            forall|k: int| 0 <= k < old(out)@.len() ==> final(out)@[k] == #[trigger] old(out)@[k],
            forall|k: int|
                old(out)@.len() <= k < final(out)@.len() ==> prefix_cand_ok(
                    self.spec_map(),
                    prefix@,
                    start,
                    end,
                    #[trigger] final(out)@[k],
                ),
            prefix@.len() > 0 && limit > 0 && map_has_extension(self.spec_map(), prefix@)
                ==> final(out)@.len() > old(out)@.len(),
            !map_has_extension(self.spec_map(), prefix@) ==> final(out)@ == old(out)@,
            completions_ordered(final(out)@, old(out)@.len() as int),
            prefix@.len() > 0 && final(out)@.len() < limit ==> forall|i: int, j: int|
                0 <= i < self.spec_map().len() && prefix@.is_prefix_of(
                    (#[trigger] self.spec_map()[i]).0@,
                ) && self.spec_map()[i].0@ != prefix@ && 0 <= j < self.spec_map()[i].1@.len()
                    ==> appended_completion(
                    final(out)@,
                    old(out)@.len() as int,
                    self.spec_map()[i].0@,
                    (#[trigger] self.spec_map()[i].1@[j]).text@,
                    self.spec_map()[i].1@[j].weight,
                ),
    {
        proof {
            use_type_invariant(&*self);
        }
        if prefix.as_str().unicode_len() == 0 || limit == 0 {
            return ;
        }
        let ghost from = out@.len() as int;
        let ghost mut gidx: Seq<int> = Seq::empty();
        let ghost mut eidx: Seq<int> = Seq::empty();
        let mut i: usize = 0;
        while i < self.map.len()
            invariant
                i <= self.map@.len(),
                limit > 0,
                from == old(out)@.len() as int,
                keys_sorted(self.spec_map()),
                groups_ranked(self.spec_map()),
                gidx.len() == out@.len() - from,
                eidx.len() == gidx.len(),
                forall|k: int|
                    0 <= k < gidx.len() ==> 0 <= #[trigger] gidx[k] < self.map@.len() && 0 <= eidx[
                        k] < self.map@[gidx[k]].1@.len(),
                forall|k: int|
                    0 <= k < gidx.len() ==> ((#[trigger] out@[from + k]).comment matches Some(c2)
                        && c2@ == self.map@[gidx[k]].0@) && out@[from + k].text@ == self.map@[
                    gidx[k]].1@[eidx[k]].text@ && out@[from + k].weight == self.map@[
                    gidx[k]].1@[eidx[k]].weight,
                forall|k: int| 0 <= k < gidx.len() - 1 ==> #[trigger] gidx[k] <= gidx[k + 1],
                forall|k: int|
                    0 <= k < gidx.len() - 1 && gidx[k] == gidx[k + 1] ==> #[trigger] eidx[k]
                        < eidx[k + 1],
                forall|k: int| 0 <= k < gidx.len() ==> #[trigger] gidx[k] < i,
                forall|i2: int|
                    0 <= i2 < self.map@.len() ==> (#[trigger] self.map@[i2]).1@.len() > 0,
                !map_has_extension(self.spec_map(), prefix@) ==> out@ == old(out)@,
                old(out)@.len() <= out@.len(),
                out@.len() == old(out)@.len() || out@.len() < limit,
                forall|k: int| 0 <= k < old(out)@.len() ==> out@[k] == #[trigger] old(out)@[k],
                forall|k: int|
                    old(out)@.len() <= k < out@.len() ==> prefix_cand_ok(
                        self.spec_map(),
                        prefix@,
                        start,
                        end,
                        #[trigger] out@[k],
                    ),
                forall|i2: int|
                    0 <= i2 < i && prefix@.is_prefix_of((#[trigger] self.spec_map()[i2]).0@)
                        && self.spec_map()[i2].0@ != prefix@ ==> out@.len() > old(out)@.len(),
                forall|i2: int, j2: int|
                    0 <= i2 < i && prefix@.is_prefix_of((#[trigger] self.spec_map()[i2]).0@)
                        && self.spec_map()[i2].0@ != prefix@ && 0 <= j2
                        < self.spec_map()[i2].1@.len() ==> appended_completion(
                        out@,
                        from,
                        self.spec_map()[i2].0@,
                        (#[trigger] self.spec_map()[i2].1@[j2]).text@,
                        self.spec_map()[i2].1@[j2].weight,
                    ),
            decreases self.map@.len() - i,
        {
            let matches_prefix = crate::strutil::str_starts_with(
                self.map[i].0.as_str(),
                prefix.as_str(),
            ) && !(self.map[i].0 == *prefix);
            if matches_prefix {
                let mut j: usize = 0;
                while j < self.map[i].1.len()
                    invariant
                        i < self.map@.len(),
                        limit > 0,
                        from == old(out)@.len() as int,
                        keys_sorted(self.spec_map()),
                        groups_ranked(self.spec_map()),
                        map_has_extension(self.spec_map(), prefix@),
                        j <= self.map@[i as int].1@.len(),
                        prefix@.is_prefix_of(self.map@[i as int].0@),
                        self.map@[i as int].0@ != prefix@,
                        gidx.len() == out@.len() - from,
                        eidx.len() == gidx.len(),
                        forall|k: int|
                            0 <= k < gidx.len() ==> 0 <= #[trigger] gidx[k] < self.map@.len() && 0
                                <= eidx[k] < self.map@[gidx[k]].1@.len(),
                        forall|k: int|
                            0 <= k < gidx.len() ==> ((#[trigger] out@[from + k]).comment matches
                            Some(c2) && c2@ == self.map@[gidx[k]].0@) && out@[from + k].text@
                                == self.map@[gidx[k]].1@[eidx[k]].text@ && out@[from + k].weight
                                == self.map@[gidx[k]].1@[eidx[k]].weight,
                        forall|k: int|
                            0 <= k < gidx.len() - 1 ==> #[trigger] gidx[k] <= gidx[k + 1],
                        forall|k: int|
                            0 <= k < gidx.len() - 1 && gidx[k] == gidx[k + 1] ==> #[trigger] eidx[
                            k] < eidx[k + 1],
                        forall|k: int| 0 <= k < gidx.len() ==> #[trigger] gidx[k] <= i,
                        gidx.len() > 0 && gidx.last() == i as int ==> eidx.last() < j,
                        old(out)@.len() <= out@.len(),
                        out@.len() == old(out)@.len() || out@.len() < limit,
                        j > 0 ==> out@.len() > old(out)@.len(),
                        forall|k: int|
                            0 <= k < old(out)@.len() ==> out@[k] == #[trigger] old(out)@[k],
                        forall|k: int|
                            old(out)@.len() <= k < out@.len() ==> prefix_cand_ok(
                                self.spec_map(),
                                prefix@,
                                start,
                                end,
                                #[trigger] out@[k],
                            ),
                        forall|i2: int|
                            0 <= i2 < i && prefix@.is_prefix_of(
                                (#[trigger] self.spec_map()[i2]).0@,
                            ) && self.spec_map()[i2].0@ != prefix@ ==> out@.len() > old(
                                out,
                            )@.len(),
                        forall|i2: int, j2: int|
                            0 <= i2 < i && prefix@.is_prefix_of(
                                (#[trigger] self.spec_map()[i2]).0@,
                            ) && self.spec_map()[i2].0@ != prefix@ && 0 <= j2
                                < self.spec_map()[i2].1@.len() ==> appended_completion(
                                out@,
                                from,
                                self.spec_map()[i2].0@,
                                (#[trigger] self.spec_map()[i2].1@[j2]).text@,
                                self.spec_map()[i2].1@[j2].weight,
                            ),
                        forall|j2: int|
                            0 <= j2 < j ==> appended_completion(
                                out@,
                                from,
                                self.spec_map()[i as int].0@,
                                (#[trigger] self.spec_map()[i as int].1@[j2]).text@,
                                self.spec_map()[i as int].1@[j2].weight,
                            ),
                    decreases self.map@[i as int].1@.len() - j,
                {
                    let e = &self.map[i].1[j];
                    let c = Candidate {
                        text: e.text.clone(),
                        comment: Some(self.map[i].0.clone()),
                        weight: e.weight,
                        segment_start: start,
                        segment_end: end,
                    };
                    proof {
                        assert(map_has(
                            self.spec_map(),
                            self.map@[i as int].0@,
                            self.map@[i as int].1@[j as int].text@,
                            self.map@[i as int].1@[j as int].weight,
                        ));
                    }
                    let ghost pre = out@;
                    out.push(c);
                    proof {
                        gidx = gidx.push(i as int);
                        eidx = eidx.push(j as int);
                        assert(forall|k: int| 0 <= k < pre.len() ==> out@[k] == #[trigger] pre[k]);
                        assert(out@[pre.len() as int].text@ == self.map@[i as int].1@[
                            j as int].text@);
                        assert(out@[pre.len() as int].weight == self.map@[i as int].1@[
                            j as int].weight);
                        assert(out@[pre.len() as int].comment matches Some(c2) && c2@
                            == self.map@[i as int].0@);
                    }
                    if out.len() >= limit {
                        proof {
                            lemma_completions_from_provenance(
                                self.spec_map(),
                                out@,
                                from,
                                gidx,
                                eidx,
                            );
                        }
                        return ;
                    }
                    j = j + 1;
                }
            }
            i = i + 1;
        }
        proof {
            lemma_completions_from_provenance(self.spec_map(), out@, from, gidx, eidx);
        }
    }
}

impl Dictionary for TsvDictionary {
    /// Exact lookup of the span's concatenated key, then (for
    /// whole-segment queries) prefix completion, then — when nothing was
    /// found and every segment is a single lower-case letter — the
    /// initials index. Every result names where it came from.
    fn lookup_span(&self, segment: &Vec<String>, start: usize, end: usize, limit: usize) -> (r:
        Vec<Candidate>)
        ensures
            forall|k: int|
                0 <= k < r@.len() ==> lookup_cand_ok(
                    self.spec_map(),
                    self.spec_initials(),
                    concat_seqs(segment.deep_view().subrange(start as int, end as int)),
                    start,
                    end,
                    #[trigger] r@[k],
                ),
            ({
                let key = concat_seqs(segment.deep_view().subrange(start as int, end as int));
                start < end <= segment@.len() && key.len() > 0 && map_has_key(
                    self.spec_map(),
                    key,
                ) ==> r@.len() > 0
            }),
            start >= end || end > segment@.len() ==> r@.len() == 0,
            !(start == 0 && end == segment@.len()) ==> forall|k: int|
                0 <= k < r@.len() ==> (#[trigger] r@[k]).comment is None,
            ({
                let key = concat_seqs(segment.deep_view().subrange(start as int, end as int));
                start == 0 && 0 < end == segment@.len() && key.len() > 0 && map_has_extension(
                    self.spec_map(),
                    key,
                ) ==> r@.len() > 0
            }),
            ({
                let key = concat_seqs(segment.deep_view().subrange(start as int, end as int));
                start == 0 && 0 < end == segment@.len() && key.len() > 0 && all_single_lower(
                    segment.deep_view(),
                ) && !map_has_key(self.spec_map(), key) && !map_has_extension(
                    self.spec_map(),
                    key,
                ) && initials_has_key(self.spec_initials(), key) ==> initials_group_served(
                    self.spec_initials(),
                    key,
                    if limit == 0 {
                        1int
                    } else {
                        limit as int
                    },
                    r@,
                )
            }),
            ({
                let key = concat_seqs(segment.deep_view().subrange(start as int, end as int));
                concat_seqs(segment.deep_view().subrange(start as int, end as int)).len() == 0
                    ==> r@.len() == 0
            }),
            ({
                let key = concat_seqs(segment.deep_view().subrange(start as int, end as int));
                start < end <= segment@.len() && key.len() > 0 && map_has_key(
                    self.spec_map(),
                    key,
                ) ==> exact_prefix_served(
                    self.spec_map(),
                    key,
                    if limit == 0 {
                        1int
                    } else {
                        limit as int
                    },
                    r@,
                )
            }),
            ({
                let key = concat_seqs(segment.deep_view().subrange(start as int, end as int));
                !(start == 0 && end == segment@.len()) || !map_has_extension(self.spec_map(), key)
                    ==> crate::model::cands_sorted(r@)
            }),
            ({
                let key = concat_seqs(segment.deep_view().subrange(start as int, end as int));
                start == 0 && end == segment@.len() && map_has_extension(self.spec_map(), key)
                    ==> forall|k1: int, k2: int|
                    0 <= k1 < k2 < r@.len() && (#[trigger] r@[k1]).comment is Some && (
                    #[trigger] r@[k2]).comment is Some ==> completion_pair_ordered(r@[k1], r@[k2])
            }),
    {
        proof {
            use_type_invariant(&*self);
        }
        let lim: usize = if limit < 1 {
            1
        } else {
            limit
        };
        if start >= end || end > segment.len() {
            return Vec::new();
        }
        let key = crate::strutil::concat_range(segment, start, end);
        let ghost keyv = concat_seqs(segment.deep_view().subrange(start as int, end as int));
        if key.as_str().unicode_len() == 0 {
            return Vec::new();
        }
        let mut out: Vec<Candidate> = Vec::new();
        match find_group(&self.map, &key) {
            Some(gi) => {
                let mut j: usize = 0;
                while j < self.map[gi].1.len() && out.len() < lim
                    invariant
                        gi < self.map@.len(),
                        self.map@[gi as int].0@ == keyv,
                        j <= self.map@[gi as int].1@.len(),
                        out@.len() == j,
                        out@.len() <= lim,
                        forall|k: int| 0 <= k < out@.len() ==> (#[trigger] out@[k]).comment is None,
                        forall|k: int|
                            0 <= k < out@.len() ==> ((#[trigger] out@[k]).text@ == self.map@[
                            gi as int].1@[k].text@ && out@[k].weight == self.map@[
                            gi as int].1@[k].weight),
                        entries_ranked(self.map@[gi as int].1@),
                        crate::model::cands_sorted(out@),
                        forall|k: int|
                            0 <= k < out@.len() ==> lookup_cand_ok(
                                self.spec_map(),
                                self.spec_initials(),
                                keyv,
                                start,
                                end,
                                #[trigger] out@[k],
                            ),
                    decreases self.map@[gi as int].1@.len() - j,
                {
                    let e = &self.map[gi].1[j];
                    proof {
                        assert(map_has(
                            self.spec_map(),
                            keyv,
                            self.map@[gi as int].1@[j as int].text@,
                            self.map@[gi as int].1@[j as int].weight,
                        ));
                    }
                    out.push(
                        Candidate {
                            text: e.text.clone(),
                            comment: None,
                            weight: e.weight,
                            segment_start: start,
                            segment_end: end,
                        },
                    );
                    proof {
                        assert forall|a: int, b: int|
                            0 <= a < b < out@.len() implies #[trigger] crate::model::cand_le(
                            out@[a],
                            out@[b],
                        ) by {
                            assert(entry_le(
                                self.map@[gi as int].1@[a],
                                self.map@[gi as int].1@[b],
                            ));
                        }
                    }
                    j = j + 1;
                }
                proof {
                    assert(out@.len() == vstd::math::min(
                        lim as int,
                        self.map@[gi as int].1@.len() as int,
                    ));
                    assert(exact_prefix_served(self.spec_map(), keyv, lim as int, out@));
                }
            },
            None => {},
        }
        if start == 0 && end == segment.len() && out.len() < lim {
            let rem = lim - out.len();
            let ghost outpre = out@;
            self.prefix_candidates(&key, start, end, rem, &mut out);
            proof {
                assert forall|k: int| 0 <= k < out@.len() implies lookup_cand_ok(
                    self.spec_map(),
                    self.spec_initials(),
                    keyv,
                    start,
                    end,
                    #[trigger] out@[k],
                ) by {
                    if k < outpre.len() {
                        assert(out@[k] == outpre[k]);
                        assert(lookup_cand_ok(
                            self.spec_map(),
                            self.spec_initials(),
                            keyv,
                            start,
                            end,
                            outpre[k],
                        ));
                    } else {
                        assert(prefix_cand_ok(self.spec_map(), key@, start, end, out@[k]));
                    }
                }
                if map_has_key(self.spec_map(), keyv) && exact_prefix_served(
                    self.spec_map(),
                    keyv,
                    lim as int,
                    outpre,
                ) {
                    let gi = choose|gi: int|
                        {
                            &&& 0 <= gi < self.spec_map().len()
                            &&& (#[trigger] self.spec_map()[gi]).0@ == keyv
                            &&& outpre.len() >= vstd::math::min(
                                lim as int,
                                self.spec_map()[gi].1@.len() as int,
                            )
                            &&& forall|q: int|
                                0 <= q < vstd::math::min(
                                    lim as int,
                                    self.spec_map()[gi].1@.len() as int,
                                ) ==> ((#[trigger] outpre[q]).text@ == self.spec_map()[
                                gi].1@[q].text@ && outpre[q].weight == self.spec_map()[
                                gi].1@[q].weight && outpre[q].comment is None)
                        };
                    assert forall|q: int|
                        0 <= q < vstd::math::min(
                            lim as int,
                            self.spec_map()[gi].1@.len() as int,
                        ) implies ((#[trigger] out@[q]).text@ == self.spec_map()[gi].1@[q].text@
                        && out@[q].weight == self.spec_map()[gi].1@[q].weight && out@[q].comment
                        is None) by {
                        assert(out@[q] == outpre[q]);
                    }
                    assert(exact_prefix_served(self.spec_map(), keyv, lim as int, out@));
                }
            }
        }
        let mut single = true;
        let mut si: usize = 0;
        while si < segment.len()
            invariant
                si <= segment@.len(),
                segment.deep_view().len() == segment@.len(),
                single == (forall|p: int|
                    0 <= p < si ==> (#[trigger] segment.deep_view()[p]).len() == 1 && is_lower_char(
                        segment.deep_view()[p][0],
                    )),
            decreases segment@.len() - si,
        {
            let tok = segment[si].as_str();
            proof {
                assert(segment.deep_view()[si as int] == segment@[si as int]@);
            }
            if !(tok.unicode_len() == 1 && is_lower_str_pub(tok)) {
                single = false;
            }
            si = si + 1;
        }
        proof {
            assert(single == all_single_lower(segment.deep_view()));
        }
        if out.len() == 0 && start == 0 && end == segment.len() && single {
            match find_initials_group(&self.initials_map, &key) {
                Some(gi) => {
                    let mut j: usize = 0;
                    while j < self.initials_map[gi].1.len() && out.len() < lim
                        invariant
                            gi < self.initials_map@.len(),
                            self.initials_map@[gi as int].0@ == keyv,
                            j <= self.initials_map@[gi as int].1@.len(),
                            out@.len() == j,
                            out@.len() <= lim,
                            pairs_ranked(self.initials_map@[gi as int].1@),
                            forall|k: int|
                                0 <= k < out@.len() ==> ((#[trigger] out@[k]).text@
                                    == self.initials_map@[gi as int].1@[k].1.text@ && out@[k].weight
                                    == self.initials_map@[gi as int].1@[k].1.weight && (
                                out@[k].comment matches Some(c2) && c2@ == self.initials_map@[
                                gi as int].1@[k].0@)),
                            crate::model::cands_sorted(out@),
                            forall|k: int|
                                0 <= k < out@.len() ==> lookup_cand_ok(
                                    self.spec_map(),
                                    self.spec_initials(),
                                    keyv,
                                    start,
                                    end,
                                    #[trigger] out@[k],
                                ),
                        decreases self.initials_map@[gi as int].1@.len() - j,
                    {
                        let pr = &self.initials_map[gi].1[j];
                        proof {
                            assert(initials_has(
                                self.spec_initials(),
                                keyv,
                                self.initials_map@[gi as int].1@[j as int].0@,
                                self.initials_map@[gi as int].1@[j as int].1.text@,
                                self.initials_map@[gi as int].1@[j as int].1.weight,
                            ));
                        }
                        out.push(
                            Candidate {
                                text: pr.1.text.clone(),
                                comment: Some(pr.0.clone()),
                                weight: pr.1.weight,
                                segment_start: start,
                                segment_end: end,
                            },
                        );
                        proof {
                            assert forall|a: int, b: int|
                                0 <= a < b < out@.len() implies #[trigger] crate::model::cand_le(
                                out@[a],
                                out@[b],
                            ) by {
                                assert(pair_le(
                                    self.initials_map@[gi as int].1@[a],
                                    self.initials_map@[gi as int].1@[b],
                                ));
                            }
                        }
                        j = j + 1;
                    }
                    proof {
                        assert(out@.len() == vstd::math::min(
                            lim as int,
                            self.initials_map@[gi as int].1@.len() as int,
                        ));
                        assert(initials_group_served(
                            self.spec_initials(),
                            keyv,
                            lim as int,
                            out@,
                        ));
                    }
                },
                None => {},
            }
        }
        out
    }
}

/// Decides whether every character of the token is a lower-case letter.
fn is_lower_str_pub(s: &str) -> (r: bool)
    ensures
        r == (forall|k: int| 0 <= k < s@.len() ==> is_lower_char(#[trigger] s@[k])),
{
    let n = s.unicode_len();
    let mut i: usize = 0;
    while i < n
        invariant
            n == s@.len(),
            i <= n,
            forall|k: int| 0 <= k < i ==> is_lower_char(#[trigger] s@[k]),
        decreases n - i,
    {
        let c = s.get_char(i);
        if !('a' <= c && c <= 'z') {
            return false;
        }
        i = i + 1;
    }
    true
}

} // verus!
