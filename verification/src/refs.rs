//! References: which of them are exported, and what a listing of them says.

use crate::order::{self, in_order_by, lemma_sorted_view, sorted_by, text_le, Ordered};
use crate::text::{
    begins, chars_of, ends, ends_with, is_space, lines, lines_of, not_space, run, same, space, starts_with,
    string_of, texts, trim, trimmed,
};
use crate::validator::{all_exportable, exportable};
use vstd::multiset::Multiset;
use vstd::prelude::*;

verus! {

/// Whether a pattern matches a reference: one that ends with `*` by its prefix, another exactly.
pub open spec fn pattern_matches(pattern: Seq<char>, name: Seq<char>) -> bool {
    if pattern.len() > 0 && pattern.last() == '*' {
        begins(name, pattern.drop_last())
    } else {
        name == pattern
    }
}

/// Whether one of the patterns matches a reference.
pub open spec fn exported(patterns: Seq<Seq<char>>, name: Seq<char>) -> bool {
    exists|i: int| 0 <= i < patterns.len() && pattern_matches(#[trigger] patterns[i], name)
}

fn matches_pattern(pattern: &str, name: &str) -> (r: bool)
    ensures
        r == pattern_matches(pattern@, name@),
{
    let chars = chars_of(pattern);
    if chars.len() > 0 && chars[chars.len() - 1] == '*' {
        let prefix = string_of(&chars, 0, chars.len() - 1);
        assert(prefix@ =~= pattern@.drop_last());
        starts_with(name, &prefix)
    } else {
        same(name, pattern)
    }
}

/// Whether one of the patterns matches a reference.
pub fn matches_exported_ref(patterns: &Vec<String>, ref_name: &str) -> (r: bool)
    ensures
        r == exported(texts(patterns@), ref_name@),
{
    let mut i: usize = 0;
    while i < patterns.len()
        invariant
            i <= patterns@.len(),
            forall|j: int| 0 <= j < i ==> !pattern_matches(#[trigger] texts(patterns@)[j], ref_name@),
        decreases patterns@.len() - i,
    {
        assert(texts(patterns@)[i as int] == patterns@[i as int]@);
        if matches_pattern(&patterns[i], ref_name) {
            return true;
        }
        i += 1;
    }
    false
}

/// A reference and the object that it names.
#[derive(Debug, Clone, PartialEq, Eq)]
pub struct RefSnapshotEntry {
    pub ref_name: String,
    pub oid: String,
}

impl Ordered for RefSnapshotEntry {
    open spec fn le(&self, other: &Self) -> bool {
        text_le(self.ref_name@, other.ref_name@)
    }

    proof fn total(a: &Self, b: &Self) {
        order::lemma_text_le_total(a.ref_name@, b.ref_name@);
    }

    proof fn transitive(a: &Self, b: &Self, c: &Self) {
        order::lemma_text_le_trans(a.ref_name@, b.ref_name@, c.ref_name@);
    }

    fn not_after(&self, other: &Self) -> (r: bool) {
        order::not_after(&self.ref_name, &other.ref_name)
    }
}

/// What an entry says: the reference and the object.
pub open spec fn entry_text() -> spec_fn(RefSnapshotEntry) -> (Seq<char>, Seq<char>) {
    |e: RefSnapshotEntry| (e.ref_name@, e.oid@)
}

/// What a snapshot says, entry by entry.
pub open spec fn entry_texts(entries: Seq<RefSnapshotEntry>) -> Seq<(Seq<char>, Seq<char>)> {
    entries.map_values(entry_text())
}

/// The order of entries by their references.
pub open spec fn by_ref_name() -> spec_fn((Seq<char>, Seq<char>), (Seq<char>, Seq<char>)) -> bool {
    |a: (Seq<char>, Seq<char>), b: (Seq<char>, Seq<char>)| text_le(a.0, b.0)
}

/// A copy of an entry.
pub fn copy_entry(entry: &RefSnapshotEntry) -> (r: RefSnapshotEntry)
    ensures
        r == *entry,
{
    RefSnapshotEntry { ref_name: entry.ref_name.clone(), oid: entry.oid.clone() }
}

/// A copy of a snapshot.
pub fn copy_entries(entries: &Vec<RefSnapshotEntry>) -> (r: Vec<RefSnapshotEntry>)
    ensures
        r@ == entries@,
{
    let mut out: Vec<RefSnapshotEntry> = Vec::new();
    let mut i: usize = 0;
    while i < entries.len()
        invariant
            i <= entries@.len(),
            out@ == entries@.take(i as int),
        decreases entries@.len() - i,
    {
        out.push(copy_entry(&entries[i]));
        i += 1;
        assert(entries@.take(i as int) =~= entries@.take(i - 1).push(entries@[i - 1]));
    }
    assert(entries@.take(i as int) =~= entries@);
    out
}

// ---------------------------------------------------------------------------
// Listings

/// Whether a trimmed line of a listing is malformed: it holds no white space between an object
/// and a reference.
pub open spec fn malformed_line(t: Seq<char>) -> bool {
    t.len() > 0 && run(t, not_space()) == t.len()
}

/// The object on a trimmed line of a listing: what stands before the first white space.
pub open spec fn line_oid(t: Seq<char>) -> Seq<char> {
    trimmed(t.take(run(t, not_space()) as int))
}

/// The reference on a trimmed line of a listing: what stands after the first white space.
pub open spec fn line_ref(t: Seq<char>) -> Seq<char> {
    trimmed(t.skip(run(t, not_space()) as int + 1))
}

/// Whether a trimmed line of a listing counts: it is not empty and not the line of the object
/// that a tag points to.
pub open spec fn line_counts(t: Seq<char>) -> bool {
    t.len() > 0 && !ends(line_ref(t), "^{}"@)
}

/// The entries of the lines that count, in the order of the lines.
pub open spec fn listed(ls: Seq<Seq<char>>) -> Seq<(Seq<char>, Seq<char>)>
    decreases ls.len(),
{
    if ls.len() == 0 {
        Seq::empty()
    } else {
        let t = trimmed(ls.last());
        if line_counts(t) {
            listed(ls.drop_last()).push((line_ref(t), line_oid(t)))
        } else {
            listed(ls.drop_last())
        }
    }
}

/// Whether some line of a listing is malformed.
pub open spec fn some_malformed(ls: Seq<Seq<char>>) -> bool {
    exists|i: int| 0 <= i < ls.len() && malformed_line(trimmed(#[trigger] ls[i]))
}

/// Whether `t` is the first malformed line of a listing.
pub open spec fn first_malformed(ls: Seq<Seq<char>>, t: Seq<char>) -> bool {
    exists|i: int|
        {
            &&& 0 <= i < ls.len()
            &&& trimmed(#[trigger] ls[i]) == t
            &&& malformed_line(t)
            &&& forall|j: int| 0 <= j < i ==> !malformed_line(trimmed(#[trigger] ls[j]))
        }
}

/// The snapshot that a listing says, ordered by reference, or its first malformed line.
pub fn parse_ref_snapshot(source: &str) -> (r: Result<Vec<RefSnapshotEntry>, String>)
    ensures
        match r {
            Ok(entries) => {
                &&& !some_malformed(lines_of(source@))
                &&& entry_texts(entries@) == sorted_by(listed(lines_of(source@)), by_ref_name())
            },
            Err(line) => first_malformed(lines_of(source@), line@),
        },
{
    let all = lines(source);
    let ghost ls = lines_of(source@);
    let mut entries: Vec<RefSnapshotEntry> = Vec::new();
    let mut i: usize = 0;
    assert(entry_texts(entries@) =~= listed(ls.take(0)));
    while i < all.len()
        invariant
            i <= all@.len(),
            texts(all@) == ls,
            ls == lines_of(source@),
            forall|j: int| 0 <= j < i ==> !malformed_line(trimmed(#[trigger] ls[j])),
            entry_texts(entries@) == listed(ls.take(i as int)),
        decreases all@.len() - i,
    {
        let t = trim(&all[i]);
        let ghost before_push = entries@;
        proof {
            assert(ls[i as int] == all@[i as int]@);
            assert(ls.take(i + 1).drop_last() =~= ls.take(i as int));
        }
        let chars = chars_of(&t);
        if chars.len() > 0 {
            let ghost p = not_space();
            let mut k: usize = 0;
            while k < chars.len() && !space(chars[k])
                invariant
                    k <= chars@.len(),
                    chars@ == t@,
                    p == not_space(),
                    forall|j: int| 0 <= j < k ==> p(#[trigger] chars@[j]),
                decreases chars@.len() - k,
            {
                k += 1;
            }
            proof {
                crate::text::lemma_run_is(t@, p, k as nat);
            }
            if k == chars.len() {
                proof {
                    assert(trimmed(ls[i as int]) == t@);
                    assert(malformed_line(t@));
                    assert(first_malformed(ls, t@));
                }
                return Err(t);
            }
            let oid_part = string_of(&chars, 0, k);
            let ref_part = string_of(&chars, k + 1, chars.len());
            assert(oid_part@ =~= t@.take(k as int));
            assert(ref_part@ =~= t@.skip(k + 1));
            let ref_name = trim(&ref_part);
            if !ends_with(&ref_name, "^{}") {
                entries.push(RefSnapshotEntry { ref_name, oid: trim(&oid_part) });
                assert(entry_texts(entries@) =~= entry_texts(before_push).push(
                    (line_ref(t@), line_oid(t@)),
                ));
            }
        }
        i += 1;
    }
    assert(ls.take(i as int) =~= ls);
    let ghost unsorted = entries@;
    let result = order::sort(entries);
    proof {
        lemma_sorted_view(unsorted, entry_text(), by_ref_name());
    }
    Ok(result)
}

// ---------------------------------------------------------------------------
// Listings in another order

/// What a line adds to a listing: its entry, where it counts.
spec fn line_entries(line: Seq<char>) -> Multiset<(Seq<char>, Seq<char>)> {
    let t = trimmed(line);
    if line_counts(t) {
        Multiset::singleton((line_ref(t), line_oid(t)))
    } else {
        Multiset::empty()
    }
}

proof fn lemma_listed_last(ls: Seq<Seq<char>>)
    requires
        ls.len() > 0,
    ensures
        listed(ls).to_multiset() =~= listed(ls.drop_last()).to_multiset().add(
            line_entries(ls.last()),
        ),
{
    broadcast use vstd::seq_lib::group_to_multiset_ensures;

}

proof fn lemma_listed_without(ls: Seq<Seq<char>>, k: int)
    requires
        0 <= k < ls.len(),
    ensures
        listed(ls).to_multiset() =~= listed(ls.remove(k)).to_multiset().add(line_entries(ls[k])),
    decreases ls.len(),
{
    lemma_listed_last(ls);
    let rest = ls.remove(k);
    if k == ls.len() - 1 {
        assert(rest =~= ls.drop_last());
    } else {
        lemma_listed_without(ls.drop_last(), k);
        lemma_listed_last(rest);
        assert(rest.drop_last() =~= ls.drop_last().remove(k));
        assert(rest.last() == ls.last());
    }
}

proof fn lemma_listed_reordered(a: Seq<Seq<char>>, b: Seq<Seq<char>>)
    requires
        a.to_multiset() =~= b.to_multiset(),
    ensures
        listed(a).to_multiset() =~= listed(b).to_multiset(),
    decreases a.len(),
{
    broadcast use vstd::seq_lib::group_to_multiset_ensures;

    assert(a.len() == a.to_multiset().len());
    assert(b.len() == b.to_multiset().len());
    if a.len() > 0 {
        let n = a.len() - 1;
        assert(a.to_multiset().contains(a[n]));
        assert(b.contains(a[n]));
        let k = choose|k: int| 0 <= k < b.len() && b[k] == a[n];
        vstd::seq_lib::to_multiset_remove(a, n);
        vstd::seq_lib::to_multiset_remove(b, k);
        assert(a.remove(n) =~= a.drop_last());
        lemma_listed_reordered(a.drop_last(), b.remove(k));
        lemma_listed_last(a);
        lemma_listed_without(b, k);
    } else {
        assert(a =~= b);
    }
}

proof fn lemma_malformed_reordered(a: Seq<Seq<char>>, b: Seq<Seq<char>>)
    requires
        a.to_multiset() =~= b.to_multiset(),
        some_malformed(a),
    ensures
        some_malformed(b),
{
    broadcast use vstd::seq_lib::group_to_multiset_ensures;

    let i = choose|i: int| 0 <= i < a.len() && malformed_line(trimmed(#[trigger] a[i]));
    assert(a.to_multiset().contains(a[i]));
    assert(b.contains(a[i]));
    let k = choose|k: int| 0 <= k < b.len() && b[k] == a[i];
    assert(malformed_line(trimmed(b[k])));
}

proof fn lemma_by_ref_name()
    ensures
        order::orders(by_ref_name()),
{
    let le = by_ref_name();
    assert forall|a: (Seq<char>, Seq<char>), b: (Seq<char>, Seq<char>)| #[trigger]
        le(a, b) || le(b, a) by {
        order::lemma_text_le_total(a.0, b.0);
    }
    assert forall|
        a: (Seq<char>, Seq<char>),
        b: (Seq<char>, Seq<char>),
        c: (Seq<char>, Seq<char>),
    | #[trigger] le(a, b) && #[trigger] le(b, c) implies le(a, c) by {
        order::lemma_text_le_trans(a.0, b.0, c.0);
    }
}

/// The snapshot of a listing is ordered by reference and holds each entry of the lines that count,
/// as often as it stands there, and nothing else.
pub proof fn law_snapshots_hold_what_is_listed(source: Seq<char>)
    ensures
        in_order_by(sorted_by(listed(lines_of(source)), by_ref_name()), by_ref_name()),
        sorted_by(listed(lines_of(source)), by_ref_name()).to_multiset() =~= listed(
            lines_of(source),
        ).to_multiset(),
{
    lemma_by_ref_name();
    order::lemma_sorted_by(listed(lines_of(source)), by_ref_name());
}

/// Whether no two entries are of the same reference.
pub open spec fn refs_distinct(entries: Seq<(Seq<char>, Seq<char>)>) -> bool {
    forall|i: int, j: int|
        0 <= i < j < entries.len() ==> (#[trigger] entries[i]).0 != (#[trigger] entries[j]).0
}

/// The order of the lines of a listing does not matter: two listings of the same lines are both
/// malformed or neither is, and where no reference stands there twice, their snapshots are the same.
pub proof fn law_order_of_lines_does_not_matter(a: Seq<char>, b: Seq<char>)
    requires
        lines_of(a).to_multiset() =~= lines_of(b).to_multiset(),
    ensures
        some_malformed(lines_of(a)) == some_malformed(lines_of(b)),
        refs_distinct(listed(lines_of(a))) ==> sorted_by(listed(lines_of(a)), by_ref_name())
            == sorted_by(listed(lines_of(b)), by_ref_name()),
{
    broadcast use vstd::seq_lib::group_to_multiset_ensures;

    if some_malformed(lines_of(a)) {
        lemma_malformed_reordered(lines_of(a), lines_of(b));
    }
    if some_malformed(lines_of(b)) {
        lemma_malformed_reordered(lines_of(b), lines_of(a));
    }
    let le = by_ref_name();
    let entries = listed(lines_of(a));
    let x = sorted_by(entries, le);
    let y = sorted_by(listed(lines_of(b)), le);
    lemma_listed_reordered(lines_of(a), lines_of(b));
    law_snapshots_hold_what_is_listed(a);
    law_snapshots_hold_what_is_listed(b);
    if refs_distinct(entries) {
        assert forall|i: int, j: int|
            0 <= i < x.len() && 0 <= j < x.len() && le(#[trigger] x[i], #[trigger] x[j]) && le(
                x[j],
                x[i],
            ) implies x[i] == x[j] by {
            order::lemma_text_le_antisym(x[i].0, x[j].0);
            assert(x.to_multiset().contains(x[i]));
            assert(x.to_multiset().contains(x[j]));
            assert(entries.contains(x[i]));
            assert(entries.contains(x[j]));
            let m = choose|m: int| 0 <= m < entries.len() && entries[m] == x[i];
            let n = choose|n: int| 0 <= n < entries.len() && entries[n] == x[j];
            assert(entries[m].0 == entries[n].0);
        }
        order::lemma_one_order(x, y, le);
    }
}

/// The entries of a snapshot whose references the patterns export, in the same order.
pub open spec fn exported_entries(
    entries: Seq<RefSnapshotEntry>,
    patterns: Seq<Seq<char>>,
) -> Seq<RefSnapshotEntry> {
    entries.filter(|e: RefSnapshotEntry| exported(patterns, e.ref_name@))
}

/// The entries of a snapshot whose references the patterns export.
pub fn retain_exported(entries: Vec<RefSnapshotEntry>, patterns: &Vec<String>) -> (r: Vec<
    RefSnapshotEntry,
>)
    ensures
        r@ == exported_entries(entries@, texts(patterns@)),
{
    let ghost keep = |e: RefSnapshotEntry| exported(texts(patterns@), e.ref_name@);
    let mut out: Vec<RefSnapshotEntry> = Vec::new();
    let mut i: usize = 0;
    assert(entries@.take(0).filter(keep) =~= out@) by {
        reveal(Seq::filter);
    }
    while i < entries.len()
        invariant
            i <= entries@.len(),
            keep == (|e: RefSnapshotEntry| exported(texts(patterns@), e.ref_name@)),
            out@ == entries@.take(i as int).filter(keep),
        decreases entries@.len() - i,
    {
        if matches_exported_ref(patterns, &entries[i].ref_name) {
            out.push(copy_entry(&entries[i]));
        }
        proof {
            reveal(Seq::filter);
            assert(entries@.take(i + 1).drop_last() =~= entries@.take(i as int));
        }
        i += 1;
    }
    assert(entries@.take(i as int) =~= entries@);
    out
}

// ---------------------------------------------------------------------------
// Snapshots as maps

/// What a snapshot says of each reference; of a reference that stands there twice, the last
/// entry.
pub open spec fn snapshot_map(entries: Seq<(Seq<char>, Seq<char>)>) -> Map<Seq<char>, Seq<char>>
    decreases entries.len(),
{
    if entries.len() == 0 {
        Map::empty()
    } else {
        snapshot_map(entries.drop_last()).insert(entries.last().0, entries.last().1)
    }
}

/// Whether two snapshots say the same of every reference.
pub open spec fn same_refs(left: Seq<RefSnapshotEntry>, right: Seq<RefSnapshotEntry>) -> bool {
    snapshot_map(entry_texts(left)) == snapshot_map(entry_texts(right))
}

/// Whether `i` is the index of the last entry of a reference.
pub open spec fn last_entry(entries: Seq<(Seq<char>, Seq<char>)>, name: Seq<char>, i: int) -> bool {
    &&& 0 <= i < entries.len()
    &&& entries[i].0 == name
    &&& forall|j: int| i < j < entries.len() ==> (#[trigger] entries[j]).0 != name
}

proof fn lemma_map_at(entries: Seq<(Seq<char>, Seq<char>)>, name: Seq<char>, i: int)
    requires
        last_entry(entries, name, i),
    ensures
        snapshot_map(entries).contains_key(name),
        snapshot_map(entries)[name] == entries[i].1,
    decreases entries.len(),
{
    if i < entries.len() - 1 {
        assert(entries.last().0 != name);
        assert forall|j: int| i < j < entries.len() - 1 implies (
        #[trigger] entries.drop_last()[j]).0 != name by {
            assert(entries[j].0 != name);
        }
        lemma_map_at(entries.drop_last(), name, i);
    }
}

proof fn lemma_map_domain(entries: Seq<(Seq<char>, Seq<char>)>, name: Seq<char>)
    ensures
        snapshot_map(entries).contains_key(name) <==> exists|i: int|
            0 <= i < entries.len() && (#[trigger] entries[i]).0 == name,
    decreases entries.len(),
{
    if entries.len() > 0 {
        lemma_map_domain(entries.drop_last(), name);
        if entries.last().0 == name {
            assert(entries[entries.len() - 1].0 == name);
        }
        if snapshot_map(entries.drop_last()).contains_key(name) {
            let i = choose|i: int|
                0 <= i < entries.len() - 1 && (#[trigger] entries.drop_last()[i]).0 == name;
            assert(entries[i].0 == name);
        }
        if exists|i: int| 0 <= i < entries.len() && (#[trigger] entries[i]).0 == name {
            let i = choose|i: int| 0 <= i < entries.len() && (#[trigger] entries[i]).0 == name;
            if i < entries.len() - 1 {
                assert(entries.drop_last()[i].0 == name);
            }
        }
    }
}

/// The object that a snapshot says a reference names.
fn find_oid<'a>(entries: &'a Vec<RefSnapshotEntry>, name: &str) -> (r: Option<&'a String>)
    ensures
        match r {
            Some(oid) => {
                &&& snapshot_map(entry_texts(entries@)).contains_key(name@)
                &&& snapshot_map(entry_texts(entries@))[name@] == oid@
            },
            None => !snapshot_map(entry_texts(entries@)).contains_key(name@),
        },
{
    let ghost es = entry_texts(entries@);
    let mut i: usize = entries.len();
    while i > 0
        invariant
            i <= entries@.len(),
            es == entry_texts(entries@),
            forall|j: int| i <= j < entries@.len() ==> (#[trigger] es[j]).0 != name@,
        decreases i,
    {
        i -= 1;
        assert(es[i as int] == (entries@[i as int].ref_name@, entries@[i as int].oid@));
        if same(&entries[i].ref_name, name) {
            proof {
                lemma_map_at(es, name@, i as int);
            }
            return Some(&entries[i].oid);
        }
    }
    proof {
        lemma_map_domain(es, name@);
    }
    None
}

/// Whether `right` says of every reference of `left` what `left` says.
fn agrees(left: &Vec<RefSnapshotEntry>, right: &Vec<RefSnapshotEntry>) -> (r: bool)
    ensures
        r == (forall|k: Seq<char>| #[trigger]
            snapshot_map(entry_texts(left@)).contains_key(k) ==> snapshot_map(
                entry_texts(right@),
            ).contains_key(k) && snapshot_map(entry_texts(right@))[k] == snapshot_map(
                entry_texts(left@),
            )[k]),
{
    let ghost l = snapshot_map(entry_texts(left@));
    let ghost r = snapshot_map(entry_texts(right@));
    let ghost es = entry_texts(left@);
    let mut i: usize = 0;
    while i < left.len()
        invariant
            i <= left@.len(),
            es == entry_texts(left@),
            l == snapshot_map(es),
            r == snapshot_map(entry_texts(right@)),
            forall|j: int|
                0 <= j < i ==> r.contains_key((#[trigger] es[j]).0) && r[es[j].0] == l[es[j].0],
        decreases left@.len() - i,
    {
        let name = &left[i].ref_name;
        proof {
            assert(es[i as int] == (left@[i as int].ref_name@, left@[i as int].oid@));
            lemma_map_domain(es, name@);
        }
        match (find_oid(left, name), find_oid(right, name)) {
            (Some(a), Some(b)) => {
                if !same(a, b) {
                    assert(l.contains_key(name@));
                    return false;
                }
            },
            _ => {
                assert(l.contains_key(name@));
                return false;
            },
        }
        i += 1;
    }
    proof {
        assert forall|k: Seq<char>| #[trigger] l.contains_key(k) implies r.contains_key(k) && r[k]
            == l[k] by {
            lemma_map_domain(es, k);
            let j = choose|j: int| 0 <= j < es.len() && (#[trigger] es[j]).0 == k;
            assert(es[j].0 == k);
        }
    }
    true
}

/// Whether two snapshots say the same of every reference.
pub fn same_snapshot(left: &Vec<RefSnapshotEntry>, right: &Vec<RefSnapshotEntry>) -> (r: bool)
    ensures
        r == same_refs(left@, right@),
{
    let forth = agrees(left, right);
    let back = agrees(right, left);
    proof {
        let l = snapshot_map(entry_texts(left@));
        let r = snapshot_map(entry_texts(right@));
        if forth && back {
            assert(l =~= r);
        }
    }
    forth && back
}

// ---------------------------------------------------------------------------
// Internal references

/// Whether a reference belongs to the relay itself.
pub open spec fn internal(name: Seq<char>) -> bool {
    begins(name, "refs/git-relay/"@)
}

proof fn lemma_pattern_keeps_prefix(pattern: Seq<char>, name: Seq<char>, prefix: Seq<char>)
    requires
        begins(pattern, prefix),
        prefix.len() > 0,
        prefix.last() != '*',
        pattern_matches(pattern, name),
    ensures
        begins(name, prefix),
{
    if pattern.last() == '*' {
        let head = pattern.drop_last();
        if pattern.len() == prefix.len() {
            assert(pattern.take(prefix.len() as int) =~= pattern);
        }
        assert(head.take(prefix.len() as int) =~= pattern.take(prefix.len() as int));
        assert(name.take(prefix.len() as int) =~= name.take(head.len() as int).take(
            prefix.len() as int,
        ));
    }
}

/// A reference that patterns over branches and tags export is a branch or a tag, so none of the
/// relay's internal references.
pub proof fn law_exported_refs_are_not_internal(patterns: Seq<String>, name: Seq<char>)
    requires
        all_exportable(patterns),
        exported(texts(patterns), name),
    ensures
        begins(name, "refs/heads/"@) || begins(name, "refs/tags/"@),
        !internal(name),
{
    reveal_strlit("refs/heads/");
    reveal_strlit("refs/tags/");
    reveal_strlit("refs/git-relay/");
    let i = choose|i: int|
        0 <= i < texts(patterns).len() && pattern_matches(#[trigger] texts(patterns)[i], name);
    assert(texts(patterns)[i] == patterns[i]@);
    assert(exportable(patterns[i]@));
    if begins(patterns[i]@, "refs/heads/"@) {
        lemma_pattern_keeps_prefix(patterns[i]@, name, "refs/heads/"@);
        assert(name.take(11)[5] == 'h');
    } else {
        lemma_pattern_keeps_prefix(patterns[i]@, name, "refs/tags/"@);
        assert(name.take(10)[5] == 't');
    }
    if internal(name) {
        assert(name.take(15)[5] == 'g');
    }
}

// ---------------------------------------------------------------------------
// What references and refspecs mean

/// The refspec that sends each reference under `source` to the same place under `target`, whether
/// it fast-forwards or not.
pub open spec fn glob_refspec(source: Seq<char>, target: Seq<char>) -> Seq<char> {
    seq!['+'] + source + seq!['*', ':'] + target + seq!['*']
}

/// Whether a refspec takes the reference `name` on the one side to `target` on the other.
pub open spec fn takes(refspec: Seq<char>, name: Seq<char>, target: Seq<char>) -> bool {
    exists|a: Seq<char>, b: Seq<char>| #[trigger]
        glob_refspec(a, b) == refspec && begins(name, a) && target == b + name.skip(a.len() as int)
}

/// A pattern that ends with `*` exports every reference under it, a pattern exports the reference
/// of its own name, and nothing else is exported.
pub proof fn law_patterns_export(patterns: Seq<Seq<char>>, name: Seq<char>)
    ensures
        forall|i: int, rest: Seq<char>|
            0 <= i < patterns.len() && patterns[i].len() > 0 && patterns[i].last() == '*' ==> exported(
                patterns,
                #[trigger] (patterns[i].drop_last() + rest),
            ),
        patterns.contains(name) ==> exported(patterns, name),
        exported(patterns, name) ==> exists|i: int|
            0 <= i < patterns.len() && (#[trigger] patterns[i] == name || (patterns[i].len() > 0
                && patterns[i].last() == '*' && patterns[i].len() - 1 <= name.len() && name.take(
                patterns[i].len() - 1,
            ) == patterns[i].drop_last())),
{
    assert forall|i: int, rest: Seq<char>|
        0 <= i < patterns.len() && patterns[i].len() > 0 && patterns[i].last()
            == '*' implies exported(patterns, #[trigger] (patterns[i].drop_last() + rest)) by {
        let head = patterns[i].drop_last();
        assert((head + rest).take(head.len() as int) =~= head);
        assert(pattern_matches(patterns[i], head + rest));
    }
    if patterns.contains(name) {
        let i = choose|i: int| 0 <= i < patterns.len() && patterns[i] == name;
        if name.len() > 0 && name.last() == '*' {
            assert(name.take(name.len() - 1) =~= name.drop_last());
        }
        assert(pattern_matches(patterns[i], name));
    }
    if exported(patterns, name) {
        let i = choose|i: int|
            0 <= i < patterns.len() && pattern_matches(#[trigger] patterns[i], name);
        assert(patterns[i] == name || patterns[i].last() == '*');
    }
}

/// The references of the relay are those under `refs/git-relay/`.
pub proof fn law_internal_namespace(name: Seq<char>, rest: Seq<char>)
    ensures
        internal("refs/git-relay/"@ + rest),
        internal(name) ==> name == "refs/git-relay/"@ + name.skip("refs/git-relay/"@.len() as int),
{
    let p = "refs/git-relay/"@;
    assert((p + rest).take(p.len() as int) =~= p);
    if internal(name) {
        assert(name =~= name.take(p.len() as int) + name.skip(p.len() as int));
    }
}

proof fn lemma_map_of_distinct(entries: Seq<(Seq<char>, Seq<char>)>, name: Seq<char>, oid: Seq<char>)
    requires
        refs_distinct(entries),
    ensures
        entries.contains((name, oid)) <==> snapshot_map(entries).contains_key(name) && snapshot_map(
            entries,
        )[name] == oid,
{
    lemma_map_domain(entries, name);
    if exists|i: int| 0 <= i < entries.len() && (#[trigger] entries[i]).0 == name {
        let i = choose|i: int| 0 <= i < entries.len() && (#[trigger] entries[i]).0 == name;
        lemma_map_at(entries, name, i);
        if entries.contains((name, oid)) {
            let j = choose|j: int| 0 <= j < entries.len() && entries[j] == (name, oid);
            assert(entries[j].0 == entries[i].0);
        } else {
            assert(entries[i] != (name, oid));
        }
    } else if entries.contains((name, oid)) {
        let j = choose|j: int| 0 <= j < entries.len() && entries[j] == (name, oid);
        assert(entries[j].0 == name);
    }
}

/// Two snapshots in which no reference stands twice are the same exactly where each holds the
/// entries of the other.
pub proof fn law_same_snapshots_hold_the_same(left: Seq<RefSnapshotEntry>, right: Seq<RefSnapshotEntry>)
    requires
        refs_distinct(entry_texts(left)),
        refs_distinct(entry_texts(right)),
    ensures
        same_refs(left, right) <==> forall|name: Seq<char>, oid: Seq<char>|
            entry_texts(left).contains((name, oid)) == #[trigger] entry_texts(right).contains(
                (name, oid),
            ),
{
    let l = entry_texts(left);
    let r = entry_texts(right);
    assert forall|name: Seq<char>, oid: Seq<char>| true implies l.contains((name, oid)) == (
    snapshot_map(l).contains_key(name) && snapshot_map(l)[name] == oid) && #[trigger] r.contains(
        (name, oid),
    ) == (snapshot_map(r).contains_key(name) && snapshot_map(r)[name] == oid) by {
        lemma_map_of_distinct(l, name, oid);
        lemma_map_of_distinct(r, name, oid);
    }
    if forall|name: Seq<char>, oid: Seq<char>|
        l.contains((name, oid)) == #[trigger] r.contains((name, oid)) {
        let x = snapshot_map(l);
        let y = snapshot_map(r);
        assert forall|k: Seq<char>| true implies #[trigger] x.contains_key(k) == y.contains_key(k)
            && (x.contains_key(k) ==> x[k] == y[k]) by {
            assert(l.contains((k, x[k])) == r.contains((k, x[k])));
            assert(l.contains((k, y[k])) == r.contains((k, y[k])));
        }
        assert(x =~= y);
    }
}

proof fn lemma_no_space_trimmed(s: Seq<char>)
    requires
        s.len() > 0,
        !is_space(s[0]),
        !is_space(s.last()),
    ensures
        trimmed(s) == s,
{
    reveal_with_fuel(crate::text::trim_start, 2);
    reveal_with_fuel(crate::text::trim_end, 2);
}

/// A line with an object, a blank or a tab, and a reference is read as that reference with that
/// object, unless the reference is the mark of what a tag points to; a line of one word is
/// malformed.
pub proof fn law_a_listed_line_is_an_entry(oid: Seq<char>, name: Seq<char>, tab: bool)
    requires
        oid.len() > 0,
        name.len() > 0,
        forall|i: int| 0 <= i < oid.len() ==> !is_space(#[trigger] oid[i]),
        forall|i: int| 0 <= i < name.len() ==> !is_space(#[trigger] name[i]),
    ensures
        ({
            let line = oid + (if tab {
                seq!['\t']
            } else {
                seq![' ']
            }) + name;
            &&& !malformed_line(trimmed(line))
            &&& listed(seq![line]) == (if name.len() >= 3 && name.skip(name.len() - 3) == seq![
                '^',
                '{',
                '}',
            ] {
                Seq::<(Seq<char>, Seq<char>)>::empty()
            } else {
                seq![(name, oid)]
            })
        }),
        malformed_line(trimmed(oid)),
{
    let gap = if tab {
        seq!['\t']
    } else {
        seq![' ']
    };
    let line = oid + gap + name;
    let n = oid.len();
    assert(line[0] == oid[0]);
    assert(line.last() == name.last());
    lemma_no_space_trimmed(line);
    lemma_no_space_trimmed(oid);
    lemma_no_space_trimmed(name);
    assert forall|i: int| 0 <= i < n implies (not_space())(#[trigger] line[i]) by {
        assert(line[i] == oid[i]);
    }
    assert(line[n as int] == gap[0]);
    crate::text::lemma_run_is(line, not_space(), n);
    crate::text::lemma_run_is(oid, not_space(), n);
    assert(line.take(n as int) =~= oid);
    assert(line.skip(n as int + 1) =~= name);
    reveal_strlit("^{}");
    assert("^{}"@ =~= seq!['^', '{', '}']);
    let ls = seq![line];
    assert(ls.drop_last() =~= Seq::empty());
    assert(listed(ls.drop_last()) =~= Seq::empty());
    if line_counts(line) {
        assert(listed(ls) =~= seq![(name, oid)]);
    }
}

/// A snapshot keeps of a repository exactly the references that its patterns export.
pub proof fn law_exported_entries(
    entries: Seq<RefSnapshotEntry>,
    patterns: Seq<Seq<char>>,
    entry: RefSnapshotEntry,
)
    ensures
        exported_entries(entries, patterns).contains(entry) <==> entries.contains(entry)
            && exported(patterns, entry.ref_name@),
{
    let keep = |e: RefSnapshotEntry| exported(patterns, e.ref_name@);
    let kept = entries.filter(keep);
    if kept.contains(entry) {
        let i = choose|i: int| 0 <= i < kept.len() && kept[i] == entry;
        order::lemma_kept_is_there(entries, keep, i);
    }
    if entries.contains(entry) && exported(patterns, entry.ref_name@) {
        let i = choose|i: int| 0 <= i < entries.len() && entries[i] == entry;
        assert(keep(entries[i]));
        entries.lemma_filter_contains(keep, i);
    }
}

/// A blank line is not malformed, and the line that a listing is refused for is a line of it, is
/// malformed, and comes before every other that is.
pub proof fn law_first_malformed_lines(ls: Seq<Seq<char>>, t: Seq<char>, u: Seq<char>)
    requires
        first_malformed(ls, t),
    ensures
        !malformed_line(Seq::empty()),
        malformed_line(t),
        t.len() > 0,
        forall|i: int| 0 <= i < t.len() ==> !is_space(#[trigger] t[i]),
        exists|i: int| 0 <= i < ls.len() && trimmed(#[trigger] ls[i]) == t,
        first_malformed(ls, u) ==> t == u,
{
    crate::text::lemma_run(t, not_space());
    assert forall|i: int| 0 <= i < t.len() implies !is_space(#[trigger] t[i]) by {
        assert(not_space()(t[i]));
    }
}

} // verus!
