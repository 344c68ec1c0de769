//! The order of strings, and a stable sort.

use crate::text::chars_of;
use vstd::prelude::*;

verus! {

/// The lexicographic order of strings by their characters' code points.
pub open spec fn text_le(a: Seq<char>, b: Seq<char>) -> bool
    decreases a.len(),
{
    if a.len() == 0 {
        true
    } else if b.len() == 0 {
        false
    } else if a[0] == b[0] {
        text_le(a.skip(1), b.skip(1))
    } else {
        a[0] < b[0]
    }
}

pub proof fn lemma_text_le_total(a: Seq<char>, b: Seq<char>)
    ensures
        text_le(a, b) || text_le(b, a),
    decreases a.len(),
{
    if a.len() > 0 && b.len() > 0 && a[0] == b[0] {
        lemma_text_le_total(a.skip(1), b.skip(1));
    }
}

pub proof fn lemma_text_le_trans(a: Seq<char>, b: Seq<char>, c: Seq<char>)
    requires
        text_le(a, b),
        text_le(b, c),
    ensures
        text_le(a, c),
    decreases a.len(),
{
    if a.len() > 0 && b.len() > 0 && c.len() > 0 && a[0] == b[0] && b[0] == c[0] {
        lemma_text_le_trans(a.skip(1), b.skip(1), c.skip(1));
    }
}

pub proof fn lemma_text_le_antisym(a: Seq<char>, b: Seq<char>)
    requires
        text_le(a, b),
        text_le(b, a),
    ensures
        a == b,
    decreases a.len(),
{
    if a.len() > 0 {
        lemma_text_le_antisym(a.skip(1), b.skip(1));
        assert(a =~= seq![a[0]] + a.skip(1));
        assert(b =~= seq![b[0]] + b.skip(1));
    } else {
        assert(a =~= b);
    }
}

/// Whether `a` stands no later than `b` in the order of strings.
pub fn not_after(a: &str, b: &str) -> (r: bool)
    ensures
        r == text_le(a@, b@),
{
    let left = chars_of(a);
    let right = chars_of(b);
    let mut i: usize = 0;
    assert(left@.skip(0) =~= a@);
    assert(right@.skip(0) =~= b@);
    while i < left.len()
        invariant
            i <= left@.len(),
            i <= right@.len(),
            text_le(a@, b@) == text_le(left@.skip(i as int), right@.skip(i as int)),
        decreases left@.len() - i,
    {
        if i == right.len() {
            return false;
        }
        if left[i] != right[i] {
            return left[i] < right[i];
        }
        assert(left@.skip(i as int).skip(1) =~= left@.skip(i + 1));
        assert(right@.skip(i as int).skip(1) =~= right@.skip(i + 1));
        i += 1;
    }
    true
}

/// Values with a total preorder by which they are sorted.
pub trait Ordered: Sized {
    spec fn le(&self, other: &Self) -> bool;

    proof fn total(a: &Self, b: &Self)
        ensures
            a.le(b) || b.le(a),
    ;

    proof fn transitive(a: &Self, b: &Self, c: &Self)
        requires
            a.le(b),
            b.le(c),
        ensures
            a.le(c),
    ;

    fn not_after(&self, other: &Self) -> (r: bool)
        ensures
            r == self.le(other),
    ;
}

/// `t` with `x` put before its first value that `x` does not follow.
pub open spec fn placed<T: Ordered>(t: Seq<T>, x: T) -> Seq<T>
    decreases t.len(),
{
    if t.len() == 0 || x.le(&t[0]) {
        seq![x] + t
    } else {
        seq![t[0]] + placed(t.skip(1), x)
    }
}

/// The values of `s` in order, equal ones in the order in which they stand in `s`.
pub open spec fn sorted<T: Ordered>(s: Seq<T>) -> Seq<T>
    decreases s.len(),
{
    if s.len() == 0 {
        Seq::empty()
    } else {
        placed(sorted(s.skip(1)), s[0])
    }
}

/// Whether each value of `s` stands no later, in its order, than those after it.
pub open spec fn in_order<T: Ordered>(s: Seq<T>) -> bool {
    forall|i: int, j: int| 0 <= i < j < s.len() ==> (#[trigger] s[i]).le(#[trigger] &s[j])
}

proof fn lemma_placed_at<T: Ordered>(t: Seq<T>, x: T, pos: int)
    requires
        0 <= pos <= t.len(),
        forall|j: int| 0 <= j < pos ==> !x.le(#[trigger] &t[j]),
        pos < t.len() ==> x.le(&t[pos]),
    ensures
        placed(t, x) == t.insert(pos, x),
    decreases t.len(),
{
    if pos > 0 {
        assert(!x.le(&t[0]));
        let u = t.skip(1);
        assert forall|j: int| 0 <= j < pos - 1 implies !x.le(#[trigger] &u[j]) by {
            assert(u[j] == t[j + 1]);
        }
        lemma_placed_at(u, x, pos - 1);
        assert(seq![t[0]] + u.insert(pos - 1, x) =~= t.insert(pos, x));
    } else {
        assert(seq![x] + t =~= t.insert(0, x));
    }
}

/// The values of `list` in order, equal ones in the order in which they stood.
pub fn sort<T: Ordered>(list: Vec<T>) -> (r: Vec<T>)
    ensures
        r@ == sorted(list@),
        in_order(r@),
        r@.to_multiset() =~= list@.to_multiset(),
        r@.len() == list@.len(),
{
    let ghost all = list@;
    let mut list = list;
    let mut out: Vec<T> = Vec::new();
    assert(all.skip(all.len() as int) =~= Seq::<T>::empty());
    assert(all.take(all.len() as int) =~= all);
    while list.len() > 0
        invariant
            list@.len() <= all.len(),
            list@ == all.take(list@.len() as int),
            out@ == sorted(all.skip(list@.len() as int)),
        decreases list@.len(),
    {
        let ghost n = list@.len() as int;
        match list.pop() {
            Some(x) => {
                let mut pos: usize = 0;
                while pos < out.len() && !x.not_after(&out[pos])
                    invariant
                        pos <= out@.len(),
                        forall|j: int| 0 <= j < pos ==> !x.le(#[trigger] &out@[j]),
                    decreases out@.len() - pos,
                {
                    pos += 1;
                }
                proof {
                    lemma_placed_at(out@, x, pos as int);
                    assert(all.skip(n - 1).skip(1) =~= all.skip(n));
                    assert(all.skip(n - 1)[0] == x);
                    assert(all.take(n).drop_last() =~= all.take(n - 1));
                }
                out.insert(pos, x);
            },
            None => {
                return out;
            },
        }
    }
    proof {
        assert(all.skip(0) =~= all);
        lemma_sorted(all);
    }
    out
}

impl Ordered for String {
    open spec fn le(&self, other: &Self) -> bool {
        text_le(self@, other@)
    }

    proof fn total(a: &Self, b: &Self) {
        lemma_text_le_total(a@, b@);
    }

    proof fn transitive(a: &Self, b: &Self, c: &Self) {
        lemma_text_le_trans(a@, b@, c@);
    }

    fn not_after(&self, other: &Self) -> (r: bool) {
        self::not_after(self, other)
    }
}

// ---------------------------------------------------------------------------
// Sorting what values say

/// `t` with `x` put before its first value that `x` does not follow.
pub open spec fn placed_by<U>(t: Seq<U>, x: U, le: spec_fn(U, U) -> bool) -> Seq<U>
    decreases t.len(),
{
    if t.len() == 0 || le(x, t[0]) {
        seq![x] + t
    } else {
        seq![t[0]] + placed_by(t.skip(1), x, le)
    }
}

/// The values of `s` in the order `le`, equal ones in the order in which they stand in `s`.
pub open spec fn sorted_by<U>(s: Seq<U>, le: spec_fn(U, U) -> bool) -> Seq<U>
    decreases s.len(),
{
    if s.len() == 0 {
        Seq::empty()
    } else {
        placed_by(sorted_by(s.skip(1), le), s[0], le)
    }
}

proof fn lemma_placed_view<T: Ordered, U>(
    t: Seq<T>,
    x: T,
    f: spec_fn(T) -> U,
    le: spec_fn(U, U) -> bool,
)
    requires
        forall|a: T, b: T| #[trigger] a.le(&b) == le(f(a), f(b)),
    ensures
        placed(t, x).map_values(f) == placed_by(t.map_values(f), f(x), le),
    decreases t.len(),
{
    if t.len() == 0 || x.le(&t[0]) {
        assert((seq![x] + t).map_values(f) =~= seq![f(x)] + t.map_values(f));
    } else {
        lemma_placed_view(t.skip(1), x, f, le);
        assert(t.map_values(f).skip(1) =~= t.skip(1).map_values(f));
        assert((seq![t[0]] + placed(t.skip(1), x)).map_values(f) =~= seq![f(t[0])] + placed(
            t.skip(1),
            x,
        ).map_values(f));
    }
}

/// Sorting values sorts what they say.
pub proof fn lemma_sorted_view<T: Ordered, U>(
    s: Seq<T>,
    f: spec_fn(T) -> U,
    le: spec_fn(U, U) -> bool,
)
    requires
        forall|a: T, b: T| #[trigger] a.le(&b) == le(f(a), f(b)),
    ensures
        sorted(s).map_values(f) == sorted_by(s.map_values(f), le),
    decreases s.len(),
{
    if s.len() > 0 {
        lemma_sorted_view(s.skip(1), f, le);
        lemma_placed_view(sorted(s.skip(1)), s[0], f, le);
        assert(s.map_values(f).skip(1) =~= s.skip(1).map_values(f));
    } else {
        assert(sorted(s).map_values(f) =~= sorted_by(s.map_values(f), le));
    }
}

/// Whether `le` orders all values.
pub open spec fn orders<U>(le: spec_fn(U, U) -> bool) -> bool {
    &&& forall|a: U, b: U| #[trigger] le(a, b) || le(b, a)
    &&& forall|a: U, b: U, c: U| #[trigger] le(a, b) && #[trigger] le(b, c) ==> le(a, c)
}

/// Whether each value of `s` stands no later, in the order `le`, than those after it.
pub open spec fn in_order_by<U>(s: Seq<U>, le: spec_fn(U, U) -> bool) -> bool {
    forall|i: int, j: int| 0 <= i < j < s.len() ==> le(#[trigger] s[i], #[trigger] s[j])
}

proof fn lemma_placed_by<U>(t: Seq<U>, x: U, le: spec_fn(U, U) -> bool)
    requires
        orders(le),
        in_order_by(t, le),
    ensures
        in_order_by(placed_by(t, x, le), le),
        placed_by(t, x, le).to_multiset() =~= t.to_multiset().insert(x),
        placed_by(t, x, le).len() == t.len() + 1,
    decreases t.len(),
{
    broadcast use vstd::seq_lib::group_to_multiset_ensures;

    let r = placed_by(t, x, le);
    if t.len() == 0 || le(x, t[0]) {
        assert(r =~= t.insert(0, x));
        assert forall|i: int, j: int| 0 <= i < j < r.len() implies le(
            #[trigger] r[i],
            #[trigger] r[j],
        ) by {
            if i == 0 {
                if j > 1 {
                    assert(le(t[0], t[j - 1]));
                }
            } else {
                assert(le(t[i - 1], t[j - 1]));
            }
        }
        vstd::seq_lib::to_multiset_insert(t, 0, x);
    } else {
        let u = t.skip(1);
        assert forall|i: int, j: int| 0 <= i < j < u.len() implies le(
            #[trigger] u[i],
            #[trigger] u[j],
        ) by {
            assert(le(t[i + 1], t[j + 1]));
        }
        lemma_placed_by(u, x, le);
        let p = placed_by(u, x, le);
        assert(le(x, t[0]) || le(t[0], x));
        assert(r =~= p.insert(0, t[0]));
        assert(t =~= u.insert(0, t[0]));
        vstd::seq_lib::to_multiset_insert(p, 0, t[0]);
        vstd::seq_lib::to_multiset_insert(u, 0, t[0]);
        assert forall|i: int, j: int| 0 <= i < j < r.len() implies le(
            #[trigger] r[i],
            #[trigger] r[j],
        ) by {
            if i == 0 {
                // the values after the first are x and those of u
                assert(p.to_multiset().contains(p[j - 1]));
                if p[j - 1] != x {
                    assert(u.to_multiset().contains(p[j - 1]));
                    assert(u.contains(p[j - 1]));
                    let k = choose|k: int| 0 <= k < u.len() && u[k] == p[j - 1];
                    assert(le(t[0], t[k + 1]));
                }
            } else {
                assert(le(p[i - 1], p[j - 1]));
            }
        }
    }
}

/// Sorting puts the values in order and keeps each as often as it stood there.
pub proof fn lemma_sorted_by<U>(s: Seq<U>, le: spec_fn(U, U) -> bool)
    requires
        orders(le),
    ensures
        in_order_by(sorted_by(s, le), le),
        sorted_by(s, le).to_multiset() =~= s.to_multiset(),
        sorted_by(s, le).len() == s.len(),
    decreases s.len(),
{
    broadcast use vstd::seq_lib::group_to_multiset_ensures;

    if s.len() > 0 {
        let u = s.skip(1);
        lemma_sorted_by(u, le);
        lemma_placed_by(sorted_by(u, le), s[0], le);
        assert(s =~= u.insert(0, s[0]));
        vstd::seq_lib::to_multiset_insert(u, 0, s[0]);
    } else {
        assert(sorted_by(s, le) =~= s);
    }
}

/// Sorting puts the values in order and keeps each as often as it stood there.
pub proof fn lemma_sorted<T: Ordered>(s: Seq<T>)
    ensures
        in_order(sorted(s)),
        sorted(s).to_multiset() =~= s.to_multiset(),
        sorted(s).len() == s.len(),
{
    let le = |a: T, b: T| a.le(&b);
    let same = |x: T| x;
    assert(orders(le)) by {
        assert forall|a: T, b: T| #[trigger] le(a, b) || le(b, a) by {
            T::total(&a, &b);
        }
        assert forall|a: T, b: T, c: T| #[trigger] le(a, b) && #[trigger] le(b, c) implies le(
            a,
            c,
        ) by {
            T::transitive(&a, &b, &c);
        }
    }
    lemma_sorted_by(s, le);
    lemma_sorted_view(s, same, le);
    assert(s.map_values(same) =~= s);
    assert(sorted(s).map_values(same) =~= sorted(s));
    assert forall|i: int, j: int| 0 <= i < j < sorted(s).len() implies (
    #[trigger] sorted(s)[i]).le(#[trigger] &sorted(s)[j]) by {
        assert(le(sorted(s)[i], sorted(s)[j]));
    }
}

/// Two lists of the same values that are both in order are the same, where no two of the values
/// are equal in the order.
pub proof fn lemma_one_order<U>(a: Seq<U>, b: Seq<U>, le: spec_fn(U, U) -> bool)
    requires
        in_order_by(a, le),
        in_order_by(b, le),
        a.to_multiset() =~= b.to_multiset(),
        forall|i: int, j: int|
            0 <= i < a.len() && 0 <= j < a.len() && le(#[trigger] a[i], #[trigger] a[j]) && le(
                a[j],
                a[i],
            ) ==> a[i] == a[j],
    ensures
        a == b,
    decreases a.len(),
{
    broadcast use vstd::seq_lib::group_to_multiset_ensures;

    assert(a.len() == a.to_multiset().len());
    assert(b.len() == b.to_multiset().len());
    if a.len() > 0 {
        let x = a[0];
        let y = b[0];
        assert(a.to_multiset().contains(x));
        assert(b.to_multiset().contains(y));
        assert(b.contains(x));
        assert(a.contains(y));
        let i = choose|i: int| 0 <= i < a.len() && a[i] == y;
        let j = choose|j: int| 0 <= j < b.len() && b[j] == x;
        if i > 0 && j > 0 {
            assert(le(a[0], a[i]));
            assert(le(b[0], b[j]));
        }
        assert(x == y);
        let u = a.skip(1);
        let v = b.skip(1);
        assert(a =~= u.insert(0, x));
        assert(b =~= v.insert(0, x));
        vstd::seq_lib::to_multiset_insert(u, 0, x);
        vstd::seq_lib::to_multiset_insert(v, 0, x);
        assert(u.to_multiset() =~= a.to_multiset().remove(x));
        assert(v.to_multiset() =~= b.to_multiset().remove(x));
        assert forall|i: int, j: int| 0 <= i < j < u.len() implies le(
            #[trigger] u[i],
            #[trigger] u[j],
        ) by {
            assert(le(a[i + 1], a[j + 1]));
        }
        assert forall|i: int, j: int| 0 <= i < j < v.len() implies le(
            #[trigger] v[i],
            #[trigger] v[j],
        ) by {
            assert(le(b[i + 1], b[j + 1]));
        }
        assert forall|i: int, j: int|
            0 <= i < u.len() && 0 <= j < u.len() && le(#[trigger] u[i], #[trigger] u[j]) && le(
                u[j],
                u[i],
            ) implies u[i] == u[j] by {
            assert(u[i] == a[i + 1] && u[j] == a[j + 1]);
        }
        lemma_one_order(u, v, le);
    } else {
        assert(a =~= b);
    }
}

proof fn lemma_placed_kept<T: Ordered>(t: Seq<T>, x: T, keep: spec_fn(T) -> bool)
    requires
        in_order(t),
    ensures
        placed(t, x).filter(keep) == (if keep(x) {
            placed(t.filter(keep), x)
        } else {
            t.filter(keep)
        }),
    decreases t.len(),
{
    let kept = t.filter(keep);
    if t.len() == 0 || x.le(&t[0]) {
        lemma_kept_first(x, t, keep);
        if keep(x) && kept.len() > 0 {
            // the first value that is kept is one that x does not follow
            lemma_kept_is_there(t, keep, 0);
            let i = choose|i: int| 0 <= i < t.len() && t[i] == kept[0];
            if i > 0 {
                assert(t[0].le(&t[i]));
                T::transitive(&x, &t[0], &t[i]);
            }
        }
    } else {
        let u = t.skip(1);
        assert(t =~= seq![t[0]] + u);
        assert forall|i: int, j: int| 0 <= i < j < u.len() implies (#[trigger] u[i]).le(
            #[trigger] &u[j],
        ) by {
            assert(t[i + 1].le(&t[j + 1]));
        }
        lemma_placed_kept(u, x, keep);
        lemma_kept_first(t[0], u, keep);
        lemma_kept_first(t[0], placed(u, x), keep);
        if keep(t[0]) {
            assert(kept.skip(1) =~= u.filter(keep));
            assert(kept[0] == t[0]);
        }
    }
}

proof fn lemma_kept_first<T>(x: T, t: Seq<T>, keep: spec_fn(T) -> bool)
    ensures
        (seq![x] + t).filter(keep) == (if keep(x) {
            seq![x] + t.filter(keep)
        } else {
            t.filter(keep)
        }),
{
    Seq::filter_distributes_over_add(seq![x], t, keep);
    reveal_with_fuel(Seq::filter, 2);
    assert(seq![x].drop_last() =~= Seq::empty());
    assert(seq![x].filter(keep) =~= if keep(x) {
        seq![x]
    } else {
        Seq::empty()
    });
    assert(Seq::<T>::empty() + t.filter(keep) =~= t.filter(keep));
}

/// Each value that is kept is one of those that there were.
pub proof fn lemma_kept_is_there<T>(s: Seq<T>, keep: spec_fn(T) -> bool, i: int)
    requires
        0 <= i < s.filter(keep).len(),
    ensures
        s.contains(s.filter(keep)[i]),
        keep(s.filter(keep)[i]),
    decreases s.len(),
{
    reveal(Seq::filter);
    if s.len() > 0 {
        let before = s.drop_last().filter(keep);
        if i < before.len() {
            lemma_kept_is_there(s.drop_last(), keep, i);
            let k = choose|k: int| 0 <= k < s.drop_last().len() && s.drop_last()[k] == before[i];
            assert(s[k] == s.filter(keep)[i]);
        } else {
            assert(s[s.len() - 1] == s.filter(keep)[i]);
        }
    }
}

/// Sorting what is kept is keeping it of what is sorted.
pub proof fn lemma_sorted_kept<T: Ordered>(s: Seq<T>, keep: spec_fn(T) -> bool)
    ensures
        sorted(s.filter(keep)) == sorted(s).filter(keep),
    decreases s.len(),
{
    if s.len() > 0 {
        let u = s.skip(1);
        let x = s[0];
        lemma_sorted_kept(u, keep);
        lemma_sorted(u);
        lemma_placed_kept(sorted(u), x, keep);
        assert(s =~= seq![x] + u);
        lemma_kept_first(x, u, keep);
        if keep(x) {
            let kept = seq![x] + u.filter(keep);
            assert(kept.skip(1) =~= u.filter(keep));
            assert(kept[0] == x);
        }
    } else {
        reveal(Seq::filter);
    }
}

/// Texts are ordered by their first character that differs, and one that goes on comes after the
/// one that ends.
pub proof fn law_texts_are_ordered_by_characters(
    common: Seq<char>,
    x: char,
    y: char,
    a: Seq<char>,
    b: Seq<char>,
)
    requires
        x < y,
    ensures
        text_le(common + seq![x] + a, common + seq![y] + b),
        !text_le(common + seq![y] + b, common + seq![x] + a),
        text_le(common, common + seq![x] + a),
        !text_le(common + seq![x] + a, common),
    decreases common.len(),
{
    let left = common + seq![x] + a;
    let right = common + seq![y] + b;
    if common.len() > 0 {
        law_texts_are_ordered_by_characters(common.skip(1), x, y, a, b);
        assert(left.skip(1) =~= common.skip(1) + seq![x] + a);
        assert(right.skip(1) =~= common.skip(1) + seq![y] + b);
        assert(left[0] == common[0] && right[0] == common[0]);
    } else {
        assert(left[0] == x && right[0] == y);
    }
}

} // verus!
