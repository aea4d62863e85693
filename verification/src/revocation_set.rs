//! An ordered set of revocation records.
//!
//! The set keeps its records in the canonical order and holds each record
//! once. Its view is the sequence of records in that order.

use crate::record::{
    lemma_revocation_lt_irreflexive, lemma_revocation_lt_total, lemma_revocation_lt_transitive,
    revocation_lt, Relation, Revocation, RevocationView,
};
use vstd::prelude::*;

verus! {

/// The views of a list of records.
pub open spec fn views(records: Seq<Revocation>) -> Seq<RevocationView> {
    records.map_values(|r: Revocation| r@)
}

/// Every record comes before all the records after it. Such a sequence holds
/// no record twice.
pub open spec fn is_sorted(s: Seq<RevocationView>) -> bool {
    forall|i: int, j: int| 0 <= i < j < s.len() ==> #[trigger] revocation_lt(s[i], s[j])
}

/// Every record of the sequence has two non-empty fields.
pub open spec fn all_wf(s: Seq<RevocationView>) -> bool {
    forall|i: int| 0 <= i < s.len() ==> (#[trigger] s[i]).wf()
}

/// The records that come before `r`.
pub open spec fn comes_before(r: RevocationView) -> spec_fn(RevocationView) -> bool {
    |x: RevocationView| revocation_lt(x, r)
}

/// The records that come after `r`.
pub open spec fn comes_after(r: RevocationView) -> spec_fn(RevocationView) -> bool {
    |x: RevocationView| revocation_lt(r, x)
}

/// The records that `other` does not hold.
pub open spec fn absent_from(other: Seq<RevocationView>) -> spec_fn(RevocationView) -> bool {
    |x: RevocationView| !other.contains(x)
}

/// The sequence `s` with `r` at its place in the order. Where `s` is sorted
/// and already holds `r`, this is `s` itself.
pub open spec fn with_record(s: Seq<RevocationView>, r: RevocationView) -> Seq<RevocationView> {
    s.filter(comes_before(r)) + seq![r] + s.filter(comes_after(r))
}

/// The records of `a` that `b` does not hold, in the order of `a`.
pub open spec fn without(a: Seq<RevocationView>, b: Seq<RevocationView>) -> Seq<RevocationView> {
    a.filter(absent_from(b))
}

/// Filtering a sequence with one more element at its end.
pub proof fn lemma_filter_push<A>(s: Seq<A>, x: A, pred: spec_fn(A) -> bool)
    ensures
        s.push(x).filter(pred) == if pred(x) {
            s.filter(pred).push(x)
        } else {
            s.filter(pred)
        },
{
    reveal(Seq::filter);
    assert(s.push(x).drop_last() == s);
}

/// A filter keeps a sequence whose elements all pass.
pub proof fn lemma_filter_all<A>(s: Seq<A>, pred: spec_fn(A) -> bool)
    requires
        forall|i: int| 0 <= i < s.len() ==> pred(#[trigger] s[i]),
    ensures
        s.filter(pred) == s,
    decreases s.len(),
{
    reveal(Seq::filter);
    if s.len() > 0 {
        lemma_filter_all(s.drop_last(), pred);
        assert(s.drop_last().push(s.last()) == s);
    }
}

/// A filter empties a sequence none of whose elements passes.
pub proof fn lemma_filter_none<A>(s: Seq<A>, pred: spec_fn(A) -> bool)
    requires
        forall|i: int| 0 <= i < s.len() ==> !pred(#[trigger] s[i]),
    ensures
        s.filter(pred) == Seq::<A>::empty(),
    decreases s.len(),
{
    reveal(Seq::filter);
    if s.len() > 0 {
        lemma_filter_none(s.drop_last(), pred);
    }
}

/// An element is in the filtered sequence exactly when it is in the sequence
/// and passes.
pub proof fn lemma_filter_membership<A>(s: Seq<A>, pred: spec_fn(A) -> bool, x: A)
    ensures
        s.filter(pred).contains(x) <==> s.contains(x) && pred(x),
    decreases s.len(),
{
    reveal(Seq::filter);
    if s.len() > 0 {
        let front = s.drop_last();
        lemma_filter_membership(front, pred, x);
        lemma_filter_push(front, s.last(), pred);
        assert(front.push(s.last()) == s);
        if s.contains(x) {
            let i = choose|i: int| 0 <= i < s.len() && s[i] == x;
            if i < s.len() - 1 {
                assert(front[i] == x);
            }
        }
        if front.contains(x) {
            let i = choose|i: int| 0 <= i < front.len() && front[i] == x;
            assert(s[i] == x);
        }
        if pred(s.last()) {
            let kept = front.filter(pred);
            assert(kept.push(s.last())[kept.len() as int] == s.last());
            if kept.push(s.last()).contains(x) {
                let i = choose|i: int| 0 <= i < kept.len() + 1 && kept.push(s.last())[i] == x;
                if i < kept.len() {
                    assert(kept[i] == x);
                }
            }
            if kept.contains(x) {
                let i = choose|i: int| 0 <= i < kept.len() && kept[i] == x;
                assert(kept.push(s.last())[i] == x);
            }
        }
    }
}

/// Where the records before position `at` come before `r` and the others come
/// after it, putting `r` at its place in the order puts it at `at`.
pub proof fn lemma_with_record_at(s: Seq<RevocationView>, r: RevocationView, at: int)
    requires
        0 <= at <= s.len(),
        forall|i: int| 0 <= i < at ==> revocation_lt(#[trigger] s[i], r),
        forall|i: int| at <= i < s.len() ==> revocation_lt(r, #[trigger] s[i]),
    ensures
        with_record(s, r) == s.insert(at, r),
{
    let head = s.take(at);
    let tail = s.skip(at);
    assert(s == head + tail);
    assert forall|i: int| 0 <= i < head.len() implies comes_before(r)(#[trigger] head[i])
        && !comes_after(r)(head[i]) by {
        lemma_revocation_lt_total(head[i], r);
    }
    assert forall|i: int| 0 <= i < tail.len() implies comes_after(r)(#[trigger] tail[i])
        && !comes_before(r)(tail[i]) by {
        assert(tail[i] == s[at + i]);
        lemma_revocation_lt_total(tail[i], r);
    }
    Seq::filter_distributes_over_add(head, tail, comes_before(r));
    Seq::filter_distributes_over_add(head, tail, comes_after(r));
    lemma_filter_all(head, comes_before(r));
    lemma_filter_none(tail, comes_before(r));
    lemma_filter_none(head, comes_after(r));
    lemma_filter_all(tail, comes_after(r));
    assert(with_record(s, r) =~= s.insert(at, r));
}

/// A sorted sequence that already holds `r` is unchanged by putting `r` at
/// its place.
pub proof fn lemma_with_record_present(s: Seq<RevocationView>, r: RevocationView)
    requires
        is_sorted(s),
        s.contains(r),
    ensures
        with_record(s, r) == s,
{
    let at = choose|i: int| 0 <= i < s.len() && s[i] == r;
    let head = s.take(at);
    let tail = s.skip(at + 1);
    assert(s == head + (seq![r] + tail));
    assert forall|i: int| 0 <= i < head.len() implies comes_before(r)(#[trigger] head[i])
        && !comes_after(r)(head[i]) by {
        assert(revocation_lt(s[i], s[at]));
        lemma_revocation_lt_total(head[i], r);
    }
    assert forall|i: int| 0 <= i < tail.len() implies comes_after(r)(#[trigger] tail[i])
        && !comes_before(r)(tail[i]) by {
        assert(tail[i] == s[at + 1 + i]);
        assert(revocation_lt(s[at], s[at + 1 + i]));
        lemma_revocation_lt_total(tail[i], r);
    }
    lemma_revocation_lt_irreflexive(r);
    let one = seq![r];
    assert forall|i: int| 0 <= i < one.len() implies !comes_before(r)(#[trigger] one[i])
        && !comes_after(r)(one[i]) by {}
    Seq::filter_distributes_over_add(head, one + tail, comes_before(r));
    Seq::filter_distributes_over_add(one, tail, comes_before(r));
    Seq::filter_distributes_over_add(head, one + tail, comes_after(r));
    Seq::filter_distributes_over_add(one, tail, comes_after(r));
    lemma_filter_all(head, comes_before(r));
    lemma_filter_none(one, comes_before(r));
    lemma_filter_none(tail, comes_before(r));
    lemma_filter_none(head, comes_after(r));
    lemma_filter_none(one, comes_after(r));
    lemma_filter_all(tail, comes_after(r));
    assert(with_record(s, r) =~= s);
}

/// A sorted sequence stays sorted when a record goes between the records
/// before it and the records after it.
pub proof fn lemma_insert_sorted(s: Seq<RevocationView>, r: RevocationView, at: int)
    requires
        is_sorted(s),
        0 <= at <= s.len(),
        forall|i: int| 0 <= i < at ==> revocation_lt(#[trigger] s[i], r),
        forall|i: int| at <= i < s.len() ==> revocation_lt(r, #[trigger] s[i]),
    ensures
        is_sorted(s.insert(at, r)),
{
    let t = s.insert(at, r);
    assert forall|i: int, j: int| 0 <= i < j < t.len() implies #[trigger] revocation_lt(
        t[i],
        t[j],
    ) by {
        if j < at {
            assert(revocation_lt(s[i], s[j]));
        } else if j == at {
            assert(t[i] == s[i] && t[j] == r);
        } else if i < at {
            assert(revocation_lt(s[i], s[j - 1]));
        } else if i == at {
            assert(t[i] == r && t[j] == s[j - 1]);
        } else {
            assert(revocation_lt(s[i - 1], s[j - 1]));
        }
    }
}

/// A sequence with one more record holds that record and the records it held
/// before, nothing else.
pub proof fn lemma_insert_membership(s: Seq<RevocationView>, r: RevocationView, at: int)
    requires
        0 <= at <= s.len(),
    ensures
        forall|x: RevocationView| s.insert(at, r).contains(x) <==> x == r || s.contains(x),
{
    let t = s.insert(at, r);
    assert(t[at] == r);
    assert forall|x: RevocationView| t.contains(x) <==> x == r || s.contains(x) by {
        if t.contains(x) {
            let i = choose|i: int| 0 <= i < t.len() && t[i] == x;
            if i < at {
                assert(s[i] == x);
            } else if i > at {
                assert(s[i - 1] == x);
            }
        }
        if s.contains(x) {
            let i = choose|i: int| 0 <= i < s.len() && s[i] == x;
            if i < at {
                assert(t[i] == x);
            } else {
                assert(t[i + 1] == x);
            }
        }
    }
}

/// Putting a record at its place keeps a sorted sequence sorted, and the
/// result holds that record and the records it held before, nothing else.
pub proof fn lemma_with_record_sorted(s: Seq<RevocationView>, r: RevocationView)
    requires
        is_sorted(s),
    ensures
        is_sorted(with_record(s, r)),
        forall|x: RevocationView| with_record(s, r).contains(x) <==> x == r || s.contains(x),
        with_record(s, r).len() == if s.contains(r) {
            s.len()
        } else {
            s.len() + 1
        },
{
    if s.contains(r) {
        lemma_with_record_present(s, r);
    } else {
        lemma_with_record_absent(s, r);
    }
}

proof fn lemma_with_record_absent(s: Seq<RevocationView>, r: RevocationView)
    requires
        is_sorted(s),
        !s.contains(r),
    ensures
        is_sorted(with_record(s, r)),
        forall|x: RevocationView| with_record(s, r).contains(x) <==> x == r || s.contains(x),
        with_record(s, r).len() == s.len() + 1,
{
    let at = lemma_place(s, r);
    lemma_with_record_at(s, r, at);
    lemma_insert_sorted(s, r, at);
    lemma_insert_membership(s, r, at);
}

/// In a sorted sequence that does not hold `r` there is a position that
/// parts the records before `r` from those after it.
pub proof fn lemma_place(s: Seq<RevocationView>, r: RevocationView) -> (at: int)
    requires
        is_sorted(s),
        !s.contains(r),
    ensures
        0 <= at <= s.len(),
        forall|i: int| 0 <= i < at ==> revocation_lt(#[trigger] s[i], r),
        forall|i: int| at <= i < s.len() ==> revocation_lt(r, #[trigger] s[i]),
    decreases s.len(),
{
    if s.len() == 0 {
        0
    } else {
        let front = s.drop_last();
        assert forall|i: int, j: int| 0 <= i < j < front.len() implies #[trigger] revocation_lt(
            front[i],
            front[j],
        ) by {
            assert(revocation_lt(s[i], s[j]));
        }
        assert(!front.contains(r)) by {
            if front.contains(r) {
                let i = choose|i: int| 0 <= i < front.len() && front[i] == r;
                assert(s[i] == r);
            }
        }
        assert(s.last() != r);
        lemma_revocation_lt_total(s.last(), r);
        if revocation_lt(s.last(), r) {
            assert forall|i: int| 0 <= i < s.len() implies revocation_lt(#[trigger] s[i], r) by {
                if i < s.len() - 1 {
                    assert(revocation_lt(s[i], s[s.len() - 1]));
                    lemma_revocation_lt_transitive(s[i], s.last(), r);
                }
            }
            s.len() as int
        } else {
            let at = lemma_place(front, r);
            assert forall|i: int| 0 <= i < at implies revocation_lt(#[trigger] s[i], r) by {
                assert(front[i] == s[i]);
            }
            assert forall|i: int| at <= i < s.len() implies revocation_lt(r, #[trigger] s[i]) by {
                if i < s.len() - 1 {
                    assert(front[i] == s[i]);
                }
            }
            at
        }
    }
}

/// An ordered set of records: sorted in the canonical order, each record once.
#[derive(Debug, PartialEq, Eq)]
pub struct RevocationSet {
    items: Vec<Revocation>,
}

impl View for RevocationSet {
    type V = Seq<RevocationView>;

    closed spec fn view(&self) -> Seq<RevocationView> {
        views(self.items@)
    }
}

impl RevocationSet {
    #[verifier::type_invariant]
    spec fn canonical(self) -> bool {
        is_sorted(views(self.items@)) && all_wf(views(self.items@))
    }

    /// The empty set.
    pub fn new() -> (s: RevocationSet)
        ensures
            s@ == Seq::<RevocationView>::empty(),
    {
        let s = RevocationSet { items: Vec::new() };
        assert(views(s.items@) == Seq::<RevocationView>::empty());
        s
    }

    /// The number of records.
    pub fn len(&self) -> (n: usize)
        ensures
            n == self@.len(),
    {
        self.items.len()
    }

    /// Whether the set holds no record.
    pub fn is_empty(&self) -> (b: bool)
        ensures
            b == (self@.len() == 0),
    {
        self.items.len() == 0
    }

    /// The records in the canonical order.
    pub fn records(&self) -> (v: &Vec<Revocation>)
        ensures
            views(v@) == self@,
            is_sorted(self@),
            all_wf(self@),
    {
        proof {
            use_type_invariant(self);
        }
        &self.items
    }

    /// The record at position `i` of the canonical order.
    pub fn get(&self, i: usize) -> (r: &Revocation)
        requires
            i < self@.len(),
        ensures
            r@ == self@[i as int],
    {
        &self.items[i]
    }

    /// Looks for `r` by bisection. Gives whether the set holds it, and the
    /// position at which it stands or would stand.
    fn locate(&self, r: &Revocation) -> (found: (bool, usize))
        ensures
            found.1 <= self@.len(),
            found.0 ==> found.1 < self@.len() && self@[found.1 as int] == r@,
            !found.0 ==> forall|i: int| 0 <= i < found.1 ==> revocation_lt(#[trigger] self@[i], r@),
            !found.0 ==> forall|i: int|
                found.1 <= i < self@.len() ==> revocation_lt(r@, #[trigger] self@[i]),
    {
        proof {
            use_type_invariant(self);
        }
        let ghost s = self@;
        let mut lo: usize = 0;
        let mut hi: usize = self.items.len();
        while lo < hi
            invariant
                s == views(self.items@),
                is_sorted(s),
                lo <= hi <= s.len(),
                forall|i: int| 0 <= i < lo ==> revocation_lt(#[trigger] s[i], r@),
                forall|i: int| hi <= i < s.len() ==> revocation_lt(r@, #[trigger] s[i]),
            decreases hi - lo,
        {
            let mid = lo + (hi - lo) / 2;
            let ghost m = s[mid as int];
            match self.items[mid].compare(r) {
                Relation::Equal => {
                    return (true, mid);
                },
                Relation::Less => {
                    assert forall|i: int| 0 <= i < mid + 1 implies revocation_lt(
                        #[trigger] s[i],
                        r@,
                    ) by {
                        if i < mid {
                            assert(revocation_lt(s[i], s[mid as int]));
                            lemma_revocation_lt_transitive(s[i], m, r@);
                        }
                    }
                    lo = mid + 1;
                },
                Relation::Greater => {
                    proof {
                        lemma_revocation_lt_total(m, r@);
                    }
                    assert forall|i: int| mid <= i < s.len() implies revocation_lt(
                        r@,
                        #[trigger] s[i],
                    ) by {
                        if i > mid {
                            assert(revocation_lt(s[mid as int], s[i]));
                            lemma_revocation_lt_transitive(r@, m, s[i]);
                        }
                    }
                    hi = mid;
                },
            }
        }
        (false, lo)
    }

    /// Whether the set holds `r`.
    pub fn contains(&self, r: &Revocation) -> (b: bool)
        ensures
            b == self@.contains(r@),
    {
        let (found, at) = self.locate(r);
        proof {
            lemma_revocation_lt_irreflexive(r@);
        }
        found
    }

    /// Adds `r` unless the set already holds it: the first occurrence stays.
    /// Returns whether `r` was added.
    pub fn insert(&mut self, r: Revocation) -> (added: bool)
        ensures
            added == !old(self)@.contains(r@),
            final(self)@ == if added {
                with_record(old(self)@, r@)
            } else {
                old(self)@
            },
    {
        proof {
            use_type_invariant(&*self);
            lemma_revocation_lt_irreflexive(r@);
        }
        let (found, at) = self.locate(&r);
        if found {
            return false;
        }
        let _ = r.field1();
        let mut items: Vec<Revocation> = Vec::new();
        assert(views(items@) == Seq::<RevocationView>::empty());
        core::mem::swap(&mut self.items, &mut items);
        proof {
            let s = views(items@);
            lemma_with_record_at(s, r@, at as int);
            lemma_insert_sorted(s, r@, at as int);
            assert(views(items@.insert(at as int, r)) == s.insert(at as int, r@));
        }
        items.insert(at, r);
        self.items = items;
        true
    }

    /// The records of this set that `other` does not hold, in the canonical
    /// order.
    pub fn difference(&self, other: &RevocationSet) -> (out: Vec<Revocation>)
        ensures
            views(out@) == without(self@, other@),
    {
        let mut out: Vec<Revocation> = Vec::new();
        let mut i: usize = 0;
        assert(self@.take(0) == Seq::<RevocationView>::empty());
        assert(views(out@) == Seq::<RevocationView>::empty());
        proof {
            lemma_filter_none(self@.take(0), absent_from(other@));
        }
        while i < self.items.len()
            invariant
                i <= self@.len(),
                self@ == views(self.items@),
                views(out@) == without(self@.take(i as int), other@),
            decreases self@.len() - i,
        {
            let record = &self.items[i];
            proof {
                lemma_filter_push(self@.take(i as int), self@[i as int], absent_from(other@));
                assert(self@.take(i + 1) == self@.take(i as int).push(self@[i as int]));
            }
            if !other.contains(record) {
                let copy = record.duplicate();
                assert(views(out@.push(copy)) == views(out@).push(copy@));
                out.push(copy);
            }
            i += 1;
        }
        assert(self@.take(i as int) == self@);
        out
    }
}

} // verus!
