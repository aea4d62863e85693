//! The comparison of the remote set with the local one.
//!
//! The report lists, each in the canonical order, the records that the remote
//! list holds and the store lacks, and the records that the store enforces
//! and the remote list no longer holds. Nothing is removed or added: the
//! second list may hold entries that a user put there on purpose.

use crate::record::{revocation_lt, Revocation, RevocationView};
use crate::revocation_set::{
    absent_from, is_sorted, lemma_filter_membership, lemma_filter_none, lemma_filter_push, views,
    without, RevocationSet,
};
use vstd::prelude::*;

verus! {

/// What the comparison of two sets found.
#[derive(Debug, PartialEq, Eq)]
pub struct Report {
    /// The number of records in the remote set.
    pub remote_count: usize,
    /// The number of records in the local set.
    pub local_count: usize,
    /// The records of the remote set that the local set lacks.
    pub remote_only: Vec<Revocation>,
    /// The records of the local set that the remote set lacks.
    pub local_only: Vec<Revocation>,
}

/// The mathematical value of a [`Report`].
pub struct ReportView {
    pub remote_count: nat,
    pub local_count: nat,
    pub remote_only: Seq<RevocationView>,
    pub local_only: Seq<RevocationView>,
}

impl View for Report {
    type V = ReportView;

    open spec fn view(&self) -> ReportView {
        ReportView {
            remote_count: self.remote_count as nat,
            local_count: self.local_count as nat,
            remote_only: views(self.remote_only@),
            local_only: views(self.local_only@),
        }
    }
}

/// The report on a remote and a local set.
pub open spec fn reconciled(remote: Seq<RevocationView>, local: Seq<RevocationView>) -> ReportView {
    ReportView {
        remote_count: remote.len(),
        local_count: local.len(),
        remote_only: without(remote, local),
        local_only: without(local, remote),
    }
}

/// Compares the remote set with the local one.
pub fn reconcile(remote: &RevocationSet, local: &RevocationSet) -> (report: Report)
    ensures
        report@ == reconciled(remote@, local@),
{
    Report {
        remote_count: remote.len(),
        local_count: local.len(),
        remote_only: remote.difference(local),
        local_only: local.difference(remote),
    }
}

/// A record is in a difference exactly when the first set holds it and the
/// second does not.
pub proof fn lemma_without_membership(
    a: Seq<RevocationView>,
    b: Seq<RevocationView>,
    r: RevocationView,
)
    ensures
        without(a, b).contains(r) <==> a.contains(r) && !b.contains(r),
{
    lemma_filter_membership(a, absent_from(b), r);
}

/// The two differences of a report have no record in common.
pub proof fn lemma_differences_disjoint(a: Seq<RevocationView>, b: Seq<RevocationView>)
    ensures
        forall|r: RevocationView| !(without(a, b).contains(r) && without(b, a).contains(r)),
{
    assert forall|r: RevocationView| !(without(a, b).contains(r) && without(b, a).contains(r)) by {
        lemma_without_membership(a, b, r);
        lemma_without_membership(b, a, r);
    }
}

/// Equal sets have empty differences, both ways.
pub proof fn lemma_equal_sets_no_difference(a: Seq<RevocationView>, b: Seq<RevocationView>)
    requires
        a == b,
    ensures
        without(a, b) == Seq::<RevocationView>::empty(),
        without(b, a) == Seq::<RevocationView>::empty(),
{
    lemma_filter_none(a, absent_from(a));
}

/// Both differences are empty only if the two sets hold the same records;
/// for sorted sets that makes them the same sequence.
pub proof fn lemma_no_difference_equal_sets(a: Seq<RevocationView>, b: Seq<RevocationView>)
    requires
        is_sorted(a),
        is_sorted(b),
        without(a, b).len() == 0,
        without(b, a).len() == 0,
    ensures
        a == b,
{
    assert forall|r: RevocationView| a.contains(r) <==> b.contains(r) by {
        lemma_without_membership(a, b, r);
        lemma_without_membership(b, a, r);
        if a.contains(r) && !b.contains(r) {
            let i = choose|i: int| 0 <= i < without(a, b).len() && without(a, b)[i] == r;
        }
        if b.contains(r) && !a.contains(r) {
            let i = choose|i: int| 0 <= i < without(b, a).len() && without(b, a)[i] == r;
        }
    }
    lemma_sorted_determined(a, b);
}

/// Two sorted sequences that hold the same records are the same sequence:
/// the canonical order leaves no choice.
pub proof fn lemma_sorted_determined(a: Seq<RevocationView>, b: Seq<RevocationView>)
    requires
        is_sorted(a),
        is_sorted(b),
        forall|r: RevocationView| a.contains(r) <==> b.contains(r),
    ensures
        a == b,
    decreases a.len(),
{
    if a.len() == 0 {
        if b.len() > 0 {
            assert(b.contains(b[0]));
        }
        assert(a =~= b);
    } else if b.len() == 0 {
        assert(a.contains(a[0]));
    } else {
        // The greatest record of each is its last one, so the two agree there.
        let x = a.last();
        let y = b.last();
        assert(a.contains(x));
        assert(b.contains(y));
        let i = choose|i: int| 0 <= i < b.len() && b[i] == x;
        let j = choose|j: int| 0 <= j < a.len() && a[j] == y;
        crate::record::lemma_revocation_lt_total(x, y);
        if i < b.len() - 1 {
            assert(revocation_lt(b[i], b[b.len() - 1]));
        }
        if j < a.len() - 1 {
            assert(revocation_lt(a[j], a[a.len() - 1]));
        }
        assert(x == y);
        let a0 = a.drop_last();
        let b0 = b.drop_last();
        assert forall|p: int, q: int| 0 <= p < q < a0.len() implies #[trigger] revocation_lt(
            a0[p],
            a0[q],
        ) by {
            assert(revocation_lt(a[p], a[q]));
        }
        assert forall|p: int, q: int| 0 <= p < q < b0.len() implies #[trigger] revocation_lt(
            b0[p],
            b0[q],
        ) by {
            assert(revocation_lt(b[p], b[q]));
        }
        assert forall|r: RevocationView| a0.contains(r) <==> b0.contains(r) by {
            crate::record::lemma_revocation_lt_irreflexive(x);
            if a0.contains(r) {
                let p = choose|p: int| 0 <= p < a0.len() && a0[p] == r;
                assert(revocation_lt(a[p], a[a.len() - 1]));
                assert(a.contains(r)) by {
                    assert(a[p] == r);
                }
                let q = choose|q: int| 0 <= q < b.len() && b[q] == r;
                assert(q < b.len() - 1);
                assert(b0[q] == r);
            }
            if b0.contains(r) {
                let p = choose|p: int| 0 <= p < b0.len() && b0[p] == r;
                assert(revocation_lt(b[p], b[b.len() - 1]));
                assert(b.contains(r)) by {
                    assert(b[p] == r);
                }
                let q = choose|q: int| 0 <= q < a.len() && a[q] == r;
                assert(q < a.len() - 1);
                assert(a0[q] == r);
            }
        }
        lemma_sorted_determined(a0, b0);
        assert(a =~= a0.push(x));
        assert(b =~= b0.push(y));
    }
}

/// A difference of a sorted set is sorted: the report keeps the canonical
/// order.
pub proof fn lemma_without_sorted(a: Seq<RevocationView>, b: Seq<RevocationView>)
    requires
        is_sorted(a),
    ensures
        is_sorted(without(a, b)),
    decreases a.len(),
{
    if a.len() == 0 {
        lemma_filter_none(a, absent_from(b));
    } else {
        let front = a.drop_last();
        assert forall|p: int, q: int| 0 <= p < q < front.len() implies #[trigger] revocation_lt(
            front[p],
            front[q],
        ) by {
            assert(revocation_lt(a[p], a[q]));
        }
        lemma_without_sorted(front, b);
        lemma_filter_push(front, a.last(), absent_from(b));
        assert(front.push(a.last()) == a);
        let kept = without(front, b);
        let out = without(a, b);
        if absent_from(b)(a.last()) {
            assert forall|p: int, q: int| 0 <= p < q < out.len() implies #[trigger] revocation_lt(
                out[p],
                out[q],
            ) by {
                if q < kept.len() {
                    assert(revocation_lt(kept[p], kept[q]));
                } else {
                    assert(kept.contains(kept[p]));
                    lemma_filter_membership(front, absent_from(b), kept[p]);
                    let k = choose|k: int| 0 <= k < front.len() && front[k] == kept[p];
                    assert(revocation_lt(a[k], a[a.len() - 1]));
                }
            }
        }
    }
}

} // verus!
