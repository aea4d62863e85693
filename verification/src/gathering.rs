//! Building a set of records from the entries of one source.
//!
//! Each entry of a source has one of three outcomes: it is passed over in
//! silence, it is rejected with a diagnostic, or it yields a record. A record
//! that the set already holds is reported as a duplicate and not stored
//! again, so the first occurrence stays.

use crate::diagnostics::{
    diagnostic, diagnostic_views, Context, ContextView, Diagnostic, DiagnosticView, Message, Origin,
};
use crate::record::{Revocation, RevocationView};
use crate::revocation_set::{
    all_wf, is_sorted, lemma_with_record_sorted, with_record, RevocationSet,
};
use vstd::prelude::*;

verus! {

/// What became of one entry of a source.
pub enum Outcome {
    /// The entry is no revocation, or an inactive one: nothing to report.
    Skipped,
    /// The entry was dropped, with this diagnostic.
    Rejected(DiagnosticView),
    /// The entry stands for this record.
    Candidate(RevocationView),
}

/// The set built so far from one source, and the diagnostics raised so far.
#[derive(Debug, PartialEq, Eq)]
pub struct Gathering {
    pub origin: Origin,
    pub set: RevocationSet,
    pub diagnostics: Vec<Diagnostic>,
}

/// The mathematical value of a [`Gathering`].
pub struct GatheringView {
    pub origin: Origin,
    pub set: Seq<RevocationView>,
    pub diagnostics: Seq<DiagnosticView>,
}

impl View for Gathering {
    type V = GatheringView;

    open spec fn view(&self) -> GatheringView {
        GatheringView {
            origin: self.origin,
            set: self.set@,
            diagnostics: diagnostic_views(self.diagnostics@),
        }
    }
}

/// The warning for a record that its set already holds.
pub open spec fn duplicate_warning(origin: Origin, r: RevocationView) -> DiagnosticView {
    diagnostic(Message::Duplicate(origin), ContextView::Record(r))
}

/// Nothing gathered yet.
pub open spec fn nothing_gathered(origin: Origin) -> GatheringView {
    GatheringView { origin, set: Seq::empty(), diagnostics: Seq::empty() }
}

/// The gathering after one more outcome.
pub open spec fn absorb(g: GatheringView, outcome: Outcome) -> GatheringView {
    match outcome {
        Outcome::Skipped => g,
        Outcome::Rejected(d) => GatheringView { diagnostics: g.diagnostics.push(d), ..g },
        Outcome::Candidate(r) => if g.set.contains(r) {
            GatheringView { diagnostics: g.diagnostics.push(duplicate_warning(g.origin, r)), ..g }
        } else {
            GatheringView { set: with_record(g.set, r), ..g }
        },
    }
}

/// The gathering after all the outcomes of a source, taken in order.
pub open spec fn gather(origin: Origin, outcomes: Seq<Outcome>) -> GatheringView
    decreases outcomes.len(),
{
    if outcomes.len() == 0 {
        nothing_gathered(origin)
    } else {
        absorb(gather(origin, outcomes.drop_last()), outcomes.last())
    }
}

/// The number of outcomes that are not passed over in silence.
pub open spec fn reported(outcomes: Seq<Outcome>) -> nat
    decreases outcomes.len(),
{
    if outcomes.len() == 0 {
        0
    } else if outcomes.last() is Skipped {
        reported(outcomes.drop_last())
    } else {
        reported(outcomes.drop_last()) + 1
    }
}

/// Every candidate among the outcomes is a record with two non-empty fields.
pub open spec fn candidates_wf(outcomes: Seq<Outcome>) -> bool {
    forall|i: int|
        0 <= i < outcomes.len() ==> (#[trigger] outcomes[i] matches Outcome::Candidate(r)
            ==> r.wf())
}

impl Gathering {
    /// Starts with the empty set and no diagnostics.
    pub fn new(origin: Origin) -> (g: Gathering)
        ensures
            g@ == nothing_gathered(origin),
    {
        let g = Gathering { origin, set: RevocationSet::new(), diagnostics: Vec::new() };
        assert(diagnostic_views(g.diagnostics@) == Seq::<DiagnosticView>::empty());
        g
    }

    /// Takes in a record: stores it, or reports it as a duplicate of one that
    /// is stored.
    pub fn record(&mut self, r: Revocation)
        ensures
            final(self)@ == absorb(old(self)@, Outcome::Candidate(r@)),
    {
        if self.set.contains(&r) {
            let d = Diagnostic::new(Message::Duplicate(self.origin), Context::Record(r));
            assert(diagnostic_views(self.diagnostics@.push(d)) == diagnostic_views(
                self.diagnostics@,
            ).push(d@));
            self.diagnostics.push(d);
        } else {
            self.set.insert(r);
        }
    }

    /// Takes in the diagnostic of an entry that was dropped.
    pub fn reject(&mut self, d: Diagnostic)
        ensures
            final(self)@ == absorb(old(self)@, Outcome::Rejected(d@)),
    {
        assert(diagnostic_views(self.diagnostics@.push(d)) == diagnostic_views(
            self.diagnostics@,
        ).push(d@));
        self.diagnostics.push(d);
    }
}

/// A sorted set stays sorted under every outcome, its origin stays, and no
/// diagnostic is taken back.
pub proof fn lemma_absorb_keeps_order(g: GatheringView, outcome: Outcome)
    requires
        is_sorted(g.set),
    ensures
        is_sorted(absorb(g, outcome).set),
        absorb(g, outcome).origin == g.origin,
        g.diagnostics.is_prefix_of(absorb(g, outcome).diagnostics),
{
    if let Outcome::Candidate(r) = outcome {
        lemma_with_record_sorted(g.set, r);
    }
}

/// The set gathered from any outcomes is sorted, so it holds no record
/// twice.
pub proof fn lemma_gather_sorted(origin: Origin, outcomes: Seq<Outcome>)
    ensures
        is_sorted(gather(origin, outcomes).set),
        gather(origin, outcomes).origin == origin,
    decreases outcomes.len(),
{
    if outcomes.len() > 0 {
        lemma_gather_sorted(origin, outcomes.drop_last());
        lemma_absorb_keeps_order(gather(origin, outcomes.drop_last()), outcomes.last());
    }
}

/// A record is in the gathered set exactly when it is a candidate among the
/// outcomes.
pub proof fn lemma_gather_membership(origin: Origin, outcomes: Seq<Outcome>, r: RevocationView)
    ensures
        gather(origin, outcomes).set.contains(r) <==> outcomes.contains(Outcome::Candidate(r)),
    decreases outcomes.len(),
{
    if outcomes.len() > 0 {
        let front = outcomes.drop_last();
        let g = gather(origin, front);
        lemma_gather_membership(origin, front, r);
        lemma_gather_sorted(origin, front);
        if let Outcome::Candidate(x) = outcomes.last() {
            lemma_with_record_sorted(g.set, x);
        }
        if front.contains(Outcome::Candidate(r)) {
            let i = choose|i: int| 0 <= i < front.len() && front[i] == Outcome::Candidate(r);
            assert(outcomes[i] == Outcome::Candidate(r));
        }
        if outcomes.contains(Outcome::Candidate(r)) {
            let i = choose|i: int| 0 <= i < outcomes.len() && outcomes[i] == Outcome::Candidate(r);
            if i < outcomes.len() - 1 {
                assert(front[i] == Outcome::Candidate(r));
            }
        }
        assert(outcomes[outcomes.len() - 1] == outcomes.last());
    }
}

/// Every outcome that is not passed over in silence leaves exactly one
/// trace: a stored record or a diagnostic.
pub proof fn lemma_gather_accounts(origin: Origin, outcomes: Seq<Outcome>)
    ensures
        gather(origin, outcomes).set.len() + gather(origin, outcomes).diagnostics.len()
            == reported(outcomes),
    decreases outcomes.len(),
{
    if outcomes.len() > 0 {
        let front = outcomes.drop_last();
        lemma_gather_accounts(origin, front);
        lemma_gather_sorted(origin, front);
        if let Outcome::Candidate(r) = outcomes.last() {
            lemma_with_record_sorted(gather(origin, front).set, r);
        }
    }
}

/// Taking in the same record twice stores it once and raises one duplicate
/// warning, whatever was gathered before.
pub proof fn lemma_same_record_twice(g: GatheringView, r: RevocationView)
    requires
        is_sorted(g.set),
    ensures
        ({
            let once = absorb(g, Outcome::Candidate(r));
            let twice = absorb(once, Outcome::Candidate(r));
            &&& once.set.contains(r)
            &&& twice.set == once.set
            &&& twice.diagnostics == once.diagnostics.push(duplicate_warning(g.origin, r))
            &&& !g.set.contains(r) ==> once.set.len() == g.set.len() + 1 && once.diagnostics
                == g.diagnostics
        }),
{
    lemma_with_record_sorted(g.set, r);
}

/// Starting from nothing, two equal records give a set of that one record
/// and one duplicate warning.
pub proof fn lemma_two_equal_records(origin: Origin, r: RevocationView)
    ensures
        gather(origin, seq![Outcome::Candidate(r), Outcome::Candidate(r)]) == (GatheringView {
            origin,
            set: seq![r],
            diagnostics: seq![duplicate_warning(origin, r)],
        }),
{
    let two = seq![Outcome::Candidate(r), Outcome::Candidate(r)];
    let one = two.drop_last();
    assert(one.drop_last() == Seq::<Outcome>::empty());
    let g0 = nothing_gathered(origin);
    assert(gather(origin, one.drop_last()) == g0);
    assert(gather(origin, one) == absorb(g0, Outcome::Candidate(r)));
    crate::revocation_set::lemma_with_record_at(g0.set, r, 0);
    assert(g0.set.insert(0, r) == seq![r]);
    let g1 = gather(origin, one);
    assert(g1.set == seq![r]);
    assert(g1.set[0] == r);
    assert(gather(origin, two) == absorb(g1, Outcome::Candidate(r)));
    assert(g1.diagnostics.push(duplicate_warning(origin, r)) == seq![duplicate_warning(origin, r)]);
}

/// The records gathered from well-formed candidates are well formed.
pub proof fn lemma_gather_wf(origin: Origin, outcomes: Seq<Outcome>)
    requires
        candidates_wf(outcomes),
    ensures
        all_wf(gather(origin, outcomes).set),
    decreases outcomes.len(),
{
    let set = gather(origin, outcomes).set;
    assert forall|i: int| 0 <= i < set.len() implies (#[trigger] set[i]).wf() by {
        lemma_gather_membership(origin, outcomes, set[i]);
        let k = choose|k: int| 0 <= k < outcomes.len() && outcomes[k] == Outcome::Candidate(set[i]);
        assert(outcomes[k] matches Outcome::Candidate(r) ==> r.wf());
    }
}

} // verus!
