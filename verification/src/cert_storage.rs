//! The local side: the entries of the `cert_storage` database, read into a
//! set of records, and the course of a write to it.
//!
//! The database itself is not touched here. A reader hands over the pairs it
//! found; a writer performs the actions that a [`WriteSession`] asks for and
//! reports how each one went.

use crate::codec::{decode, decoded, dispatch, tag_dispatch};
use crate::diagnostics::{diagnostic, Context, ContextView, Diagnostic, DiagnosticView, Message, Origin};
use crate::gathering::{absorb, gather, Gathering, Outcome};
use crate::one_crl::key_views;
use crate::record::{Revocation, RevocationKind, RevocationView};
use vstd::prelude::*;
use vstd::slice::slice_to_vec;

verus! {

/// The stored value of an entry that is in force.
pub const ACTIVE: i64 = 1;

/// The stored value of an entry that is switched off.
pub const INACTIVE: i64 = 0;

/// What is stored under a key, as far as this library looks at it.
#[derive(Clone, Copy, Debug, PartialEq, Eq, Structural)]
pub enum StoredValue {
    /// No value.
    Absent,
    /// An integer marker.
    Integer(i64),
    /// Anything else.
    Other,
}

/// One pair found in the database.
#[derive(Clone, Debug, PartialEq, Eq)]
pub struct StoredItem {
    pub key: Vec<u8>,
    pub value: StoredValue,
}

/// What a key with a revocation tag stands for, given its value: a record
/// where the entry is in force and decodes, nothing where it is switched off
/// or has no value, and a complaint otherwise.
pub open spec fn stored_revocation(key: Seq<u8>, value: StoredValue, kind: RevocationKind) -> Result<
    Option<RevocationView>,
    Message,
> {
    match value {
        StoredValue::Integer(marker) => if marker == ACTIVE {
            match decoded(kind, key) {
                Ok(r) => Ok(Some(r)),
                Err(e) => Err(Message::UndecodableKey(e)),
            }
        } else if marker == INACTIVE {
            Ok(None)
        } else {
            Err(Message::UnexpectedValue)
        },
        StoredValue::Absent => Ok(None),
        StoredValue::Other => Err(Message::UnexpectedValue),
    }
}

/// What one pair of the database contributes to the local set. A key
/// without a revocation tag belongs to something else and is passed over,
/// whatever its value.
pub open spec fn item_outcome(key: Seq<u8>, value: StoredValue) -> Outcome {
    match dispatch(key) {
        None => Outcome::Skipped,
        Some((kind, rest)) => match stored_revocation(rest, value, kind) {
            Ok(Some(r)) => Outcome::Candidate(r),
            Ok(None) => Outcome::Skipped,
            Err(message) => Outcome::Rejected(diagnostic(message, ContextView::Bytes(key))),
        },
    }
}

/// What the pairs of the database contribute to the local set, in order.
pub open spec fn item_outcomes(items: Seq<StoredItem>) -> Seq<Outcome> {
    items.map_values(|item: StoredItem| item_outcome(item.key@, item.value))
}

/// Decodes a key, already stripped of its tag, if its value says that the
/// entry is in force.
pub fn decode_revocation(key: &[u8], value: &StoredValue, typ: RevocationKind) -> (r: Result<
    Option<Revocation>,
    Message,
>)
    ensures
        match stored_revocation(key@, *value, typ) {
            Ok(Some(v)) => r matches Ok(Some(rec)) && rec@ == v,
            Ok(None) => r matches Ok(None),
            Err(message) => r matches Err(m) && m == message,
        },
{
    match value {
        StoredValue::Integer(marker) => {
            if *marker == ACTIVE {
                match decode(typ, key) {
                    Ok(rec) => Ok(Some(rec)),
                    Err(e) => Err(Message::UndecodableKey(e)),
                }
            } else if *marker == INACTIVE {
                Ok(None)
            } else {
                Err(Message::UnexpectedValue)
            }
        },
        StoredValue::Absent => Ok(None),
        StoredValue::Other => Err(Message::UnexpectedValue),
    }
}

/// Takes one pair of the database into the local set.
pub fn decode_item(key: &[u8], value: &StoredValue, revocations: &mut Gathering)
    ensures
        final(revocations)@ == absorb(old(revocations)@, item_outcome(key@, *value)),
{
    if let Some((kind, rest)) = tag_dispatch(key) {
        match decode_revocation(rest, value, kind) {
            Ok(Some(rec)) => revocations.record(rec),
            Ok(None) => {},
            Err(message) => revocations.reject(
                Diagnostic::new(message, Context::Bytes(slice_to_vec(key))),
            ),
        }
    }
}

/// Builds the local set from the pairs of the database.
pub fn read_profile_revocations(items: &Vec<StoredItem>) -> (g: Gathering)
    ensures
        g@ == gather(Origin::Local, item_outcomes(items@)),
{
    let mut g = Gathering::new(Origin::Local);
    let mut i: usize = 0;
    let ghost all = item_outcomes(items@);
    assert(all.take(0) == Seq::<Outcome>::empty());
    while i < items.len()
        invariant
            i <= items.len(),
            all == item_outcomes(items@),
            g@ == gather(Origin::Local, all.take(i as int)),
        decreases items.len() - i,
    {
        proof {
            let next = all.take(i + 1);
            assert(next.drop_last() == all.take(i as int));
            assert(next.last() == item_outcome(items@[i as int].key@, items@[i as int].value));
        }
        decode_item(items[i].key.as_slice(), &items[i].value, &mut g);
        i += 1;
    }
    assert(all.take(i as int) == all);
    g
}

/// How the action that a [`WriteSession`] asked for went.
#[derive(Clone, Copy, Debug, PartialEq, Eq, Structural)]
pub enum Reply {
    Succeeded,
    Failed,
}

/// What the writer has to do next.
#[derive(Clone, Copy, Debug, PartialEq, Eq, Structural)]
pub enum WriteAction {
    /// Put the key at this position, with the active marker as its value.
    Put(usize),
    /// Commit the transaction.
    Commit,
    /// Roll the transaction back.
    Abort,
    /// Nothing more: the session is over.
    Finish,
}

/// Where a write stands.
#[derive(Clone, Copy, Debug, PartialEq, Eq, Structural)]
pub enum WritePhase {
    /// Keys are being put, or all are put and the commit is due.
    Writing,
    /// A put failed and the transaction is to be rolled back.
    Aborting,
    /// The transaction is committed.
    Committed,
    /// The write failed for this reason; nothing was committed.
    Failed(Message),
}

/// The mathematical value of a [`WriteSession`].
pub struct WriteState {
    pub keys: Seq<Seq<u8>>,
    pub written: nat,
    pub phase: WritePhase,
}

/// The state before anything is written.
pub open spec fn start(keys: Seq<Seq<u8>>) -> WriteState {
    WriteState { keys, written: 0, phase: WritePhase::Writing }
}

/// The action that a state calls for. The commit is due only when every key
/// is put, and after a failure nothing is put or committed any more.
pub open spec fn action_of(s: WriteState) -> WriteAction {
    match s.phase {
        WritePhase::Writing => if s.written < s.keys.len() {
            WriteAction::Put(s.written as usize)
        } else {
            WriteAction::Commit
        },
        WritePhase::Aborting => WriteAction::Abort,
        WritePhase::Committed => WriteAction::Finish,
        WritePhase::Failed(_) => WriteAction::Finish,
    }
}

/// The state after the reply to the action that `s` called for.
pub open spec fn after(s: WriteState, reply: Reply) -> WriteState {
    match s.phase {
        WritePhase::Writing => if s.written < s.keys.len() {
            match reply {
                Reply::Succeeded => WriteState { written: s.written + 1, ..s },
                Reply::Failed => WriteState { phase: WritePhase::Aborting, ..s },
            }
        } else {
            match reply {
                Reply::Succeeded => WriteState { phase: WritePhase::Committed, ..s },
                Reply::Failed => WriteState {
                    phase: WritePhase::Failed(Message::CommitFailed),
                    ..s
                },
            }
        },
        WritePhase::Aborting => WriteState { phase: WritePhase::Failed(Message::PutFailed), ..s },
        WritePhase::Committed => s,
        WritePhase::Failed(_) => s,
    }
}

/// The state after a whole course of replies.
pub open spec fn run(keys: Seq<Seq<u8>>, replies: Seq<Reply>) -> WriteState
    decreases replies.len(),
{
    if replies.len() == 0 {
        start(keys)
    } else {
        after(run(keys, replies.drop_last()), replies.last())
    }
}

/// What holds of every state of a write: no more keys are counted as written
/// than there are, a commit has all of them behind it, and a put that failed
/// left a key unwritten.
pub open spec fn consistent(s: WriteState) -> bool {
    &&& s.written <= s.keys.len()
    &&& s.phase == WritePhase::Committed ==> s.written == s.keys.len()
    &&& s.phase == WritePhase::Aborting || s.phase == WritePhase::Failed(Message::PutFailed)
        ==> s.written < s.keys.len()
    &&& s.phase matches WritePhase::Failed(m) ==> m == Message::PutFailed || m
        == Message::CommitFailed
}

/// The fatal diagnostic of a write that failed: the key that the store
/// refused, or the refused commit.
pub open spec fn failure_of(s: WriteState) -> Option<DiagnosticView> {
    match s.phase {
        WritePhase::Failed(message) => if message == Message::PutFailed && s.written
            < s.keys.len() {
            Some(diagnostic(message, ContextView::Bytes(s.keys[s.written as int])))
        } else {
            Some(diagnostic(message, ContextView::Nothing))
        },
        _ => None,
    }
}

/// The course of one write transaction: which keys are put, and whether the
/// transaction is committed or rolled back.
#[derive(Debug, PartialEq, Eq)]
pub struct WriteSession {
    keys: Vec<Vec<u8>>,
    written: usize,
    phase: WritePhase,
}

impl View for WriteSession {
    type V = WriteState;

    closed spec fn view(&self) -> WriteState {
        WriteState { keys: key_views(self.keys@), written: self.written as nat, phase: self.phase }
    }
}

impl WriteSession {
    #[verifier::type_invariant]
    spec fn sound(self) -> bool {
        consistent(
            WriteState {
                keys: key_views(self.keys@),
                written: self.written as nat,
                phase: self.phase,
            },
        )
    }

    /// Starts a write of the given keys.
    pub fn new(keys: Vec<Vec<u8>>) -> (s: WriteSession)
        ensures
            s@ == start(key_views(keys@)),
    {
        WriteSession { keys, written: 0, phase: WritePhase::Writing }
    }

    /// Where the write stands. Every session is consistent.
    pub fn phase(&self) -> (p: WritePhase)
        ensures
            p == self@.phase,
            consistent(self@),
    {
        proof {
            use_type_invariant(self);
        }
        self.phase
    }

    /// The number of keys.
    pub fn len(&self) -> (n: usize)
        ensures
            n == self@.keys.len(),
    {
        self.keys.len()
    }

    /// The number of keys that were put.
    pub fn written(&self) -> (n: usize)
        ensures
            n == self@.written,
    {
        self.written
    }

    /// The key at position `i`.
    pub fn key(&self, i: usize) -> (k: &[u8])
        requires
            i < self@.keys.len(),
        ensures
            k@ == self@.keys[i as int],
    {
        self.keys[i].as_slice()
    }

    /// What the writer has to do next.
    pub fn action(&self) -> (a: WriteAction)
        ensures
            a == action_of(self@),
    {
        match self.phase {
            WritePhase::Writing => if self.written < self.keys.len() {
                WriteAction::Put(self.written)
            } else {
                WriteAction::Commit
            },
            WritePhase::Aborting => WriteAction::Abort,
            WritePhase::Committed => WriteAction::Finish,
            WritePhase::Failed(_) => WriteAction::Finish,
        }
    }

    /// Takes in how the action went that [`WriteSession::action`] asked for.
    pub fn advance(&mut self, reply: Reply)
        ensures
            final(self)@ == after(old(self)@, reply),
    {
        proof {
            use_type_invariant(&*self);
        }
        match self.phase {
            WritePhase::Writing => {
                if self.written < self.keys.len() {
                    match reply {
                        Reply::Succeeded => {
                            self.written = self.written + 1;
                        },
                        Reply::Failed => {
                            self.phase = WritePhase::Aborting;
                        },
                    }
                } else {
                    match reply {
                        Reply::Succeeded => {
                            self.phase = WritePhase::Committed;
                        },
                        Reply::Failed => {
                            self.phase = WritePhase::Failed(Message::CommitFailed);
                        },
                    }
                }
            },
            WritePhase::Aborting => {
                self.phase = WritePhase::Failed(Message::PutFailed);
            },
            WritePhase::Committed => {},
            WritePhase::Failed(_) => {},
        }
    }

    /// The fatal diagnostic of a write that failed, `None` for a write that
    /// is under way or committed.
    pub fn failure(&self) -> (d: Option<Diagnostic>)
        ensures
            match failure_of(self@) {
                Some(v) => d matches Some(x) && x@ == v,
                None => d is None,
            },
    {
        proof {
            use_type_invariant(self);
        }
        match self.phase {
            WritePhase::Failed(message) => {
                if message == Message::PutFailed && self.written < self.keys.len() {
                    Some(Diagnostic::new(message, Context::Bytes(self.keys[self.written].clone())))
                } else {
                    Some(Diagnostic::new(message, Context::Nothing))
                }
            },
            _ => None,
        }
    }
}

/// Every reply leaves a consistent state consistent.
pub proof fn lemma_after_consistent(s: WriteState, reply: Reply)
    requires
        consistent(s),
    ensures
        consistent(after(s, reply)),
        after(s, reply).keys == s.keys,
{
}

/// Whatever the replies, the state of a write is consistent: in particular a
/// committed write has put every key.
pub proof fn lemma_run_consistent(keys: Seq<Seq<u8>>, replies: Seq<Reply>)
    ensures
        consistent(run(keys, replies)),
        run(keys, replies).keys == keys,
        run(keys, replies).phase == WritePhase::Committed ==> run(keys, replies).written
            == keys.len(),
    decreases replies.len(),
{
    if replies.len() > 0 {
        lemma_run_consistent(keys, replies.drop_last());
        lemma_after_consistent(run(keys, replies.drop_last()), replies.last());
    }
}

/// The commit is asked for only when every key has been put.
pub proof fn lemma_commit_after_all_puts(s: WriteState)
    requires
        action_of(s) == WriteAction::Commit,
    ensures
        s.written >= s.keys.len(),
        s.phase == WritePhase::Writing,
{
}

/// A put that fails is answered by a rollback, and from then on the session
/// asks for no put and no commit: it fails with nothing committed.
pub proof fn lemma_failed_put_aborts(s: WriteState, later: Reply, last: Reply)
    requires
        action_of(s) is Put,
    ensures
        action_of(after(s, Reply::Failed)) == WriteAction::Abort,
        after(after(s, Reply::Failed), later).phase == WritePhase::Failed(Message::PutFailed),
        action_of(after(after(s, Reply::Failed), later)) == WriteAction::Finish,
        after(after(after(s, Reply::Failed), later), last) == after(
            after(s, Reply::Failed),
            later,
        ),
{
}

/// Where every reply is a success, the session puts each key once, in
/// order, then commits.
pub proof fn lemma_all_succeed(keys: Seq<Seq<u8>>, n: nat)
    ensures
        n <= keys.len() ==> run(keys, Seq::new(n, |i: int| Reply::Succeeded)) == (WriteState {
            keys,
            written: n,
            phase: WritePhase::Writing,
        }),
        n == keys.len() + 1 ==> run(keys, Seq::new(n, |i: int| Reply::Succeeded)).phase
            == WritePhase::Committed,
    decreases n,
{
    let replies = Seq::new(n, |i: int| Reply::Succeeded);
    if n > 0 {
        lemma_all_succeed(keys, (n - 1) as nat);
        assert(replies.drop_last() == Seq::new((n - 1) as nat, |i: int| Reply::Succeeded));
    }
}

} // verus!
