//! The revocation record and its canonical order.
//!
//! Records are compared by kind, then by the first field, then by the second,
//! each field byte by byte. Sets of records are kept in this order, so that
//! two records are the same entry exactly when all three parts agree.

use vstd::prelude::*;

verus! {

/// What a record revokes.
#[derive(Clone, Copy, Debug, PartialEq, Eq, PartialOrd, Ord, Hash, Structural)]
pub enum RevocationKind {
    /// A certificate, named by its issuer and its serial number.
    IssuerSerial,
    /// A public key, named by a subject and the hash of the key.
    SubjectKeyHash,
}

/// How one value stands to another in the canonical order.
#[derive(Clone, Copy, Debug, PartialEq, Eq, Structural)]
pub enum Relation {
    Less,
    Equal,
    Greater,
}

/// One revoked certificate or key. Both fields are non-empty.
#[derive(Debug, PartialEq, Eq, PartialOrd, Ord)]
pub struct Revocation {
    kind: RevocationKind,
    field1: Vec<u8>,
    field2: Vec<u8>,
}

/// The mathematical value of a [`Revocation`].
pub struct RevocationView {
    pub kind: RevocationKind,
    pub field1: Seq<u8>,
    pub field2: Seq<u8>,
}

impl RevocationView {
    /// Both fields hold at least one byte.
    pub open spec fn wf(self) -> bool {
        self.field1.len() > 0 && self.field2.len() > 0
    }
}

/// The place of a kind in the order: certificates come before keys.
pub open spec fn kind_index(kind: RevocationKind) -> int {
    match kind {
        RevocationKind::IssuerSerial => 0,
        RevocationKind::SubjectKeyHash => 1,
    }
}

/// Lexicographic order on byte strings: at the first position where the two
/// differ the smaller byte decides, and a proper prefix comes first.
pub open spec fn bytes_lt(a: Seq<u8>, b: Seq<u8>) -> bool
    decreases a.len(),
{
    if b.len() == 0 {
        false
    } else if a.len() == 0 {
        true
    } else if a[0] != b[0] {
        a[0] < b[0]
    } else {
        bytes_lt(a.drop_first(), b.drop_first())
    }
}

/// The three-way comparison of two byte strings.
pub open spec fn relate_bytes(a: Seq<u8>, b: Seq<u8>) -> Relation {
    if a == b {
        Relation::Equal
    } else if bytes_lt(a, b) {
        Relation::Less
    } else {
        Relation::Greater
    }
}

/// The canonical strict order on records: by kind, then first field, then
/// second field.
pub open spec fn revocation_lt(a: RevocationView, b: RevocationView) -> bool {
    ||| kind_index(a.kind) < kind_index(b.kind)
    ||| a.kind == b.kind && bytes_lt(a.field1, b.field1)
    ||| a.kind == b.kind && a.field1 == b.field1 && bytes_lt(a.field2, b.field2)
}

/// The three-way comparison of two records.
pub open spec fn relate(a: RevocationView, b: RevocationView) -> Relation {
    if a == b {
        Relation::Equal
    } else if revocation_lt(a, b) {
        Relation::Less
    } else {
        Relation::Greater
    }
}

/// No byte string comes before itself.
pub proof fn lemma_bytes_lt_irreflexive(a: Seq<u8>)
    ensures
        !bytes_lt(a, a),
    decreases a.len(),
{
    if a.len() > 0 {
        lemma_bytes_lt_irreflexive(a.drop_first());
    }
}

/// Of two different byte strings exactly one comes before the other.
pub proof fn lemma_bytes_lt_total(a: Seq<u8>, b: Seq<u8>)
    ensures
        a != b ==> (bytes_lt(a, b) <==> !bytes_lt(b, a)),
        a == b ==> !bytes_lt(a, b) && !bytes_lt(b, a),
    decreases a.len(),
{
    if a == b {
        lemma_bytes_lt_irreflexive(a);
    } else if a.len() > 0 && b.len() > 0 && a[0] == b[0] {
        lemma_bytes_lt_total(a.drop_first(), b.drop_first());
        if a.drop_first() == b.drop_first() {
            assert(a =~= seq![a[0]] + a.drop_first());
            assert(b =~= seq![b[0]] + b.drop_first());
        }
    } else if a.len() == 0 {
        assert(b.len() > 0) by {
            if b.len() == 0 {
                assert(a =~= b);
            }
        }
    }
}

/// The order on byte strings is transitive.
pub proof fn lemma_bytes_lt_transitive(a: Seq<u8>, b: Seq<u8>, c: Seq<u8>)
    requires
        bytes_lt(a, b),
        bytes_lt(b, c),
    ensures
        bytes_lt(a, c),
    decreases a.len(),
{
    if a.len() > 0 && a[0] == b[0] && b[0] == c[0] {
        lemma_bytes_lt_transitive(a.drop_first(), b.drop_first(), c.drop_first());
    }
}

/// No record comes before itself.
pub proof fn lemma_revocation_lt_irreflexive(a: RevocationView)
    ensures
        !revocation_lt(a, a),
{
    lemma_bytes_lt_irreflexive(a.field1);
    lemma_bytes_lt_irreflexive(a.field2);
}

/// Of two different records exactly one comes before the other, and equal
/// records are not ordered: the order is total, and two records are the same
/// exactly when neither comes before the other.
pub proof fn lemma_revocation_lt_total(a: RevocationView, b: RevocationView)
    ensures
        a != b ==> (revocation_lt(a, b) <==> !revocation_lt(b, a)),
        a == b ==> !revocation_lt(a, b) && !revocation_lt(b, a),
{
    lemma_bytes_lt_total(a.field1, b.field1);
    lemma_bytes_lt_total(a.field2, b.field2);
}

/// The order on records is transitive.
pub proof fn lemma_revocation_lt_transitive(a: RevocationView, b: RevocationView, c: RevocationView)
    requires
        revocation_lt(a, b),
        revocation_lt(b, c),
    ensures
        revocation_lt(a, c),
{
    lemma_bytes_lt_total(a.field1, b.field1);
    lemma_bytes_lt_total(b.field1, c.field1);
    if a.kind == b.kind && b.kind == c.kind {
        if bytes_lt(a.field1, b.field1) && bytes_lt(b.field1, c.field1) {
            lemma_bytes_lt_transitive(a.field1, b.field1, c.field1);
        } else if a.field1 == b.field1 && b.field1 == c.field1 {
            lemma_bytes_lt_transitive(a.field2, b.field2, c.field2);
        }
    }
}

/// Compares two byte strings in lexicographic order.
pub fn compare_bytes(a: &[u8], b: &[u8]) -> (r: Relation)
    ensures
        r == relate_bytes(a@, b@),
{
    let mut i: usize = 0;
    assert(a@.skip(0) == a@ && b@.skip(0) == b@);
    while i < a.len() && i < b.len()
        invariant
            i <= a.len(),
            i <= b.len(),
            a@.take(i as int) == b@.take(i as int),
            bytes_lt(a@, b@) == bytes_lt(a@.skip(i as int), b@.skip(i as int)),
        decreases a.len() - i,
    {
        let ghost sa = a@.skip(i as int);
        let ghost sb = b@.skip(i as int);
        assert(sa[0] == a@[i as int] && sb[0] == b@[i as int]);
        if a[i] != b[i] {
            assert(a@ != b@);
            return if a[i] < b[i] {
                Relation::Less
            } else {
                Relation::Greater
            };
        }
        assert(sa.drop_first() == a@.skip(i + 1));
        assert(sb.drop_first() == b@.skip(i + 1));
        assert(a@.take(i + 1) == a@.take(i as int).push(a@[i as int]));
        assert(b@.take(i + 1) == b@.take(i as int).push(b@[i as int]));
        i += 1;
    }
    if i < b.len() {
        assert(a@ != b@);
        Relation::Less
    } else if i < a.len() {
        assert(a@ != b@);
        Relation::Greater
    } else {
        assert(a@ == a@.take(i as int));
        assert(b@ == b@.take(i as int));
        Relation::Equal
    }
}

impl View for Revocation {
    type V = RevocationView;

    closed spec fn view(&self) -> RevocationView {
        RevocationView { kind: self.kind, field1: self.field1@, field2: self.field2@ }
    }
}

impl Revocation {
    #[verifier::type_invariant]
    spec fn non_empty(self) -> bool {
        self.field1@.len() > 0 && self.field2@.len() > 0
    }

    /// Builds a record, or refuses one with an empty field.
    pub fn new(kind: RevocationKind, field1: Vec<u8>, field2: Vec<u8>) -> (r: Option<Revocation>)
        ensures
            r is Some <==> field1@.len() > 0 && field2@.len() > 0,
            r matches Some(rec) ==> rec@ == (RevocationView {
                kind,
                field1: field1@,
                field2: field2@,
            }),
    {
        if field1.len() == 0 || field2.len() == 0 {
            None
        } else {
            Some(Revocation::from_non_empty(kind, field1, field2))
        }
    }

    /// Builds a record from two fields that are known to be non-empty.
    pub(crate) fn from_non_empty(kind: RevocationKind, field1: Vec<u8>, field2: Vec<u8>) -> (r:
        Revocation)
        requires
            field1@.len() > 0,
            field2@.len() > 0,
        ensures
            r@ == (RevocationView { kind, field1: field1@, field2: field2@ }),
    {
        Revocation { kind, field1, field2 }
    }

    /// What the record revokes.
    pub fn kind(&self) -> (k: RevocationKind)
        ensures
            k == self@.kind,
    {
        self.kind
    }

    /// The issuer, or the subject, as raw bytes.
    pub fn field1(&self) -> (f: &[u8])
        ensures
            f@ == self@.field1,
            self@.wf(),
    {
        proof {
            use_type_invariant(self);
        }
        self.field1.as_slice()
    }

    /// The serial number, or the hash of the public key, as raw bytes.
    pub fn field2(&self) -> (f: &[u8])
        ensures
            f@ == self@.field2,
            self@.wf(),
    {
        proof {
            use_type_invariant(self);
        }
        self.field2.as_slice()
    }

    /// A copy of the record.
    pub fn duplicate(&self) -> (r: Revocation)
        ensures
            r@ == self@,
            r@.wf(),
    {
        proof {
            use_type_invariant(self);
        }
        Revocation { kind: self.kind, field1: self.field1.clone(), field2: self.field2.clone() }
    }

    /// Compares two records in the canonical order.
    pub fn compare(&self, other: &Revocation) -> (r: Relation)
        ensures
            r == relate(self@, other@),
    {
        proof {
            lemma_bytes_lt_total(self@.field1, other@.field1);
            lemma_bytes_lt_total(self@.field2, other@.field2);
        }
        match (self.kind, other.kind) {
            (RevocationKind::IssuerSerial, RevocationKind::SubjectKeyHash) => Relation::Less,
            (RevocationKind::SubjectKeyHash, RevocationKind::IssuerSerial) => Relation::Greater,
            _ => match compare_bytes(self.field1.as_slice(), other.field1.as_slice()) {
                Relation::Equal => compare_bytes(self.field2.as_slice(), other.field2.as_slice()),
                decided => decided,
            },
        }
    }
}

} // verus!
