use onecrl_cert_storage::record::{compare_bytes, Relation, Revocation, RevocationKind};
use onecrl_cert_storage::transport::RevocationText;
use std::cmp::Ordering;

fn rec(kind: RevocationKind, field1: &[u8], field2: &[u8]) -> Revocation {
    Revocation::new(kind, field1.to_vec(), field2.to_vec()).unwrap()
}

fn as_relation(ordering: Ordering) -> Relation {
    match ordering {
        Ordering::Less => Relation::Less,
        Ordering::Equal => Relation::Equal,
        Ordering::Greater => Relation::Greater,
    }
}

#[test]
fn new_refuses_empty_fields() {
    assert!(Revocation::new(RevocationKind::IssuerSerial, vec![], vec![1]).is_none());
    assert!(Revocation::new(RevocationKind::IssuerSerial, vec![1], vec![]).is_none());
    assert!(Revocation::new(RevocationKind::SubjectKeyHash, vec![], vec![]).is_none());
    let made = Revocation::new(RevocationKind::SubjectKeyHash, vec![1], vec![2]).unwrap();
    assert_eq!(made.kind(), RevocationKind::SubjectKeyHash);
    assert_eq!(made.field1(), &[1][..]);
    assert_eq!(made.field2(), &[2][..]);
}

#[test]
fn duplicate_is_equal_to_the_record() {
    let source = rec(RevocationKind::IssuerSerial, &[1, 2, 3], &[4, 5, 6]);
    let copy = source.duplicate();
    assert_eq!(copy, source);
    assert_eq!(copy.compare(&source), Relation::Equal);
}

#[test]
fn compare_bytes_is_lexicographic() {
    assert_eq!(compare_bytes(&[], &[]), Relation::Equal);
    assert_eq!(compare_bytes(&[], &[0]), Relation::Less);
    assert_eq!(compare_bytes(&[0], &[]), Relation::Greater);
    assert_eq!(compare_bytes(&[1, 2], &[1, 2]), Relation::Equal);
    assert_eq!(compare_bytes(&[1, 2], &[1, 2, 0]), Relation::Less);
    assert_eq!(compare_bytes(&[1, 3], &[1, 2, 9]), Relation::Greater);
    assert_eq!(compare_bytes(&[0x7f], &[0x80]), Relation::Less);
    assert_eq!(compare_bytes(&[0xff], &[0x00, 0xff]), Relation::Greater);
}

#[test]
fn compare_orders_by_kind_first() {
    let a = rec(RevocationKind::IssuerSerial, &[9, 9], &[9]);
    let b = rec(RevocationKind::SubjectKeyHash, &[0], &[0]);
    assert_eq!(a.compare(&b), Relation::Less);
    assert_eq!(b.compare(&a), Relation::Greater);
}

#[test]
fn compare_orders_by_first_field_then_second() {
    let a = rec(RevocationKind::IssuerSerial, &[1, 2], &[9]);
    let b = rec(RevocationKind::IssuerSerial, &[1, 3], &[0]);
    let c = rec(RevocationKind::IssuerSerial, &[1, 3], &[0, 0]);
    assert_eq!(a.compare(&b), Relation::Less);
    assert_eq!(b.compare(&c), Relation::Less);
    assert_eq!(a.compare(&c), Relation::Less);
    assert_eq!(c.compare(&b), Relation::Greater);
    assert_eq!(b.compare(&b), Relation::Equal);
}

#[test]
fn compare_agrees_with_the_derived_order() {
    let kinds = [RevocationKind::IssuerSerial, RevocationKind::SubjectKeyHash];
    let fields: Vec<Vec<u8>> = vec![vec![0], vec![0, 0], vec![1], vec![1, 0xff], vec![0xff]];
    let mut all: Vec<Revocation> = Vec::new();
    for kind in kinds {
        for f1 in &fields {
            for f2 in &fields {
                all.push(rec(kind, f1, f2));
            }
        }
    }
    for a in &all {
        for b in &all {
            assert_eq!(a.compare(b), as_relation(a.cmp(b)));
            assert_eq!(a.compare(b) == Relation::Equal, a == b);
        }
    }
}

#[test]
fn to_text_encodes_both_fields() {
    let r = rec(RevocationKind::IssuerSerial, &[1, 2, 3], &[4, 5, 6]);
    assert_eq!(
        r.to_text(),
        Some(RevocationText {
            kind: RevocationKind::IssuerSerial,
            field1: "AQID".to_string(),
            field2: "BAUG".to_string(),
        })
    );
}

#[test]
fn to_text_pads() {
    let r = rec(RevocationKind::SubjectKeyHash, b"sub", b"hash");
    let text = r.to_text().unwrap();
    assert_eq!(text.kind, RevocationKind::SubjectKeyHash);
    assert_eq!(text.field1, "c3Vi");
    assert_eq!(text.field2, "aGFzaA==");
}
