use onecrl_cert_storage::cert_storage::{read_profile_revocations, StoredItem, StoredValue};
use onecrl_cert_storage::diagnostics::Message;
use onecrl_cert_storage::one_crl::{current_revocations, RawEntry};
use onecrl_cert_storage::reconcile::reconcile;
use onecrl_cert_storage::record::{Revocation, RevocationKind};

fn issuer_serial(issuer: &str, number: &str) -> RawEntry {
    RawEntry {
        issuer_name: Some(issuer.to_string()),
        serial_number: Some(number.to_string()),
        subject: None,
        pub_key_hash: None,
    }
}

fn subject_key(subject: &str, hash: &str) -> RawEntry {
    RawEntry {
        issuer_name: None,
        serial_number: None,
        subject: Some(subject.to_string()),
        pub_key_hash: Some(hash.to_string()),
    }
}

#[test]
fn remote_entry_missing_from_an_empty_store() {
    let remote = current_revocations(&vec![issuer_serial("AQID", "BAUG")]);
    let local = read_profile_revocations(&Vec::new());
    assert!(remote.diagnostics.is_empty());
    assert!(local.diagnostics.is_empty());
    let report = reconcile(&remote.set, &local.set);
    assert_eq!(report.remote_count, 1);
    assert_eq!(report.local_count, 0);
    assert_eq!(
        report.remote_only,
        vec![Revocation::new(RevocationKind::IssuerSerial, vec![1, 2, 3], vec![4, 5, 6]).unwrap()]
    );
    assert!(report.local_only.is_empty());
}

#[test]
fn local_key_that_the_remote_list_lacks() {
    let mut key: Vec<u8> = b"spk".to_vec();
    key.extend_from_slice(&[0x0c, 0x03]);
    key.extend_from_slice(b"sub");
    key.extend_from_slice(b"hash");
    let local =
        read_profile_revocations(&vec![StoredItem { key, value: StoredValue::Integer(1) }]);
    let remote = current_revocations(&Vec::new());
    let report = reconcile(&remote.set, &local.set);
    assert_eq!(report.remote_count, 0);
    assert_eq!(report.local_count, 1);
    assert!(report.remote_only.is_empty());
    assert_eq!(
        report.local_only,
        vec![Revocation::new(
            RevocationKind::SubjectKeyHash,
            vec![0x0c, 0x03, b's', b'u', b'b'],
            b"hash".to_vec()
        )
        .unwrap()]
    );
}

#[test]
fn inactive_local_key_counts_as_absent() {
    // The remote entry is the blob 30 03 01 02 03 with the serial 04 05 06.
    let remote = current_revocations(&vec![issuer_serial("MAMBAgM=", "BAUG")]);
    let key: Vec<u8> = vec![b'i', b's', 0x30, 0x03, 1, 2, 3, 4, 5, 6];
    let local = read_profile_revocations(&vec![StoredItem {
        key: key.clone(),
        value: StoredValue::Integer(0),
    }]);
    assert!(local.set.is_empty());
    assert!(local.diagnostics.is_empty());
    let report = reconcile(&remote.set, &local.set);
    assert_eq!(report.remote_only.len(), 1);
    assert_eq!(report.remote_only[0].field1(), &[0x30, 0x03, 1, 2, 3][..]);
    assert_eq!(report.remote_only[0].field2(), &[4, 5, 6][..]);
    assert!(report.local_only.is_empty());

    // The same key, active, matches the remote entry.
    let local =
        read_profile_revocations(&vec![StoredItem { key, value: StoredValue::Integer(1) }]);
    let report = reconcile(&remote.set, &local.set);
    assert!(report.remote_only.is_empty());
    assert!(report.local_only.is_empty());
}

#[test]
fn entry_with_neither_pair_is_skipped() {
    let empty = RawEntry { issuer_name: None, serial_number: None, subject: None, pub_key_hash: None };
    let with = current_revocations(&vec![
        issuer_serial("AQID", "BAUG"),
        empty,
        subject_key("c3Vi", "aGFzaA=="),
    ]);
    let without =
        current_revocations(&vec![issuer_serial("AQID", "BAUG"), subject_key("c3Vi", "aGFzaA==")]);
    assert_eq!(with.set, without.set);
    assert_eq!(with.diagnostics.len(), 1);
    assert_eq!(with.diagnostics[0].message, Message::MissingFields);
    let local = read_profile_revocations(&Vec::new());
    assert_eq!(reconcile(&with.set, &local.set), reconcile(&without.set, &local.set));
    assert_eq!(reconcile(&with.set, &local.set).remote_only.len(), 2);
}

#[test]
fn remote_and_local_agree_through_both_codecs() {
    let remote = current_revocations(&vec![
        issuer_serial("MAMBAgM=", "BAUG"),
        subject_key("BANzdWI=", "aGFzaA=="),
    ]);
    let items: Vec<StoredItem> = remote
        .set
        .records()
        .iter()
        .map(|r| StoredItem {
            key: onecrl_cert_storage::codec::encode(r).unwrap(),
            value: StoredValue::Integer(1),
        })
        .collect();
    let local = read_profile_revocations(&items);
    assert_eq!(local.set, remote.set);
    let report = reconcile(&remote.set, &local.set);
    assert!(report.remote_only.is_empty() && report.local_only.is_empty());
}
