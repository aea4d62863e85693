use onecrl_cert_storage::diagnostics::{Context, Diagnostic, Field, Message, Origin, Severity};
use onecrl_cert_storage::codec::CodecError;
use onecrl_cert_storage::one_crl::{
    current_revocations, record_key, Environment, EnvironmentError, OneCRL, OneCRLEntry, RawEntry,
    PRODUCTION, STAGING,
};
use onecrl_cert_storage::record::{Revocation, RevocationKind};

fn serial(issuer: &str, number: &str) -> OneCRLEntry {
    OneCRLEntry::Serial { issuer_name: issuer.to_string(), serial_number: number.to_string() }
}

fn key_hash(subject: &str, hash: &str) -> OneCRLEntry {
    OneCRLEntry::KeyHash { subject_name: subject.to_string(), pub_key_hash: hash.to_string() }
}

fn raw(
    issuer: Option<&str>,
    number: Option<&str>,
    subject: Option<&str>,
    hash: Option<&str>,
) -> RawEntry {
    RawEntry {
        issuer_name: issuer.map(|s| s.to_string()),
        serial_number: number.map(|s| s.to_string()),
        subject: subject.map(|s| s.to_string()),
        pub_key_hash: hash.map(|s| s.to_string()),
    }
}

fn warning(message: Message, context: Context) -> Diagnostic {
    Diagnostic { severity: Severity::Warning, message, context }
}

#[test]
fn valid_values_are_the_four_names() {
    assert_eq!(Environment::valid_values(), vec!["prod", "production", "stage", "staging"]);
}

#[test]
fn parse_accepts_each_valid_value() {
    assert_eq!(Environment::parse("prod"), Ok(Environment::Production));
    assert_eq!(Environment::parse("production"), Ok(Environment::Production));
    assert_eq!(Environment::parse("stage"), Ok(Environment::Staging));
    assert_eq!(Environment::parse("staging"), Ok(Environment::Staging));
    for name in Environment::valid_values() {
        assert!(Environment::parse(name).is_ok());
    }
}

#[test]
fn parse_refuses_everything_else() {
    assert_eq!(Environment::parse(""), Err(EnvironmentError::InvalidEnvironment));
    assert_eq!(Environment::parse("Prod"), Err(EnvironmentError::InvalidEnvironment));
    assert_eq!(Environment::parse("prod "), Err(EnvironmentError::InvalidEnvironment));
    assert_eq!(Environment::parse("dev"), Err(EnvironmentError::InvalidEnvironment));
}

#[test]
fn url_of_each_environment() {
    assert_eq!(Environment::Production.url(), PRODUCTION);
    assert_eq!(Environment::Staging.url(), STAGING);
    assert_eq!(
        PRODUCTION,
        "https://firefox.settings.services.mozilla.com/v1/buckets/security-state/collections/onecrl/records"
    );
    assert_eq!(
        STAGING,
        "https://firefox.settings.services.allizom.org/v1/buckets/security-state/collections/onecrl/records"
    );
}

#[test]
fn classify_wants_exactly_one_shape() {
    assert_eq!(raw(Some("a"), Some("b"), None, None).classify(), Ok(serial("a", "b")));
    assert_eq!(raw(None, None, Some("c"), Some("d")).classify(), Ok(key_hash("c", "d")));
    assert_eq!(raw(None, None, None, None).classify(), Err(Message::MissingFields));
    assert_eq!(raw(Some("a"), None, None, Some("d")).classify(), Err(Message::MissingFields));
    assert_eq!(raw(Some("a"), None, None, None).classify(), Err(Message::MissingFields));
    assert_eq!(
        raw(Some("a"), Some("b"), Some("c"), Some("d")).classify(),
        Err(Message::AmbiguousFields)
    );
}

#[test]
fn classify_ignores_a_lone_field_of_the_other_shape() {
    assert_eq!(raw(Some("a"), Some("b"), Some("c"), None).classify(), Ok(serial("a", "b")));
    assert_eq!(raw(None, Some("b"), Some("c"), Some("d")).classify(), Ok(key_hash("c", "d")));
}

#[test]
fn to_revocation_decodes_base64() {
    let r = serial("AQID", "BAUG").to_revocation().unwrap();
    assert_eq!(r.kind(), RevocationKind::IssuerSerial);
    assert_eq!(r.field1(), &[1, 2, 3][..]);
    assert_eq!(r.field2(), &[4, 5, 6][..]);
    let r = key_hash("c3Vi", "aGFzaA==").to_revocation().unwrap();
    assert_eq!(r.kind(), RevocationKind::SubjectKeyHash);
    assert_eq!(r.field1(), b"sub");
    assert_eq!(r.field2(), b"hash");
}

#[test]
fn to_revocation_trims_whitespace() {
    let r = serial("  AQID\n", "\tBAUG \r\n").to_revocation().unwrap();
    assert_eq!(r.field1(), &[1, 2, 3][..]);
    assert_eq!(r.field2(), &[4, 5, 6][..]);
}

#[test]
fn to_revocation_reports_the_offending_field() {
    assert_eq!(
        serial("AQ!D", "BAUG").to_revocation(),
        Err(warning(Message::InvalidBase64(Field::IssuerName), Context::Text("AQ!D".to_string())))
    );
    assert_eq!(
        serial("AQID", "BA UG").to_revocation(),
        Err(warning(
            Message::InvalidBase64(Field::SerialNumber),
            Context::Text("BA UG".to_string())
        ))
    );
    assert_eq!(
        key_hash("c3V", "aGFzaA==").to_revocation(),
        Err(warning(Message::InvalidBase64(Field::Subject), Context::Text("c3V".to_string())))
    );
    assert_eq!(
        key_hash("c3Vi", "aGFza").to_revocation(),
        Err(warning(Message::InvalidBase64(Field::PubKeyHash), Context::Text("aGFza".to_string())))
    );
}

#[test]
fn to_revocation_judges_the_first_field_first() {
    assert_eq!(
        serial("***", "???").to_revocation(),
        Err(warning(Message::InvalidBase64(Field::IssuerName), Context::Text("***".to_string())))
    );
}

#[test]
fn to_revocation_refuses_empty_fields() {
    assert_eq!(
        serial("", "BAUG").to_revocation(),
        Err(warning(Message::EmptyField(Field::IssuerName), Context::Text("".to_string())))
    );
    assert_eq!(
        serial("AQID", "   ").to_revocation(),
        Err(warning(Message::EmptyField(Field::SerialNumber), Context::Text("   ".to_string())))
    );
    assert_eq!(
        key_hash("c3Vi", "").to_revocation(),
        Err(warning(Message::EmptyField(Field::PubKeyHash), Context::Text("".to_string())))
    );
}

#[test]
fn assemble_works_on_what_was_decoded() {
    let entry = serial("one", "two");
    let r = entry.assemble(Some(vec![1]), Some(vec![2])).unwrap();
    assert_eq!(r, Revocation::new(RevocationKind::IssuerSerial, vec![1], vec![2]).unwrap());
    assert_eq!(
        entry.assemble(None, Some(vec![2])),
        Err(warning(Message::InvalidBase64(Field::IssuerName), Context::Text("one".to_string())))
    );
    assert_eq!(
        entry.assemble(Some(vec![1]), None),
        Err(warning(Message::InvalidBase64(Field::SerialNumber), Context::Text("two".to_string())))
    );
    assert_eq!(
        entry.assemble(None, None),
        Err(warning(Message::InvalidBase64(Field::IssuerName), Context::Text("one".to_string())))
    );
    assert_eq!(
        entry.assemble(Some(vec![]), None),
        Err(warning(Message::InvalidBase64(Field::SerialNumber), Context::Text("two".to_string())))
    );
    assert_eq!(
        entry.assemble(Some(vec![]), Some(vec![])),
        Err(warning(Message::EmptyField(Field::IssuerName), Context::Text("one".to_string())))
    );
    assert_eq!(
        entry.assemble(Some(vec![1]), Some(vec![])),
        Err(warning(Message::EmptyField(Field::SerialNumber), Context::Text("two".to_string())))
    );
}

#[test]
fn to_cert_storage_writes_tag_and_fields() {
    // "MAMBAgM=" is the blob 30 03 01 02 03.
    assert_eq!(
        serial("MAMBAgM=", "BAUG").to_cert_storage(),
        Some(vec![b'i', b's', 0x30, 0x03, 1, 2, 3, 4, 5, 6])
    );
    // "BANzdWI=" is the blob 04 03 "sub".
    assert_eq!(
        key_hash(" BANzdWI= ", "aGFzaA==").to_cert_storage(),
        Some(b"spk\x04\x03subhash".to_vec())
    );
}

#[test]
fn to_cert_storage_gives_nothing_for_a_bad_entry() {
    assert_eq!(serial("MAMBAgM*", "BAUG").to_cert_storage(), None);
    assert_eq!(serial("MAMBAgM=", "B").to_cert_storage(), None);
    assert_eq!(serial("MAMBAgM=", "").to_cert_storage(), None);
    // A first field that is no DER blob has no key.
    assert_eq!(serial("AQID", "BAUG").to_cert_storage(), None);
}

#[test]
fn to_key_says_why_there_is_no_key() {
    let d = serial("AQID", "BAUG").to_key().unwrap_err();
    assert_eq!(d.severity, Severity::Warning);
    assert_eq!(d.message, Message::Unencodable(CodecError::TruncatedInput));
    assert_eq!(
        d.context,
        Context::Record(
            Revocation::new(RevocationKind::IssuerSerial, vec![1, 2, 3], vec![4, 5, 6]).unwrap()
        )
    );
    let d = serial("AQ=D", "BAUG").to_key().unwrap_err();
    assert_eq!(d.message, Message::InvalidBase64(Field::IssuerName));
}

#[test]
fn record_key_encodes_or_warns() {
    let good = Revocation::new(RevocationKind::IssuerSerial, vec![0x30, 0x00], vec![1]).unwrap();
    assert_eq!(record_key(good), Ok(vec![b'i', b's', 0x30, 0x00, 1]));
    let bad = Revocation::new(RevocationKind::IssuerSerial, vec![0x30, 0x00, 0x00], vec![1])
        .unwrap();
    assert_eq!(
        record_key(bad.duplicate()),
        Err(warning(Message::Unencodable(CodecError::TrailingData), Context::Record(bad)))
    );
}

#[test]
fn from_raw_keeps_entries_of_one_shape() {
    let entries = vec![
        raw(Some("AQID"), Some("BAUG"), None, None),
        raw(None, None, None, None),
        raw(None, None, Some("c3Vi"), Some("aGFzaA==")),
        raw(Some("a"), Some("b"), Some("c"), Some("d")),
    ];
    let (list, diagnostics) = OneCRL::from_raw(&entries);
    assert_eq!(list.data, vec![serial("AQID", "BAUG"), key_hash("c3Vi", "aGFzaA==")]);
    assert_eq!(
        diagnostics,
        vec![
            warning(Message::MissingFields, Context::Nothing),
            warning(Message::AmbiguousFields, Context::Nothing),
        ]
    );
}

#[test]
fn revocations_builds_the_remote_set() {
    let list = OneCRL {
        data: vec![
            key_hash("c3Vi", "aGFzaA=="),
            serial("AQID", "BAUG"),
            serial("AQID", "not base64"),
            serial(" AQID ", "BAUG"),
        ],
    };
    let g = list.revocations();
    assert_eq!(g.origin, Origin::Remote);
    let first = Revocation::new(RevocationKind::IssuerSerial, vec![1, 2, 3], vec![4, 5, 6]).unwrap();
    let second =
        Revocation::new(RevocationKind::SubjectKeyHash, b"sub".to_vec(), b"hash".to_vec()).unwrap();
    assert_eq!(g.set.records(), &vec![first.duplicate(), second]);
    assert_eq!(
        g.diagnostics,
        vec![
            warning(
                Message::InvalidBase64(Field::SerialNumber),
                Context::Text("not base64".to_string())
            ),
            warning(Message::Duplicate(Origin::Remote), Context::Record(first)),
        ]
    );
}

#[test]
fn current_revocations_reports_in_the_order_of_the_entries() {
    let entries = vec![
        raw(Some("AQID"), Some("BAUG"), None, None),
        raw(None, Some("BAUG"), None, None),
        raw(Some("AQID"), Some("BAUG"), None, None),
        raw(None, None, Some("c3Vi"), Some("%")),
        raw(Some("AQID"), Some("BAUH"), None, None),
    ];
    let g = current_revocations(&entries);
    let first = Revocation::new(RevocationKind::IssuerSerial, vec![1, 2, 3], vec![4, 5, 6]).unwrap();
    let second =
        Revocation::new(RevocationKind::IssuerSerial, vec![1, 2, 3], vec![4, 5, 7]).unwrap();
    assert_eq!(g.set.records(), &vec![first.duplicate(), second]);
    assert_eq!(
        g.diagnostics,
        vec![
            warning(Message::MissingFields, Context::Nothing),
            warning(Message::Duplicate(Origin::Remote), Context::Record(first)),
            warning(Message::InvalidBase64(Field::PubKeyHash), Context::Text("%".to_string())),
        ]
    );
}

#[test]
fn keys_lists_what_is_to_be_written() {
    let list = OneCRL {
        data: vec![
            serial("MAMBAgM=", "BAUG"),
            serial("AQID", "BAUG"),
            key_hash("BANzdWI=", "aGFzaA=="),
            serial("MAMBAgM=", "BAUG"),
            key_hash("BANzdWI=", "?"),
        ],
    };
    let (keys, diagnostics) = list.keys();
    assert_eq!(
        keys,
        vec![
            vec![b'i', b's', 0x30, 0x03, 1, 2, 3, 4, 5, 6],
            b"spk\x04\x03subhash".to_vec(),
            vec![b'i', b's', 0x30, 0x03, 1, 2, 3, 4, 5, 6],
        ]
    );
    let messages: Vec<Message> = diagnostics.iter().map(|d| d.message).collect();
    assert_eq!(
        messages,
        vec![
            Message::Unencodable(CodecError::TruncatedInput),
            Message::InvalidBase64(Field::PubKeyHash),
        ]
    );
}
