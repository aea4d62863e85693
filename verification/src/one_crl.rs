//! The remote side: the OneCRL list as it is received, and what its entries
//! mean as revocation records and as `cert_storage` keys.
//!
//! An entry names a certificate by issuer and serial number, or a key by
//! subject and key hash. The fields are base64 text and may carry stray
//! whitespace. An entry that cannot be used is dropped with a diagnostic;
//! the others go on.

use crate::codec::{encode, encoded};
use crate::diagnostics::{
    diagnostic, diagnostic_views, Context, ContextView, Diagnostic, DiagnosticView, Field, Message,
    Origin,
};
use crate::gathering::{gather, Gathering, Outcome};
use crate::record::{Revocation, RevocationKind, RevocationView};
use crate::transport::{base64_decode, base64_decoding, trimmed};
use vstd::prelude::*;

verus! {

/// Where the production list is served.
pub const PRODUCTION: &'static str =
    "https://firefox.settings.services.mozilla.com/v1/buckets/security-state/collections/onecrl/records";

/// Where the staging list is served.
pub const STAGING: &'static str =
    "https://firefox.settings.services.allizom.org/v1/buckets/security-state/collections/onecrl/records";

/// Which OneCRL deployment to read.
#[derive(Clone, Copy, Debug, PartialEq, Eq, Structural)]
pub enum Environment {
    Production,
    Staging,
}

/// Why a text does not select an environment.
#[derive(Clone, Copy, Debug, PartialEq, Eq, Structural)]
pub enum EnvironmentError {
    /// The text is none of the accepted names.
    InvalidEnvironment,
}

/// The names that select an environment, as texts.
pub open spec fn valid_texts() -> Seq<Seq<char>> {
    seq!["prod"@, "production"@, "stage"@, "staging"@]
}

/// The environment that a name selects.
pub open spec fn parsed_environment(value: Seq<char>) -> Result<Environment, EnvironmentError> {
    if value == "production"@ || value == "prod"@ {
        Ok(Environment::Production)
    } else if value == "staging"@ || value == "stage"@ {
        Ok(Environment::Staging)
    } else {
        Err(EnvironmentError::InvalidEnvironment)
    }
}

/// Whether two texts are the same.
fn same_text(a: &str, b: &str) -> (same: bool)
    ensures
        same == (a@ == b@),
{
    let left = a.to_owned();
    let right = b.to_owned();
    left == right
}

impl Environment {
    /// The names that [`Environment::parse`] accepts.
    pub fn valid_values() -> (values: Vec<&'static str>)
        ensures
            values@.map_values(|v: &'static str| v@) == valid_texts(),
    {
        let values = vec!["prod", "production", "stage", "staging"];
        assert(values@.map_values(|v: &'static str| v@) == valid_texts());
        values
    }

    /// Reads the name of an environment.
    pub fn parse(value: &str) -> (r: Result<Environment, EnvironmentError>)
        ensures
            r == parsed_environment(value@),
    {
        if same_text(value, "production") || same_text(value, "prod") {
            Ok(Environment::Production)
        } else if same_text(value, "staging") || same_text(value, "stage") {
            Ok(Environment::Staging)
        } else {
            Err(EnvironmentError::InvalidEnvironment)
        }
    }

    /// The address of the list of this environment.
    pub fn url(&self) -> (address: &'static str)
        ensures
            address@ == match self {
                Environment::Production => PRODUCTION@,
                Environment::Staging => STAGING@,
            },
    {
        match self {
            Environment::Production => PRODUCTION,
            Environment::Staging => STAGING,
        }
    }
}

/// A name selects an environment exactly when it is one of the valid values.
pub proof fn lemma_valid_values_parse(value: Seq<char>)
    ensures
        parsed_environment(value) is Ok <==> valid_texts().contains(value),
{
    let names = valid_texts();
    assert(names[0] == "prod"@ && names[1] == "production"@ && names[2] == "stage"@ && names[3]
        == "staging"@);
}

/// One entry of the list, as a remote payload gives it: each of the four
/// fields is there or not.
#[derive(Clone, Debug, PartialEq, Eq)]
pub struct RawEntry {
    pub issuer_name: Option<String>,
    pub serial_number: Option<String>,
    pub subject: Option<String>,
    pub pub_key_hash: Option<String>,
}

/// One entry of the list with the fields of exactly one of its two shapes.
#[derive(Clone, Debug, PartialEq, Eq)]
pub enum OneCRLEntry {
    Serial { issuer_name: String, serial_number: String },
    KeyHash { subject_name: String, pub_key_hash: String },
}

/// The list.
#[derive(Clone, Debug, PartialEq, Eq)]
pub struct OneCRL {
    pub data: Vec<OneCRLEntry>,
}

/// The entry that a raw entry stands for. An entry must have the fields of
/// exactly one shape; fields of the other shape that come alone are ignored.
pub open spec fn typed(raw: RawEntry) -> Result<OneCRLEntry, Message> {
    let serial = raw.issuer_name is Some && raw.serial_number is Some;
    let key_hash = raw.subject is Some && raw.pub_key_hash is Some;
    if serial && key_hash {
        Err(Message::AmbiguousFields)
    } else if serial {
        Ok(
            OneCRLEntry::Serial {
                issuer_name: raw.issuer_name->0,
                serial_number: raw.serial_number->0,
            },
        )
    } else if key_hash {
        Ok(OneCRLEntry::KeyHash { subject_name: raw.subject->0, pub_key_hash: raw.pub_key_hash->0 })
    } else {
        Err(Message::MissingFields)
    }
}

/// Keeps the entries that have one shape.
pub open spec fn keep_typed() -> spec_fn(RawEntry) -> Option<OneCRLEntry> {
    |raw: RawEntry|
        match typed(raw) {
            Ok(entry) => Some(entry),
            Err(_) => None,
        }
}

/// Keeps a warning for each entry that has no shape or both.
pub open spec fn keep_untyped() -> spec_fn(RawEntry) -> Option<DiagnosticView> {
    |raw: RawEntry|
        match typed(raw) {
            Ok(_) => None,
            Err(message) => Some(diagnostic(message, ContextView::Nothing)),
        }
}

/// The view of bytes that may be missing.
pub open spec fn bytes_view(bytes: Option<Vec<u8>>) -> Option<Seq<u8>> {
    match bytes {
        Some(b) => Some(b@),
        None => None,
    }
}

/// The record of an entry, given what its two texts decode to (`None` for a
/// text that is not base64). The first text is judged first, and a text that
/// decodes to nothing is refused like one that does not decode.
pub open spec fn assembled(
    entry: OneCRLEntry,
    first: Option<Seq<u8>>,
    second: Option<Seq<u8>>,
) -> Result<RevocationView, DiagnosticView> {
    if first is None {
        Err(diagnostic(Message::InvalidBase64(entry.first_field()), ContextView::Text(entry.first_text())))
    } else if second is None {
        Err(
            diagnostic(
                Message::InvalidBase64(entry.second_field()),
                ContextView::Text(entry.second_text()),
            ),
        )
    } else if first->0.len() == 0 {
        Err(diagnostic(Message::EmptyField(entry.first_field()), ContextView::Text(entry.first_text())))
    } else if second->0.len() == 0 {
        Err(
            diagnostic(
                Message::EmptyField(entry.second_field()),
                ContextView::Text(entry.second_text()),
            ),
        )
    } else {
        Ok(RevocationView { kind: entry.kind(), field1: first->0, field2: second->0 })
    }
}

/// The record of an entry: each text is trimmed and decoded from base64.
pub open spec fn revocation_of(entry: OneCRLEntry) -> Result<RevocationView, DiagnosticView> {
    assembled(
        entry,
        base64_decoding(trimmed(entry.first_text())),
        base64_decoding(trimmed(entry.second_text())),
    )
}

/// The key of a record in the store, or the warning that it has none.
pub open spec fn key_of_record(r: RevocationView) -> Result<Seq<u8>, DiagnosticView> {
    match encoded(r) {
        Ok(key) => Ok(key),
        Err(e) => Err(diagnostic(Message::Unencodable(e), ContextView::Record(r))),
    }
}

/// The key of an entry in the store, or the warning that it has none.
pub open spec fn key_of(entry: OneCRLEntry) -> Result<Seq<u8>, DiagnosticView> {
    match revocation_of(entry) {
        Ok(r) => key_of_record(r),
        Err(d) => Err(d),
    }
}

/// What an entry contributes to the remote set.
pub open spec fn outcome_of(entry: OneCRLEntry) -> Outcome {
    match revocation_of(entry) {
        Ok(r) => Outcome::Candidate(r),
        Err(d) => Outcome::Rejected(d),
    }
}

/// What a raw entry contributes to the remote set: a warning where it has
/// no shape or both, else what the entry of its shape contributes.
pub open spec fn raw_outcome(raw: RawEntry) -> Outcome {
    match typed(raw) {
        Ok(entry) => outcome_of(entry),
        Err(message) => Outcome::Rejected(diagnostic(message, ContextView::Nothing)),
    }
}

/// What the entries of a payload contribute to the remote set, in order.
pub open spec fn raw_outcomes(entries: Seq<RawEntry>) -> Seq<Outcome> {
    entries.map_values(|raw: RawEntry| raw_outcome(raw))
}

/// Keeps the keys of the entries that have one.
pub open spec fn keep_keys() -> spec_fn(OneCRLEntry) -> Option<Seq<u8>> {
    |entry: OneCRLEntry|
        match key_of(entry) {
            Ok(key) => Some(key),
            Err(_) => None,
        }
}

/// Keeps a warning for each entry that has no key.
pub open spec fn keep_keyless() -> spec_fn(OneCRLEntry) -> Option<DiagnosticView> {
    |entry: OneCRLEntry|
        match key_of(entry) {
            Ok(_) => None,
            Err(d) => Some(d),
        }
}

/// The views of a list of keys.
pub open spec fn key_views(keys: Seq<Vec<u8>>) -> Seq<Seq<u8>> {
    keys.map_values(|k: Vec<u8>| k@)
}

impl RawEntry {
    /// Tells which shape the entry has.
    pub fn classify(&self) -> (r: Result<OneCRLEntry, Message>)
        ensures
            r == typed(*self),
    {
        let serial = self.issuer_name.is_some() && self.serial_number.is_some();
        let key_hash = self.subject.is_some() && self.pub_key_hash.is_some();
        if serial && key_hash {
            return Err(Message::AmbiguousFields);
        }
        match (&self.issuer_name, &self.serial_number) {
            (Some(issuer_name), Some(serial_number)) => {
                return Ok(
                    OneCRLEntry::Serial {
                        issuer_name: issuer_name.clone(),
                        serial_number: serial_number.clone(),
                    },
                );
            },
            _ => {},
        }
        match (&self.subject, &self.pub_key_hash) {
            (Some(subject), Some(pub_key_hash)) => Ok(
                OneCRLEntry::KeyHash {
                    subject_name: subject.clone(),
                    pub_key_hash: pub_key_hash.clone(),
                },
            ),
            _ => Err(Message::MissingFields),
        }
    }
}

impl OneCRLEntry {
    /// The kind of record that the entry stands for.
    pub open spec fn kind(self) -> RevocationKind {
        match self {
            OneCRLEntry::Serial { .. } => RevocationKind::IssuerSerial,
            OneCRLEntry::KeyHash { .. } => RevocationKind::SubjectKeyHash,
        }
    }

    /// The text of the first field: the issuer, or the subject.
    pub open spec fn first_text(self) -> Seq<char> {
        match self {
            OneCRLEntry::Serial { issuer_name, .. } => issuer_name@,
            OneCRLEntry::KeyHash { subject_name, .. } => subject_name@,
        }
    }

    /// The text of the second field: the serial number, or the key hash.
    pub open spec fn second_text(self) -> Seq<char> {
        match self {
            OneCRLEntry::Serial { serial_number, .. } => serial_number@,
            OneCRLEntry::KeyHash { pub_key_hash, .. } => pub_key_hash@,
        }
    }

    /// The name of the first field.
    pub open spec fn first_field(self) -> Field {
        match self {
            OneCRLEntry::Serial { .. } => Field::IssuerName,
            OneCRLEntry::KeyHash { .. } => Field::Subject,
        }
    }

    /// The name of the second field.
    pub open spec fn second_field(self) -> Field {
        match self {
            OneCRLEntry::Serial { .. } => Field::SerialNumber,
            OneCRLEntry::KeyHash { .. } => Field::PubKeyHash,
        }
    }

    /// The record of the entry, from what its two texts were decoded to.
    /// `None` stands for a text that is not base64.
    pub fn assemble(&self, first: Option<Vec<u8>>, second: Option<Vec<u8>>) -> (r: Result<
        Revocation,
        Diagnostic,
    >)
        ensures
            match assembled(*self, bytes_view(first), bytes_view(second)) {
                Ok(v) => r matches Ok(rec) && rec@ == v,
                Err(d) => r matches Err(x) && x@ == d,
            },
    {
        let (kind, first_field, first_text, second_field, second_text) = match self {
            OneCRLEntry::Serial { issuer_name, serial_number } => (
                RevocationKind::IssuerSerial,
                Field::IssuerName,
                issuer_name,
                Field::SerialNumber,
                serial_number,
            ),
            OneCRLEntry::KeyHash { subject_name, pub_key_hash } => (
                RevocationKind::SubjectKeyHash,
                Field::Subject,
                subject_name,
                Field::PubKeyHash,
                pub_key_hash,
            ),
        };
        let first = match first {
            Some(bytes) => bytes,
            None => {
                return Err(
                    Diagnostic::new(
                        Message::InvalidBase64(first_field),
                        Context::Text(first_text.clone()),
                    ),
                );
            },
        };
        let second = match second {
            Some(bytes) => bytes,
            None => {
                return Err(
                    Diagnostic::new(
                        Message::InvalidBase64(second_field),
                        Context::Text(second_text.clone()),
                    ),
                );
            },
        };
        if first.len() == 0 {
            return Err(
                Diagnostic::new(Message::EmptyField(first_field), Context::Text(first_text.clone())),
            );
        }
        if second.len() == 0 {
            return Err(
                Diagnostic::new(
                    Message::EmptyField(second_field),
                    Context::Text(second_text.clone()),
                ),
            );
        }
        Ok(Revocation::from_non_empty(kind, first, second))
    }

    /// The record that the entry stands for, or the warning that says why it
    /// stands for none.
    pub fn to_revocation(&self) -> (r: Result<Revocation, Diagnostic>)
        ensures
            match revocation_of(*self) {
                Ok(v) => r matches Ok(rec) && rec@ == v,
                Err(d) => r matches Err(x) && x@ == d,
            },
    {
        let (first_text, second_text) = match self {
            OneCRLEntry::Serial { issuer_name, serial_number } => (issuer_name, serial_number),
            OneCRLEntry::KeyHash { subject_name, pub_key_hash } => (subject_name, pub_key_hash),
        };
        let first = match base64_decode(first_text.as_str().trim()) {
            Ok(bytes) => Some(bytes),
            Err(_) => None,
        };
        let second = if first.is_some() {
            match base64_decode(second_text.as_str().trim()) {
                Ok(bytes) => Some(bytes),
                Err(_) => None,
            }
        } else {
            None
        };
        self.assemble(first, second)
    }

    /// The key of the entry in the store, or the warning that says why it
    /// has none.
    pub fn to_key(&self) -> (r: Result<Vec<u8>, Diagnostic>)
        ensures
            match key_of(*self) {
                Ok(key) => r matches Ok(k) && k@ == key,
                Err(d) => r matches Err(x) && x@ == d,
            },
    {
        match self.to_revocation() {
            Ok(rec) => record_key(rec),
            Err(d) => Err(d),
        }
    }

    /// The key of the entry in the store, if it has one.
    pub fn to_cert_storage(&self) -> (key: Option<Vec<u8>>)
        ensures
            match key_of(*self) {
                Ok(bytes) => key matches Some(k) && k@ == bytes,
                Err(_) => key is None,
            },
    {
        match self.to_key() {
            Ok(key) => Some(key),
            Err(_) => None,
        }
    }
}

/// The key of a record in the store, or the warning that it has none.
pub fn record_key(rec: Revocation) -> (r: Result<Vec<u8>, Diagnostic>)
    ensures
        match key_of_record(rec@) {
            Ok(key) => r matches Ok(k) && k@ == key,
            Err(d) => r matches Err(x) && x@ == d,
        },
{
    match encode(&rec) {
        Ok(key) => Ok(key),
        Err(e) => Err(Diagnostic::new(Message::Unencodable(e), Context::Record(rec))),
    }
}

impl OneCRL {
    /// What the entries contribute to the remote set, in their order.
    pub open spec fn outcomes(self) -> Seq<Outcome> {
        self.data@.map_values(|entry: OneCRLEntry| outcome_of(entry))
    }

    /// Builds the list from the entries of a payload. Entries without the
    /// fields of exactly one shape are left out, with a warning each.
    pub fn from_raw(entries: &Vec<RawEntry>) -> (r: (OneCRL, Vec<Diagnostic>))
        ensures
            r.0.data@ == entries@.filter_map(keep_typed()),
            diagnostic_views(r.1@) == entries@.filter_map(keep_untyped()),
    {
        let mut data: Vec<OneCRLEntry> = Vec::new();
        let mut diagnostics: Vec<Diagnostic> = Vec::new();
        let mut i: usize = 0;
        assert(entries@.take(0) == Seq::<RawEntry>::empty());
        assert(diagnostic_views(diagnostics@) == Seq::<DiagnosticView>::empty());
        while i < entries.len()
            invariant
                i <= entries.len(),
                data@ == entries@.take(i as int).filter_map(keep_typed()),
                diagnostic_views(diagnostics@) == entries@.take(i as int).filter_map(
                    keep_untyped(),
                ),
            decreases entries.len() - i,
        {
            proof {
                let next = entries@.take(i + 1);
                assert(next.drop_last() == entries@.take(i as int));
                assert(next.last() == entries@[i as int]);
            }
            match entries[i].classify() {
                Ok(entry) => {
                    data.push(entry);
                },
                Err(message) => {
                    let d = Diagnostic::new(message, Context::Nothing);
                    assert(diagnostic_views(diagnostics@.push(d)) == diagnostic_views(
                        diagnostics@,
                    ).push(d@));
                    diagnostics.push(d);
                },
            }
            i += 1;
        }
        assert(entries@.take(i as int) == entries@);
        (OneCRL { data }, diagnostics)
    }

    /// Builds the remote set. An entry whose fields do not decode is left
    /// out with a warning, and so is one that the set already holds.
    pub fn revocations(&self) -> (g: Gathering)
        ensures
            g@ == gather(Origin::Remote, self.outcomes()),
    {
        let mut g = Gathering::new(Origin::Remote);
        let mut i: usize = 0;
        let ghost all = self.outcomes();
        assert(all.take(0) == Seq::<Outcome>::empty());
        while i < self.data.len()
            invariant
                i <= self.data.len(),
                all == self.outcomes(),
                g@ == gather(Origin::Remote, all.take(i as int)),
            decreases self.data.len() - i,
        {
            proof {
                let next = all.take(i + 1);
                assert(next.drop_last() == all.take(i as int));
                assert(next.last() == outcome_of(self.data@[i as int]));
            }
            match self.data[i].to_revocation() {
                Ok(rec) => g.record(rec),
                Err(d) => g.reject(d),
            }
            i += 1;
        }
        assert(all.take(i as int) == all);
        g
    }

    /// The keys to write to the store, in the order of the list. An entry
    /// without a key is left out with a warning.
    pub fn keys(&self) -> (r: (Vec<Vec<u8>>, Vec<Diagnostic>))
        ensures
            key_views(r.0@) == self.data@.filter_map(keep_keys()),
            diagnostic_views(r.1@) == self.data@.filter_map(keep_keyless()),
    {
        let mut keys: Vec<Vec<u8>> = Vec::new();
        let mut diagnostics: Vec<Diagnostic> = Vec::new();
        let mut i: usize = 0;
        assert(self.data@.take(0) == Seq::<OneCRLEntry>::empty());
        assert(diagnostic_views(diagnostics@) == Seq::<DiagnosticView>::empty());
        assert(key_views(keys@) == Seq::<Seq<u8>>::empty());
        while i < self.data.len()
            invariant
                i <= self.data.len(),
                key_views(keys@) == self.data@.take(i as int).filter_map(keep_keys()),
                diagnostic_views(diagnostics@) == self.data@.take(i as int).filter_map(
                    keep_keyless(),
                ),
            decreases self.data.len() - i,
        {
            proof {
                let next = self.data@.take(i + 1);
                assert(next.drop_last() == self.data@.take(i as int));
                assert(next.last() == self.data@[i as int]);
            }
            match self.data[i].to_key() {
                Ok(key) => {
                    assert(key_views(keys@.push(key)) == key_views(keys@).push(key@));
                    keys.push(key);
                },
                Err(d) => {
                    assert(diagnostic_views(diagnostics@.push(d)) == diagnostic_views(
                        diagnostics@,
                    ).push(d@));
                    diagnostics.push(d);
                },
            }
            i += 1;
        }
        assert(self.data@.take(i as int) == self.data@);
        (keys, diagnostics)
    }
}

/// Builds the remote set from the entries of a payload, in one pass. An
/// entry is left out with a warning where it lacks the fields of exactly one
/// shape, where a field does not decode, and where the set already holds its
/// record.
pub fn current_revocations(entries: &Vec<RawEntry>) -> (g: Gathering)
    ensures
        g@ == gather(Origin::Remote, raw_outcomes(entries@)),
{
    let mut g = Gathering::new(Origin::Remote);
    let mut i: usize = 0;
    let ghost all = raw_outcomes(entries@);
    assert(all.take(0) == Seq::<Outcome>::empty());
    while i < entries.len()
        invariant
            i <= entries.len(),
            all == raw_outcomes(entries@),
            g@ == gather(Origin::Remote, all.take(i as int)),
        decreases entries.len() - i,
    {
        proof {
            let next = all.take(i + 1);
            assert(next.drop_last() == all.take(i as int));
            assert(next.last() == raw_outcome(entries@[i as int]));
        }
        match entries[i].classify() {
            Ok(entry) => match entry.to_revocation() {
                Ok(rec) => g.record(rec),
                Err(d) => g.reject(d),
            },
            Err(message) => g.reject(Diagnostic::new(message, Context::Nothing)),
        }
        i += 1;
    }
    assert(all.take(i as int) == all);
    g
}

} // verus!
