//! What the parsing and reconciliation steps report besides their result.
//!
//! No step prints or aborts. Each returns the diagnostics it raised, in the
//! order in which it met their causes, and the caller decides how to show
//! them. A diagnostic is a severity, a message and, where there is one, the
//! raw value that caused it.

use crate::codec::CodecError;
use crate::record::{Revocation, RevocationView};
use vstd::prelude::*;

verus! {

/// How grave a diagnostic is.
#[derive(Clone, Copy, Debug, PartialEq, Eq, Structural)]
pub enum Severity {
    /// One entry was dropped; the run goes on.
    Warning,
    /// The operation cannot go on.
    Fatal,
}

/// One of the four text fields of a remote entry.
#[derive(Clone, Copy, Debug, PartialEq, Eq, Structural)]
pub enum Field {
    IssuerName,
    SerialNumber,
    Subject,
    PubKeyHash,
}

/// Which of the two sources a set is built from.
#[derive(Clone, Copy, Debug, PartialEq, Eq, Structural)]
pub enum Origin {
    /// The OneCRL list.
    Remote,
    /// The `cert_storage` database.
    Local,
}

/// What a diagnostic says.
#[derive(Clone, Copy, Debug, PartialEq, Eq, Structural)]
pub enum Message {
    /// A remote entry has neither an issuer and a serial number nor a subject
    /// and a key hash.
    MissingFields,
    /// A remote entry has both pairs of fields.
    AmbiguousFields,
    /// A field of a remote entry is not base64.
    InvalidBase64(Field),
    /// A field of a remote entry decodes to no bytes at all.
    EmptyField(Field),
    /// A record occurred again while a set was built; the first one stays.
    Duplicate(Origin),
    /// The value stored under a revocation key is neither absent nor 0 nor 1.
    UnexpectedValue,
    /// A stored key with a revocation tag does not decode.
    UndecodableKey(CodecError),
    /// A record has no key in the store's layout.
    Unencodable(CodecError),
    /// The store refused a write; the transaction is rolled back.
    PutFailed,
    /// The store refused to commit the transaction.
    CommitFailed,
}

/// The raw value that a diagnostic is about.
#[derive(Debug, PartialEq, Eq)]
pub enum Context {
    /// Nothing more to show.
    Nothing,
    /// The text of a field, as it was received.
    Text(String),
    /// The bytes of a stored key.
    Bytes(Vec<u8>),
    /// A whole record.
    Record(Revocation),
}

/// The mathematical value of a [`Context`].
pub enum ContextView {
    Nothing,
    Text(Seq<char>),
    Bytes(Seq<u8>),
    Record(RevocationView),
}

impl View for Context {
    type V = ContextView;

    open spec fn view(&self) -> ContextView {
        match self {
            Context::Nothing => ContextView::Nothing,
            Context::Text(text) => ContextView::Text(text@),
            Context::Bytes(bytes) => ContextView::Bytes(bytes@),
            Context::Record(record) => ContextView::Record(record@),
        }
    }
}

/// One report of a step.
#[derive(Debug, PartialEq, Eq)]
pub struct Diagnostic {
    pub severity: Severity,
    pub message: Message,
    pub context: Context,
}

/// The mathematical value of a [`Diagnostic`].
pub struct DiagnosticView {
    pub severity: Severity,
    pub message: Message,
    pub context: ContextView,
}

impl View for Diagnostic {
    type V = DiagnosticView;

    open spec fn view(&self) -> DiagnosticView {
        DiagnosticView { severity: self.severity, message: self.message, context: self.context@ }
    }
}

/// The views of a list of diagnostics.
pub open spec fn diagnostic_views(list: Seq<Diagnostic>) -> Seq<DiagnosticView> {
    list.map_values(|d: Diagnostic| d@)
}

/// The severity that goes with a message: a failed write or commit is fatal,
/// everything else costs one entry and is a warning.
pub open spec fn severity_of(message: Message) -> Severity {
    match message {
        Message::PutFailed | Message::CommitFailed => Severity::Fatal,
        _ => Severity::Warning,
    }
}

/// The diagnostic with the given message and context.
pub open spec fn diagnostic(message: Message, context: ContextView) -> DiagnosticView {
    DiagnosticView { severity: severity_of(message), message, context }
}

impl Message {
    /// The severity that goes with this message.
    pub fn severity(&self) -> (s: Severity)
        ensures
            s == severity_of(*self),
    {
        match self {
            Message::PutFailed | Message::CommitFailed => Severity::Fatal,
            _ => Severity::Warning,
        }
    }
}

impl Diagnostic {
    /// Builds the diagnostic with the given message and context.
    pub fn new(message: Message, context: Context) -> (d: Diagnostic)
        ensures
            d@ == diagnostic(message, context@),
    {
        Diagnostic { severity: message.severity(), message, context }
    }
}

} // verus!
