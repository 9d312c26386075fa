//! The error kinds that the chain core reports.  Integrity errors
//! reject single events and never bring the chain down; crypto errors
//! surface to the reader while the data stays on disk; commit errors
//! are reported per transaction.

use vstd::prelude::*;
use crate::PrimaryKey;
use crate::crypto::AteHash;
use crate::crypto::KeySize;
use crate::meta::ReadOption;
use crate::meta::WriteOption;
use crate::meta::WriteOptionV;

verus! {

/// Authorization resolution failures.
#[derive(Debug)]
pub enum TrustError {
    /// A record inherits from a parent that the chain does not hold.
    MissingParent(PrimaryKey),
    /// The session holds no key that may write this record.
    NoAuthorizationWrite(PrimaryKey, WriteOption),
    /// The session holds no key that may read this record.
    NoAuthorizationRead(PrimaryKey, ReadOption),
    /// A record that needs signing has no data key to anchor it.
    NoAuthorizationOrphan,
    /// Authorization resolved to an inherited write option at the root.
    UnspecifiedWritability,
}

/// Event validation failures; each rejects the event, never the chain.
#[derive(Debug)]
pub enum ValidationError {
    /// A signature entry on the event failed cryptographic
    /// verification.
    InvalidSignature,
    /// The event carries no signature that the chain has verified.
    NoSignatures,
    /// The event's signatures name no key in the resolved write set.
    Detached,
    Trust(TrustError),
}

/// Failures while stamping extra metadata before a store.
#[derive(Debug)]
pub enum LintError {
    Trust(TrustError),
}

/// Payload transformation failures on the read or write path.
#[derive(Debug)]
pub enum TransformError {
    /// Metadata carries an initialization vector but no
    /// confidentiality entry to say whose key it belongs to.
    UnspecifiedReadability,
    /// The session holds no read key with this hash.
    MissingReadKey(AteHash),
    /// A confidentiality entry without an initialization vector.
    NoIvPresent,
    Trust(TrustError),
}

/// Failures while feeding an event into plugin state.
#[derive(Debug)]
pub enum SinkError {
    /// A signature entry failed cryptographic verification.
    InvalidSignature,
}

/// Per-transaction commit failures.
#[derive(Debug)]
pub enum CommitError {
    /// The session died before the root confirmed.
    Aborted,
    /// The root rejected the commit.
    RootError(String),
    Timeout,
    Validation(ValidationError),
    Lint(LintError),
    Transform(TransformError),
    Sink(SinkError),
    Log(LogError),
}

/// Mesh transport failures.
#[derive(Debug)]
pub enum CommsError {
    Disconnected,
    /// The server terminated the session; the reason goes to the
    /// loader.
    Fatal(String),
    /// The local chain rejected what the wire delivered.
    Rejected(CommitError),
    /// Wire encryption was required but no certificate is loaded.
    MissingCertificate,
    /// The loaded certificate is smaller than the required key size.
    CertificateTooWeak(KeySize, KeySize),
}

/// Failures while opening or replaying a redo log.
#[derive(Debug, Clone, Copy, PartialEq, Eq, Structural)]
pub enum LogError {
    /// The file starts with bytes that are not a known magic header.
    BadMagic,
    /// A frame field would not fit its 32-bit length prefix.
    Oversize,
    /// An event carried a present but empty payload.
    EmptyPayload,
}

/// Failures while opening a chain from its log image.
#[derive(Debug)]
pub enum ChainCreationError {
    Log(LogError),
    /// A replayed event carries a signature that does not verify.
    Sink(SinkError),
}

/// Failures while loading one record out of the chain.
#[derive(Debug)]
pub enum LoadError {
    NotFound(PrimaryKey),
    Transform(TransformError),
}


/// The mathematical shape of a trust error.
pub enum TrustErrorV {
    MissingParent(PrimaryKey),
    NoAuthorizationWrite(PrimaryKey, WriteOptionV),
    NoAuthorizationRead(PrimaryKey, ReadOption),
    NoAuthorizationOrphan,
    UnspecifiedWritability,
}

impl View for TrustError {
    type V = TrustErrorV;

    open spec fn view(&self) -> TrustErrorV {
        match self {
            TrustError::MissingParent(k) => TrustErrorV::MissingParent(*k),
            TrustError::NoAuthorizationWrite(k, w) => TrustErrorV::NoAuthorizationWrite(*k, w@),
            TrustError::NoAuthorizationRead(k, r) => TrustErrorV::NoAuthorizationRead(*k, *r),
            TrustError::NoAuthorizationOrphan => TrustErrorV::NoAuthorizationOrphan,
            TrustError::UnspecifiedWritability => TrustErrorV::UnspecifiedWritability,
        }
    }
}

/// The mathematical shape of a validation error.
pub enum ValidationErrorV {
    InvalidSignature,
    NoSignatures,
    Detached,
    Trust(TrustErrorV),
}

impl View for ValidationError {
    type V = ValidationErrorV;

    open spec fn view(&self) -> ValidationErrorV {
        match self {
            ValidationError::InvalidSignature => ValidationErrorV::InvalidSignature,
            ValidationError::NoSignatures => ValidationErrorV::NoSignatures,
            ValidationError::Detached => ValidationErrorV::Detached,
            ValidationError::Trust(t) => ValidationErrorV::Trust(t@),
        }
    }
}

/// The mathematical shape of a lint error.
pub enum LintErrorV {
    Trust(TrustErrorV),
}

impl View for LintError {
    type V = LintErrorV;

    open spec fn view(&self) -> LintErrorV {
        match self {
            LintError::Trust(t) => LintErrorV::Trust(t@),
        }
    }
}

/// The mathematical shape of a transform error.
pub enum TransformErrorV {
    UnspecifiedReadability,
    MissingReadKey(AteHash),
    NoIvPresent,
    Trust(TrustErrorV),
}

impl View for TransformError {
    type V = TransformErrorV;

    open spec fn view(&self) -> TransformErrorV {
        match self {
            TransformError::UnspecifiedReadability => TransformErrorV::UnspecifiedReadability,
            TransformError::MissingReadKey(h) => TransformErrorV::MissingReadKey(*h),
            TransformError::NoIvPresent => TransformErrorV::NoIvPresent,
            TransformError::Trust(t) => TransformErrorV::Trust(t@),
        }
    }
}

} // verus!
