use ate::chain::{Chain, ChainKey};
use ate::crypto::{EncryptKey, KeyDerivation, PrivateSignKey};
use ate::error::{LoadError, TransformError, TrustError, ValidationError};
use ate::event::{EventData, MessageFormat};
use ate::meta::{
    ChainTimestamp, CoreMetadata, Metadata, MetaAuthorization, MetaCollection, MetaParent,
    ReadOption, WriteOption,
};
use ate::session::{AteSession, ConversationSession};
use ate::transaction::{Scope, Transaction, TransactionMetadata};
use ate::tree::{ComputePhase, IntegrityMode, SignaturePlugin, TreeAuthorityPlugin};
use ate::PrimaryKey;

fn record(key: u128, stamp: u64, payload: Vec<u8>) -> EventData {
    let meta = Metadata {
        core: vec![
            CoreMetadata::Data(PrimaryKey { val: key }),
            CoreMetadata::Timestamp(ChainTimestamp { time_since_epoch_ms: stamp }),
        ],
    };
    EventData::new(meta, Some(payload), MessageFormat::Binary)
}

#[test]
fn unsigned_replicated_event_is_rejected_in_distributed_mode() {
    // validation soundness: no signature from the write set, write
    // option is not everyone, no centralized short-circuit
    let mut chain = Chain::new(ChainKey { name: "v".to_string() });
    let root = PrivateSignKey::new(vec![1u8; 32]);
    chain.plugin.add_root_public_key(root.as_public_key());
    let mut conv = ConversationSession::none();
    let r = chain.feed_replicated(vec![record(1, 5, b"x".to_vec())], &mut conv);
    match r {
        Err(ate::error::CommitError::Validation(ValidationError::NoSignatures)) => {}
        other => panic!("expected a no-signatures rejection, not {:?}", is_ok(&other)),
    }
    assert_eq!(chain.count(), 0);
}

fn is_ok<T, E>(r: &Result<T, E>) -> bool {
    r.is_ok()
}

#[test]
fn everyone_write_option_accepts_unsigned_events() {
    let mut chain = Chain::new(ChainKey { name: "w".to_string() });
    let mut conv = ConversationSession::none();
    chain
        .feed_replicated(vec![record(1, 5, b"x".to_vec())], &mut conv)
        .expect("no root keys means everyone may write");
    assert_eq!(chain.count(), 1);
}

#[test]
fn centralized_short_circuit_trusts_a_known_writer() {
    // first event carries a verified signature by key K; later events
    // by the same conversation pass without fresh signature bytes
    let key = PrivateSignKey::new(vec![7u8; 32]);
    let mut plugin = TreeAuthorityPlugin::new();
    plugin.add_root_public_key(key.as_public_key());
    plugin.set_integrity_mode(IntegrityMode::Centralized);
    let mut conv = ConversationSession::new(false);
    // a signature event: K signs some event hash, observed on feed
    let target = record(1, 5, b"x".to_vec()).as_header_raw().event_hash;
    let msg = ate::tree::sig_message(&vec![target]);
    let sig = key.sign(&msg);
    let sig_meta = Metadata {
        core: vec![CoreMetadata::Signature(ate::meta::MetaSignature {
            hashes: vec![target],
            signature: sig,
            public_key: key.as_public_key().duplicate(),
        })],
    };
    let sig_header = EventData::new(sig_meta, None, MessageFormat::Binary).into_header();
    plugin.feed(&sig_header, &mut conv).expect("the signature verifies");
    // a later unsigned data event by the same conversation is allowed
    let unsigned = record(2, 6, b"y".to_vec()).into_header();
    let staged = SignaturePlugin::new();
    plugin
        .validate(&unsigned, &conv, &staged)
        .expect("the conversation already presented this writer");
    // a fresh conversation is not trusted
    let fresh = ConversationSession::new(false);
    match plugin.validate(&unsigned, &fresh, &staged) {
        Err(ValidationError::NoSignatures) => {}
        _ => panic!("expected a no-signatures rejection"),
    }
    // in distributed mode the same conversation is not enough
    plugin.set_integrity_mode(IntegrityMode::Distributed);
    match plugin.validate(&unsigned, &conv, &staged) {
        Err(ValidationError::NoSignatures) => {}
        _ => panic!("expected a no-signatures rejection"),
    }
}

#[test]
fn round_trip_secrecy() {
    // a record written under a specific read option decrypts for the
    // session holding the key and is refused for any other session
    let read_key = EncryptKey { val: 0xABCD_EF01_2345_6789 };
    let kh = read_key.hash();
    let deriv = KeyDerivation { salt: 42 };
    let mut writer = AteSession::new();
    writer.add_read_key(read_key);
    let mut chain = Chain::new(ChainKey { name: "s".to_string() });
    let mut conv = ConversationSession::none();
    let meta = Metadata {
        core: vec![
            CoreMetadata::Data(PrimaryKey { val: 1 }),
            CoreMetadata::Timestamp(ChainTimestamp { time_since_epoch_ms: 5 }),
            CoreMetadata::Authorization(MetaAuthorization {
                read: ReadOption::Specific(kh, deriv),
                write: WriteOption::Everyone,
            }),
        ],
    };
    let secret = b"attack at dawn".to_vec();
    let ev = EventData::new(meta, Some(secret.clone()), MessageFormat::Binary);
    chain
        .feed(Transaction { scope: Scope::Local, events: vec![ev] }, &writer, &mut conv)
        .expect("commits");
    // the payload on disk is not the plaintext
    let image = chain.log_image().clone();
    let needle = secret.as_slice();
    let found = image.windows(needle.len()).any(|w| w == needle);
    assert!(!found, "the payload must not appear in clear in the log");
    // the holder of the key reads it back
    let got = chain.load(&PrimaryKey { val: 1 }, &writer).expect("decrypts");
    assert_eq!(got, secret);
    // a session without the key is refused
    let stranger = AteSession::new();
    match chain.load(&PrimaryKey { val: 1 }, &stranger) {
        Err(LoadError::Transform(TransformError::MissingReadKey(h))) => {
            assert_eq!(h.val, kh.val);
        }
        _ => panic!("expected a missing-read-key refusal"),
    }
}

#[test]
fn tombstoned_parent_breaks_inheritance() {
    // parent P with a specific read option; child C inherits; after P
    // is tombstoned, resolving C's options is a missing-parent error
    let read_key = EncryptKey { val: 77 };
    let kh = read_key.hash();
    let deriv = KeyDerivation { salt: 1 };
    let mut plugin = TreeAuthorityPlugin::new();
    let p_meta = Metadata {
        core: vec![
            CoreMetadata::Data(PrimaryKey { val: 100 }),
            CoreMetadata::Authorization(MetaAuthorization {
                read: ReadOption::Specific(kh, deriv),
                write: WriteOption::Everyone,
            }),
        ],
    };
    let p_header = EventData::new(p_meta, Some(b"p".to_vec()), MessageFormat::Binary).into_header();
    let mut conv = ConversationSession::none();
    plugin.feed(&p_header, &mut conv).expect("feeds");
    let c_meta = Metadata {
        core: vec![
            CoreMetadata::Data(PrimaryKey { val: 101 }),
            CoreMetadata::Tree(MetaParent {
                vec: MetaCollection { parent_id: PrimaryKey { val: 100 }, collection_id: 0 },
            }),
        ],
    };
    let c_header = EventData::new(c_meta, Some(b"c".to_vec()), MessageFormat::Binary).into_header();
    plugin.feed(&c_header, &mut conv).expect("feeds");
    // before the tombstone the child resolves to the parent's option
    let tm = TransactionMetadata::new();
    let resolved = plugin
        .compute_auth(&c_header.meta, &tm, ComputePhase::AfterStore)
        .expect("resolves");
    match resolved.read {
        ReadOption::Specific(h, _) => assert_eq!(h.val, kh.val),
        _ => panic!("expected the inherited specific read option"),
    }
    // tombstone P
    let t_meta = Metadata { core: vec![CoreMetadata::Tombstone(PrimaryKey { val: 100 })] };
    let t_header = EventData::new(t_meta, None, MessageFormat::Binary).into_header();
    plugin.feed(&t_header, &mut conv).expect("feeds");
    match plugin.compute_auth(&c_header.meta, &tm, ComputePhase::AfterStore) {
        Err(TrustError::MissingParent(k)) => assert_eq!(k.val, 100),
        _ => panic!("expected a missing-parent error"),
    }
}

#[test]
fn lint_rejects_unwritable_records() {
    let mut plugin = TreeAuthorityPlugin::new();
    let root = PrivateSignKey::new(vec![5u8; 32]);
    plugin.add_root_public_key(root.as_public_key());
    let session = AteSession::new();
    let tm = TransactionMetadata::new();
    let meta = Metadata { core: vec![CoreMetadata::Data(PrimaryKey { val: 1 })] };
    match plugin.metadata_lint_event(&meta, &session, &tm) {
        Err(ate::error::LintError::Trust(TrustError::NoAuthorizationWrite(k, _))) => {
            assert_eq!(k.val, 1);
        }
        _ => panic!("expected a no-authorization-write rejection"),
    }
}

#[test]
fn signature_by_a_foreign_key_is_detached() {
    // the event carries a verified signature, but by a key outside
    // the resolved write set
    let mut chain = Chain::new(ChainKey { name: "d".to_string() });
    let root = PrivateSignKey::new(vec![1u8; 32]);
    chain.plugin.add_root_public_key(root.as_public_key());
    let foreign = PrivateSignKey::new(vec![2u8; 32]);
    let data = record(1, 5, b"x".to_vec());
    let target = data.as_header_raw().event_hash;
    let msg = ate::tree::sig_message(&vec![target]);
    let sig = foreign.sign(&msg);
    let sig_event = EventData::new(
        Metadata {
            core: vec![CoreMetadata::Signature(ate::meta::MetaSignature {
                hashes: vec![target],
                signature: sig,
                public_key: foreign.as_public_key().duplicate(),
            })],
        },
        None,
        MessageFormat::Binary,
    );
    let mut conv = ConversationSession::none();
    match chain.feed_replicated(vec![sig_event, data], &mut conv) {
        Err(ate::error::CommitError::Validation(ValidationError::Detached)) => {}
        _ => panic!("expected a detached rejection"),
    }
}

#[test]
fn corrupted_signature_bytes_are_refused() {
    let mut chain = Chain::new(ChainKey { name: "e".to_string() });
    let key = PrivateSignKey::new(vec![3u8; 32]);
    let data = record(1, 5, b"x".to_vec());
    let target = data.as_header_raw().event_hash;
    let msg = ate::tree::sig_message(&vec![target]);
    let mut sig = key.sign(&msg);
    sig[0] ^= 0xFF;
    let sig_event = EventData::new(
        Metadata {
            core: vec![CoreMetadata::Signature(ate::meta::MetaSignature {
                hashes: vec![target],
                signature: sig,
                public_key: key.as_public_key().duplicate(),
            })],
        },
        None,
        MessageFormat::Binary,
    );
    let mut conv = ConversationSession::none();
    match chain.feed_replicated(vec![sig_event], &mut conv) {
        Err(ate::error::CommitError::Sink(ate::error::SinkError::InvalidSignature)) => {}
        _ => panic!("expected an invalid-signature refusal"),
    }
    assert_eq!(chain.count(), 0);
}

#[test]
fn nonce_without_confidentiality_is_unreadable() {
    // an initialization vector with no confidentiality entry: nobody
    // said whose key it is
    let mut chain = Chain::new(ChainKey { name: "f".to_string() });
    let meta = Metadata {
        core: vec![
            CoreMetadata::Data(PrimaryKey { val: 1 }),
            CoreMetadata::Timestamp(ChainTimestamp { time_since_epoch_ms: 5 }),
            CoreMetadata::InitializationVector(ate::crypto::InitializationVector {
                bytes: vec![1u8; 16],
            }),
        ],
    };
    let ev = EventData::new(meta, Some(b"x".to_vec()), MessageFormat::Binary);
    let mut conv = ConversationSession::none();
    chain.feed_replicated(vec![ev], &mut conv).expect("stores");
    let session = AteSession::new();
    match chain.load(&PrimaryKey { val: 1 }, &session) {
        Err(LoadError::Transform(TransformError::UnspecifiedReadability)) => {}
        _ => panic!("expected an unspecified-readability refusal"),
    }
}

#[test]
fn confidentiality_without_nonce_is_a_hard_error() {
    let read_key = EncryptKey { val: 5 };
    let mut session = AteSession::new();
    session.add_read_key(read_key);
    let mut chain = Chain::new(ChainKey { name: "g".to_string() });
    let kh = read_key.hash();
    let deriv = KeyDerivation { salt: 3 };
    let inner = deriv.transmute(&read_key);
    let meta = Metadata {
        core: vec![
            CoreMetadata::Data(PrimaryKey { val: 1 }),
            CoreMetadata::Timestamp(ChainTimestamp { time_since_epoch_ms: 5 }),
            CoreMetadata::Confidentiality(ate::meta::MetaConfidentiality {
                hash: inner.short_hash(),
                cache: Some(ReadOption::Specific(kh, deriv)),
            }),
        ],
    };
    let ev = EventData::new(meta, Some(b"x".to_vec()), MessageFormat::Binary);
    let mut conv = ConversationSession::none();
    chain.feed_replicated(vec![ev], &mut conv).expect("stores");
    match chain.load(&PrimaryKey { val: 1 }, &session) {
        Err(LoadError::Transform(TransformError::NoIvPresent)) => {}
        _ => panic!("expected a missing-nonce refusal"),
    }
}

#[test]
fn adding_the_same_root_key_twice_is_adding_it_once() {
    let mut plugin = TreeAuthorityPlugin::new();
    let key = PrivateSignKey::new(vec![8u8; 32]);
    plugin.add_root_public_key(key.as_public_key());
    plugin.add_root_public_key(key.as_public_key());
    assert_eq!(plugin.root_keys().len(), 1);
    let other = PrivateSignKey::new(vec![9u8; 32]);
    plugin.add_root_public_key(other.as_public_key());
    assert_eq!(plugin.root_keys().len(), 2);
    // loading a whole list deduplicates by hash too
    let list = vec![
        key.as_public_key().duplicate(),
        other.as_public_key().duplicate(),
        key.as_public_key().duplicate(),
    ];
    plugin.set_root_keys(&list);
    assert_eq!(plugin.root_keys().len(), 2);
}
