use ate::chain::{Chain, ChainKey};
use ate::event::{EventData, MessageFormat};
use ate::meta::{ChainTimestamp, CoreMetadata, Metadata};
use ate::session::{AteSession, ConversationSession};
use ate::transaction::{Scope, Transaction};
use ate::PrimaryKey;

fn record(key: u128, stamp: u64, payload: Vec<u8>) -> EventData {
    let meta = Metadata {
        core: vec![
            CoreMetadata::Data(PrimaryKey { val: key }),
            CoreMetadata::Timestamp(ChainTimestamp { time_since_epoch_ms: stamp }),
        ],
    };
    EventData::new(meta, Some(payload), MessageFormat::Binary)
}

fn fixed_payload() -> Vec<u8> {
    let mut p = Vec::new();
    p.extend_from_slice(b"Joe");
    p.extend_from_slice(b"Blogs");
    p.extend_from_slice(&[0u8; 32]);
    p.extend_from_slice(&[1u8; 32]);
    p.extend_from_slice(&[2u8; 32]);
    for _ in 0..100 {
        p.extend_from_slice(&1234u128.to_le_bytes());
    }
    p
}

#[test]
fn load_test() {
    // create chain "load"; insert 10 000 fixed-size records across
    // 100 transactions; sync; reopen; the count and the last
    // record's update time survive
    let mut chain = Chain::new(ChainKey { name: "load".to_string() });
    let session = AteSession::new();
    let mut conv = ConversationSession::none();
    let payload = fixed_payload();
    let mut stamp = 0u64;
    for t in 0..100u64 {
        let mut events = Vec::new();
        for i in 0..100u64 {
            let key = (t * 100 + i + 1) as u128;
            stamp = 1_000_000 + t * 100 + i;
            events.push(record(key, stamp, payload.clone()));
        }
        chain
            .feed(Transaction { scope: Scope::Local, events }, &session, &mut conv)
            .expect("commits");
    }
    assert_eq!(chain.count(), 10_000);
    let image = chain.log_image().clone();
    drop(chain);
    let reopened = Chain::open(ChainKey { name: "load".to_string() }, &image).expect("reopens");
    assert_eq!(reopened.count(), 10_000);
    let last = reopened
        .indexer
        .lookup_primary(&PrimaryKey { val: 10_000 })
        .expect("last record is live");
    assert_eq!(last.updated, stamp);
    let bytes = reopened
        .load(&PrimaryKey { val: 10_000 }, &session)
        .expect("loads");
    assert_eq!(bytes, payload);
}

#[test]
fn rejected_transaction_leaves_no_partial_state() {
    let mut chain = Chain::new(ChainKey { name: "alpha".to_string() });
    let root = ate::crypto::PrivateSignKey::new(vec![9u8; 32]);
    chain.plugin.add_root_public_key(root.as_public_key());
    let session = AteSession::new(); // holds no signing key
    let mut conv = ConversationSession::none();
    let before = chain.log_image().clone();
    let r = chain.feed(
        Transaction { scope: Scope::Local, events: vec![record(1, 5, b"x".to_vec())] },
        &session,
        &mut conv,
    );
    assert!(r.is_err());
    assert_eq!(chain.count(), 0);
    assert_eq!(chain.log_image(), &before);
}

#[test]
fn signed_writes_are_accepted_under_root_keys() {
    let mut chain = Chain::new(ChainKey { name: "beta".to_string() });
    let root = ate::crypto::PrivateSignKey::new(vec![9u8; 32]);
    chain.plugin.add_root_public_key(root.as_public_key());
    let mut session = AteSession::new();
    session.add_write_key(ate::crypto::PrivateSignKey::new(vec![9u8; 32]));
    let mut conv = ConversationSession::none();
    chain
        .feed(
            Transaction { scope: Scope::Local, events: vec![record(1, 5, b"x".to_vec())] },
            &session,
            &mut conv,
        )
        .expect("a properly signed write commits");
    assert_eq!(chain.count(), 1);
    // the signature survives a reopen and still validates
    let image = chain.log_image().clone();
    let reopened = Chain::open(ChainKey { name: "beta".to_string() }, &image).expect("reopens");
    assert_eq!(reopened.count(), 1);
}

#[test]
fn destroy_drops_everything() {
    let mut chain = Chain::new(ChainKey { name: "gamma".to_string() });
    let session = AteSession::new();
    let mut conv = ConversationSession::none();
    chain
        .feed(
            Transaction { scope: Scope::Local, events: vec![record(1, 5, b"x".to_vec())] },
            &session,
            &mut conv,
        )
        .expect("commits");
    assert_eq!(chain.count(), 1);
    chain.destroy();
    assert_eq!(chain.count(), 0);
    assert_eq!(chain.name(), "gamma");
}

#[test]
fn tombstone_then_recreate() {
    let mut chain = Chain::new(ChainKey { name: "delta".to_string() });
    let session = AteSession::new();
    let mut conv = ConversationSession::none();
    let tomb = EventData::new(
        Metadata { core: vec![CoreMetadata::Tombstone(PrimaryKey { val: 1 })] },
        None,
        MessageFormat::Binary,
    );
    chain
        .feed(
            Transaction {
                scope: Scope::Local,
                events: vec![record(1, 5, b"x".to_vec()), tomb],
            },
            &session,
            &mut conv,
        )
        .expect("commits");
    assert_eq!(chain.count(), 0);
    chain
        .feed(
            Transaction { scope: Scope::Local, events: vec![record(1, 9, b"y".to_vec())] },
            &session,
            &mut conv,
        )
        .expect("commits");
    assert_eq!(chain.count(), 1);
    let leaf = chain.indexer.lookup_primary(&PrimaryKey { val: 1 }).unwrap();
    assert_eq!(leaf.created, 9);
}
