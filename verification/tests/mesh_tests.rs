use ate::chain::{Chain, ChainKey};
use ate::crypto::KeySize;
use ate::error::CommsError;
use ate::event::{EventData, MessageFormat};
use ate::mesh::{
    accept_check, next_backoff, read_frame32, write_frame32, ConnectionState, Listener, Message,
    MeshSession, NonceCounter, SessionAction, BACKOFF_START_MS,
};
use ate::meta::{ChainTimestamp, CoreMetadata, Metadata};
use ate::redo::RedoLog;
use ate::session::{AteSession, ConversationSession};
use ate::transaction::{Scope, Transaction};
use ate::tree::IntegrityMode;
use ate::PrimaryKey;

fn record(key: u128, stamp: u64, payload: &[u8]) -> EventData {
    let meta = Metadata {
        core: vec![
            CoreMetadata::Data(PrimaryKey { val: key }),
            CoreMetadata::Timestamp(ChainTimestamp { time_since_epoch_ms: stamp }),
        ],
    };
    EventData::new(meta, Some(payload.to_vec()), MessageFormat::Binary)
}

fn replicate(from: &Chain, already: usize) -> Vec<EventData> {
    let (_log, evs) = RedoLog::open(0, from.log_image()).expect("replays");
    evs.into_iter().skip(already).map(|(_, e)| e).collect()
}

#[test]
fn client_mirror_sees_both_keys() {
    // a root replica and two clients; a write through the root is
    // mirrored into both; a second write arrives at the first client
    let mut root = Chain::new(ChainKey { name: "test-chain".to_string() });
    let mut client_a = MeshSession::new();
    let mut chain_a = Chain::new(ChainKey { name: "test-chain".to_string() });
    let mut sess_a = AteSession::new();
    let mut client_b = MeshSession::new();
    let mut chain_b = Chain::new(ChainKey { name: "test-chain".to_string() });
    let mut sess_b = AteSession::new();
    let writer = AteSession::new();
    let mut conv = ConversationSession::none();

    root.feed(
        Transaction { scope: Scope::Local, events: vec![record(1, 10, b"v1")] },
        &writer,
        &mut conv,
    )
    .expect("commits");

    // history replay towards both clients
    for (session, chain) in [(&mut client_a, &mut chain_a), (&mut client_b, &mut chain_b)] {
        let hello = Message::StartOfHistory {
            size: 1,
            from: None,
            to: None,
            root_keys: Vec::new(),
            integrity: IntegrityMode::Centralized,
        };
        let actions = session
            .inbox_packet(chain, &mut AteSession::new(), hello)
            .expect("absorbed");
        assert!(matches!(actions[0], SessionAction::LoaderStart(1)));
        assert_eq!(session.state, ConnectionState::ReplayingHistory);
        let evts = replicate(&root, 0);
        session
            .inbox_packet(chain, &mut AteSession::new(), Message::Events { commit: None, evts })
            .expect("absorbed");
        let actions = session
            .inbox_packet(chain, &mut AteSession::new(), Message::EndOfHistory)
            .expect("absorbed");
        assert!(matches!(actions[0], SessionAction::LoaderEnd));
        assert_eq!(session.state, ConnectionState::Live);
    }
    assert_eq!(chain_b.count(), 1);
    let got = chain_b.load(&PrimaryKey { val: 1 }, &sess_b).expect("reads");
    assert_eq!(got, b"v1".to_vec());

    // a second write lands on the root and streams to client A
    let already = replicate(&root, 0).len();
    root.feed(
        Transaction { scope: Scope::Local, events: vec![record(2, 20, b"v2")] },
        &writer,
        &mut conv,
    )
    .expect("commits");
    let evts = replicate(&root, already);
    client_a
        .inbox_packet(&mut chain_a, &mut sess_a, Message::Events { commit: None, evts })
        .expect("absorbed");
    assert_eq!(chain_a.count(), 2);
    assert_eq!(chain_a.load(&PrimaryKey { val: 1 }, &sess_a).unwrap(), b"v1".to_vec());
    assert_eq!(chain_a.load(&PrimaryKey { val: 2 }, &sess_a).unwrap(), b"v2".to_vec());
}

#[test]
fn reconnect_cancels_outstanding_commits() {
    let mut session = MeshSession::new();
    session.register_commit(7);
    session.register_commit(8);
    session.register_lock(PrimaryKey { val: 3 });
    let actions = session.on_disconnect();
    assert_eq!(actions.len(), 3);
    assert!(matches!(actions[0], SessionAction::CommitAborted(7)));
    assert!(matches!(actions[1], SessionAction::CommitAborted(8)));
    assert!(matches!(actions[2], SessionAction::LockResolved(k, false) if k.val == 3));
    assert!(session.commits.is_empty());
    assert_eq!(session.state, ConnectionState::Offline);
}

#[test]
fn confirmations_complete_commits_out_of_order() {
    let mut session = MeshSession::new();
    let mut chain = Chain::new(ChainKey { name: "c".to_string() });
    let mut sess = AteSession::new();
    session.register_commit(1);
    session.register_commit(2);
    let a = session
        .inbox_packet(&mut chain, &mut sess, Message::Confirmed(2))
        .expect("absorbed");
    assert!(matches!(a[0], SessionAction::CommitConfirmed(2)));
    let a = session
        .inbox_packet(
            &mut chain,
            &mut sess,
            Message::CommitFailed { id: 1, err: "refused".to_string() },
        )
        .expect("absorbed");
    match &a[0] {
        SessionAction::CommitRejected(1, msg) => assert_eq!(msg, "refused"),
        _ => panic!("expected a rejection"),
    }
    // an orphaned confirmation is ignored
    let a = session
        .inbox_packet(&mut chain, &mut sess, Message::Confirmed(99))
        .expect("absorbed");
    assert!(a.is_empty());
}

#[test]
fn fatal_terminate_reaches_the_loader_and_closes() {
    let mut session = MeshSession::new();
    let mut chain = Chain::new(ChainKey { name: "c".to_string() });
    let mut sess = AteSession::new();
    let r = session.inbox_packet(
        &mut chain,
        &mut sess,
        Message::FatalTerminate { reason: "gone".to_string() },
    );
    match r {
        Err(CommsError::Fatal(reason)) => assert_eq!(reason, "gone"),
        _ => panic!("expected the fatal reason in the error"),
    }
}

#[test]
fn backoff_doubles_and_caps() {
    let mut ms = BACKOFF_START_MS;
    let mut seen = Vec::new();
    for _ in 0..10 {
        seen.push(ms);
        ms = next_backoff(ms);
    }
    assert_eq!(seen[0], 100);
    assert_eq!(seen[1], 200);
    assert_eq!(seen[6], 6400);
    assert_eq!(seen[7], 10000);
    assert_eq!(seen[9], 10000);
}

#[test]
fn handshake_certificate_rules() {
    assert!(accept_check(None, None).is_ok());
    assert!(accept_check(Some(KeySize::Bit128), Some(KeySize::Bit256)).is_ok());
    assert!(matches!(
        accept_check(Some(KeySize::Bit128), None),
        Err(CommsError::MissingCertificate)
    ));
    match accept_check(Some(KeySize::Bit256), Some(KeySize::Bit128)) {
        Err(CommsError::CertificateTooWeak(need, got)) => {
            assert_eq!(need, KeySize::Bit256);
            assert_eq!(got, KeySize::Bit128);
        }
        _ => panic!("expected a too-weak refusal"),
    }
}

#[test]
fn listener_routes_and_refusals() {
    assert!(Listener::new(Some(KeySize::Bit256), None).is_err());
    let mut l = Listener::new(Some(KeySize::Bit128), Some(KeySize::Bit256)).expect("valid");
    l.add_route(42);
    assert!(l.has_route(42));
    assert!(!l.has_route(43));
    assert_eq!(l.accept_connection(42, None).unwrap(), true);
    assert_eq!(l.accept_connection(43, None).unwrap(), false);
    assert!(l.accept_connection(42, Some(KeySize::Bit256)).is_ok());
}

#[test]
fn wire_frames_round_trip() {
    let mut out = Vec::new();
    write_frame32(&mut out, &b"hello".to_vec()).expect("frames");
    write_frame32(&mut out, &Vec::new()).expect("frames");
    write_frame32(&mut out, &b"world".to_vec()).expect("frames");
    let mut pos = 0usize;
    assert_eq!(read_frame32(&out, &mut pos).unwrap(), b"hello".to_vec());
    assert_eq!(read_frame32(&out, &mut pos).unwrap(), Vec::<u8>::new());
    assert_eq!(read_frame32(&out, &mut pos).unwrap(), b"world".to_vec());
    assert!(read_frame32(&out, &mut pos).is_none());
    assert_eq!(pos, out.len());
}

#[test]
fn key_exchange_agrees_on_both_ends() {
    let ephemeral = 0x1111_2222_3333_4444u128;
    let secret = 0x5555_6666_7777_8888u128;
    let client = ate::mesh::derive_shared_key(ephemeral, secret);
    let server = ate::mesh::derive_shared_key(ephemeral, secret);
    assert_eq!(client.val, server.val);
    assert_ne!(client.val, secret);
    assert_ne!(client.val, ephemeral);
}

#[test]
fn nonces_are_monotonic() {
    let mut n = NonceCounter::new();
    assert_eq!(n.draw(), Some(0));
    assert_eq!(n.draw(), Some(1));
    assert_eq!(n.draw(), Some(2));
}

#[test]
fn end_of_history_resets_the_backoff() {
    let mut session = MeshSession::new();
    session.backoff_ms = next_backoff(next_backoff(session.backoff_ms));
    assert_eq!(session.backoff_ms, 400);
    let mut chain = Chain::new(ChainKey { name: "c".to_string() });
    let mut sess = AteSession::new();
    session
        .inbox_packet(&mut chain, &mut sess, Message::EndOfHistory)
        .expect("absorbed");
    assert_eq!(session.backoff_ms, 100);
    // the accept loop's decision resets on success, doubles on error
    assert_eq!(ate::mesh::accept_backoff_after(6400, true), 100);
    assert_eq!(ate::mesh::accept_backoff_after(6400, false), 10000);
}

#[test]
fn delayed_upload_markers_are_idempotent() {
    let mut chain = Chain::new(ChainKey { name: "m".to_string() });
    let from = ChainTimestamp { time_since_epoch_ms: 50 };
    let until = ChainTimestamp { time_since_epoch_ms: 90 };
    ate::mesh::record_delayed_upload(&mut chain, from, until).expect("writes");
    let after_one = chain.headers.len();
    assert_eq!(after_one, 1);
    // a second recording covering the same start writes nothing
    ate::mesh::record_delayed_upload(&mut chain, from, until).expect("skips");
    assert_eq!(chain.headers.len(), after_one);
    // completing the range is a fresh marker
    ate::mesh::complete_delayed_upload(&mut chain, from, until).expect("writes");
    assert_eq!(chain.headers.len(), after_one + 1);
}

#[test]
fn range_keys_scans_the_bounded_window() {
    let mut root = Chain::new(ChainKey { name: "r".to_string() });
    let writer = AteSession::new();
    let mut conv = ConversationSession::none();
    for (key, stamp) in [(1u128, 10u64), (2, 20), (3, 30), (4, 40)] {
        root.feed(
            Transaction { scope: Scope::Local, events: vec![record(key, stamp, b"x")] },
            &writer,
            &mut conv,
        )
        .expect("commits");
    }
    let stamps: Vec<u64> = root
        .range_keys(
            ChainTimestamp { time_since_epoch_ms: 15 },
            ChainTimestamp { time_since_epoch_ms: 40 },
        )
        .iter()
        .map(|t| t.time_since_epoch_ms)
        .collect();
    assert_eq!(stamps, vec![20, 30]);
}
