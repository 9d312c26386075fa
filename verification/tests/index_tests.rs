use ate::crypto::AteHash;
use ate::event::{EventData, MessageFormat};
use ate::index::BinaryTreeIndexer;
use ate::meta::{ChainTimestamp, CoreMetadata, Metadata, MetaCollection, MetaParent};
use ate::PrimaryKey;

fn data_event(key: u128, stamp: u64, payload: &[u8]) -> ate::event::EventHeader {
    let meta = Metadata {
        core: vec![
            CoreMetadata::Data(PrimaryKey { val: key }),
            CoreMetadata::Timestamp(ChainTimestamp { time_since_epoch_ms: stamp }),
        ],
    };
    EventData::new(meta, Some(payload.to_vec()), MessageFormat::Binary).into_header()
}

fn tree_event(key: u128, parent: u128, stamp: u64, payload: &[u8]) -> ate::event::EventHeader {
    let meta = Metadata {
        core: vec![
            CoreMetadata::Data(PrimaryKey { val: key }),
            CoreMetadata::Tree(MetaParent {
                vec: MetaCollection { parent_id: PrimaryKey { val: parent }, collection_id: 0 },
            }),
            CoreMetadata::Timestamp(ChainTimestamp { time_since_epoch_ms: stamp }),
        ],
    };
    EventData::new(meta, Some(payload.to_vec()), MessageFormat::Binary).into_header()
}

fn tombstone_event(key: u128) -> ate::event::EventHeader {
    let meta = Metadata { core: vec![CoreMetadata::Tombstone(PrimaryKey { val: key })] };
    EventData::new(meta, None, MessageFormat::Binary).into_header()
}

#[test]
fn upsert_keeps_created_and_moves_updated() {
    let mut idx = BinaryTreeIndexer::new();
    idx.feed(&data_event(1, 100, b"a"));
    idx.feed(&data_event(1, 200, b"b"));
    let leaf = idx.lookup_primary(&PrimaryKey { val: 1 }).expect("present");
    assert_eq!(leaf.created, 100);
    assert_eq!(leaf.updated, 200);
    assert_eq!(idx.count(), 1);
    assert!(idx.contains_key(&PrimaryKey { val: 1 }));
}

#[test]
fn tombstone_removes_and_is_idempotent() {
    let mut idx = BinaryTreeIndexer::new();
    idx.feed(&tree_event(2, 1, 50, b"x"));
    assert_eq!(idx.count(), 1);
    idx.feed(&tombstone_event(2));
    assert_eq!(idx.count(), 0);
    assert!(idx.lookup_primary(&PrimaryKey { val: 2 }).is_none());
    // the emptied collection keeps its (empty) vector
    let coll = MetaCollection { parent_id: PrimaryKey { val: 1 }, collection_id: 0 };
    assert_eq!(idx.lookup_secondary_raw(&coll).unwrap().len(), 0);
    // feeding more tombstones for the same key changes nothing
    idx.feed(&tombstone_event(2));
    idx.feed(&tombstone_event(2));
    assert_eq!(idx.count(), 0);
    assert_eq!(idx.lookup_secondary_raw(&coll).unwrap().len(), 0);
}

#[test]
fn secondary_tracks_membership_in_order() {
    let mut idx = BinaryTreeIndexer::new();
    idx.feed(&tree_event(10, 1, 1, b"a"));
    idx.feed(&tree_event(11, 1, 2, b"b"));
    idx.feed(&tree_event(12, 1, 3, b"c"));
    let coll = MetaCollection { parent_id: PrimaryKey { val: 1 }, collection_id: 0 };
    let members = idx.lookup_secondary_raw(&coll).expect("present");
    let vals: Vec<u128> = members.iter().map(|p| p.val).collect();
    assert_eq!(vals, vec![10, 11, 12]);
    // no duplicates when the same child is reattached: it is
    // detached first and re-appended at the end
    idx.feed(&tree_event(11, 1, 4, b"b2"));
    let members = idx.lookup_secondary_raw(&coll).expect("present");
    let vals: Vec<u128> = members.iter().map(|p| p.val).collect();
    assert_eq!(vals, vec![10, 12, 11]);
    // reparenting detaches from the old collection
    idx.feed(&tree_event(11, 2, 5, b"b3"));
    let vals: Vec<u128> = idx
        .lookup_secondary_raw(&coll)
        .expect("present")
        .iter()
        .map(|p| p.val)
        .collect();
    assert_eq!(vals, vec![10, 12]);
    let coll2 = MetaCollection { parent_id: PrimaryKey { val: 2 }, collection_id: 0 };
    let vals2: Vec<u128> = idx
        .lookup_secondary_raw(&coll2)
        .expect("present")
        .iter()
        .map(|p| p.val)
        .collect();
    assert_eq!(vals2, vec![11]);
    // the joined lookup returns live leaves
    let leaves = idx.lookup_secondary(&coll).expect("present");
    assert_eq!(leaves.len(), 2);
}

#[test]
fn events_without_payload_hash_do_not_index() {
    let mut idx = BinaryTreeIndexer::new();
    let meta = Metadata { core: vec![CoreMetadata::Data(PrimaryKey { val: 9 })] };
    let header = EventData::new(meta, None, MessageFormat::Binary).into_header();
    idx.feed(&header);
    assert_eq!(idx.count(), 0);
}

#[test]
fn rebuild_replays_in_order() {
    let evts = vec![
        data_event(1, 10, b"a"),
        data_event(2, 20, b"b"),
        tombstone_event(1),
        data_event(1, 30, b"c"),
    ];
    let mut idx = BinaryTreeIndexer::new();
    idx.rebuild(&evts);
    assert_eq!(idx.count(), 2);
    let leaf = idx.lookup_primary(&PrimaryKey { val: 1 }).expect("recreated");
    assert_eq!(leaf.created, 30);
    let _ = AteHash { val: leaf.record.val };
}
