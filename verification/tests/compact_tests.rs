use ate::compact::{
    combine_relevance, compact_plan, EventRelevance, IndecisiveCompactor, EventCompactor,
    RemoveDuplicatesCompactor, TombstoneCompactor, TreeCompactor,
};
use ate::event::{EventData, EventHeader, MessageFormat};
use ate::index::BinaryTreeIndexer;
use ate::meta::{ChainTimestamp, CoreMetadata, Metadata, MetaCollection, MetaParent};
use ate::PrimaryKey;

fn data(key: u128, stamp: u64, payload: &[u8]) -> EventHeader {
    let meta = Metadata {
        core: vec![
            CoreMetadata::Data(PrimaryKey { val: key }),
            CoreMetadata::Timestamp(ChainTimestamp { time_since_epoch_ms: stamp }),
        ],
    };
    EventData::new(meta, Some(payload.to_vec()), MessageFormat::Binary).into_header()
}

fn tomb(key: u128) -> EventHeader {
    let meta = Metadata { core: vec![CoreMetadata::Tombstone(PrimaryKey { val: key })] };
    EventData::new(meta, None, MessageFormat::Binary).into_header()
}

fn child(key: u128, parent: u128, stamp: u64) -> EventHeader {
    let meta = Metadata {
        core: vec![
            CoreMetadata::Data(PrimaryKey { val: key }),
            CoreMetadata::Tree(MetaParent {
                vec: MetaCollection { parent_id: PrimaryKey { val: parent }, collection_id: 0 },
            }),
            CoreMetadata::Timestamp(ChainTimestamp { time_since_epoch_ms: stamp }),
        ],
    };
    EventData::new(meta, Some(b"c".to_vec()), MessageFormat::Binary).into_header()
}

#[test]
fn composition_order_of_strength() {
    assert_eq!(
        combine_relevance(EventRelevance::ForceKeep, EventRelevance::ForceDrop),
        EventRelevance::ForceDrop
    );
    assert_eq!(
        combine_relevance(EventRelevance::Drop, EventRelevance::ForceKeep),
        EventRelevance::ForceKeep
    );
    assert_eq!(
        combine_relevance(EventRelevance::Keep, EventRelevance::Drop),
        EventRelevance::Drop
    );
    assert_eq!(
        combine_relevance(EventRelevance::Abstain, EventRelevance::Keep),
        EventRelevance::Keep
    );
    assert_eq!(
        combine_relevance(EventRelevance::Abstain, EventRelevance::Abstain),
        EventRelevance::Abstain
    );
}

#[test]
fn indecisive_always_abstains() {
    let mut c = IndecisiveCompactor::default();
    assert_eq!(c.relevance(&data(1, 1, b"a")), EventRelevance::Abstain);
}

#[test]
fn duplicates_keep_newest_only() {
    let mut c = RemoveDuplicatesCompactor::new();
    // the walk runs newest first
    assert_eq!(c.relevance(&data(1, 30, b"new")), EventRelevance::Keep);
    assert_eq!(c.relevance(&data(1, 20, b"old")), EventRelevance::Drop);
    assert_eq!(c.relevance(&data(2, 10, b"other")), EventRelevance::Keep);
}

#[test]
fn tombstones_force_drop_themselves_and_older_events() {
    let mut c = TombstoneCompactor::new();
    assert_eq!(c.relevance(&tomb(1)), EventRelevance::ForceDrop);
    assert_eq!(c.relevance(&data(1, 5, b"old")), EventRelevance::ForceDrop);
    assert_eq!(c.relevance(&data(2, 5, b"live")), EventRelevance::Abstain);
}

#[test]
fn tree_compactor_force_keeps_needed_parents() {
    let mut c = TreeCompactor::new();
    c.feed(&child(2, 1, 5));
    assert_eq!(c.relevance(&data(1, 1, b"parent")), EventRelevance::ForceKeep);
    // consumed: an older duplicate of the parent is not force-kept
    assert_eq!(c.relevance(&data(1, 0, b"older")), EventRelevance::Abstain);
}

#[test]
fn compaction_preserves_last_writer_semantics() {
    let headers = vec![
        data(1, 10, b"a1"),
        data(2, 20, b"b1"),
        data(1, 30, b"a2"),
        tomb(2),
        data(3, 40, b"c1"),
        data(3, 50, b"c2"),
        data(2, 60, b"b2"),
    ];
    let flags = compact_plan(&headers);
    assert_eq!(flags.len(), headers.len());
    assert_eq!(flags, vec![false, false, true, false, false, true, true]);
    let mut before = BinaryTreeIndexer::new();
    before.rebuild(&headers);
    let kept: Vec<EventHeader> = headers
        .into_iter()
        .zip(flags.into_iter())
        .filter(|(_, keep)| *keep)
        .map(|(h, _)| h)
        .collect();
    let mut after = BinaryTreeIndexer::new();
    after.rebuild(&kept);
    assert_eq!(after.count(), before.count());
    for key in [1u128, 2, 3] {
        let a = before.lookup_primary(&PrimaryKey { val: key }).expect("live before");
        let b = after.lookup_primary(&PrimaryKey { val: key }).expect("live after");
        assert_eq!(a.record.val, b.record.val);
        assert_eq!(a.updated, b.updated);
    }
}

#[test]
fn tombstoned_keys_vanish_entirely() {
    let headers = vec![data(1, 10, b"a"), data(2, 20, b"b"), tomb(1)];
    let flags = compact_plan(&headers);
    assert_eq!(flags, vec![false, true, false]);
    let kept: Vec<EventHeader> = headers
        .into_iter()
        .zip(flags.into_iter())
        .filter(|(_, keep)| *keep)
        .map(|(h, _)| h)
        .collect();
    let mut after = BinaryTreeIndexer::new();
    after.rebuild(&kept);
    assert!(after.lookup_primary(&PrimaryKey { val: 1 }).is_none());
    assert!(after.lookup_primary(&PrimaryKey { val: 2 }).is_some());
}

#[test]
fn metadata_tombstone_helpers() {
    let mut m = Metadata { core: vec![CoreMetadata::Data(PrimaryKey { val: 4 })] };
    assert!(m.get_tombstone().is_none());
    m.add_tombstone(PrimaryKey { val: 9 });
    assert_eq!(m.get_tombstone().unwrap().val, 9);
    // adding the same tombstone again changes nothing
    m.add_tombstone(PrimaryKey { val: 9 });
    assert_eq!(m.core.len(), 2);
    assert_eq!(m.tombstone_key().unwrap().val, 9);
}
