//! The binary-tree indexer: the in-memory view of the latest record
//! state.  It maintains the primary map from key to leaf, the
//! secondary map from collection to member keys, and the parent map,
//! and it observes events in log order through one exactly-specified
//! transition.

use vstd::prelude::*;
use std::collections::HashMap;
use crate::PrimaryKey;
use crate::crypto::AteHash;
use crate::error::SinkError;
use crate::event::EventHeader;
use crate::event::EventHeaderV;
use crate::meta::ChainTimestamp;
use crate::meta::CoreMetadata;
use crate::meta::CoreMetadataV;
use crate::meta::MetaCollection;
use crate::meta::MetaParent;
use crate::meta::spec_data_key;
use crate::meta::spec_timestamp;
use crate::meta::spec_tombstone;

verus! {

broadcast use vstd::std_specs::hash::group_hash_axioms;

/// One entry of the primary index: the identifying hash of the record
/// event and the record's creation and update times.
#[derive(Debug, Clone, Copy, PartialEq, Eq, Structural)]
pub struct EventLeaf {
    pub record: AteHash,
    pub created: u64,
    pub updated: u64,
}

/// Something that materializes a view from replayed event headers.
pub trait EventIndexer {
    fn rebuild(&mut self, data: &Vec<EventHeader>) -> Result<(), SinkError>;
}

/// An indexer that maintains nothing; chains that need no queryable
/// view use it.
#[derive(Default, Debug)]
pub struct UselessIndexer {}

impl EventIndexer for UselessIndexer {
    fn rebuild(&mut self, _data: &Vec<EventHeader>) -> Result<(), SinkError> {
        Ok(())
    }
}

/// The key of one secondary collection: the parent record and the
/// collection number under it.
#[derive(Debug, Clone, Copy, PartialEq, Eq, Structural, Hash)]
pub struct CollKey {
    pub parent: u128,
    pub collection: u64,
}

/// The secondary-index store, holding the outside multimap: a map
/// from collection key to the member values in insertion order.
#[verifier::external_body]
pub struct SecondaryStore {
    inner: multimap::MultiMap<CollKey, u128>,
}

/// What the secondary store holds: for each collection key, the member
/// values in insertion order.
pub uninterp spec fn secondary_view(s: SecondaryStore) -> Map<CollKey, Seq<u128>>;

/// The empty secondary map.
pub open spec fn secondary_empty() -> Map<CollKey, Seq<u128>> {
    Map::empty()
}

impl View for SecondaryStore {
    type V = Map<CollKey, Seq<u128>>;

    open spec fn view(&self) -> Map<CollKey, Seq<u128>> {
        secondary_view(*self)
    }
}

impl SecondaryStore {
    /// Relies on `multimap::MultiMap::with_capacity`: the fresh
    /// multimap holds no keys.
    #[verifier::external_body]
    pub fn with_capacity(capacity: usize) -> (r: SecondaryStore)
        ensures
            r@ == secondary_empty(),
            secondary_view(r) == secondary_empty(),
    {
        SecondaryStore { inner: multimap::MultiMap::with_capacity(capacity) }
    }

    /// Relies on `multimap::MultiMap::insert`: pushes the value at the
    /// end of the key's vector, creating a one-element vector for a
    /// fresh key.
    #[verifier::external_body]
    pub fn insert(&mut self, k: CollKey, v: u128)
        ensures
            final(self)@ == old(self)@.insert(
                k,
                if old(self)@.contains_key(k) {
                    old(self)@[k].push(v)
                } else {
                    seq![v]
                },
            ),
    {
        self.inner.insert(k, v)
    }

    /// Relies on `multimap::MultiMap::get_vec`: the vector stored
    /// under a key, or nothing for an absent key.
    #[verifier::external_body]
    pub fn get_vec(&self, k: &CollKey) -> (r: Option<Vec<u128>>)
        ensures
            match r {
                Some(v) => self@.contains_key(*k) && v@ == self@[*k],
                None => !self@.contains_key(*k),
            },
    {
        self.inner.get_vec(k).map(|v| v.clone())
    }

    /// Relies on `multimap::MultiMap::insert_many`: extends the key's
    /// vector with the given values; a fresh key gets exactly the
    /// given vector, even an empty one.
    #[verifier::external_body]
    pub fn insert_vec(&mut self, k: CollKey, v: Vec<u128>)
        ensures
            final(self)@ == old(self)@.insert(
                k,
                if old(self)@.contains_key(k) {
                    old(self)@[k] + v@
                } else {
                    v@
                },
            ),
    {
        self.inner.insert_many(k, v)
    }

    /// Relies on `multimap::MultiMap::remove`: takes the key's whole
    /// vector out of the map.
    #[verifier::external_body]
    pub fn remove(&mut self, k: &CollKey) -> (r: Option<Vec<u128>>)
        ensures
            match r {
                Some(v) => {
                    &&& old(self)@.contains_key(*k)
                    &&& v@ == old(self)@[*k]
                    &&& final(self)@ == old(self)@.remove(*k)
                },
                None => {
                    &&& !old(self)@.contains_key(*k)
                    &&& final(self)@ == old(self)@
                },
            },
    {
        self.inner.remove(k)
    }
}

/// The mathematical state of the indexer.
#[verifier::ext_equal]
pub struct IndexView {
    pub primary: Map<u128, EventLeaf>,
    pub secondary: Map<CollKey, Seq<u128>>,
    pub parent: Map<u128, MetaParent>,
}

/// The indexer: primary key to leaf, collection to member keys, and
/// record key to declared parent.
pub struct BinaryTreeIndexer {
    primary: HashMap<u128, EventLeaf>,
    secondary: SecondaryStore,
    parent: HashMap<u128, MetaParent>,
}

impl View for BinaryTreeIndexer {
    type V = IndexView;

    closed spec fn view(&self) -> IndexView {
        IndexView {
            primary: self.primary@,
            secondary: self.secondary@,
            parent: self.parent@,
        }
    }
}

/// The collection key of a parent declaration.
pub open spec fn spec_coll_key(tree: MetaParent) -> CollKey {
    CollKey { parent: tree.vec.parent_id.val, collection: tree.vec.collection_id }
}

/// The timestamp an event stamps into the leaf: its timestamp entry,
/// or zero stamp it carries none.
pub open spec fn spec_when(meta: Seq<CoreMetadataV>) -> u64 {
    match spec_timestamp(meta) {
        Some(t) => t.time_since_epoch_ms,
        None => 0,
    }
}

/// Upserts the primary leaf for `k`: the creation time is kept from
/// the first insert, the record hash and update time follow the event.
pub open spec fn spec_leaf_upsert(
    prim: Map<u128, EventLeaf>,
    k: u128,
    record: AteHash,
    stamp: u64,
) -> Map<u128, EventLeaf> {
    let created = if prim.contains_key(k) {
        prim[k].created
    } else {
        stamp
    };
    prim.insert(k, EventLeaf { record, created, updated: stamp })
}

/// Detaches `k` from its recorded parent collection, if it has one:
/// drops it from the collection's vector and forgets the parent.  A
/// collection emptied this way keeps its (empty) vector.
pub open spec fn spec_detach(v: IndexView, k: PrimaryKey) -> IndexView {
    if v.parent.contains_key(k.val) {
        let ck = spec_coll_key(v.parent[k.val]);
        let sec = if v.secondary.contains_key(ck) {
            v.secondary.insert(ck, v.secondary[ck].filter(|x: u128| x != k.val))
        } else {
            v.secondary
        };
        IndexView { primary: v.primary, secondary: sec, parent: v.parent.remove(k.val) }
    } else {
        v
    }
}

/// A tombstone for `k` drops the primary entry and detaches `k` from
/// its parent collection; nothing else of the event is processed.
pub open spec fn spec_tombstone_feed(v: IndexView, k: PrimaryKey) -> IndexView {
    let d = spec_detach(v, k);
    IndexView { primary: d.primary.remove(k.val), secondary: d.secondary, parent: d.parent }
}

/// How one metadata entry of a non-tombstone event moves the state.
pub open spec fn spec_entry_feed(
    v: IndexView,
    entry: CoreMetadataV,
    dk: Option<PrimaryKey>,
    data_hash: Option<AteHash>,
    event_hash: AteHash,
    stamp: u64,
) -> IndexView {
    match entry {
        CoreMetadataV::Data(k) => {
            if data_hash is Some {
                IndexView {
                    primary: spec_leaf_upsert(v.primary, k.val, event_hash, stamp),
                    secondary: v.secondary,
                    parent: v.parent,
                }
            } else {
                v
            }
        },
        CoreMetadataV::Tree(tree) => {
            match dk {
                Some(k) => {
                    let d = spec_detach(v, k);
                    let ck = spec_coll_key(tree);
                    let withp = IndexView {
                        primary: d.primary,
                        secondary: d.secondary,
                        parent: d.parent.insert(k.val, tree),
                    };
                    let cur = if withp.secondary.contains_key(ck) {
                        withp.secondary[ck]
                    } else {
                        Seq::empty()
                    };
                    if cur.contains(k.val) {
                        withp
                    } else {
                        IndexView {
                            primary: withp.primary,
                            secondary: withp.secondary.insert(ck, cur.push(k.val)),
                            parent: withp.parent,
                        }
                    }
                },
                None => v,
            }
        },
        _ => v,
    }
}

/// Folds the entries of a non-tombstone event from position `i` on.
pub open spec fn spec_feed_rec(
    v: IndexView,
    meta: Seq<CoreMetadataV>,
    i: int,
    dk: Option<PrimaryKey>,
    data_hash: Option<AteHash>,
    event_hash: AteHash,
    stamp: u64,
) -> IndexView
    decreases meta.len() - i,
{
    if i < 0 || i >= meta.len() {
        v
    } else {
        spec_feed_rec(
            spec_entry_feed(v, meta[i], dk, data_hash, event_hash, stamp),
            meta,
            i + 1,
            dk,
            data_hash,
            event_hash,
            stamp,
        )
    }
}

/// The whole transition for one event: a tombstone short-circuits,
/// anything else folds its entries in order.
pub open spec fn spec_index_feed(v: IndexView, h: EventHeaderV) -> IndexView {
    match spec_tombstone(h.meta) {
        Some(k) => spec_tombstone_feed(v, k),
        None => spec_feed_rec(
            v,
            h.meta,
            0,
            spec_data_key(h.meta),
            h.data_hash,
            h.event_hash,
            spec_when(h.meta),
        ),
    }
}

/// Feeding a whole list of headers in order.
pub open spec fn spec_feed_all(v: IndexView, hs: Seq<EventHeaderV>) -> IndexView
    decreases hs.len(),
{
    if hs.len() == 0 {
        v
    } else {
        spec_feed_all(spec_index_feed(v, hs[0]), hs.drop_first())
    }
}

/// The empty index.
pub open spec fn spec_index_empty() -> IndexView {
    IndexView {
        primary: Map::empty(),
        secondary: Map::empty(),
        parent: Map::empty(),
    }
}

/// Tombstone idempotence: once a tombstone for `k` has been fed, any
/// further event that carries a tombstone for the same key leaves the
/// index exactly as it was.
pub proof fn lemma_tombstone_idempotence(v: IndexView, h1: EventHeaderV, h2: EventHeaderV, k: PrimaryKey)
    requires
        spec_tombstone(h1.meta) == Some(k),
        spec_tombstone(h2.meta) == Some(k),
    ensures
        spec_index_feed(spec_index_feed(v, h1), h2) == spec_index_feed(v, h1),
{
    let once = spec_index_feed(v, h1);
    assert(!once.parent.contains_key(k.val));
    assert(!once.primary.contains_key(k.val));
    assert(spec_detach(once, k) =~= once);
    assert(spec_tombstone_feed(once, k).primary =~= once.primary);
    assert(spec_index_feed(once, h2) =~= once);
}

impl BinaryTreeIndexer {
    /// A fresh, empty index.
    pub fn new() -> (r: BinaryTreeIndexer)
        ensures
            r@ == spec_index_empty(),
    {
        let r = BinaryTreeIndexer {
            primary: HashMap::new(),
            secondary: SecondaryStore::with_capacity(16),
            parent: HashMap::new(),
        };
        proof {
            assert(r@ =~= spec_index_empty());
        }
        r
    }

    pub fn contains_key(&self, key: &PrimaryKey) -> (r: bool)
        ensures
            r == self@.primary.contains_key(key.val),
    {
        self.primary.contains_key(&key.val)
    }

    /// How many records are live.
    pub fn count(&self) -> (r: usize)
        ensures
            r == self@.primary.len(),
    {
        self.primary.len()
    }

    /// Detaches `key` from its recorded parent collection.
    fn detach(&mut self, key: &PrimaryKey)
        ensures
            final(self)@ == spec_detach(old(self)@, *key),
    {
        let tree = match self.parent.remove(&key.val) {
            Some(tree) => tree,
            None => {
                proof {
                    assert(final(self)@ =~= spec_detach(old(self)@, *key));
                }
                return ;
            },
        };
        let ck = CollKey { parent: tree.vec.parent_id.val, collection: tree.vec.collection_id };
        let vec = match self.secondary.remove(&ck) {
            Some(vec) => vec,
            None => {
                proof {
                    assert(self@ =~= spec_detach(old(self)@, *key));
                }
                return ;
            },
        };
        let mut kept: Vec<u128> = Vec::new();
        let mut i: usize = 0;
        proof {
            reveal(Seq::filter);
            assert(vec@.subrange(0, 0).filter(|x: u128| x != key.val) =~= Seq::<u128>::empty());
        }
        while i < vec.len()
            invariant
                i <= vec@.len(),
                kept@ == vec@.subrange(0, i as int).filter(|x: u128| x != key.val),
            decreases vec@.len() - i,
        {
            let ghost kept_before = kept@;
            if vec[i] != key.val {
                kept.push(vec[i]);
            }
            i = i + 1;
            proof {
                reveal(Seq::filter);
                let sub = vec@.subrange(0, i as int);
                assert(sub.drop_last() =~= vec@.subrange(0, i - 1));
                assert(sub.last() == vec@[i - 1]);
                if vec@[i - 1] != key.val {
                    assert(sub.filter(|x: u128| x != key.val) =~= kept_before.push(
                        vec@[i - 1],
                    ));
                } else {
                    assert(sub.filter(|x: u128| x != key.val) =~= kept_before);
                }
            }
        }
        proof {
            assert(vec@.subrange(0, vec@.len() as int) =~= vec@);
        }
        self.secondary.insert_vec(ck, kept);
        proof {
            assert(self@ =~= spec_detach(old(self)@, *key));
        }
    }

    /// Observes one event.  A tombstone drops the record; data entries
    /// upsert the primary leaf; tree entries reparent the record,
    /// keeping the collection vectors free of duplicates.
    pub fn feed(&mut self, entry: &EventHeader)
        ensures
            final(self)@ == spec_index_feed(old(self)@, entry@),
    {
        match entry.meta.get_tombstone() {
            Some(key) => {
                self.detach(&key);
                self.primary.remove(&key.val);
                proof {
                    assert(self@ =~= spec_index_feed(old(self)@, entry@));
                }
                return ;
            },
            None => {},
        }
        let dk = entry.meta.get_data_key();
        let stamp: u64 = match entry.meta.get_timestamp() {
            Some(t) => t.time_since_epoch_ms,
            None => 0,
        };
        let ghost m = entry@.meta;
        let ghost dh = entry@.data_hash;
        let ghost eh = entry@.event_hash;
        let mut i: usize = 0;
        while i < entry.meta.core.len()
            invariant
                i <= entry.meta.core@.len(),
                m == entry@.meta,
                dh == entry@.data_hash,
                eh == entry@.event_hash,
                m.len() == entry.meta.core@.len(),
                dk == spec_data_key(m),
                stamp == spec_when(m),
                spec_tombstone(m) is None,
                                spec_feed_rec(self@, m, i as int, dk, dh, eh, stamp) == spec_feed_rec(
                    old(self)@,
                    m,
                    0,
                    dk,
                    dh,
                    eh,
                    stamp,
                ),
            decreases entry.meta.core@.len() - i,
        {
            let ghost before = self@;
            proof {
                assert(m[i as int] == entry.meta.core@[i as int]@);
            }
            match &entry.meta.core[i] {
                CoreMetadata::Data(k) => {
                    match &entry.raw.data_hash {
                        Some(_) => {
                            let record = entry.raw.event_hash;
                            let created: u64 = match self.primary.get(&k.val) {
                                Some(leaf) => leaf.created,
                                None => stamp,
                            };
                            self.primary.insert(
                                k.val,
                                EventLeaf { record, created, updated: stamp },
                            );
                            proof {
                                assert(self@ =~= spec_entry_feed(
                                    before,
                                    m[i as int],
                                    dk,
                                    dh,
                                    eh,
                                    stamp,
                                ));
                            }
                        },
                        None => {
                            proof {
                                assert(self@ =~= spec_entry_feed(
                                    before,
                                    m[i as int],
                                    dk,
                                    dh,
                                    eh,
                                    stamp,
                                ));
                            }
                        },
                    }
                },
                CoreMetadata::Tree(tree) => {
                    match &dk {
                        Some(k) => {
                            let kc = *k;
                            let tc = *tree;
                            self.detach(&kc);
                            self.parent.insert(kc.val, tc);
                            let ck = CollKey { parent: tc.vec.parent_id.val, collection: tc.vec.collection_id };
                            let ghost mid = self@;
                            let exists_already: bool = match self.secondary.get_vec(&ck) {
                                Some(vec) => {
                                    let mut found = false;
                                    let mut j: usize = 0;
                                    while j < vec.len()
                                        invariant
                                            j <= vec@.len(),
                                            found == vec@.subrange(0, j as int).contains(
                                                kc.val,
                                            ),
                                        decreases vec@.len() - j,
                                    {
                                        let ghost sub_before = vec@.subrange(0, j as int);
                                        if vec[j] == kc.val {
                                            found = true;
                                        }
                                        j = j + 1;
                                        proof {
                                            let sub = vec@.subrange(0, j as int);
                                            assert(sub.drop_last() =~= sub_before);
                                            assert(sub.last() == vec@[j - 1]);
                                            if vec@[j - 1] == kc.val {
                                                assert(sub.contains(kc.val));
                                            } else {
                                                assert(sub.contains(kc.val)
                                                    == sub_before.contains(kc.val));
                                            }
                                        }
                                    }
                                    proof {
                                        assert(vec@.subrange(0, vec@.len() as int) =~= vec@);
                                    }
                                    found
                                },
                                None => false,
                            };
                            if !exists_already {
                                self.secondary.insert(ck, kc.val);
                            }
                            proof {
                                assert(self@ =~= spec_entry_feed(
                                    before,
                                    m[i as int],
                                    dk,
                                    dh,
                                    eh,
                                    stamp,
                                ));
                            }
                        },
                        None => {
                            proof {
                                assert(self@ =~= spec_entry_feed(
                                    before,
                                    m[i as int],
                                    dk,
                                    dh,
                                    eh,
                                    stamp,
                                ));
                            }
                        },
                    }
                },
                _ => {
                    proof {
                        assert(self@ =~= spec_entry_feed(before, m[i as int], dk, dh, eh, stamp));
                    }
                },
            }
            i = i + 1;
        }
        proof {
            assert(spec_feed_rec(self@, m, m.len() as int, dk, dh, eh, stamp) == self@);
        }
    }

    pub fn lookup_primary(&self, key: &PrimaryKey) -> (r: Option<EventLeaf>)
        ensures
            r == (if self@.primary.contains_key(key.val) {
                Some(self@.primary[key.val])
            } else {
                None::<EventLeaf>
            }),
    {
        match self.primary.get(&key.val) {
            Some(leaf) => Some(*leaf),
            None => None,
        }
    }

    /// The member keys of a collection, in insertion order.
    pub fn lookup_secondary_raw(&self, key: &MetaCollection) -> (r: Option<Vec<PrimaryKey>>)
        ensures
            ({
                let ck = CollKey { parent: key.parent_id.val, collection: key.collection_id };
                match r {
                    Some(v) => self@.secondary.contains_key(ck) && v@.map_values(
                        |p: PrimaryKey| p.val,
                    ) == self@.secondary[ck],
                    None => !self@.secondary.contains_key(ck),
                }
            }),
    {
        let ck = CollKey { parent: key.parent_id.val, collection: key.collection_id };
        match self.secondary.get_vec(&ck) {
            Some(vec) => {
                let mut out: Vec<PrimaryKey> = Vec::new();
                let mut i: usize = 0;
                while i < vec.len()
                    invariant
                        i <= vec@.len(),
                        out@.len() == i,
                        out@.map_values(|p: PrimaryKey| p.val) == vec@.subrange(0, i as int),
                    decreases vec@.len() - i,
                {
                    let ghost prev = out@;
                    out.push(PrimaryKey { val: vec[i] });
                    i = i + 1;
                    proof {
                        assert(out@ == prev.push(PrimaryKey { val: vec@[i - 1] }));
                        assert(prev.len() == i - 1);
                        assert(out@.len() == i);
                        let mp = out@.map_values(|p: PrimaryKey| p.val);
                        let pm = prev.map_values(|p: PrimaryKey| p.val);
                        assert(mp.len() == i);
                        assert forall|j: int| 0 <= j < i implies mp[j] == vec@.subrange(
                            0,
                            i as int,
                        )[j] by {
                            assert(mp[j] == out@[j].val);
                            if j < i - 1 {
                                assert(out@[j] == prev[j]);
                                assert(pm[j] == prev[j].val);
                                assert(pm[j] == vec@.subrange(0, i - 1)[j]);
                            } else {
                                assert(out@[j] == PrimaryKey { val: vec@[i - 1] });
                            }
                        }
                        assert(mp =~= vec@.subrange(0, i as int));
                    }
                }
                proof {
                    assert(vec@.subrange(0, vec@.len() as int) =~= vec@);
                }
                Some(out)
            },
            None => None,
        }
    }

    /// The live leaves of a collection: member keys joined against the
    /// primary index, in order, skipping members with no live record.
    pub fn lookup_secondary(&self, key: &MetaCollection) -> (r: Option<Vec<EventLeaf>>)
        ensures
            ({
                let ck = CollKey { parent: key.parent_id.val, collection: key.collection_id };
                match r {
                    Some(v) => self@.secondary.contains_key(ck) && v@ == spec_join(
                        self@.primary,
                        self@.secondary[ck],
                    ),
                    None => !self@.secondary.contains_key(ck),
                }
            }),
    {
        let ck = CollKey { parent: key.parent_id.val, collection: key.collection_id };
        match self.secondary.get_vec(&ck) {
            Some(vec) => {
                let mut out: Vec<EventLeaf> = Vec::new();
                let mut i: usize = 0;
                proof {
                    assert(vec@.skip(0) =~= vec@);
                }
                while i < vec.len()
                    invariant
                        i <= vec@.len(),
                        vec@ == self.secondary@[ck],
                        spec_join(self@.primary, vec@) == out@ + spec_join(
                            self@.primary,
                            vec@.skip(i as int),
                        ),
                    decreases vec@.len() - i,
                {
                    let ghost rem = vec@.skip(i as int);
                    proof {
                        assert(rem[0] == vec@[i as int]);
                        assert(rem.drop_first() =~= vec@.skip(i + 1));
                    }
                    match self.primary.get(&vec[i]) {
                        Some(leaf) => {
                            out.push(*leaf);
                        },
                        None => {},
                    }
                    i = i + 1;
                }
                proof {
                    assert(spec_join(self@.primary, vec@.skip(vec@.len() as int)) =~= Seq::<
                        EventLeaf,
                    >::empty());
                    assert(out@ + Seq::<EventLeaf>::empty() =~= out@);
                }
                Some(out)
            },
            None => None,
        }
    }

    /// Rebuilds the index from scratch out of replayed headers.
    pub fn rebuild(&mut self, data: &Vec<EventHeader>)
        ensures
            final(self)@ == spec_feed_all(
                spec_index_empty(),
                data@.map_values(|h: EventHeader| h@),
            ),
    {
        let fresh = BinaryTreeIndexer::new();
        *self = fresh;
        let ghost hs = data@.map_values(|h: EventHeader| h@);
        let mut i: usize = 0;
        proof {
            assert(hs.skip(0) =~= hs);
        }
        while i < data.len()
            invariant
                i <= data@.len(),
                hs == data@.map_values(|h: EventHeader| h@),
                spec_feed_all(self@, hs.skip(i as int)) == spec_feed_all(
                    spec_index_empty(),
                    hs,
                ),
            decreases data@.len() - i,
        {
            let ghost rem = hs.skip(i as int);
            proof {
                assert(rem[0] == hs[i as int]);
                assert(hs[i as int] == data@[i as int]@);
                assert(rem.drop_first() =~= hs.skip(i + 1));
            }
            self.feed(&data[i]);
            i = i + 1;
        }
        proof {
            assert(spec_feed_all(self@, hs.skip(hs.len() as int)) == self@);
        }
    }
}

/// Joins member keys against the primary map, keeping the leaves of
/// live members in order.
pub open spec fn spec_join(prim: Map<u128, EventLeaf>, ks: Seq<u128>) -> Seq<EventLeaf>
    decreases ks.len(),
{
    if ks.len() == 0 {
        Seq::empty()
    } else {
        (if prim.contains_key(ks[0]) {
            seq![prim[ks[0]]]
        } else {
            Seq::empty()
        }) + spec_join(prim, ks.drop_first())
    }
}


/// Folding one more header at the end steps the fold once.
pub proof fn lemma_feed_all_snoc(v: IndexView, hs: Seq<EventHeaderV>, h: EventHeaderV)
    ensures
        spec_feed_all(v, hs.push(h)) == spec_index_feed(spec_feed_all(v, hs), h),
    decreases hs.len(),
{
    if hs.len() == 0 {
        assert(hs.push(h)[0] == h);
        assert(hs.push(h).drop_first() =~= Seq::<EventHeaderV>::empty());
        assert(spec_feed_all(v, hs.push(h)) == spec_feed_all(
            spec_index_feed(v, h),
            hs.push(h).drop_first(),
        ));
        assert(spec_feed_all(spec_index_feed(v, h), hs.push(h).drop_first()) == spec_index_feed(
            v,
            h,
        ));
        assert(spec_feed_all(v, hs) == v);
    } else {
        assert(hs.push(h)[0] == hs[0]);
        assert(hs.push(h).drop_first() =~= hs.drop_first().push(h));
        lemma_feed_all_snoc(spec_index_feed(v, hs[0]), hs.drop_first(), h);
        assert(spec_feed_all(v, hs.push(h)) == spec_feed_all(
            spec_index_feed(v, hs[0]),
            hs.drop_first().push(h),
        ));
        assert(spec_feed_all(v, hs) == spec_feed_all(
            spec_index_feed(v, hs[0]),
            hs.drop_first(),
        ));
    }
}


/// Every record hash the transition leaves in the primary map is
/// either one it found there or the fed event's own hash.
pub proof fn lemma_feed_records(v: IndexView, h: EventHeaderV)
    ensures
        forall|k: u128|
            #[trigger] spec_index_feed(v, h).primary.contains_key(k) ==> ((
            v.primary.contains_key(k) && spec_index_feed(v, h).primary[k].record
                == v.primary[k].record) || spec_index_feed(v, h).primary[k].record
                == h.event_hash),
{
    match spec_tombstone(h.meta) {
        Some(t) => {},
        None => {
            lemma_feed_rec_records(
                v,
                h.meta,
                0,
                spec_data_key(h.meta),
                h.data_hash,
                h.event_hash,
                spec_when(h.meta),
            );
        },
    }
}

proof fn lemma_feed_rec_records(
    v: IndexView,
    meta: Seq<CoreMetadataV>,
    i: int,
    dk: Option<PrimaryKey>,
    dh: Option<AteHash>,
    eh: AteHash,
    stamp: u64,
)
    ensures
        forall|k: u128|
            #[trigger] spec_feed_rec(v, meta, i, dk, dh, eh, stamp).primary.contains_key(k)
                ==> ((v.primary.contains_key(k) && spec_feed_rec(
                v,
                meta,
                i,
                dk,
                dh,
                eh,
                stamp,
            ).primary[k].record == v.primary[k].record) || spec_feed_rec(
                v,
                meta,
                i,
                dk,
                dh,
                eh,
                stamp,
            ).primary[k].record == eh),
    decreases meta.len() - i,
{
    if 0 <= i < meta.len() {
        let v1 = spec_entry_feed(v, meta[i], dk, dh, eh, stamp);
        assert forall|k: u128| #[trigger] v1.primary.contains_key(k) implies ((
        v.primary.contains_key(k) && v1.primary[k].record == v.primary[k].record)
            || v1.primary[k].record == eh) by {
            match meta[i] {
                CoreMetadataV::Data(key) => {},
                _ => {},
            }
        }
        lemma_feed_rec_records(v1, meta, i + 1, dk, dh, eh, stamp);
        let fin = spec_feed_rec(v, meta, i, dk, dh, eh, stamp);
        assert(fin == spec_feed_rec(v1, meta, i + 1, dk, dh, eh, stamp));
        assert forall|k: u128| #[trigger] fin.primary.contains_key(k) implies ((
        v.primary.contains_key(k) && fin.primary[k].record == v.primary[k].record)
            || fin.primary[k].record == eh) by {
            if v1.primary.contains_key(k) && fin.primary[k].record == v1.primary[k].record {
                assert(v1.primary.contains_key(k));
            }
        }
    }
}

} // verus!
