//! Compaction: deciding, event by event from newest to oldest, what a
//! rewritten log keeps.  The standard set drops tombstoned records and
//! stale duplicates while force-keeping needed parents, and keeping a
//! live record's newest event preserves what the primary index says.

use vstd::prelude::*;
use std::collections::HashSet;
use crate::PrimaryKey;
use crate::crypto::AteHash;
use crate::event::EventHeader;
use crate::event::EventHeaderV;
use crate::index::EventLeaf;
use crate::index::spec_when;
use crate::meta::CoreMetadata;
use crate::meta::CoreMetadataV;
use crate::meta::Metadata;
use crate::meta::spec_data_key;
use crate::meta::spec_tombstone;

verus! {

broadcast use vstd::std_specs::hash::group_hash_axioms;

/// One compactor's opinion about one event, strongest first.
#[derive(Debug, Clone, Copy, PartialEq, Eq, Structural)]
pub enum EventRelevance {
    /// Force the event to be kept.
    ForceKeep,
    /// The event should be kept.
    Keep,
    /// No opinion on this event.
    Abstain,
    /// The event should be dropped.
    Drop,
    /// Force the event to drop.
    ForceDrop,
}

/// Something that decides event relevance, newest first.
pub trait EventCompactor {
    fn relevance(&mut self, header: &EventHeader) -> EventRelevance;
}

/// Composition of two opinions: force-drop beats force-keep beats
/// drop beats keep beats abstain.
pub open spec fn spec_combine(a: EventRelevance, b: EventRelevance) -> EventRelevance {
    if a is ForceDrop || b is ForceDrop {
        EventRelevance::ForceDrop
    } else if a is ForceKeep || b is ForceKeep {
        EventRelevance::ForceKeep
    } else if a is Drop || b is Drop {
        EventRelevance::Drop
    } else if a is Keep || b is Keep {
        EventRelevance::Keep
    } else {
        EventRelevance::Abstain
    }
}

/// Whether a combined opinion keeps the event; a chain of abstentions
/// keeps it.
pub open spec fn spec_keep_decision(r: EventRelevance) -> bool {
    !(r is Drop || r is ForceDrop)
}

pub fn combine_relevance(a: EventRelevance, b: EventRelevance) -> (r: EventRelevance)
    ensures
        r == spec_combine(a, b),
{
    if matches!(a, EventRelevance::ForceDrop) || matches!(b, EventRelevance::ForceDrop) {
        EventRelevance::ForceDrop
    } else if matches!(a, EventRelevance::ForceKeep) || matches!(b, EventRelevance::ForceKeep) {
        EventRelevance::ForceKeep
    } else if matches!(a, EventRelevance::Drop) || matches!(b, EventRelevance::Drop) {
        EventRelevance::Drop
    } else if matches!(a, EventRelevance::Keep) || matches!(b, EventRelevance::Keep) {
        EventRelevance::Keep
    } else {
        EventRelevance::Abstain
    }
}

/// Keeps the most recent event per data key and drops older ones.
pub struct RemoveDuplicatesCompactor {
    pub already: HashSet<u128>,
}

impl RemoveDuplicatesCompactor {
    pub fn new() -> (r: RemoveDuplicatesCompactor)
        ensures
            r.already@ =~= Set::<u128>::empty(),
    {
        RemoveDuplicatesCompactor { already: HashSet::new() }
    }

    /// Walking newest first: the first sighting of a data key keeps
    /// its event, every older sighting drops.
    pub fn decide(&mut self, header: &EventHeader) -> (r: EventRelevance)
        ensures
            match spec_data_key(header@.meta) {
                None => r == EventRelevance::Abstain && final(self).already@ == old(
                    self,
                ).already@,
                Some(k) => {
                    &&& final(self).already@ == old(self).already@.insert(k.val)
                    &&& r == (if old(self).already@.contains(k.val) {
                        EventRelevance::Drop
                    } else {
                        EventRelevance::Keep
                    })
                },
            },
    {
        let key = match header.meta.get_data_key() {
            Some(k) => k,
            None => {
                return EventRelevance::Abstain;
            },
        };
        if self.already.contains(&key.val) {
            proof {
                assert(old(self).already@.insert(key.val) =~= old(self).already@);
            }
            EventRelevance::Drop
        } else {
            self.already.insert(key.val);
            EventRelevance::Keep
        }
    }
}

impl EventCompactor for RemoveDuplicatesCompactor {
    fn relevance(&mut self, header: &EventHeader) -> EventRelevance {
        self.decide(header)
    }
}

/// Force-drops tombstone events and every older event for the same
/// key.
pub struct TombstoneCompactor {
    pub tombstoned: HashSet<u128>,
}

impl TombstoneCompactor {
    pub fn new() -> (r: TombstoneCompactor)
        ensures
            r.tombstoned@ =~= Set::<u128>::empty(),
    {
        TombstoneCompactor { tombstoned: HashSet::new() }
    }

    pub fn decide(&mut self, header: &EventHeader) -> (r: EventRelevance)
        ensures
            match spec_tombstone(header@.meta) {
                Some(k) => {
                    &&& final(self).tombstoned@ == old(self).tombstoned@.insert(k.val)
                    &&& r == EventRelevance::ForceDrop
                },
                None => {
                    &&& final(self).tombstoned@ == old(self).tombstoned@
                    &&& r == (match spec_data_key(header@.meta) {
                        Some(k) => if old(self).tombstoned@.contains(k.val) {
                            EventRelevance::ForceDrop
                        } else {
                            EventRelevance::Abstain
                        },
                        None => EventRelevance::Abstain,
                    })
                },
            },
    {
        match header.meta.get_tombstone() {
            Some(key) => {
                self.tombstoned.insert(key.val);
                return EventRelevance::ForceDrop;
            },
            None => {},
        }
        let key = match header.meta.get_data_key() {
            Some(k) => k,
            None => {
                return EventRelevance::Abstain;
            },
        };
        if self.tombstoned.contains(&key.val) {
            EventRelevance::ForceDrop
        } else {
            EventRelevance::Abstain
        }
    }
}

impl EventCompactor for TombstoneCompactor {
    fn relevance(&mut self, header: &EventHeader) -> EventRelevance {
        self.decide(header)
    }
}

/// Force-keeps an ancestor of any retained event, preserving
/// parent-path integrity.  Its needed-parent set is fed from every
/// event before the walk.
pub struct TreeCompactor {
    pub parent_needed: HashSet<u128>,
}

impl TreeCompactor {
    pub fn new() -> (r: TreeCompactor)
        ensures
            r.parent_needed@ =~= Set::<u128>::empty(),
    {
        TreeCompactor { parent_needed: HashSet::new() }
    }

    /// Notes the parent an event declares.
    pub fn feed(&mut self, header: &EventHeader)
        ensures
            final(self).parent_needed@ == (match crate::meta::spec_parent(header@.meta) {
                Some(p) => old(self).parent_needed@.insert(p.vec.parent_id.val),
                None => old(self).parent_needed@,
            }),
    {
        match header.meta.get_parent() {
            Some(p) => {
                self.parent_needed.insert(p.vec.parent_id.val);
            },
            None => {},
        }
    }

    pub fn decide(&mut self, header: &EventHeader) -> (r: EventRelevance)
        ensures
            match spec_data_key(header@.meta) {
                Some(k) => {
                    &&& final(self).parent_needed@ == old(self).parent_needed@.remove(k.val)
                    &&& r == (if old(self).parent_needed@.contains(k.val) {
                        EventRelevance::ForceKeep
                    } else {
                        EventRelevance::Abstain
                    })
                },
                None => {
                    &&& final(self).parent_needed@ == old(self).parent_needed@
                    &&& r == EventRelevance::Abstain
                },
            },
    {
        let key = match header.meta.get_data_key() {
            Some(k) => k,
            None => {
                return EventRelevance::Abstain;
            },
        };
        if self.parent_needed.contains(&key.val) {
            self.parent_needed.remove(&key.val);
            EventRelevance::ForceKeep
        } else {
            proof {
                assert(old(self).parent_needed@.remove(key.val) =~= old(self).parent_needed@);
            }
            EventRelevance::Abstain
        }
    }
}

impl EventCompactor for TreeCompactor {
    fn relevance(&mut self, header: &EventHeader) -> EventRelevance {
        self.decide(header)
    }
}

/// The identity compactor: always abstains.
#[derive(Default, Debug)]
pub struct IndecisiveCompactor {}

impl IndecisiveCompactor {
    /// Abstains on every event and keeps no state, so composing it
    /// into any compactor chain changes nothing.
    pub fn decide(&mut self, _header: &EventHeader) -> (r: EventRelevance)
        ensures
            r == EventRelevance::Abstain,
            *final(self) == *old(self),
    {
        EventRelevance::Abstain
    }
}

impl EventCompactor for IndecisiveCompactor {
    fn relevance(&mut self, header: &EventHeader) -> EventRelevance {
        self.decide(header)
    }
}

/// Extensions on metadata used by the compaction path.
impl Metadata {
    /// The first tombstone key, under its compaction-path name.
    pub fn tombstone_key(&self) -> (r: Option<PrimaryKey>)
        ensures
            r == spec_tombstone(self@),
    {
        self.get_tombstone()
    }
}

// ---------------------------------------------------------------------
// the standard plan and what it preserves
// ---------------------------------------------------------------------

/// Whether some event at or after `i` carries a tombstone for `k`.
pub open spec fn spec_tomb_from(hs: Seq<EventHeaderV>, i: int, k: u128) -> bool {
    exists|j: int|
        i <= j < hs.len() && spec_tombstone(#[trigger] hs[j].meta) == Some(
            PrimaryKey { val: k },
        )
}

/// Whether some event at or after `i` names `k` as its data key.
pub open spec fn spec_data_from(hs: Seq<EventHeaderV>, i: int, k: u128) -> bool {
    exists|j: int|
        i <= j < hs.len() && spec_data_key(#[trigger] hs[j].meta) == Some(PrimaryKey { val: k })
}

/// What the standard compactor set keeps: an event survives exactly
/// when it is no tombstone, and, if it carries a data key, no later
/// event tombstones or rewrites that key.
pub open spec fn spec_kept(hs: Seq<EventHeaderV>, i: int) -> bool {
    &&& spec_tombstone(hs[i].meta) is None
    &&& (match spec_data_key(hs[i].meta) {
        Some(k) => !spec_tomb_from(hs, i + 1, k.val) && !spec_data_from(hs, i + 1, k.val),
        None => true,
    })
}

/// Computes the keep flag of every event under the standard compactor
/// set: tombstone, duplicate removal and tree preservation, walking
/// the log newest to oldest.  The preservation law over these flags
/// (`lemma_compaction_preserves_index`) holds for logs whose data
/// events carry a payload hash and name one key, never mixed with a
/// tombstone.
pub fn compact_plan(headers: &Vec<EventHeader>) -> (r: Vec<bool>)
    ensures
        r@.len() == headers@.len(),
        forall|i: int|
            0 <= i < r@.len() ==> r@[i] == spec_kept(
                headers@.map_values(|h: EventHeader| h@),
                i,
            ),
{
    let ghost hs = headers@.map_values(|h: EventHeader| h@);
    let mut tree = TreeCompactor::new();
    let mut f: usize = 0;
    while f < headers.len()
        invariant
            f <= headers@.len(),
        decreases headers@.len() - f,
    {
        tree.feed(&headers[f]);
        f = f + 1;
    }
    let mut tomb = TombstoneCompactor::new();
    let mut dups = RemoveDuplicatesCompactor::new();
    let mut rev: Vec<bool> = Vec::new();
    let mut i: usize = headers.len();
    while i > 0
        invariant
            i <= headers@.len(),
            hs == headers@.map_values(|h: EventHeader| h@),
            hs.len() == headers@.len(),
            rev@.len() == headers@.len() - i,
            forall|j: int|
                0 <= j < rev@.len() ==> rev@[j] == spec_kept(hs, hs.len() - 1 - j),
            forall|k: u128|
                #[trigger] tomb.tombstoned@.contains(k) <==> spec_tomb_from(hs, i as int, k),
            forall|k: u128|
                #[trigger] dups.already@.contains(k) <==> spec_data_from(hs, i as int, k),
            forall|k: u128|
                #[trigger] tree.parent_needed@.contains(k) ==> !dups.already@.contains(k),
        decreases i,
    {
        i = i - 1;
        let ghost at = i as int;
        proof {
            assert(hs[at] == headers@[at]@);
        }
        let ghost pn_before = tree.parent_needed@;
        let ghost already_before = dups.already@;
        let r1 = tomb.decide(&headers[i]);
        let r2 = dups.decide(&headers[i]);
        let r3 = tree.decide(&headers[i]);
        let combined = combine_relevance(combine_relevance(r1, r2), r3);
        let keep = !(matches!(combined, EventRelevance::Drop) || matches!(
            combined,
            EventRelevance::ForceDrop,
        ));
        proof {
            assert(keep == spec_keep_decision(combined));
        }
        proof {
            // the three opinions line up with the closed form
            match spec_tombstone(hs[at].meta) {
                Some(k) => {
                    assert(!spec_kept(hs, at));
                    assert(!keep);
                },
                None => {
                    match spec_data_key(hs[at].meta) {
                        Some(k) => {
                            if spec_tomb_from(hs, at + 1, k.val) {
                                assert(r1 == EventRelevance::ForceDrop);
                                assert(!keep);
                                assert(!spec_kept(hs, at));
                            } else if spec_data_from(hs, at + 1, k.val) {
                                assert(r1 == EventRelevance::Abstain);
                                assert(r2 == EventRelevance::Drop);
                                assert(already_before.contains(k.val));
                                assert(!pn_before.contains(k.val));
                                assert(r3 == EventRelevance::Abstain);
                                assert(!keep);
                                assert(!spec_kept(hs, at));
                            } else {
                                assert(r2 == EventRelevance::Keep);
                                assert(keep);
                                assert(spec_kept(hs, at));
                            }
                        },
                        None => {
                            assert(r1 == EventRelevance::Abstain);
                            assert(r2 == EventRelevance::Abstain);
                            assert(r3 == EventRelevance::Abstain);
                            assert(keep);
                            assert(spec_kept(hs, at));
                        },
                    }
                },
            }
            assert(keep == spec_kept(hs, at));
            // the suffix trackers advance by one position
            assert forall|k: u128| #[trigger]
                tomb.tombstoned@.contains(k) <==> spec_tomb_from(hs, at, k) by {
                lemma_tomb_from_step(hs, at, k);
            }
            assert forall|k: u128| #[trigger]
                dups.already@.contains(k) <==> spec_data_from(hs, at, k) by {
                lemma_data_from_step(hs, at, k);
            }
        }
        rev.push(keep);
    }
    // reverse into log order
    let n = rev.len();
    let mut out: Vec<bool> = Vec::new();
    let mut j: usize = 0;
    while j < n
        invariant
            j <= n,
            n == rev@.len(),
            rev@.len() == hs.len(),
            out@.len() == j,
            hs == headers@.map_values(|h: EventHeader| h@),
            forall|t: int| 0 <= t < rev@.len() ==> rev@[t] == spec_kept(hs, hs.len() - 1 - t),
            forall|t: int| 0 <= t < j ==> out@[t] == spec_kept(hs, t),
        decreases n - j,
    {
        out.push(rev[n - 1 - j]);
        j = j + 1;
    }
    out
}

/// A later-tombstone sighting either happens right here or further on.
pub proof fn lemma_tomb_from_step(hs: Seq<EventHeaderV>, i: int, k: u128)
    requires
        0 <= i < hs.len(),
    ensures
        spec_tomb_from(hs, i, k) <==> (spec_tombstone(hs[i].meta) == Some(PrimaryKey { val: k })
            || spec_tomb_from(hs, i + 1, k)),
{
    if spec_tomb_from(hs, i, k) {
        let j = choose|j: int|
            i <= j < hs.len() && spec_tombstone(#[trigger] hs[j].meta) == Some(
                PrimaryKey { val: k },
            );
        if j > i {
            assert(spec_tomb_from(hs, i + 1, k));
        }
    }
    if spec_tombstone(hs[i].meta) == Some(PrimaryKey { val: k }) {
        assert(spec_tomb_from(hs, i, k));
    }
    if spec_tomb_from(hs, i + 1, k) {
        let j = choose|j: int|
            i + 1 <= j < hs.len() && spec_tombstone(#[trigger] hs[j].meta) == Some(
                PrimaryKey { val: k },
            );
        assert(i <= j < hs.len());
        assert(spec_tomb_from(hs, i, k));
    }
}

/// A later-data sighting either happens right here or further on.
pub proof fn lemma_data_from_step(hs: Seq<EventHeaderV>, i: int, k: u128)
    requires
        0 <= i < hs.len(),
    ensures
        spec_data_from(hs, i, k) <==> (spec_data_key(hs[i].meta) == Some(PrimaryKey { val: k })
            || spec_data_from(hs, i + 1, k)),
{
    if spec_data_from(hs, i, k) {
        let j = choose|j: int|
            i <= j < hs.len() && spec_data_key(#[trigger] hs[j].meta) == Some(
                PrimaryKey { val: k },
            );
        if j > i {
            assert(spec_data_from(hs, i + 1, k));
        }
    }
    if spec_data_key(hs[i].meta) == Some(PrimaryKey { val: k }) {
        assert(spec_data_from(hs, i, k));
    }
    if spec_data_from(hs, i + 1, k) {
        let j = choose|j: int|
            i + 1 <= j < hs.len() && spec_data_key(#[trigger] hs[j].meta) == Some(
                PrimaryKey { val: k },
            );
        assert(i <= j < hs.len());
        assert(spec_data_from(hs, i, k));
    }
}


// ---------------------------------------------------------------------
// what compaction preserves
// ---------------------------------------------------------------------

/// The primary-index effect of one event, in isolation.
pub open spec fn spec_step_primary(p: Map<u128, EventLeaf>, h: EventHeaderV) -> Map<
    u128,
    EventLeaf,
> {
    match spec_tombstone(h.meta) {
        Some(k) => p.remove(k.val),
        None => match spec_data_key(h.meta) {
            Some(k) => {
                if h.data_hash is Some {
                    crate::index::spec_leaf_upsert(p, k.val, h.event_hash, spec_when(h.meta))
                } else {
                    p
                }
            },
            None => p,
        },
    }
}

/// The primary map after replaying the events from `i` on.
pub open spec fn spec_primary_from(p: Map<u128, EventLeaf>, hs: Seq<EventHeaderV>, i: int) -> Map<
    u128,
    EventLeaf,
>
    decreases hs.len() - i,
{
    if i < 0 || i >= hs.len() {
        p
    } else {
        spec_primary_from(spec_step_primary(p, hs[i]), hs, i + 1)
    }
}

/// The primary map after replaying only the kept events from `i` on.
pub open spec fn spec_primary_kept_from(
    p: Map<u128, EventLeaf>,
    hs: Seq<EventHeaderV>,
    i: int,
) -> Map<u128, EventLeaf>
    decreases hs.len() - i,
{
    if i < 0 || i >= hs.len() {
        p
    } else {
        spec_primary_kept_from(
            if spec_kept(hs, i) {
                spec_step_primary(p, hs[i])
            } else {
                p
            },
            hs,
            i + 1,
        )
    }
}

/// The inputs compaction is stated for: every data event carries a
/// payload hash, and no event is both a tombstone and a data event.
pub open spec fn spec_compactable(hs: Seq<EventHeaderV>) -> bool {
    forall|i: int|
        0 <= i < hs.len() ==> {
            &&& (spec_data_key((#[trigger] hs[i]).meta) is Some ==> hs[i].data_hash is Some)
            &&& (spec_tombstone(hs[i].meta) is Some ==> spec_data_key(hs[i].meta) is None)
        }
}

/// The marching invariant: keys with a pending tombstone or rewrite
/// are absent from the compacted side; all other keys agree between
/// the two sides on presence, record hash and update time.
pub open spec fn spec_compact_inv(
    hs: Seq<EventHeaderV>,
    i: int,
    pf: Map<u128, EventLeaf>,
    pk: Map<u128, EventLeaf>,
) -> bool {
    forall|k: u128|
        #![trigger pk.contains_key(k)]
        {
            if spec_tomb_from(hs, i, k) || spec_data_from(hs, i, k) {
                !pk.contains_key(k)
            } else {
                &&& pf.contains_key(k) == pk.contains_key(k)
                &&& (pf.contains_key(k) ==> pf[k].record == pk[k].record && pf[k].updated
                    == pk[k].updated)
            }
        }
}

/// The two replays agree at the end of the march.
pub proof fn lemma_compact_core(
    hs: Seq<EventHeaderV>,
    i: int,
    pf: Map<u128, EventLeaf>,
    pk: Map<u128, EventLeaf>,
)
    requires
        0 <= i <= hs.len(),
        spec_compactable(hs),
        spec_compact_inv(hs, i, pf, pk),
    ensures
        ({
            let a = spec_primary_from(pf, hs, i);
            let b = spec_primary_kept_from(pk, hs, i);
            forall|k: u128|
                #![trigger b.contains_key(k)]
                {
                    &&& a.contains_key(k) == b.contains_key(k)
                    &&& (a.contains_key(k) ==> a[k].record == b[k].record && a[k].updated
                        == b[k].updated)
                }
        }),
    decreases hs.len() - i,
{
    if i == hs.len() {
        let a = spec_primary_from(pf, hs, i);
        let b = spec_primary_kept_from(pk, hs, i);
        assert(a == pf);
        assert(b == pk);
        assert forall|k: u128|
            #![trigger b.contains_key(k)]
            {
                &&& a.contains_key(k) == b.contains_key(k)
                &&& (a.contains_key(k) ==> a[k].record == b[k].record && a[k].updated
                    == b[k].updated)
            } by {
            assert(!spec_tomb_from(hs, i, k));
            assert(!spec_data_from(hs, i, k));
            assert(pk.contains_key(k) == pk.contains_key(k));
        }
    } else {
        let h = hs[i];
        let pf1 = spec_step_primary(pf, h);
        let kept = spec_kept(hs, i);
        let pk1 = if kept {
            spec_step_primary(pk, h)
        } else {
            pk
        };
        assert forall|k: u128| #![trigger pk1.contains_key(k)]
            {
                if spec_tomb_from(hs, i + 1, k) || spec_data_from(hs, i + 1, k) {
                    !pk1.contains_key(k)
                } else {
                    &&& pf1.contains_key(k) == pk1.contains_key(k)
                    &&& (pf1.contains_key(k) ==> pf1[k].record == pk1[k].record
                        && pf1[k].updated == pk1[k].updated)
                }
            } by {
            lemma_tomb_from_step(hs, i, k);
            lemma_data_from_step(hs, i, k);
            match spec_tombstone(h.meta) {
                Some(t) => {
                    assert(spec_data_key(h.meta) is None);
                    assert(!kept);
                    if k == t.val {
                        assert(spec_tomb_from(hs, i, k));
                        assert(!pk.contains_key(k));
                    }
                },
                None => {
                    match spec_data_key(h.meta) {
                        Some(d) => {
                            assert(h.data_hash is Some);
                            if k == d.val {
                                assert(spec_data_from(hs, i, k));
                                assert(!pk.contains_key(k));
                                if kept {
                                    assert(!spec_tomb_from(hs, i + 1, k));
                                    assert(!spec_data_from(hs, i + 1, k));
                                    assert(pf1.contains_key(k) && pk1.contains_key(k));
                                    assert(pf1[k].record == pk1[k].record);
                                    assert(pf1[k].updated == pk1[k].updated);
                                } else {
                                    assert(spec_tomb_from(hs, i + 1, k) || spec_data_from(
                                        hs,
                                        i + 1,
                                        k,
                                    ));
                                }
                            }
                        },
                        None => {
                            assert(kept);
                        },
                    }
                },
            }
        }
        lemma_compact_core(hs, i + 1, pf1, pk1);
        let a = spec_primary_from(pf, hs, i);
        let b = spec_primary_kept_from(pk, hs, i);
        assert(a == spec_primary_from(pf1, hs, i + 1));
        assert(b == spec_primary_kept_from(pk1, hs, i + 1));
    }
}

/// Compaction preserves last-writer semantics: replaying only the
/// kept events gives a primary index with exactly the live keys of
/// the full replay, and for each the same record hash and update
/// time.  (The creation time of a record whose older events were
/// dropped follows its retained event.)  Tombstoned keys have no
/// entry on either side.
pub proof fn lemma_compaction_preserves_last_writer(hs: Seq<EventHeaderV>)
    requires
        spec_compactable(hs),
    ensures
        ({
            let full = spec_primary_from(Map::empty(), hs, 0);
            let kept = spec_primary_kept_from(Map::empty(), hs, 0);
            forall|k: u128|
                #![trigger kept.contains_key(k)]
                {
                    &&& full.contains_key(k) == kept.contains_key(k)
                    &&& (full.contains_key(k) ==> full[k].record == kept[k].record
                        && full[k].updated == kept[k].updated)
                }
        }),
{
    assert(spec_compact_inv(hs, 0, Map::empty(), Map::empty()));
    lemma_compact_core(hs, 0, Map::empty(), Map::empty());
}

// ---------------------------------------------------------------------
// bridges: the index transition agrees with the isolated primary step
// ---------------------------------------------------------------------

/// At most one data entry in a metadata list.
pub open spec fn spec_single_data(m: Seq<CoreMetadataV>) -> bool {
    forall|a: int, b: int|
        0 <= a < b < m.len() ==> !((#[trigger] m[a]) is Data && (#[trigger] m[b]) is Data)
}

/// Entries other than the data entry leave the primary map alone.
proof fn lemma_feed_rec_primary_nodata(
    v: crate::index::IndexView,
    meta: Seq<CoreMetadataV>,
    i: int,
    dk: Option<PrimaryKey>,
    dh: Option<AteHash>,
    eh: AteHash,
    st: u64,
)
    requires
        forall|j: int| i <= j < meta.len() ==> !((#[trigger] meta[j]) is Data),
    ensures
        crate::index::spec_feed_rec(v, meta, i, dk, dh, eh, st).primary == v.primary,
    decreases meta.len() - i,
{
    if 0 <= i < meta.len() {
        let v1 = crate::index::spec_entry_feed(v, meta[i], dk, dh, eh, st);
        assert(v1.primary == v.primary);
        lemma_feed_rec_primary_nodata(v1, meta, i + 1, dk, dh, eh, st);
    }
}

/// With no payload hash, the whole entry fold leaves the primary map
/// alone.
proof fn lemma_feed_rec_primary_nohash(
    v: crate::index::IndexView,
    meta: Seq<CoreMetadataV>,
    i: int,
    dk: Option<PrimaryKey>,
    eh: AteHash,
    st: u64,
)
    ensures
        crate::index::spec_feed_rec(v, meta, i, dk, None, eh, st).primary == v.primary,
    decreases meta.len() - i,
{
    if 0 <= i < meta.len() {
        let v1 = crate::index::spec_entry_feed(v, meta[i], dk, None, eh, st);
        assert(v1.primary == v.primary);
        lemma_feed_rec_primary_nohash(v1, meta, i + 1, dk, eh, st);
    }
}

/// A metadata list with no data key has no data entry.
proof fn lemma_no_data_entry(m: Seq<CoreMetadataV>, j: int)
    requires
        spec_data_key(m) is None,
        0 <= j < m.len(),
    ensures
        !(m[j] is Data),
    decreases m.len(),
{
    if m.len() > 0 {
        if j > 0 {
            lemma_no_data_entry(m.drop_first(), j - 1);
            assert(m.drop_first()[j - 1] == m[j]);
        }
    }
}

/// With a single data entry, the first data key is that entry's key.
proof fn lemma_single_data_key(m: Seq<CoreMetadataV>, j: int, k: PrimaryKey)
    requires
        spec_single_data(m),
        0 <= j < m.len(),
        m[j] == CoreMetadataV::Data(k),
    ensures
        spec_data_key(m) == Some(k),
    decreases m.len(),
{
    if m.len() > 0 {
        match m[0] {
            CoreMetadataV::Data(k0) => {
                if j != 0 {
                    assert(m[0] is Data && m[j] is Data);
                    assert(false);
                }
            },
            _ => {
                assert(j > 0);
                assert(spec_single_data(m.drop_first())) by {
                    assert forall|a: int, b: int|
                        0 <= a < b < m.drop_first().len() implies !((#[trigger] m.drop_first()[
                        a]) is Data && (#[trigger] m.drop_first()[b]) is Data) by {
                        assert(m.drop_first()[a] == m[a + 1]);
                        assert(m.drop_first()[b] == m[b + 1]);
                    }
                }
                assert(m.drop_first()[j - 1] == m[j]);
                lemma_single_data_key(m.drop_first(), j - 1, k);
            },
        }
    }
}

/// With a single data entry and a payload hash, the entry fold is
/// exactly one upsert of the primary map.
proof fn lemma_feed_rec_primary_single(
    v: crate::index::IndexView,
    meta: Seq<CoreMetadataV>,
    i: int,
    dk: Option<PrimaryKey>,
    dh: AteHash,
    eh: AteHash,
    st: u64,
    d: int,
    k: PrimaryKey,
)
    requires
        spec_single_data(meta),
        i <= d < meta.len(),
        0 <= i,
        meta[d] == CoreMetadataV::Data(k),
    ensures
        crate::index::spec_feed_rec(v, meta, i, dk, Some(dh), eh, st).primary
            == crate::index::spec_leaf_upsert(v.primary, k.val, eh, st),
    decreases meta.len() - i,
{
    let v1 = crate::index::spec_entry_feed(v, meta[i], dk, Some(dh), eh, st);
    if i == d {
        assert(v1.primary == crate::index::spec_leaf_upsert(v.primary, k.val, eh, st));
        assert forall|j: int| i + 1 <= j < meta.len() implies !((#[trigger] meta[j]) is Data) by {
            if meta[j] is Data {
                assert(meta[i] is Data && meta[j] is Data);
            }
        }
        lemma_feed_rec_primary_nodata(v1, meta, i + 1, dk, Some(dh), eh, st);
    } else {
        assert(!(meta[i] is Data)) by {
            if meta[i] is Data {
                assert(meta[i] is Data && meta[d] is Data);
            }
        }
        assert(v1.primary == v.primary);
        lemma_feed_rec_primary_single(v1, meta, i + 1, dk, dh, eh, st, d, k);
    }
}

/// The whole index transition agrees with the isolated primary step
/// for events with at most one data entry.
pub proof fn lemma_index_feed_primary(v: crate::index::IndexView, h: EventHeaderV)
    requires
        spec_single_data(h.meta),
    ensures
        crate::index::spec_index_feed(v, h).primary == spec_step_primary(v.primary, h),
{
    match spec_tombstone(h.meta) {
        Some(t) => {},
        None => {
            let dk = spec_data_key(h.meta);
            let st = spec_when(h.meta);
            match dk {
                None => {
                    match h.data_hash {
                        Some(dh) => {
                            assert forall|j: int| 0 <= j < h.meta.len() implies !((
                            #[trigger] h.meta[j]) is Data) by {
                                lemma_no_data_entry(h.meta, j);
                            }
                            lemma_feed_rec_primary_nodata(
                                v,
                                h.meta,
                                0,
                                dk,
                                h.data_hash,
                                h.event_hash,
                                st,
                            );
                        },
                        None => {
                            lemma_feed_rec_primary_nohash(v, h.meta, 0, dk, h.event_hash, st);
                        },
                    }
                },
                Some(k) => {
                    match h.data_hash {
                        Some(dh) => {
                            let d = lemma_data_key_index(h.meta, k);
                            lemma_feed_rec_primary_single(
                                v,
                                h.meta,
                                0,
                                dk,
                                dh,
                                h.event_hash,
                                st,
                                d,
                                k,
                            );
                        },
                        None => {
                            lemma_feed_rec_primary_nohash(v, h.meta, 0, dk, h.event_hash, st);
                        },
                    }
                },
            }
        },
    }
}

/// The index of the entry that the first data key comes from.
proof fn lemma_data_key_index(m: Seq<CoreMetadataV>, k: PrimaryKey) -> (d: int)
    requires
        spec_data_key(m) == Some(k),
    ensures
        0 <= d < m.len(),
        m[d] == CoreMetadataV::Data(k),
    decreases m.len(),
{
    match m[0] {
        CoreMetadataV::Data(k0) => 0,
        _ => {
            let d0 = lemma_data_key_index(m.drop_first(), k);
            assert(m.drop_first()[d0] == m[d0 + 1]);
            d0 + 1
        },
    }
}


// ---------------------------------------------------------------------
// the law, restated over the indexer's own transition
// ---------------------------------------------------------------------

/// The pure primary fold over a list of headers, from the left.
pub open spec fn spec_primary_list(p: Map<u128, EventLeaf>, hs: Seq<EventHeaderV>) -> Map<
    u128,
    EventLeaf,
>
    decreases hs.len(),
{
    if hs.len() == 0 {
        p
    } else {
        spec_primary_list(spec_step_primary(p, hs[0]), hs.drop_first())
    }
}

/// Every header has at most one data entry.
pub open spec fn spec_all_single_data(hs: Seq<EventHeaderV>) -> bool {
    forall|k: int| 0 <= k < hs.len() ==> spec_single_data((#[trigger] hs[k]).meta)
}

/// The indexer's fold, projected on the primary map, is the pure fold.
pub proof fn lemma_feed_all_primary(v: crate::index::IndexView, hs: Seq<EventHeaderV>)
    requires
        spec_all_single_data(hs),
    ensures
        crate::index::spec_feed_all(v, hs).primary == spec_primary_list(v.primary, hs),
    decreases hs.len(),
{
    if hs.len() > 0 {
        lemma_index_feed_primary(v, hs[0]);
        assert(spec_all_single_data(hs.drop_first())) by {
            assert forall|k: int| 0 <= k < hs.drop_first().len() implies spec_single_data(
                (#[trigger] hs.drop_first()[k]).meta,
            ) by {
                assert(hs.drop_first()[k] == hs[k + 1]);
            }
        }
        lemma_feed_all_primary(crate::index::spec_index_feed(v, hs[0]), hs.drop_first());
    }
}

/// The pure fold over a suffix, list-style and index-style, agree.
proof fn lemma_primary_from_skip(p: Map<u128, EventLeaf>, hs: Seq<EventHeaderV>, i: int)
    requires
        0 <= i <= hs.len(),
    ensures
        spec_primary_list(p, hs.skip(i)) == spec_primary_from(p, hs, i),
    decreases hs.len() - i,
{
    if i < hs.len() {
        assert(hs.skip(i)[0] == hs[i]);
        assert(hs.skip(i).drop_first() =~= hs.skip(i + 1));
        lemma_primary_from_skip(spec_step_primary(p, hs[i]), hs, i + 1);
    } else {
        assert(hs.skip(i).len() == 0);
    }
}

/// The events the standard plan keeps, from `i` on, in log order.
pub open spec fn spec_filter_kept(hs: Seq<EventHeaderV>, i: int) -> Seq<EventHeaderV>
    decreases hs.len() - i,
{
    if i < 0 || i >= hs.len() {
        Seq::empty()
    } else {
        (if spec_kept(hs, i) {
            seq![hs[i]]
        } else {
            Seq::empty()
        }) + spec_filter_kept(hs, i + 1)
    }
}

/// Folding the kept list is folding with the keep flags.
proof fn lemma_filtered_primary(p: Map<u128, EventLeaf>, hs: Seq<EventHeaderV>, i: int)
    requires
        0 <= i <= hs.len(),
    ensures
        spec_primary_list(p, spec_filter_kept(hs, i)) == spec_primary_kept_from(p, hs, i),
    decreases hs.len() - i,
{
    if i < hs.len() {
        let rest = spec_filter_kept(hs, i + 1);
        if spec_kept(hs, i) {
            let whole = spec_filter_kept(hs, i);
            assert(whole =~= seq![hs[i]] + rest);
            assert(whole[0] == hs[i]);
            assert(whole.drop_first() =~= rest);
            lemma_filtered_primary(spec_step_primary(p, hs[i]), hs, i + 1);
        } else {
            assert(spec_filter_kept(hs, i) =~= rest);
            lemma_filtered_primary(p, hs, i + 1);
        }
    } else {
        assert(spec_filter_kept(hs, i).len() == 0);
    }
}

/// Every kept event is one of the original events.
proof fn lemma_filtered_single(hs: Seq<EventHeaderV>, i: int)
    requires
        0 <= i <= hs.len(),
        spec_all_single_data(hs),
    ensures
        spec_all_single_data(spec_filter_kept(hs, i)),
    decreases hs.len() - i,
{
    if i < hs.len() {
        lemma_filtered_single(hs, i + 1);
        let rest = spec_filter_kept(hs, i + 1);
        if spec_kept(hs, i) {
            let whole = spec_filter_kept(hs, i);
            assert(whole =~= seq![hs[i]] + rest);
            assert forall|k: int| 0 <= k < whole.len() implies spec_single_data(
                (#[trigger] whole[k]).meta,
            ) by {
                if k > 0 {
                    assert(whole[k] == rest[k - 1]);
                }
            }
        } else {
            assert(spec_filter_kept(hs, i) =~= rest);
        }
    }
}

/// Compaction preserves last-writer semantics, stated over the
/// indexer's own transition: replaying only the events the standard
/// plan keeps gives a primary index with exactly the live keys of the
/// full replay, each with the same record hash and update time.
pub proof fn lemma_compaction_preserves_index(hs: Seq<EventHeaderV>)
    requires
        spec_compactable(hs),
        spec_all_single_data(hs),
    ensures
        ({
            let full = crate::index::spec_feed_all(crate::index::spec_index_empty(), hs).primary;
            let kept = crate::index::spec_feed_all(
                crate::index::spec_index_empty(),
                spec_filter_kept(hs, 0),
            ).primary;
            forall|k: u128|
                #![trigger kept.contains_key(k)]
                {
                    &&& full.contains_key(k) == kept.contains_key(k)
                    &&& (full.contains_key(k) ==> full[k].record == kept[k].record
                        && full[k].updated == kept[k].updated)
                }
        }),
{
    let empty = crate::index::spec_index_empty();
    lemma_feed_all_primary(empty, hs);
    assert(hs.skip(0) =~= hs);
    lemma_primary_from_skip(empty.primary, hs, 0);
    lemma_filtered_single(hs, 0);
    lemma_feed_all_primary(empty, spec_filter_kept(hs, 0));
    lemma_filtered_primary(empty.primary, hs, 0);
    lemma_compaction_preserves_last_writer(hs);
}


// ---------------------------------------------------------------------
// the record-count law
// ---------------------------------------------------------------------

/// The record an event contributes to the primary index: its data
/// key, when it carries a payload hash and no tombstone.
pub open spec fn spec_contributes(h: EventHeaderV) -> Option<PrimaryKey> {
    if spec_tombstone(h.meta) is None && h.data_hash is Some {
        spec_data_key(h.meta)
    } else {
        None
    }
}

/// How many events from `i` on contribute a record.
pub open spec fn spec_record_count(hs: Seq<EventHeaderV>, i: int) -> int
    decreases hs.len() - i,
{
    if i < 0 || i >= hs.len() {
        0
    } else {
        (if spec_contributes(hs[i]) is Some {
            1int
        } else {
            0
        }) + spec_record_count(hs, i + 1)
    }
}

/// No two events contribute the same key.
pub open spec fn spec_distinct_records(hs: Seq<EventHeaderV>) -> bool {
    forall|a: int, b: int|
        0 <= a < b < hs.len() ==> (match (
            spec_contributes(#[trigger] hs[a]),
            spec_contributes(#[trigger] hs[b]),
        ) {
            (Some(ka), Some(kb)) => ka != kb,
            _ => true,
        })
}

/// No event carries a tombstone.
pub open spec fn spec_no_tombstones(hs: Seq<EventHeaderV>) -> bool {
    forall|k: int| 0 <= k < hs.len() ==> spec_tombstone((#[trigger] hs[k]).meta) is None
}

proof fn lemma_count_core(p: Map<u128, EventLeaf>, hs: Seq<EventHeaderV>, i: int)
    requires
        0 <= i <= hs.len(),
        p.dom().finite(),
        forall|k: int|
            i <= k < hs.len() ==> spec_tombstone((#[trigger] hs[k]).meta) is None,
        forall|j: int|
            i <= j < hs.len() ==> (match spec_contributes(#[trigger] hs[j]) {
                Some(k) => !p.contains_key(k.val),
                None => true,
            }),
        forall|a: int, b: int|
            i <= a < b < hs.len() ==> (match (
                spec_contributes(#[trigger] hs[a]),
                spec_contributes(#[trigger] hs[b]),
            ) {
                (Some(ka), Some(kb)) => ka != kb,
                _ => true,
            }),
    ensures
        spec_primary_from(p, hs, i).len() == p.dom().len() + spec_record_count(hs, i),
    decreases hs.len() - i,
{
    if i < hs.len() {
        let h = hs[i];
        let p1 = spec_step_primary(p, h);
        match spec_contributes(h) {
            Some(k) => {
                vstd::set::axiom_set_insert_len(p.dom(), k.val);
                vstd::set::axiom_set_insert_finite(p.dom(), k.val);
                assert(p1.dom() =~= p.dom().insert(k.val));
                assert(p1.dom().len() == p.dom().len() + 1);
                assert forall|j: int|
                    i + 1 <= j < hs.len() implies (match spec_contributes(#[trigger] hs[j]) {
                    Some(k2) => !p1.contains_key(k2.val),
                    None => true,
                }) by {
                    match spec_contributes(hs[j]) {
                        Some(k2) => {
                            assert(k2 != k);
                            if k2.val == k.val {
                                assert(k2 == k);
                            }
                        },
                        None => {},
                    }
                }
                lemma_count_core(p1, hs, i + 1);
            },
            None => {
                assert(p1 == p);
                lemma_count_core(p, hs, i + 1);
            },
        }
    }
}

/// The record-count law: replaying events whose contributed keys are
/// pairwise distinct, with no tombstones, leaves exactly one live
/// record per contributing event.  (Storing ten thousand records in
/// ten thousand events makes the count ten thousand.)
pub proof fn lemma_distinct_records_count(hs: Seq<EventHeaderV>)
    requires
        spec_all_single_data(hs),
        spec_no_tombstones(hs),
        spec_distinct_records(hs),
    ensures
        crate::index::spec_feed_all(crate::index::spec_index_empty(), hs).primary.len()
            == spec_record_count(hs, 0),
{
    let empty = crate::index::spec_index_empty();
    lemma_feed_all_primary(empty, hs);
    assert(hs.skip(0) =~= hs);
    lemma_primary_from_skip(empty.primary, hs, 0);
    assert(empty.primary.dom() =~= Set::<u128>::empty());
    lemma_count_core(empty.primary, hs, 0);
}

} // verus!
