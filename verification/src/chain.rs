//! The chain: the composition of redo log, trust pipeline and indexer.
//! A transaction is linted, signed, encrypted, validated, appended and
//! indexed; a rejected transaction leaves no partial state behind.
//! Loading a record walks the index, reads the frame at the recorded
//! offset and decrypts on the way out.

use vstd::prelude::*;
use std::collections::HashMap;
use crate::PrimaryKey;
use crate::crypto::AteHash;
use crate::error::ChainCreationError;
use crate::error::CommitError;
use crate::error::LintErrorV;
use crate::error::LoadError;
use crate::event::EventData;
use crate::event::EventHeader;
use crate::event::EventHeaderV;
use crate::event::MessageFormat;
use crate::event::spec_header_of;
use crate::index::BinaryTreeIndexer;
use crate::index::lemma_feed_all_snoc;
use crate::index::spec_feed_all;
use crate::index::spec_index_empty;
use crate::meta::ChainTimestamp;
use crate::meta::CoreMetadata;
use crate::meta::Metadata;
use crate::meta::MetaSignature;
use crate::redo::LogLookup;
use crate::redo::RedoLog;
use crate::redo::p_event;
use crate::redo::spec_dbytes;
use crate::session::AteSession;
use crate::session::ConversationSession;
use crate::transaction::Scope;
use crate::transaction::Transaction;
use crate::transaction::TransactionMetadata;
use crate::tree::IntegrityMode;
use crate::tree::SignaturePlugin;
use crate::tree::TreeAuthorityPlugin;
use crate::tree::TreeAuthView;
use crate::tree::spec_overlay;
use crate::event::spec_event_hash;

verus! {

broadcast use vstd::std_specs::hash::group_hash_axioms;

/// The name a chain is addressed by.
#[derive(Debug)]
pub struct ChainKey {
    pub name: String,
}

/// A chain of trust: the redo log, the replayed headers, the pointers
/// from event hash to frame offset, the in-memory index, the trust
/// plugin, and the administrative switches.
pub struct Chain {
    pub key: ChainKey,
    pub redo: RedoLog,
    pub headers: Vec<EventHeader>,
    pub pointers: HashMap<u128, LogLookup>,
    pub indexer: BinaryTreeIndexer,
    pub plugin: TreeAuthorityPlugin,
    pub default_format: MessageFormat,
    pub disable_new_roots: bool,
}

impl Chain {
    /// The chain's well-formedness: the log is well formed, the
    /// replayed headers are exactly the headers of the logged events,
    /// the index is the fold of those headers, and every pointer
    /// addresses a frame holding an event with that hash.
    pub open spec fn wf(&self) -> bool {
        &&& self.redo.wf()
        &&& self.headers@.len() == self.redo.entries@.len()
        &&& (forall|k: int|
            0 <= k < self.headers@.len() ==> (#[trigger] self.headers@[k])@ == spec_header_of(
                self.redo.entries@[k].1,
            ))
        &&& self.indexer@ == spec_feed_all(
            spec_index_empty(),
            self.headers@.map_values(|h: EventHeader| h@),
        )
        &&& (forall|h: u128|
            #[trigger] self.pointers@.contains_key(h) ==> (match p_event(
                self.redo.data@,
                self.pointers@[h].offset as int,
            ) {
                Some((e, _)) => spec_event_hash(e) == h,
                None => false,
            }))
        &&& (forall|k: u128|
            #[trigger] self.indexer@.primary.contains_key(k)
                ==> self.pointers@.contains_key(self.indexer@.primary[k].record.val))
    }

    /// A fresh, empty chain.
    pub fn new(key: ChainKey) -> (r: Chain)
        ensures
            r.wf(),
            r.headers@.len() == 0,
            r.indexer@ == spec_index_empty(),
            r.plugin@.integrity == IntegrityMode::Distributed,
    {
        let r = Chain {
            key,
            redo: RedoLog::new(0),
            headers: Vec::new(),
            pointers: HashMap::new(),
            indexer: BinaryTreeIndexer::new(),
            plugin: TreeAuthorityPlugin::new(),
            default_format: MessageFormat::Binary,
            disable_new_roots: false,
        };
        proof {
            assert(r.headers@.map_values(|h: EventHeader| h@) =~= Seq::<EventHeaderV>::empty());
        }
        r
    }

    /// Opens a chain from a log image: replays frames up to the first
    /// partial or corrupt one and rebuilds headers, index and plugin
    /// state from exactly the recovered events.
    #[verifier::rlimit(80)]
    pub fn open(key: ChainKey, bytes: &Vec<u8>) -> (r: Result<Chain, ChainCreationError>)
        ensures
            match r {
                Ok(c) => {
                    &&& c.wf()
                    &&& (bytes@.len() == 0 ==> c.headers@.len() == 0)
                    &&& (bytes@.len() > 0 ==> {
                        &&& c.headers@.map_values(|h: EventHeader| h@)
                            =~= crate::redo::p_events(bytes@, 4).map_values(
                            |p: (int, crate::event::EventDataV)| spec_header_of(p.1),
                        )
                        &&& spec_all_sigs_ok(
                            crate::redo::p_events(bytes@, 4).map_values(
                                |p: (int, crate::event::EventDataV)| p.1,
                            ),
                        )
                    })
                },
                Err(ChainCreationError::Log(e)) => e == crate::error::LogError::BadMagic
                    && bytes@.len() > 0 && !crate::redo::spec_magic_ok(bytes@),
                Err(ChainCreationError::Sink(_)) => crate::redo::spec_magic_ok(bytes@)
                    && !spec_all_sigs_ok(
                    crate::redo::p_events(bytes@, 4).map_values(
                        |p: (int, crate::event::EventDataV)| p.1,
                    ),
                ),
            },
    {
        let (log, evs) = match RedoLog::open(0, bytes) {
            Ok(a) => a,
            Err(e) => {
                return Err(ChainCreationError::Log(e));
            },
        };
        let mut chain = Chain {
            key,
            redo: log,
            headers: Vec::new(),
            pointers: HashMap::new(),
            indexer: BinaryTreeIndexer::new(),
            plugin: TreeAuthorityPlugin::new(),
            default_format: MessageFormat::Binary,
            disable_new_roots: false,
        };
        let mut scratch = ConversationSession::none();
        let mut i: usize = 0;
        let ghost entries = chain.redo.entries@;
        proof {
            assert(chain.headers@.map_values(|h: EventHeader| h@) =~= Seq::<
                EventHeaderV,
            >::empty());
        }
        while i < evs.len()
            invariant
                i <= evs@.len(),
                evs@.len() == entries.len(),
                chain.redo.entries@ == entries,
                bytes@.len() > 0 ==> entries == crate::redo::p_events(bytes@, 4),
                bytes@.len() > 0 ==> crate::redo::spec_magic_ok(bytes@),
                bytes@.len() == 0 ==> entries.len() == 0,
                chain.redo.wf(),
                forall|k: int|
                    0 <= k < evs@.len() ==> {
                        &&& (#[trigger] evs@[k]).1@ == entries[k].1
                        &&& evs@[k].0.offset as int == entries[k].0
                    },
                chain.headers@.len() == i,
                forall|k: int|
                    0 <= k < i ==> (#[trigger] chain.headers@[k])@ == spec_header_of(
                        entries[k].1,
                    ),
                chain.indexer@ == spec_feed_all(
                    spec_index_empty(),
                    chain.headers@.map_values(|h: EventHeader| h@),
                ),
                forall|h: u128|
                    #[trigger] chain.pointers@.contains_key(h) ==> (match p_event(
                        chain.redo.data@,
                        chain.pointers@[h].offset as int,
                    ) {
                        Some((e, _)) => spec_event_hash(e) == h,
                        None => false,
                    }),
                forall|k: u128|
                    #[trigger] chain.indexer@.primary.contains_key(k)
                        ==> chain.pointers@.contains_key(chain.indexer@.primary[k].record.val),
                forall|j: int|
                    0 <= j < i ==> crate::tree::spec_meta_sigs_ok(
                        (#[trigger] entries[j]).1.meta,
                    ),
            decreases evs@.len() - i,
        {
            let ghost hs_before = chain.headers@.map_values(|h: EventHeader| h@);
            let ghost idx_before = chain.indexer@;
            let lookup = evs[i].0;
            let ev = duplicate_event(&evs[i].1);
            let header = ev.into_header();
            let ghost header_view = header@;
            proof {
                assert(evs@[i as int].1@ == entries[i as int].1);
                assert(header@ == spec_header_of(entries[i as int].1));
                crate::redo::lemma_p_events_elements(chain.redo.data@, 4);
                assert(chain.redo.entries@[i as int] == crate::redo::p_events(
                    chain.redo.data@,
                    4,
                )[i as int]);
            }
            match chain.plugin.feed(&header, &mut scratch) {
                Ok(()) => {},
                Err(e) => {
                    proof {
                        assert(!crate::tree::spec_meta_sigs_ok(entries[i as int].1.meta));
                        if bytes@.len() > 0 {
                            let f = |p: (int, crate::event::EventDataV)| p.1;
                            assert(crate::redo::p_events(bytes@, 4).map_values(f)[i as int]
                                == entries[i as int].1);
                            assert(!spec_all_sigs_ok(
                                crate::redo::p_events(bytes@, 4).map_values(f),
                            ));
                        }
                    }
                    return Err(ChainCreationError::Sink(e));
                },
            }
            chain.indexer.feed(&header);
            chain.pointers.insert(header.raw.event_hash.val, lookup);
            chain.headers.push(header);
            proof {
                crate::index::lemma_feed_records(idx_before, header_view);
                assert forall|k: u128| #[trigger]
                    chain.indexer@.primary.contains_key(k) implies chain.pointers@.contains_key(
                    chain.indexer@.primary[k].record.val,
                ) by {
                    if idx_before.primary.contains_key(k) && chain.indexer@.primary[k].record
                        == idx_before.primary[k].record {
                    } else {
                        assert(chain.indexer@.primary[k].record == header_view.event_hash);
                    }
                }
            }
            i = i + 1;
            proof {
                assert(chain.headers@.map_values(|h: EventHeader| h@) =~= hs_before.push(
                    chain.headers@[i - 1]@,
                ));
                lemma_feed_all_snoc(spec_index_empty(), hs_before, chain.headers@[i - 1]@);
            }
        }
        proof {
            assert(chain.headers@.map_values(|h: EventHeader| h@) =~= entries.map_values(
                |p: (int, crate::event::EventDataV)| spec_header_of(p.1),
            ));
            if bytes@.len() > 0 {
                let f = |p: (int, crate::event::EventDataV)| p.1;
                let views = crate::redo::p_events(bytes@, 4).map_values(f);
                assert forall|j: int| 0 <= j < views.len() implies crate::tree::spec_meta_sigs_ok(
                    (#[trigger] views[j]).meta,
                ) by {
                    assert(views[j] == entries[j].1);
                }
            }
        }
        Ok(chain)
    }

    /// How many records are live in the primary index.
    pub fn count(&self) -> (r: usize)
        ensures
            r == self.indexer@.primary.len(),
    {
        self.indexer.count()
    }

    /// The current byte image of the log, for the caller to persist.
    pub fn log_image(&self) -> (r: &Vec<u8>)
        ensures
            r@ == self.redo.data@,
    {
        &self.redo.data
    }

    /// Whether one submitted event clears the deterministic staging
    /// steps: linting succeeds, and when it carries a payload the
    /// session can derive (or is excused from) a record key.
    pub open spec fn spec_stage_ok(
        v: TreeAuthView,
        e: crate::event::EventDataV,
        sess: AteSession,
    ) -> bool {
        match crate::tree::spec_lint(
            v,
            e.meta,
            crate::transaction::spec_trans_empty(),
            sess,
        ) {
            Ok(extra) => (e.data is Some ==> crate::tree::spec_underlay_key(
                v,
                e.meta + extra,
                crate::transaction::spec_trans_empty(),
                sess,
            ) is Ok),
            Err(_) => false,
        }
    }

    /// Feeds one transaction: every event is linted, signed with the
    /// session keys the write set admits, encrypted when the read
    /// option derives a key, validated, and only then appended and
    /// indexed.  A rejected transaction leaves the chain unchanged;
    /// lint and key-resolution rejections carry a witness event.
    #[verifier::rlimit(100)]
    pub fn feed(
        &mut self,
        trans: Transaction,
        session: &AteSession,
        conv: &mut ConversationSession,
    ) -> (r: Result<Vec<AteHash>, CommitError>)
        requires
            old(self).wf(),
            crate::session::spec_session_wf(session),
        ensures
            final(self).plugin@.integrity == old(self).plugin@.integrity,
            final(self).plugin@.root_keys == old(self).plugin@.root_keys,
            ({
                let views = trans.events@.map_values(|e: EventData| e@);
                match r {
                    Ok(hashes) => {
                        &&& final(self).wf()
                        &&& old(self).headers@.len() <= final(self).headers@.len()
                        &&& final(self).headers@.subrange(
                            0,
                            old(self).headers@.len() as int,
                        ) == old(self).headers@
                        &&& final(self).indexer@ == spec_feed_all(
                            spec_index_empty(),
                            final(self).headers@.map_values(|h: EventHeader| h@),
                        )
                        &&& hashes@.len() == trans.events@.len()
                        &&& (forall|i: int|
                            0 <= i < hashes@.len() ==> final(self).pointers@.contains_key(
                                (#[trigger] hashes@[i]).val,
                            ))
                        &&& (forall|i: int|
                            0 <= i < views.len() ==> Chain::spec_stage_ok(
                                old(self).plugin@,
                                #[trigger] views[i],
                                *session,
                            ))
                    },
                    Err(e) => (match e {
                        CommitError::Lint(le) => {
                            &&& *final(self) == *old(self)
                            &&& *final(conv) == *old(conv)
                            &&& (exists|i: int|
                                0 <= i < views.len() && crate::tree::spec_lint(
                                    old(self).plugin@,
                                    (#[trigger] views[i]).meta,
                                    crate::transaction::spec_trans_empty(),
                                    *session,
                                ) == Err::<Seq<crate::meta::CoreMetadataV>, LintErrorV>(le@))
                        },
                        CommitError::Transform(te) => {
                            &&& *final(self) == *old(self)
                            &&& *final(conv) == *old(conv)
                            &&& (exists|i: int|
                                0 <= i < views.len() && (match crate::tree::spec_lint(
                                    old(self).plugin@,
                                    (#[trigger] views[i]).meta,
                                    crate::transaction::spec_trans_empty(),
                                    *session,
                                ) {
                                    Ok(extra) => views[i].data is Some
                                        && crate::tree::spec_underlay_key(
                                        old(self).plugin@,
                                        views[i].meta + extra,
                                        crate::transaction::spec_trans_empty(),
                                        *session,
                                    ) == Err::<Option<u128>, crate::error::TransformErrorV>(
                                        te@,
                                    ),
                                    Err(_) => false,
                                }))
                        },
                        CommitError::Validation(_) => *final(self) == *old(self)
                            && *final(conv) == *old(conv),
                        CommitError::Log(_) => final(self).wf(),
                        _ => false,
                    }),
                }
            }),
    {
        let ghost vplugin = self.plugin@;
        let ghost views = trans.events@.map_values(|e: EventData| e@);
        let tm = TransactionMetadata::new();
        proof {
            assert(tm@ =~= crate::transaction::spec_trans_empty());
        }
        // Stage: lint, sign and encrypt every event without touching
        // chain state.
        let mut staged_events: Vec<EventData> = Vec::new();
        let mut sig_events: Vec<EventData> = Vec::new();
        let mut events = trans.events;
        let ghost evs0 = events@;
        let mut idx: usize = 0;
        let n = events.len();
        while idx < n
            invariant
                idx <= n,
                n == events@.len(),
                n == evs0.len(),
                views == evs0.map_values(|e: EventData| e@),
                views.len() == n,
                forall|j: int| idx <= j < n ==> #[trigger] events@[j] == evs0[j],
                staged_events@.len() == idx,
                tm@ == crate::transaction::spec_trans_empty(),
                views == trans.events@.map_values(|e: EventData| e@),
                vplugin == old(self).plugin@,
                old(self).wf(),
                *self == *old(self),
                *conv == *old(conv),
                crate::session::spec_session_wf(session),
                forall|j: int|
                    0 <= j < idx ==> Chain::spec_stage_ok(
                        vplugin,
                        #[trigger] views[j],
                        *session,
                    ),
                forall|j: int|
                    0 <= j < sig_events@.len() ==> crate::tree::spec_meta_sigs_ok(
                        (#[trigger] sig_events@[j])@.meta,
                    ),
            decreases n - idx,
        {
            let mut ev = replace_event(&mut events, idx);
            let ghost base_meta = views[idx as int].meta;
            proof {
                assert(ev@ == views[idx as int]);
            }
            let extra = match self.plugin.metadata_lint_event(&ev.meta, session, &tm) {
                Ok(x) => x,
                Err(e) => {
                    proof {
                        assert(vplugin == old(self).plugin@);
                        assert(crate::tree::spec_lint(
                            old(self).plugin@,
                            views[idx as int].meta,
                            crate::transaction::spec_trans_empty(),
                            *session,
                        ) == Err::<Seq<crate::meta::CoreMetadataV>, LintErrorV>(e@));
                        assert(exists|i: int|
                            0 <= i < views.len() && crate::tree::spec_lint(
                                old(self).plugin@,
                                (#[trigger] views[i]).meta,
                                crate::transaction::spec_trans_empty(),
                                *session,
                            ) == Err::<Seq<crate::meta::CoreMetadataV>, LintErrorV>(e@));
                    }
                    return Err(CommitError::Lint(e));
                },
            };
            let ghost extra_views = extra@.map_values(|m: CoreMetadata| m@);
            let ghost extra0 = extra@;
            let mut x: usize = 0;
            let xs = extra.len();
            let mut extra2 = extra;
            while x < xs
                invariant
                    x <= xs,
                    xs == extra2@.len(),
                    xs == extra0.len(),
                    extra_views == extra0.map_values(|m: CoreMetadata| m@),
                    extra_views.len() == xs,
                    forall|j: int| x <= j < xs ==> #[trigger] extra2@[j] == extra0[j],
                    ev.meta@ == base_meta + extra_views.take(x as int),
                    ev.data_bytes == evs0[idx as int].data_bytes,
                    ev.format == evs0[idx as int].format,
                decreases xs - x,
            {
                let entry = replace_core(&mut extra2, x);
                proof {
                    assert(entry@ == extra_views[x as int]);
                }
                ev.meta.push(entry);
                x = x + 1;
                proof {
                    assert(base_meta + extra_views.take(x as int) =~= (base_meta
                        + extra_views.take(x - 1)).push(extra_views[x - 1]));
                }
            }
            proof {
                assert(extra_views.take(xs as int) =~= extra_views);
                assert(ev.meta@ == base_meta + extra_views);
            }
            // encrypt the payload when a record key is derivable
            match ev.data_bytes {
                Some(d) => {
                    let enc = match self.plugin.data_as_underlay(&mut ev.meta, d, session, &tm) {
                        Ok(out) => out,
                        Err(e) => {
                            proof {
                                assert(vplugin == old(self).plugin@);
                                assert(views[idx as int].data is Some);
                                assert(crate::tree::spec_underlay_key(
                                    old(self).plugin@,
                                    views[idx as int].meta + extra_views,
                                    crate::transaction::spec_trans_empty(),
                                    *session,
                                ) == Err::<Option<u128>, crate::error::TransformErrorV>(e@));
                                assert(exists|i: int|
                                    0 <= i < views.len() && (match crate::tree::spec_lint(
                                        old(self).plugin@,
                                        (#[trigger] views[i]).meta,
                                        crate::transaction::spec_trans_empty(),
                                        *session,
                                    ) {
                                        Ok(extra) => views[i].data is Some
                                            && crate::tree::spec_underlay_key(
                                            old(self).plugin@,
                                            views[i].meta + extra,
                                            crate::transaction::spec_trans_empty(),
                                            *session,
                                        ) == Err::<
                                            Option<u128>,
                                            crate::error::TransformErrorV,
                                        >(e@),
                                        Err(_) => false,
                                    }));
                            }
                            return Err(CommitError::Transform(e));
                        },
                    };
                    ev.data_bytes = if enc.len() == 0 {
                        None
                    } else {
                        Some(enc)
                    };
                },
                None => {
                    ev.data_bytes = None;
                },
            }
            proof {
                assert(Chain::spec_stage_ok(vplugin, views[idx as int], *session));
            }
            // sign the event hash with every hinted session key
            let raw = ev.as_header_raw();
            let mut w: usize = 0;
            let wn = session.write_keys.len();
            while w < wn
                invariant
                    w <= wn,
                    wn == session.write_keys@.len(),
                    crate::session::spec_session_wf(session),
                    forall|j: int|
                        0 <= j < sig_events@.len() ==> crate::tree::spec_meta_sigs_ok(
                            (#[trigger] sig_events@[j])@.meta,
                        ),
                decreases wn - w,
            {
                proof {
                    assert(session.write_keys@[w as int].wf());
                }
                let hinted = event_hints_key(&ev.meta, &session.write_keys[w].hash());
                if hinted {
                    let mut hashes: Vec<AteHash> = Vec::new();
                    hashes.push(raw.event_hash);
                    proof {
                        assert(hashes@ =~= seq![raw.event_hash]);
                    }
                    let msg = crate::tree::sig_message(&hashes);
                    let signature = session.write_keys[w].sign(&msg);
                    let public_key = session.write_keys[w].as_public_key().duplicate();
                    let ghost gv = crate::meta::MetaSignatureV {
                        hashes: hashes@,
                        signature: signature@,
                        public_key: public_key@,
                    };
                    proof {
                        assert(crate::tree::spec_sig_valid(gv));
                    }
                    let mut smeta = Metadata::new();
                    smeta.push(
                        CoreMetadata::Signature(MetaSignature { hashes, signature, public_key }),
                    );
                    let sev = EventData::new(smeta, None, MessageFormat::Binary);
                    proof {
                        assert(sev@.meta.len() == 1);
                        assert(sev@.meta[0] == crate::meta::CoreMetadataV::Signature(gv));
                        assert(crate::tree::spec_meta_sigs_ok(sev@.meta));
                    }
                    sig_events.push(sev);
                }
                w = w + 1;
            }
            staged_events.push(ev);
            idx = idx + 1;
        }
        // Validate: every event must pass against current state plus
        // the staged signatures; nothing has been mutated yet.
        let ghost sig0 = sig_events@;
        let ghost staged0 = staged_events@;
        let mut staged_sigs = SignaturePlugin::new();
        let mut scratch = ConversationSession::none();
        let mut v: usize = 0;
        let vn = sig_events.len();
        while v < vn
            invariant
                v <= vn,
                vn == sig_events@.len(),
                sig_events@ == sig0,
                staged_events@ == staged0,
                staged0.len() == views.len(),
                views == trans.events@.map_values(|e: EventData| e@),
                vplugin == old(self).plugin@,
                old(self).wf(),
                *self == *old(self),
                *conv == *old(conv),
                forall|j: int|
                    0 <= j < sig0.len() ==> crate::tree::spec_meta_sigs_ok(
                        (#[trigger] sig0[j])@.meta,
                    ),
                forall|j: int|
                    0 <= j < views.len() ==> Chain::spec_stage_ok(
                        vplugin,
                        #[trigger] views[j],
                        *session,
                    ),
            decreases vn - v,
        {
            let header_probe = sig_events[v].as_header_raw();
            let hdr = EventHeader {
                raw: header_probe,
                meta: duplicate_meta(&sig_events[v].meta),
            };
            proof {
                assert(hdr@.meta == sig0[v as int]@.meta);
            }
            match staged_sigs.feed(&hdr, &mut scratch) {
                Ok(()) => {},
                Err(e) => {
                    proof {
                        assert(false);
                    }
                    return Err(CommitError::Sink(e));
                },
            }
            v = v + 1;
        }
        let mut c: usize = 0;
        let cn = staged_events.len();
        while c < cn
            invariant
                c <= cn,
                cn == staged_events@.len(),
                sig_events@ == sig0,
                staged_events@ == staged0,
                staged0.len() == views.len(),
                views == trans.events@.map_values(|e: EventData| e@),
                vplugin == old(self).plugin@,
                old(self).wf(),
                *self == *old(self),
                *conv == *old(conv),
                forall|j: int|
                    0 <= j < sig0.len() ==> crate::tree::spec_meta_sigs_ok(
                        (#[trigger] sig0[j])@.meta,
                    ),
                forall|j: int|
                    0 <= j < c ==> crate::tree::spec_meta_sigs_ok(
                        (#[trigger] staged0[j])@.meta,
                    ),
                forall|j: int|
                    0 <= j < views.len() ==> Chain::spec_stage_ok(
                        vplugin,
                        #[trigger] views[j],
                        *session,
                    ),
            decreases cn - c,
        {
            let raw = staged_events[c].as_header_raw();
            let hdr = EventHeader { raw, meta: duplicate_meta(&staged_events[c].meta) };
            proof {
                assert(hdr@.meta == staged0[c as int]@.meta);
            }
            match self.plugin.validate(&hdr, conv, &staged_sigs) {
                Ok(_) => {
                    proof {
                        if !crate::tree::spec_meta_sigs_ok(hdr@.meta) {
                            assert(crate::tree::spec_validate(
                                self.plugin@,
                                hdr@,
                                conv@,
                                staged_sigs@,
                            ) is Err);
                            assert(false);
                        }
                        assert(crate::tree::spec_meta_sigs_ok(staged0[c as int]@.meta));
                    }
                },
                Err(e) => {
                    return Err(CommitError::Validation(e));
                },
            }
            c = c + 1;
        }
        // Apply: append, feed the plugin and index every event.
        let mut out: Vec<AteHash> = Vec::new();
        let mut a: usize = 0;
        let an = sig_events.len();
        while a < an
            invariant
                a <= an,
                an == sig_events@.len(),
                an == sig0.len(),
                staged_events@ == staged0,
                staged0.len() == views.len(),
                forall|j: int| a <= j < an ==> #[trigger] sig_events@[j] == sig0[j],
                views == trans.events@.map_values(|e: EventData| e@),
                vplugin == old(self).plugin@,
                old(self).wf(),
                self.wf(),
                self.plugin@.integrity == old(self).plugin@.integrity,
                self.plugin@.root_keys == old(self).plugin@.root_keys,
                old(self).headers@.len() <= self.headers@.len(),
                forall|j: int|
                    0 <= j < old(self).headers@.len() ==> #[trigger] self.headers@[j] == old(
                        self,
                    ).headers@[j],
                forall|j: int|
                    0 <= j < sig0.len() ==> crate::tree::spec_meta_sigs_ok(
                        (#[trigger] sig0[j])@.meta,
                    ),
                forall|j: int|
                    0 <= j < staged0.len() ==> crate::tree::spec_meta_sigs_ok(
                        (#[trigger] staged0[j])@.meta,
                    ),
                forall|j: int|
                    0 <= j < views.len() ==> Chain::spec_stage_ok(
                        vplugin,
                        #[trigger] views[j],
                        *session,
                    ),
            decreases an - a,
        {
            let ghost before = self.headers@;
            let ev = replace_event(&mut sig_events, a);
            proof {
                assert(ev@ == sig0[a as int]@);
            }
            match self.apply_event(ev, conv) {
                Ok(_) => {},
                Err(e) => {
                    match e {
                        CommitError::Sink(_) => {
                            proof {
                                assert(false);
                            }
                            return Err(e);
                        },
                        _ => {
                            return Err(e);
                        },
                    }
                },
            }
            proof {
                assert forall|j: int| 0 <= j < old(self).headers@.len() implies #[trigger] self
                    .headers@[j] == old(self).headers@[j] by {
                    assert(self.headers@.subrange(0, before.len() as int)[j]
                        == self.headers@[j]);
                }
            }
            a = a + 1;
        }
        let mut b: usize = 0;
        let bn = staged_events.len();
        while b < bn
            invariant
                b <= bn,
                bn == staged_events@.len(),
                bn == staged0.len(),
                bn == views.len(),
                forall|j: int| b <= j < bn ==> #[trigger] staged_events@[j] == staged0[j],
                out@.len() == b,
                views == trans.events@.map_values(|e: EventData| e@),
                vplugin == old(self).plugin@,
                old(self).wf(),
                self.wf(),
                self.plugin@.integrity == old(self).plugin@.integrity,
                self.plugin@.root_keys == old(self).plugin@.root_keys,
                old(self).headers@.len() <= self.headers@.len(),
                forall|j: int|
                    0 <= j < old(self).headers@.len() ==> #[trigger] self.headers@[j] == old(
                        self,
                    ).headers@[j],
                forall|j: int|
                    0 <= j < b ==> self.pointers@.contains_key((#[trigger] out@[j]).val),
                forall|j: int|
                    0 <= j < staged0.len() ==> crate::tree::spec_meta_sigs_ok(
                        (#[trigger] staged0[j])@.meta,
                    ),
                forall|j: int|
                    0 <= j < views.len() ==> Chain::spec_stage_ok(
                        vplugin,
                        #[trigger] views[j],
                        *session,
                    ),
            decreases bn - b,
        {
            let ghost before = self.headers@;
            let ev = replace_event(&mut staged_events, b);
            proof {
                assert(ev@ == staged0[b as int]@);
            }
            let eh = match self.apply_event(ev, conv) {
                Ok(h) => h,
                Err(e) => {
                    match e {
                        CommitError::Sink(_) => {
                            proof {
                                assert(false);
                            }
                            return Err(e);
                        },
                        _ => {
                            return Err(e);
                        },
                    }
                },
            };
            proof {
                assert forall|j: int| 0 <= j < old(self).headers@.len() implies #[trigger] self
                    .headers@[j] == old(self).headers@[j] by {
                    assert(self.headers@.subrange(0, before.len() as int)[j]
                        == self.headers@[j]);
                }
            }
            out.push(eh);
            b = b + 1;
        }
        match trans.scope {
            Scope::Local => self.redo.sync(),
            Scope::LocalOnly => self.redo.sync(),
            _ => {},
        }
        proof {
            assert(self.headers@.subrange(0, old(self).headers@.len() as int) =~= old(
                self,
            ).headers@);
        }
        Ok(out)
    }

    /// Appends one prepared event and feeds plugin and index.
    #[verifier::rlimit(80)]
    fn apply_event(&mut self, ev: EventData, conv: &mut ConversationSession) -> (r: Result<
        AteHash,
        CommitError,
    >)
        requires
            old(self).wf(),
        ensures
            final(self).wf(),
            final(self).plugin@.integrity == old(self).plugin@.integrity,
            final(self).plugin@.root_keys == old(self).plugin@.root_keys,
            final(conv)@.active == old(conv)@.active,
            final(conv)@.other_end_is_server == old(conv)@.other_end_is_server,
            forall|k: u128|
                #[trigger] old(self).pointers@.contains_key(k)
                    ==> final(self).pointers@.contains_key(k),
            match r {
                Ok(h) => {
                    &&& final(self).headers@.len() == old(self).headers@.len() + 1
                    &&& final(self).headers@.subrange(0, old(self).headers@.len() as int)
                        == old(self).headers@
                    &&& final(self).pointers@.contains_key(h.val)
                    &&& final(self).redo.entries@.map_values(
                        |p: (int, crate::event::EventDataV)| p.1,
                    ) == old(self).redo.entries@.map_values(
                        |p: (int, crate::event::EventDataV)| p.1,
                    ).push(ev@)
                    &&& crate::redo::spec_framable(ev@)
                    &&& crate::tree::spec_meta_sigs_ok(ev@.meta)
                },
                Err(e) => *final(self) == *old(self) && (match e {
                    CommitError::Log(_) => !crate::redo::spec_framable(ev@),
                    CommitError::Sink(_) => !crate::tree::spec_meta_sigs_ok(ev@.meta),
                    _ => false,
                }),
            },
    {
        // pre-verify the event's signature entries before any state
        // moves, so a bad signature leaves the chain untouched
        let mut precheck = SignaturePlugin::new();
        let mut scratch = ConversationSession::none();
        let probe = EventHeader { raw: ev.as_header_raw(), meta: duplicate_meta(&ev.meta) };
        match precheck.feed(&probe, &mut scratch) {
            Ok(()) => {},
            Err(e) => {
                return Err(CommitError::Sink(e));
            },
        }
        let lookup = match self.redo.append(&ev) {
            Ok(l) => l,
            Err(e) => {
                return Err(CommitError::Log(e));
            },
        };
        let ghost appended = ev@;
        let header = ev.into_header();
        match self.plugin.feed(&header, conv) {
            Ok(()) => {},
            Err(e) => {
                proof {
                    assert(crate::tree::spec_meta_sigs_ok(probe@.meta));
                    assert(header@.meta == probe@.meta);
                    assert(false);
                }
                return Err(CommitError::Sink(e));
            },
        }
        let ghost hs_before = self.headers@.map_values(|h: EventHeader| h@);
        let ghost idx_before = self.indexer@;
        let ghost header_view = header@;
        self.indexer.feed(&header);
        let eh = header.raw.event_hash;
        self.pointers.insert(eh.val, lookup);
        self.headers.push(header);
        proof {
            assert(crate::tree::spec_meta_sigs_ok(appended.meta));
            let f = |p: (int, crate::event::EventDataV)| p.1;
            assert(self.redo.entries@.map_values(f) =~= old(self).redo.entries@.map_values(
                f,
            ).push(appended));
            crate::index::lemma_feed_records(idx_before, header_view);
            assert forall|k: u128| #[trigger]
                self.indexer@.primary.contains_key(k) implies self.pointers@.contains_key(
                self.indexer@.primary[k].record.val,
            ) by {
                if idx_before.primary.contains_key(k) && self.indexer@.primary[k].record
                    == idx_before.primary[k].record {
                    assert(old(self).pointers@.contains_key(
                        idx_before.primary[k].record.val,
                    ));
                } else {
                    assert(self.indexer@.primary[k].record == header_view.event_hash);
                }
            }
            assert(self.headers@.map_values(|h: EventHeader| h@) =~= hs_before.push(
                self.headers@[self.headers@.len() - 1]@,
            ));
            lemma_feed_all_snoc(
                spec_index_empty(),
                hs_before,
                self.headers@[self.headers@.len() - 1]@,
            );
            assert(self.headers@.subrange(0, old(self).headers@.len() as int)
                =~= old(self).headers@);
            assert forall|h: u128| #[trigger]
                self.pointers@.contains_key(h) implies (match p_event(
                self.redo.data@,
                self.pointers@[h].offset as int,
            ) {
                Some((e, _)) => spec_event_hash(e) == h,
                None => false,
            }) by {
                if h != eh.val {
                    assert(old(self).pointers@.contains_key(h));
                    let off = old(self).pointers@[h].offset as int;
                    match p_event(old(self).redo.data@, off) {
                        Some((e, _)) => {
                            crate::redo::lemma_p_event_extend(
                                old(self).redo.data@,
                                crate::redo::enc_event(appended),
                                off,
                            );
                        },
                        None => {},
                    }
                }
            }
        }
        Ok(eh)
    }

    /// The event stored for a live key: the frame its leaf's record
    /// hash points at.  Meaningful whenever the chain is well formed
    /// and the key is live.
    pub open spec fn spec_stored_event(&self, key: PrimaryKey) -> crate::event::EventDataV {
        match p_event(
            self.redo.data@,
            self.pointers@[self.indexer@.primary[key.val].record.val].offset as int,
        ) {
            Some((e, _)) => e,
            None => crate::event::EventDataV {
                meta: Seq::empty(),
                data: None,
                format: MessageFormat::Binary,
            },
        }
    }

    /// Loads one record's payload: index lookup, frame read at the
    /// recorded offset, decryption on the way out.  Success is owed
    /// exactly when the key is live and the session can read the
    /// stored event; the well-formed chain has no corrupt path.
    pub fn load(&self, key: &PrimaryKey, session: &AteSession) -> (r: Result<Vec<u8>, LoadError>)
        requires
            self.wf(),
        ensures
            match r {
                Ok(out) => self.indexer@.primary.contains_key(key.val) && spec_overlay(
                    self.plugin@,
                    self.spec_stored_event(*key).meta,
                    *session,
                    spec_dbytes(self.spec_stored_event(*key).data),
                ) == Ok::<Seq<u8>, crate::error::TransformErrorV>(out@),
                Err(LoadError::NotFound(k)) => k == *key && !self.indexer@.primary.contains_key(
                    key.val,
                ),
                Err(LoadError::Transform(e)) => self.indexer@.primary.contains_key(key.val)
                    && spec_overlay(
                    self.plugin@,
                    self.spec_stored_event(*key).meta,
                    *session,
                    spec_dbytes(self.spec_stored_event(*key).data),
                ) == Err::<Seq<u8>, crate::error::TransformErrorV>(e@),
            },
    {
        let leaf = match self.indexer.lookup_primary(key) {
            Some(l) => l,
            None => {
                return Err(LoadError::NotFound(*key));
            },
        };
        let lookup = match self.pointers.get(&leaf.record.val) {
            Some(l) => *l,
            None => {
                proof {
                    assert(false);
                }
                return Err(LoadError::NotFound(*key));
            },
        };
        let ev = match self.redo.read_at(lookup.offset) {
            Some(e) => e,
            None => {
                proof {
                    assert(false);
                }
                return Err(LoadError::NotFound(*key));
            },
        };
        proof {
            assert(ev@ == self.spec_stored_event(*key));
        }
        let data = match ev.data_bytes {
            Some(d) => d,
            None => Vec::new(),
        };
        proof {
            assert(data@ == spec_dbytes(self.spec_stored_event(*key).data));
        }
        match self.plugin.data_as_overlay(&ev.meta, data, session) {
            Ok(out) => Ok(out),
            Err(e) => Err(LoadError::Transform(e)),
        }
    }

    /// Drops every stored event and all derived state.
    pub fn destroy(&mut self)
        ensures
            final(self).wf(),
            final(self).headers@.len() == 0,
            final(self).indexer@ == spec_index_empty(),
    {
        self.redo.destroy();
        self.headers = Vec::new();
        self.pointers = HashMap::new();
        let mut fresh = BinaryTreeIndexer::new();
        core_swap_indexer(&mut self.indexer, &mut fresh);
        self.plugin.reset();
        proof {
            assert(self.headers@.map_values(|h: EventHeader| h@) =~= Seq::<
                EventHeaderV,
            >::empty());
        }
    }

    /// Switches the chain's integrity mode.
    pub fn set_integrity(&mut self, mode: IntegrityMode)
        ensures
            final(self).plugin@ == (TreeAuthView { integrity: mode, ..old(self).plugin@ }),
            old(self).wf() ==> final(self).wf(),
            final(self).headers@ == old(self).headers@,
            final(self).indexer@ == old(self).indexer@,
            final(self).redo == old(self).redo,
            final(self).pointers@ == old(self).pointers@,
    {
        self.plugin.set_integrity_mode(mode);
    }

    /// Refuses any further root-key changes.
    pub fn disable_new_roots(&mut self)
        ensures
            final(self).disable_new_roots,
            old(self).wf() ==> final(self).wf(),
    {
        self.disable_new_roots = true;
    }

    /// The name of this chain.
    pub fn name(&self) -> (r: &String)
        ensures
            r == &self.key.name,
    {
        &self.key.name
    }
}

/// Takes the event at `i` out of the list, swapping in an empty one.
fn replace_event(events: &mut Vec<EventData>, i: usize) -> (r: EventData)
    requires
        i < old(events)@.len(),
    ensures
        final(events)@.len() == old(events)@.len(),
        r == old(events)@[i as int],
        forall|j: int|
            0 <= j < old(events)@.len() && j != i ==> #[trigger] final(events)@[j] == old(
                events,
            )@[j],
{
    let mut taken = EventData::new(Metadata::new(), None, MessageFormat::Binary);
    events.set_and_swap(i, &mut taken);
    taken
}

/// Takes the entry at `i` out of the list, swapping in a blank one.
fn replace_core(entries: &mut Vec<CoreMetadata>, i: usize) -> (r: CoreMetadata)
    requires
        i < old(entries)@.len(),
    ensures
        final(entries)@.len() == old(entries)@.len(),
        r == old(entries)@[i as int],
        forall|j: int|
            0 <= j < old(entries)@.len() && j != i ==> #[trigger] final(entries)@[j] == old(
                entries,
            )@[j],
{
    let mut taken = CoreMetadata::Data(PrimaryKey { val: 0 });
    entries.set_and_swap(i, &mut taken);
    taken
}

/// Swaps two indexers.
fn core_swap_indexer(a: &mut BinaryTreeIndexer, b: &mut BinaryTreeIndexer)
    ensures
        *final(a) == *old(b),
        *final(b) == *old(a),
{
    core::mem::swap(a, b)
}

/// A structural copy of an event.
fn duplicate_event(ev: &EventData) -> (r: EventData)
    ensures
        r@ == ev@,
{
    let meta = duplicate_meta(&ev.meta);
    let data_bytes = match &ev.data_bytes {
        Some(d) => {
            let mut c: Vec<u8> = Vec::new();
            crate::crypto::push_all(&mut c, d);
            proof {
                assert(c@ =~= d@);
            }
            Some(c)
        },
        None => None,
    };
    let r = EventData { meta, data_bytes, format: ev.format };
    proof {
        assert(r@ =~= ev@);
    }
    r
}

/// A structural copy of a metadata list.
fn duplicate_meta(m: &Metadata) -> (r: Metadata)
    ensures
        r@ == m@,
{
    let mut core: Vec<CoreMetadata> = Vec::new();
    let mut i: usize = 0;
    while i < m.core.len()
        invariant
            i <= m.core@.len(),
            core@.len() == i,
            core@.map_values(|c: CoreMetadata| c@) == m@.subrange(0, i as int),
        decreases m.core@.len() - i,
    {
        let ghost prev = core@;
        core.push(duplicate_core(&m.core[i]));
        i = i + 1;
        proof {
            let f = |c: CoreMetadata| c@;
            assert(core@.map_values(f).len() == i);
            assert forall|j: int| 0 <= j < i implies core@.map_values(f)[j] == m@.subrange(
                0,
                i as int,
            )[j] by {
                assert(core@.map_values(f)[j] == core@[j]@);
                if j < i - 1 {
                    assert(core@[j] == prev[j]);
                    assert(prev.map_values(f)[j] == prev[j]@);
                } else {
                    assert(core@[j]@ == m.core@[i - 1]@);
                    assert(m@[i - 1] == m.core@[i - 1]@);
                }
            }
            assert(core@.map_values(f) =~= m@.subrange(0, i as int));
        }
    }
    proof {
        assert(m@.subrange(0, m@.len() as int) =~= m@);
    }
    Metadata { core }
}

/// A structural copy of one metadata entry.
fn duplicate_core(c: &CoreMetadata) -> (r: CoreMetadata)
    ensures
        r@ == c@,
{
    match c {
        CoreMetadata::Data(k) => CoreMetadata::Data(*k),
        CoreMetadata::Tombstone(k) => CoreMetadata::Tombstone(*k),
        CoreMetadata::Authorization(a) => CoreMetadata::Authorization(a.duplicate()),
        CoreMetadata::InitializationVector(iv) => CoreMetadata::InitializationVector(
            iv.duplicate(),
        ),
        CoreMetadata::Tree(p) => CoreMetadata::Tree(*p),
        CoreMetadata::Timestamp(t) => CoreMetadata::Timestamp(*t),
        CoreMetadata::Signature(g) => {
            let mut hashes: Vec<AteHash> = Vec::new();
            let hs = crate::meta::copy_hashes(&g.hashes);
            let mut signature: Vec<u8> = Vec::new();
            crate::crypto::push_all(&mut signature, &g.signature);
            let public_key = g.public_key.duplicate();
            proof {
                assert(signature@ =~= g.signature@);
            }
            CoreMetadata::Signature(MetaSignature { hashes: hs, signature, public_key })
        },
        CoreMetadata::SignWith(sw) => CoreMetadata::SignWith(
            crate::meta::MetaSignWith { keys: crate::meta::copy_hashes(&sw.keys) },
        ),
        CoreMetadata::Confidentiality(cf) => CoreMetadata::Confidentiality(*cf),
        CoreMetadata::DelayedUpload(d) => CoreMetadata::DelayedUpload(*d),
    }
}

/// Whether the metadata hints that this key hash should sign.
fn event_hints_key(meta: &Metadata, kh: &AteHash) -> (r: bool)
    ensures
        r == spec_meta_hints(meta@, *kh),
{
    let mut i: usize = 0;
    proof {
        assert(meta@.subrange(0, meta@.len() as int) =~= meta@);
    }
    while i < meta.core.len()
        invariant
            i <= meta.core@.len(),
            meta@.len() == meta.core@.len(),
            spec_meta_hints(meta@, *kh) == spec_meta_hints(
                meta@.subrange(i as int, meta@.len() as int),
                *kh,
            ),
        decreases meta.core@.len() - i,
    {
        let ghost sub = meta@.subrange(i as int, meta@.len() as int);
        proof {
            assert(sub[0] == meta@[i as int]);
            assert(meta@[i as int] == meta.core@[i as int]@);
            assert(sub.drop_first() =~= meta@.subrange(i + 1, meta@.len() as int));
        }
        match &meta.core[i] {
            CoreMetadata::SignWith(sw) => {
                if crate::tree::hashes_contain(&sw.keys, kh) {
                    return true;
                }
                proof {
                    assert(!sub[0]->SignWith_0.contains(*kh));
                }
            },
            _ => {},
        }
        i = i + 1;
    }
    proof {
        assert(meta@.subrange(i as int, meta@.len() as int).len() == 0);
    }
    false
}

/// Whether any sign-with entry of the metadata names this key hash.
pub open spec fn spec_meta_hints(m: Seq<crate::meta::CoreMetadataV>, kh: AteHash) -> bool
    decreases m.len(),
{
    if m.len() == 0 {
        false
    } else {
        (match m[0] {
            crate::meta::CoreMetadataV::SignWith(keys) => keys.contains(kh),
            _ => false,
        }) || spec_meta_hints(m.drop_first(), kh)
    }
}

/// Replay determinism: the queryable view of a chain is a function
/// of its event list alone.  A live chain keeps its index equal to
/// the fold of its replayed headers, an opened chain rebuilds the
/// same fold from the events recovered out of the log, and the redo
/// log guarantees that recovery returns exactly the appended events —
/// so a chain and its reopened copy agree on every lookup.
pub proof fn lemma_replay_determinism(live: &Chain, reopened: &Chain)
    requires
        live.wf(),
        reopened.wf(),
        reopened.redo.entries@.map_values(|p: (int, crate::event::EventDataV)| p.1)
            == live.redo.entries@.map_values(|p: (int, crate::event::EventDataV)| p.1),
    ensures
        reopened.headers@.map_values(|h: EventHeader| h@) == live.headers@.map_values(
            |h: EventHeader| h@,
        ),
        reopened.indexer@ == live.indexer@,
{
    let f = |p: (int, crate::event::EventDataV)| p.1;
    let g = |h: EventHeader| h@;
    assert(reopened.redo.entries@.map_values(f).len() == live.redo.entries@.map_values(
        f,
    ).len());
    assert forall|k: int| 0 <= k < live.headers@.len() implies reopened.headers@.map_values(
        g,
    )[k] == live.headers@.map_values(g)[k] by {
        assert(reopened.redo.entries@.map_values(f)[k] == live.redo.entries@.map_values(f)[k]);
        assert(reopened.redo.entries@[k].1 == live.redo.entries@[k].1);
        assert(reopened.headers@[k]@ == spec_header_of(reopened.redo.entries@[k].1));
        assert(live.headers@[k]@ == spec_header_of(live.redo.entries@[k].1));
    }
    assert(reopened.headers@.map_values(g) =~= live.headers@.map_values(g));
}


/// The staged signature record of a delivered batch: every event's
/// signature entries folded, in order, from the empty record.
pub open spec fn spec_stage_sigs(
    m: Map<u128, Seq<crate::crypto::AteHash>>,
    evs: Seq<crate::event::EventDataV>,
    i: int,
) -> Map<u128, Seq<crate::crypto::AteHash>>
    decreases evs.len() - i,
{
    if i < 0 || i >= evs.len() {
        m
    } else {
        spec_stage_sigs(crate::tree::spec_sigs_feed(m, evs[i].meta, 0), evs, i + 1)
    }
}

/// Every event's signature entries verify.
pub open spec fn spec_all_sigs_ok(evs: Seq<crate::event::EventDataV>) -> bool {
    forall|i: int|
        0 <= i < evs.len() ==> crate::tree::spec_meta_sigs_ok((#[trigger] evs[i]).meta)
}

/// Every event fits a log frame.
pub open spec fn spec_all_framable(evs: Seq<crate::event::EventDataV>) -> bool {
    forall|i: int| 0 <= i < evs.len() ==> crate::redo::spec_framable(#[trigger] evs[i])
}

/// Every event passes validation against the given trust state, the
/// conversation, and the batch's own staged signatures.
pub open spec fn spec_all_validate(
    v: TreeAuthView,
    evs: Seq<crate::event::EventDataV>,
    c: crate::session::ConvV,
    staged: Map<u128, Seq<crate::crypto::AteHash>>,
) -> bool {
    forall|i: int|
        0 <= i < evs.len() ==> crate::tree::spec_validate(
            v,
            spec_header_of(#[trigger] evs[i]),
            c,
            staged,
        ) is Ok
}

impl Chain {
    /// Feeds events that arrive from a replica: they are validated
    /// against the chain of trust (with the batch's own signature
    /// events staged) and stored as they are, with no fresh linting,
    /// signing or encryption.  Success is owed exactly when every
    /// event's signatures verify, every event passes validation with
    /// the batch's signatures staged, and every event fits a frame.
    #[verifier::rlimit(80)]
    pub fn feed_replicated(
        &mut self,
        events: Vec<EventData>,
        conv: &mut ConversationSession,
    ) -> (r: Result<(), CommitError>)
        requires
            old(self).wf(),
        ensures
            final(self).plugin@.integrity == old(self).plugin@.integrity,
            final(self).plugin@.root_keys == old(self).plugin@.root_keys,
            final(conv)@.active == old(conv)@.active,
            final(conv)@.other_end_is_server == old(conv)@.other_end_is_server,
            ({
                let views = events@.map_values(|e: EventData| e@);
                let staged = spec_stage_sigs(Map::empty(), views, 0);
                match r {
                    Ok(()) => {
                        &&& final(self).wf()
                        &&& final(self).headers@.len() == old(self).headers@.len()
                            + events@.len()
                        &&& final(self).headers@.subrange(0, old(self).headers@.len() as int)
                            == old(self).headers@
                        &&& final(self).redo.entries@.map_values(
                            |p: (int, crate::event::EventDataV)| p.1,
                        ) == old(self).redo.entries@.map_values(
                            |p: (int, crate::event::EventDataV)| p.1,
                        ) + views
                        &&& spec_all_sigs_ok(views)
                        &&& spec_all_validate(old(self).plugin@, views, old(conv)@, staged)
                        &&& spec_all_framable(views)
                    },
                    Err(CommitError::Sink(_)) => {
                        &&& *final(self) == *old(self)
                        &&& *final(conv) == *old(conv)
                        &&& !spec_all_sigs_ok(views)
                    },
                    Err(CommitError::Validation(e)) => {
                        &&& *final(self) == *old(self)
                        &&& *final(conv) == *old(conv)
                        &&& spec_all_sigs_ok(views)
                        &&& (exists|i: int|
                            0 <= i < views.len() && crate::tree::spec_validate(
                                old(self).plugin@,
                                spec_header_of(#[trigger] views[i]),
                                old(conv)@,
                                staged,
                            ) == Err::<
                                crate::tree::ValidationResult,
                                crate::error::ValidationErrorV,
                            >(e@))
                    },
                    Err(CommitError::Log(_)) => final(self).wf() && !spec_all_framable(views),
                    _ => false,
                }
            }),
    {
        let ghost views = events@.map_values(|e: EventData| e@);
        let mut staged_sigs = SignaturePlugin::new();
        let mut scratch = ConversationSession::none();
        let mut v: usize = 0;
        let vn = events.len();
        proof {
            assert(spec_stage_sigs(staged_sigs@, views, 0) == spec_stage_sigs(
                Map::empty(),
                views,
                0,
            ));
        }
        while v < vn
            invariant
                v <= vn,
                vn == events@.len(),
                views == events@.map_values(|e: EventData| e@),
                views.len() == vn,
                old(self).wf(),
                *self == *old(self),
                *conv == *old(conv),
                spec_stage_sigs(staged_sigs@, views, v as int) == spec_stage_sigs(
                    Map::empty(),
                    views,
                    0,
                ),
                forall|j: int|
                    0 <= j < v ==> crate::tree::spec_meta_sigs_ok((#[trigger] views[j]).meta),
            decreases vn - v,
        {
            let ghost staged_before = staged_sigs@;
            let raw = events[v].as_header_raw();
            let hdr = EventHeader { raw, meta: duplicate_meta(&events[v].meta) };
            proof {
                assert(views[v as int] == events@[v as int]@);
                assert(hdr@.meta == views[v as int].meta);
            }
            match staged_sigs.feed(&hdr, &mut scratch) {
                Ok(()) => {},
                Err(e) => {
                    proof {
                        assert(!crate::tree::spec_meta_sigs_ok(views[v as int].meta));
                    }
                    return Err(CommitError::Sink(e));
                },
            }
            v = v + 1;
        }
        let ghost staged_full = staged_sigs@;
        proof {
            assert(staged_full == spec_stage_sigs(Map::empty(), views, 0));
        }
        let mut c: usize = 0;
        let cn = events.len();
        while c < cn
            invariant
                c <= cn,
                cn == events@.len(),
                views == events@.map_values(|e: EventData| e@),
                views.len() == cn,
                old(self).wf(),
                *self == *old(self),
                *conv == *old(conv),
                staged_sigs@ == staged_full,
                staged_full == spec_stage_sigs(Map::empty(), views, 0),
                forall|j: int|
                    0 <= j < cn ==> crate::tree::spec_meta_sigs_ok((#[trigger] views[j]).meta),
                forall|j: int|
                    0 <= j < c ==> crate::tree::spec_validate(
                        old(self).plugin@,
                        spec_header_of(#[trigger] views[j]),
                        old(conv)@,
                        staged_full,
                    ) is Ok,
            decreases cn - c,
        {
            let raw = events[c].as_header_raw();
            let hdr = EventHeader { raw, meta: duplicate_meta(&events[c].meta) };
            proof {
                assert(views[c as int] == events@[c as int]@);
                assert(hdr@ == spec_header_of(views[c as int]));
            }
            match self.plugin.validate(&hdr, conv, &staged_sigs) {
                Ok(_) => {},
                Err(e) => {
                    proof {
                        assert(crate::tree::spec_validate(
                            old(self).plugin@,
                            spec_header_of(views[c as int]),
                            old(conv)@,
                            staged_full,
                        ) == Err::<
                            crate::tree::ValidationResult,
                            crate::error::ValidationErrorV,
                        >(e@));
                    }
                    return Err(CommitError::Validation(e));
                },
            }
            c = c + 1;
        }
        let mut evs = events;
        let mut a: usize = 0;
        let an = evs.len();
        proof {
            assert(views.take(0) =~= Seq::<crate::event::EventDataV>::empty());
            assert(self.redo.entries@.map_values(|p: (int, crate::event::EventDataV)| p.1)
                + views.take(0) =~= self.redo.entries@.map_values(
                |p: (int, crate::event::EventDataV)| p.1,
            ));
        }
        while a < an
            invariant
                a <= an,
                an == evs@.len(),
                an == events@.len(),
                views == events@.map_values(|e: EventData| e@),
                views.len() == an,
                forall|j: int| a <= j < an ==> #[trigger] evs@[j] == events@[j],
                conv@.active == old(conv)@.active,
                conv@.other_end_is_server == old(conv)@.other_end_is_server,
                old(self).wf(),
                self.wf(),
                self.plugin@.integrity == old(self).plugin@.integrity,
                self.plugin@.root_keys == old(self).plugin@.root_keys,
                self.headers@.len() == old(self).headers@.len() + a,
                forall|j: int|
                    0 <= j < old(self).headers@.len() ==> #[trigger] self.headers@[j] == old(
                        self,
                    ).headers@[j],
                self.redo.entries@.map_values(|p: (int, crate::event::EventDataV)| p.1) == old(
                    self,
                ).redo.entries@.map_values(|p: (int, crate::event::EventDataV)| p.1)
                    + views.take(a as int),
                forall|j: int|
                    0 <= j < an ==> crate::tree::spec_meta_sigs_ok((#[trigger] views[j]).meta),
                forall|j: int|
                    0 <= j < an ==> crate::tree::spec_validate(
                        old(self).plugin@,
                        spec_header_of(#[trigger] views[j]),
                        old(conv)@,
                        staged_full,
                    ) is Ok,
                staged_full == spec_stage_sigs(Map::empty(), views, 0),
                forall|j: int| 0 <= j < a ==> crate::redo::spec_framable(#[trigger] views[j]),
            decreases an - a,
        {
            let ghost before = self.headers@;
            let ghost entries_before = self.redo.entries@.map_values(
                |p: (int, crate::event::EventDataV)| p.1,
            );
            let ev = replace_event(&mut evs, a);
            proof {
                assert(ev@ == views[a as int]);
            }
            match self.apply_event(ev, conv) {
                Ok(_) => {},
                Err(e) => {
                    match e {
                        CommitError::Sink(_) => {
                            proof {
                                assert(false);
                            }
                            return Err(e);
                        },
                        _ => {
                            proof {
                                assert(!crate::redo::spec_framable(views[a as int]));
                            }
                            return Err(e);
                        },
                    }
                },
            }
            proof {
                assert forall|j: int| 0 <= j < old(self).headers@.len() implies #[trigger] self
                    .headers@[j] == old(self).headers@[j] by {
                    assert(self.headers@.subrange(0, before.len() as int)[j]
                        == self.headers@[j]);
                }
                assert(entries_before.push(views[a as int]) =~= old(
                    self,
                ).redo.entries@.map_values(|p: (int, crate::event::EventDataV)| p.1)
                    + views.take(a + 1));
            }
            a = a + 1;
        }
        proof {
            assert(self.headers@.subrange(0, old(self).headers@.len() as int) =~= old(
                self,
            ).headers@);
            assert(views.take(an as int) =~= views);
        }
        Ok(())
    }

    /// The stamp of header `k`, if it carries one.
    pub open spec fn spec_stamp_at(&self, k: int) -> Option<ChainTimestamp> {
        crate::meta::spec_timestamp(self.headers@[k]@.meta)
    }

    /// No header among the first `n` carries a stamp after `pivot`.
    pub open spec fn spec_none_after(&self, pivot: ChainTimestamp, n: int) -> bool {
        forall|k: int|
            0 <= k < n ==> (match #[trigger] self.spec_stamp_at(k) {
                Some(u) => u.time_since_epoch_ms <= pivot.time_since_epoch_ms,
                None => true,
            })
    }

    /// Some header among the first `n` carries exactly stamp `t`.
    pub open spec fn spec_has_stamp(&self, t: ChainTimestamp, n: int) -> bool {
        exists|k: int| 0 <= k < n && #[trigger] self.spec_stamp_at(k) == Some(t)
    }

    /// `t` is at or below every stamp after `pivot` among the first
    /// `n` headers.
    pub open spec fn spec_min_after(&self, t: ChainTimestamp, pivot: ChainTimestamp, n: int) -> bool {
        forall|k: int|
            0 <= k < n ==> (match #[trigger] self.spec_stamp_at(k) {
                Some(u) => u.time_since_epoch_ms > pivot.time_since_epoch_ms
                    ==> t.time_since_epoch_ms <= u.time_since_epoch_ms,
                None => true,
            })
    }

    /// `t` is at or above every stamp among the first `n` headers.
    pub open spec fn spec_max_stamp(&self, t: ChainTimestamp, n: int) -> bool {
        forall|k: int|
            0 <= k < n ==> (match #[trigger] self.spec_stamp_at(k) {
                Some(u) => u.time_since_epoch_ms <= t.time_since_epoch_ms,
                None => true,
            })
    }

    /// No header among the first `n` carries any stamp.
    pub open spec fn spec_no_stamp(&self, n: int) -> bool {
        forall|k: int| 0 <= k < n ==> #[trigger] self.spec_stamp_at(k) is None
    }

    /// The fold behind `first_stamp_after`: the least stamp after
    /// `pivot` among the headers from `i` on, starting from `best`.
    pub open spec fn spec_first_after_from(
        hs: Seq<EventHeaderV>,
        pivot: ChainTimestamp,
        i: int,
        best: Option<ChainTimestamp>,
    ) -> Option<ChainTimestamp>
        decreases hs.len() - i,
    {
        if i < 0 || i >= hs.len() {
            best
        } else {
            let b2 = match crate::meta::spec_timestamp(hs[i].meta) {
                Some(t) => {
                    if t.time_since_epoch_ms > pivot.time_since_epoch_ms && (match best {
                        Some(b) => t.time_since_epoch_ms < b.time_since_epoch_ms,
                        None => true,
                    }) {
                        Some(t)
                    } else {
                        best
                    }
                },
                None => best,
            };
            Chain::spec_first_after_from(hs, pivot, i + 1, b2)
        }
    }

    /// The least stored stamp strictly after `pivot`, if any.
    pub open spec fn spec_first_stamp_after(
        hs: Seq<EventHeaderV>,
        pivot: ChainTimestamp,
    ) -> Option<ChainTimestamp> {
        Chain::spec_first_after_from(hs, pivot, 0, None)
    }

    /// The fold behind `last_stamp`.
    pub open spec fn spec_last_from(
        hs: Seq<EventHeaderV>,
        i: int,
        best: Option<ChainTimestamp>,
    ) -> Option<ChainTimestamp>
        decreases hs.len() - i,
    {
        if i < 0 || i >= hs.len() {
            best
        } else {
            let b2 = match crate::meta::spec_timestamp(hs[i].meta) {
                Some(t) => {
                    match best {
                        Some(b) => {
                            if t.time_since_epoch_ms > b.time_since_epoch_ms {
                                Some(t)
                            } else {
                                best
                            }
                        },
                        None => Some(t),
                    }
                },
                None => best,
            };
            Chain::spec_last_from(hs, i + 1, b2)
        }
    }

    /// The greatest stored stamp, if any.
    pub open spec fn spec_last_stamp(hs: Seq<EventHeaderV>) -> Option<ChainTimestamp> {
        Chain::spec_last_from(hs, 0, None)
    }

    /// The earliest stored timestamp strictly after `pivot`: the
    /// start of the local-origin range a delayed upload must cover.
    pub fn first_stamp_after(&self, pivot: ChainTimestamp) -> (r: Option<ChainTimestamp>)
        ensures
            r == Chain::spec_first_stamp_after(
                self.headers@.map_values(|h: EventHeader| h@),
                pivot,
            ),
            match r {
                Some(t) => {
                    &&& t.time_since_epoch_ms > pivot.time_since_epoch_ms
                    &&& self.spec_has_stamp(t, self.headers@.len() as int)
                    &&& self.spec_min_after(t, pivot, self.headers@.len() as int)
                },
                None => self.spec_none_after(pivot, self.headers@.len() as int),
            },
    {
        let ghost hs = self.headers@.map_values(|h: EventHeader| h@);
        let mut best: Option<ChainTimestamp> = None;
        let mut i: usize = 0;
        while i < self.headers.len()
            invariant
                i <= self.headers@.len(),
                hs == self.headers@.map_values(|h: EventHeader| h@),
                hs.len() == self.headers@.len(),
                Chain::spec_first_after_from(hs, pivot, i as int, best)
                    == Chain::spec_first_stamp_after(hs, pivot),
                match best {
                    Some(t) => {
                        &&& t.time_since_epoch_ms > pivot.time_since_epoch_ms
                        &&& self.spec_has_stamp(t, i as int)
                        &&& self.spec_min_after(t, pivot, i as int)
                    },
                    None => self.spec_none_after(pivot, i as int),
                },
            decreases self.headers@.len() - i,
        {
            proof {
                assert(hs[i as int] == self.headers@[i as int]@);
            }
            match self.headers[i].meta.get_timestamp() {
                Some(t) => {
                    proof {
                        assert(self.spec_stamp_at(i as int) == Some(t));
                        assert(crate::meta::spec_timestamp(hs[i as int].meta) == Some(t));
                    }
                    if t.time_since_epoch_ms > pivot.time_since_epoch_ms {
                        match best {
                            Some(b) => {
                                if t.time_since_epoch_ms < b.time_since_epoch_ms {
                                    best = Some(t);
                                }
                            },
                            None => {
                                best = Some(t);
                            },
                        }
                    }
                },
                None => {
                    proof {
                        assert(crate::meta::spec_timestamp(hs[i as int].meta) is None);
                    }
                },
            }
            i = i + 1;
        }
        best
    }

    /// The stamps of the stored events inside `[from, to)`, in log
    /// order.
    pub open spec fn spec_range_stamps(
        hs: Seq<EventHeaderV>,
        i: int,
        from: ChainTimestamp,
        to: ChainTimestamp,
    ) -> Seq<ChainTimestamp>
        decreases hs.len() - i,
    {
        if i < 0 || i >= hs.len() {
            Seq::empty()
        } else {
            (match crate::meta::spec_timestamp(hs[i].meta) {
                Some(t) => {
                    if from.time_since_epoch_ms <= t.time_since_epoch_ms
                        && t.time_since_epoch_ms < to.time_since_epoch_ms {
                        seq![t]
                    } else {
                        Seq::empty()
                    }
                },
                None => Seq::empty(),
            }) + Chain::spec_range_stamps(hs, i + 1, from, to)
        }
    }

    /// The time-bounded scan: every stored stamp inside `[from, to)`,
    /// in log order.
    pub fn range_keys(&self, from: ChainTimestamp, to: ChainTimestamp) -> (r: Vec<
        ChainTimestamp,
    >)
        ensures
            r@ == Chain::spec_range_stamps(
                self.headers@.map_values(|h: EventHeader| h@),
                0,
                from,
                to,
            ),
    {
        let ghost hs = self.headers@.map_values(|h: EventHeader| h@);
        let mut out: Vec<ChainTimestamp> = Vec::new();
        let mut i: usize = 0;
        while i < self.headers.len()
            invariant
                i <= self.headers@.len(),
                hs == self.headers@.map_values(|h: EventHeader| h@),
                hs.len() == self.headers@.len(),
                out@ + Chain::spec_range_stamps(hs, i as int, from, to)
                    == Chain::spec_range_stamps(hs, 0, from, to),
            decreases self.headers@.len() - i,
        {
            let ghost out_before = out@;
            proof {
                assert(hs[i as int] == self.headers@[i as int]@);
            }
            match self.headers[i].meta.get_timestamp() {
                Some(t) => {
                    if from.time_since_epoch_ms <= t.time_since_epoch_ms
                        && t.time_since_epoch_ms < to.time_since_epoch_ms {
                        out.push(t);
                    }
                },
                None => {},
            }
            i = i + 1;
            proof {
                assert(out@ + Chain::spec_range_stamps(hs, i as int, from, to)
                    =~= Chain::spec_range_stamps(hs, 0, from, to));
            }
        }
        proof {
            assert(Chain::spec_range_stamps(hs, hs.len() as int, from, to) =~= Seq::<
                ChainTimestamp,
            >::empty());
            assert(out@ =~= out@ + Seq::<ChainTimestamp>::empty());
        }
        out
    }

    /// The largest stored timestamp: the end of the local-origin
    /// range a delayed upload must cover.
    pub fn last_stamp(&self) -> (r: Option<ChainTimestamp>)
        ensures
            r == Chain::spec_last_stamp(self.headers@.map_values(|h: EventHeader| h@)),
            match r {
                Some(t) => {
                    &&& self.spec_has_stamp(t, self.headers@.len() as int)
                    &&& self.spec_max_stamp(t, self.headers@.len() as int)
                },
                None => self.spec_no_stamp(self.headers@.len() as int),
            },
    {
        let ghost hs = self.headers@.map_values(|h: EventHeader| h@);
        let mut best: Option<ChainTimestamp> = None;
        let mut i: usize = 0;
        while i < self.headers.len()
            invariant
                i <= self.headers@.len(),
                hs == self.headers@.map_values(|h: EventHeader| h@),
                hs.len() == self.headers@.len(),
                Chain::spec_last_from(hs, i as int, best) == Chain::spec_last_stamp(hs),
                match best {
                    Some(t) => {
                        &&& self.spec_has_stamp(t, i as int)
                        &&& self.spec_max_stamp(t, i as int)
                    },
                    None => self.spec_no_stamp(i as int),
                },
            decreases self.headers@.len() - i,
        {
            proof {
                assert(hs[i as int] == self.headers@[i as int]@);
            }
            match self.headers[i].meta.get_timestamp() {
                Some(t) => {
                    proof {
                        assert(self.spec_stamp_at(i as int) == Some(t));
                        assert(crate::meta::spec_timestamp(hs[i as int].meta) == Some(t));
                    }
                    match best {
                        Some(b) => {
                            if t.time_since_epoch_ms > b.time_since_epoch_ms {
                                best = Some(t);
                            }
                        },
                        None => {
                            best = Some(t);
                        },
                    }
                },
                None => {
                    proof {
                        assert(crate::meta::spec_timestamp(hs[i as int].meta) is None);
                    }
                },
            }
            i = i + 1;
        }
        best
    }
}

} // verus!
