//! The mesh session: the protocol between a client chain and a root
//! replica.  The session decides — packets come in, chain updates and
//! actions come out — while the caller owns the socket, performs the
//! actions and reports disconnection.  The listener side holds the
//! route table and the handshake rules.

use vstd::prelude::*;
use crate::PrimaryKey;
use crate::chain::Chain;
use crate::crypto::EncryptKey;
use crate::crypto::KeySize;
use crate::crypto::PublicSignKey;
use crate::crypto::derived_key_of;
use crate::crypto::le_enc;
use crate::crypto::lemma_le_enc_len;
use crate::crypto::lemma_le_dec_bound;
use crate::crypto::push_all;
use crate::crypto::read_le;
use crate::crypto::spec_key_bits;
use crate::crypto::write_le;
use crate::codec::p_le;
use crate::codec::lemma_p_le_enc;
use crate::codec::lemma_split_at;
use crate::error::CommitError;
use crate::error::CommsError;
use crate::event::EventData;
use crate::event::MessageFormat;
use crate::meta::ChainTimestamp;
use crate::meta::CoreMetadata;
use crate::meta::Metadata;
use crate::meta::MetaDelayedUpload;
use crate::session::AteSession;
use crate::session::ConversationSession;
use crate::tree::IntegrityMode;

verus! {

/// Where a root replica listens.
#[derive(Debug)]
pub struct MeshAddress {
    pub host: String,
    pub port: u16,
}

/// One packet of the mesh protocol.
pub enum Message {
    StartOfHistory {
        size: u64,
        from: Option<ChainTimestamp>,
        to: Option<ChainTimestamp>,
        root_keys: Vec<PublicSignKey>,
        integrity: IntegrityMode,
    },
    Events { commit: Option<u64>, evts: Vec<EventData> },
    Confirmed(u64),
    CommitFailed { id: u64, err: String },
    LockRequest { key: PrimaryKey },
    LockResult { key: PrimaryKey, is_locked: bool },
    SecuredWith { read_keys: Vec<EncryptKey> },
    EndOfHistory,
    FatalTerminate { reason: String },
}

/// What the caller must do after a packet was absorbed.
pub enum SessionAction {
    /// Complete the commit with success.
    CommitConfirmed(u64),
    /// Complete the commit with the root's error.
    CommitRejected(u64, String),
    /// The session died before the root confirmed this commit.
    CommitAborted(u64),
    /// Resolve a pending distributed lock.
    LockResolved(PrimaryKey, bool),
    /// Tell the loader how much history is coming.
    LoaderStart(u64),
    /// Release whoever waits for the initial sync.
    LoaderEnd,
}

/// The reconnection state machine of a session.
#[derive(Debug, Clone, Copy, PartialEq, Eq, Structural)]
pub enum ConnectionState {
    Offline,
    Connecting,
    HelloExchange,
    Encrypted,
    Plain,
    ReplayingHistory,
    Live,
}

/// The reconnection backoff schedule starts here, in milliseconds.
pub const BACKOFF_START_MS: u64 = 100;

/// The backoff never exceeds this many milliseconds.
pub const BACKOFF_CAP_MS: u64 = 10000;

/// Doubles the backoff, capped at ten seconds.
pub fn next_backoff(ms: u64) -> (r: u64)
    ensures
        r == spec_next_backoff(ms),
{
    if ms >= BACKOFF_CAP_MS / 2 {
        BACKOFF_CAP_MS
    } else {
        ms * 2
    }
}

pub open spec fn spec_next_backoff(ms: u64) -> u64 {
    if ms >= 5000 {
        10000
    } else {
        (ms * 2) as u64
    }
}

/// The accept loop's backoff decision: a successful accept resets the
/// schedule to its start, a failed one sleeps and doubles, capped.
pub fn accept_backoff_after(previous: u64, accepted: bool) -> (r: u64)
    ensures
        r == (if accepted {
            BACKOFF_START_MS
        } else {
            spec_next_backoff(previous)
        }),
{
    if accepted {
        BACKOFF_START_MS
    } else {
        next_backoff(previous)
    }
}

/// A client session mirroring one chain to a root: the outstanding
/// commits, the pending lock requests, the two conversations, and the
/// connection state.
pub struct MeshSession {
    pub commits: Vec<u64>,
    pub lock_requests: Vec<PrimaryKey>,
    pub inbound_conversation: ConversationSession,
    pub outbound_conversation: ConversationSession,
    pub state: ConnectionState,
    pub backoff_ms: u64,
}

impl MeshSession {
    /// A fresh session, offline, talking to a server.
    pub fn new() -> (r: MeshSession)
        ensures
            r.commits@ =~= Seq::<u64>::empty(),
            r.lock_requests@ =~= Seq::<PrimaryKey>::empty(),
            r.state == ConnectionState::Offline,
            r.backoff_ms == BACKOFF_START_MS,
            r.inbound_conversation@.active,
            r.inbound_conversation@.other_end_is_server,
    {
        MeshSession {
            commits: Vec::new(),
            lock_requests: Vec::new(),
            inbound_conversation: ConversationSession::new(true),
            outbound_conversation: ConversationSession::new(true),
            state: ConnectionState::Offline,
            backoff_ms: BACKOFF_START_MS,
        }
    }

    /// Notes an outstanding commit awaiting a root confirmation.
    pub fn register_commit(&mut self, id: u64)
        ensures
            final(self).commits@ == old(self).commits@.push(id),
            final(self).lock_requests@ == old(self).lock_requests@,
            final(self).state == old(self).state,
    {
        self.commits.push(id);
    }

    /// Notes a pending distributed lock acquisition.
    pub fn register_lock(&mut self, key: PrimaryKey)
        ensures
            final(self).lock_requests@ == old(self).lock_requests@.push(key),
            final(self).commits@ == old(self).commits@,
    {
        self.lock_requests.push(key);
    }

    /// A confirmation for an outstanding commit completes it; an
    /// orphaned confirmation does nothing.
    pub fn inbox_confirmed(&mut self, id: u64) -> (r: Option<SessionAction>)
        ensures
            final(self).lock_requests@ == old(self).lock_requests@,
            final(self).state == old(self).state,
            old(self).commits@.contains(id) ==> (final(self).commits@ == remove_first_u64(
                old(self).commits@,
                id,
            ) && (r matches Some(SessionAction::CommitConfirmed(c)) && c == id)),
            !old(self).commits@.contains(id) ==> final(self).commits@ == old(self).commits@
                && r is None,
    {
        match take_first_u64(&mut self.commits, id) {
            true => Some(SessionAction::CommitConfirmed(id)),
            false => None,
        }
    }

    /// A root rejection for an outstanding commit completes it with
    /// the root's error.
    pub fn inbox_commit_error(&mut self, id: u64, err: String) -> (r: Option<SessionAction>)
        ensures
            final(self).lock_requests@ == old(self).lock_requests@,
            final(self).state == old(self).state,
            old(self).commits@.contains(id) ==> (final(self).commits@ == remove_first_u64(
                old(self).commits@,
                id,
            ) && (r matches Some(SessionAction::CommitRejected(c, _)) && c == id)),
            !old(self).commits@.contains(id) ==> final(self).commits@ == old(self).commits@
                && r is None,
    {
        match take_first_u64(&mut self.commits, id) {
            true => Some(SessionAction::CommitRejected(id, err)),
            false => None,
        }
    }

    /// A lock result resolves the pending acquisition of that key.
    pub fn inbox_lock_result(&mut self, key: PrimaryKey, is_locked: bool) -> (r: Option<
        SessionAction,
    >)
        ensures
            final(self).commits@ == old(self).commits@,
            final(self).state == old(self).state,
            old(self).lock_requests@.contains(key) ==> (r matches Some(
                SessionAction::LockResolved(k, l),
            ) && (k == key && l == is_locked)),
            !old(self).lock_requests@.contains(key) ==> final(self).lock_requests@ == old(
                self,
            ).lock_requests@ && r is None,
    {
        match take_first_key(&mut self.lock_requests, key) {
            true => Some(SessionAction::LockResolved(key, is_locked)),
            false => None,
        }
    }

    /// The start of history installs the root keys and the integrity
    /// mode; when the root's history ends before the local tip, the
    /// local-origin tail is marked as a delayed upload to push later;
    /// the loader is told how much history is coming.
    pub fn inbox_start_of_history(
        &mut self,
        chain: &mut Chain,
        size: u64,
        to: Option<ChainTimestamp>,
        root_keys: &Vec<PublicSignKey>,
        integrity: IntegrityMode,
        actions: &mut Vec<SessionAction>,
    ) -> (r: Result<(), CommitError>)
        requires
            old(chain).wf(),
        ensures
            r is Ok,
            final(chain).wf(),
            final(chain).plugin@.integrity == integrity,
            final(chain).plugin@.root_keys == crate::tree::spec_root_fold(
                Seq::empty(),
                root_keys@.map_values(|k: PublicSignKey| k@),
                0,
            ),
            final(self).state == ConnectionState::ReplayingHistory,
            final(actions)@ == old(actions)@.push(SessionAction::LoaderStart(size)),
            old(chain).headers@.len() <= final(chain).headers@.len(),
            final(chain).headers@.subrange(0, old(chain).headers@.len() as int) == old(
                chain,
            ).headers@,
            ({
                let hs0 = old(chain).headers@.map_values(|h: crate::event::EventHeader| h@);
                let em0 = old(chain).redo.entries@.map_values(
                    |p: (int, crate::event::EventDataV)| p.1,
                );
                let emf = final(chain).redo.entries@.map_values(
                    |p: (int, crate::event::EventDataV)| p.1,
                );
                match to {
                    None => emf == em0,
                    Some(pivot) => (match Chain::spec_first_stamp_after(hs0, pivot) {
                        None => emf == em0,
                        Some(from) => (match Chain::spec_last_stamp(hs0) {
                            None => emf == em0,
                            Some(until) => {
                                if spec_covered(hs0, from) {
                                    emf == em0
                                } else {
                                    emf == em0.push(spec_marker_event(false, from, until))
                                }
                            },
                        }),
                    }),
                }
            }),
    {
        chain.set_integrity(integrity);
        chain.plugin.set_root_keys(root_keys);
        self.state = ConnectionState::ReplayingHistory;
        match to {
            Some(pivot) => {
                let first = chain.first_stamp_after(pivot);
                match first {
                    Some(from) => {
                        let last = chain.last_stamp();
                        match last {
                            Some(until) => {
                                match record_delayed_upload(chain, from, until) {
                                    Ok(()) => {},
                                    Err(e) => {
                                        proof {
                                            assert(false);
                                        }
                                        return Err(e);
                                    },
                                }
                            },
                            None => {},
                        }
                    },
                    None => {},
                }
            },
            None => {},
        }
        actions.push(SessionAction::LoaderStart(size));
        Ok(())
    }

    /// Replicated events feed the local chain only; they are not
    /// echoed back up the pipe.  On success the chain holds the old
    /// headers followed by exactly the delivered events.
    pub fn inbox_events(&mut self, chain: &mut Chain, evts: Vec<EventData>) -> (r: Result<
        (),
        CommitError,
    >)
        requires
            old(chain).wf(),
        ensures
            final(self).inbound_conversation@.active == old(self).inbound_conversation@.active,
            final(self).inbound_conversation@.other_end_is_server == old(
                self,
            ).inbound_conversation@.other_end_is_server,
            final(chain).plugin@.integrity == old(chain).plugin@.integrity,
            final(chain).plugin@.root_keys == old(chain).plugin@.root_keys,
            match r {
                Ok(()) => {
                    &&& final(chain).wf()
                    &&& final(chain).headers@.len() == old(chain).headers@.len()
                        + evts@.len()
                    &&& final(chain).headers@.subrange(0, old(chain).headers@.len() as int)
                        == old(chain).headers@
                    &&& crate::chain::spec_all_sigs_ok(evts@.map_values(|e: EventData| e@))
                    &&& crate::chain::spec_all_framable(evts@.map_values(|e: EventData| e@))
                },
                Err(e) => (match e {
                    CommitError::Sink(_) => *final(chain) == *old(chain)
                        && !crate::chain::spec_all_sigs_ok(
                        evts@.map_values(|e2: EventData| e2@),
                    ),
                    CommitError::Validation(_) => *final(chain) == *old(chain),
                    CommitError::Log(_) => final(chain).wf() && !crate::chain::spec_all_framable(
                        evts@.map_values(|e2: EventData| e2@),
                    ),
                    _ => false,
                }),
            },
    {
        let mut conv = ConversationSession::new(true);
        core_swap_conv(&mut conv, &mut self.inbound_conversation);
        let out = chain.feed_replicated(evts, &mut conv);
        core_swap_conv(&mut conv, &mut self.inbound_conversation);
        out
    }

    /// Dispatches one packet.  Replicated events and history feed the
    /// chain; confirmations, rejections and lock results complete the
    /// session's bookkeeping; a fatal terminate closes the session
    /// with the server's reason in the error.
    pub fn inbox_packet(
        &mut self,
        chain: &mut Chain,
        session: &mut AteSession,
        msg: Message,
    ) -> (r: Result<Vec<SessionAction>, CommsError>)
        requires
            old(chain).wf(),
        ensures
            final(chain).wf() || *final(chain) == *old(chain),
            match msg {
                Message::StartOfHistory { size, from: _, to: _, root_keys, integrity } => (
                match r {
                    Ok(a) => {
                        &&& a@.len() == 1
                        &&& a@[0] == SessionAction::LoaderStart(size)
                        &&& final(chain).wf()
                        &&& final(chain).plugin@.integrity == integrity
                        &&& final(chain).plugin@.root_keys == crate::tree::spec_root_fold(
                            Seq::empty(),
                            root_keys@.map_values(|k: PublicSignKey| k@),
                            0,
                        )
                        &&& final(self).state == ConnectionState::ReplayingHistory
                        &&& old(chain).headers@.len() <= final(chain).headers@.len()
                        &&& final(chain).headers@.subrange(
                            0,
                            old(chain).headers@.len() as int,
                        ) == old(chain).headers@
                    },
                    Err(_) => false,
                }),
                Message::Events { commit: _, evts } => (match r {
                    Ok(a) => {
                        &&& a@.len() == 0
                        &&& final(chain).wf()
                        &&& final(chain).headers@.len() == old(chain).headers@.len()
                            + evts@.len()
                        &&& final(chain).headers@.subrange(
                            0,
                            old(chain).headers@.len() as int,
                        ) == old(chain).headers@
                    },
                    Err(e) => e matches CommsError::Rejected(_),
                }),
                Message::Confirmed(id) => (match r {
                    Ok(a) => {
                        &&& (old(self).commits@.contains(id) ==> a@.len() == 1 && a@[0]
                            == SessionAction::CommitConfirmed(id))
                        &&& (!old(self).commits@.contains(id) ==> a@.len() == 0)
                    },
                    Err(_) => false,
                }),
                Message::CommitFailed { id, err: _ } => (match r {
                    Ok(a) => {
                        &&& (old(self).commits@.contains(id) ==> a@.len() == 1 && (a@[0]
                            matches SessionAction::CommitRejected(c, _) && c == id))
                        &&& (!old(self).commits@.contains(id) ==> a@.len() == 0)
                    },
                    Err(_) => false,
                }),
                Message::LockRequest { key: _ } => (match r {
                    Ok(a) => a@.len() == 0,
                    Err(_) => false,
                }),
                Message::LockResult { key, is_locked } => (match r {
                    Ok(a) => {
                        &&& (old(self).lock_requests@.contains(key) ==> a@.len() == 1 && a@[0]
                            == SessionAction::LockResolved(key, is_locked))
                        &&& (!old(self).lock_requests@.contains(key) ==> a@.len() == 0)
                    },
                    Err(_) => false,
                }),
                Message::SecuredWith { read_keys } => (match r {
                    Ok(a) => a@.len() == 0
                        && final(session).read_keys@ == old(session).read_keys@ + read_keys@,
                    Err(_) => false,
                }),
                Message::EndOfHistory => (match r {
                    Ok(a) => a@.len() == 1 && (a@[0] matches SessionAction::LoaderEnd)
                        && final(self).state == ConnectionState::Live
                        && final(self).backoff_ms == BACKOFF_START_MS,
                    Err(_) => false,
                }),
                Message::FatalTerminate { reason } => r == Err::<
                    Vec<SessionAction>,
                    CommsError,
                >(CommsError::Fatal(reason)),
            },
    {
        let mut actions: Vec<SessionAction> = Vec::new();
        match msg {
            Message::StartOfHistory { size, from: _, to, root_keys, integrity } => {
                match self.inbox_start_of_history(
                    chain,
                    size,
                    to,
                    &root_keys,
                    integrity,
                    &mut actions,
                ) {
                    Ok(()) => {},
                    Err(e) => {
                        proof {
                            assert(false);
                        }
                        return Err(CommsError::Rejected(e));
                    },
                }
                proof {
                    assert(actions@ =~= seq![SessionAction::LoaderStart(size)]);
                }
            },
            Message::Events { commit: _, evts } => {
                match self.inbox_events(chain, evts) {
                    Ok(()) => {},
                    Err(e) => {
                        return Err(CommsError::Rejected(e));
                    },
                }
            },
            Message::Confirmed(id) => {
                match self.inbox_confirmed(id) {
                    Some(a) => actions.push(a),
                    None => {},
                }
            },
            Message::CommitFailed { id, err } => {
                match self.inbox_commit_error(id, err) {
                    Some(a) => actions.push(a),
                    None => {},
                }
            },
            Message::LockRequest { key: _ } => {
                // a client never serves lock requests
            },
            Message::LockResult { key, is_locked } => {
                match self.inbox_lock_result(key, is_locked) {
                    Some(a) => actions.push(a),
                    None => {},
                }
            },
            Message::SecuredWith { read_keys } => {
                let ghost rk = read_keys@;
                let mut i: usize = 0;
                let n = read_keys.len();
                while i < n
                    invariant
                        i <= n,
                        n == read_keys@.len(),
                        read_keys@ == rk,
                        session.read_keys@ == old(session).read_keys@ + rk.take(i as int),
                    decreases n - i,
                {
                    session.add_read_key(read_keys[i]);
                    i = i + 1;
                    proof {
                        assert(old(session).read_keys@ + rk.take(i as int) =~= (old(
                            session,
                        ).read_keys@ + rk.take(i - 1)).push(rk[i - 1]));
                    }
                }
                proof {
                    assert(rk.take(n as int) =~= rk);
                }
            },
            Message::EndOfHistory => {
                self.state = ConnectionState::Live;
                self.backoff_ms = BACKOFF_START_MS;
                actions.push(SessionAction::LoaderEnd);
            },
            Message::FatalTerminate { reason } => {
                return Err(CommsError::Fatal(reason));
            },
        }
        Ok(actions)
    }

    /// Disconnection cancels every outstanding commit and every
    /// pending lock, clears what the conversations learned, and goes
    /// offline.  Each cancelled commit is reported aborted.
    pub fn on_disconnect(&mut self) -> (r: Vec<SessionAction>)
        ensures
            final(self).commits@ =~= Seq::<u64>::empty(),
            final(self).lock_requests@ =~= Seq::<PrimaryKey>::empty(),
            final(self).state == ConnectionState::Offline,
            final(self).inbound_conversation@.signatures =~= Seq::<
                crate::crypto::AteHash,
            >::empty(),
            final(self).backoff_ms == spec_next_backoff(old(self).backoff_ms),
            r@.len() == old(self).commits@.len() + old(self).lock_requests@.len(),
            forall|i: int|
                0 <= i < old(self).commits@.len() ==> r@[i] == SessionAction::CommitAborted(
                    old(self).commits@[i],
                ),
            forall|i: int|
                0 <= i < old(self).lock_requests@.len() ==> r@[old(self).commits@.len() + i]
                    == SessionAction::LockResolved(old(self).lock_requests@[i], false),
    {
        let mut actions: Vec<SessionAction> = Vec::new();
        let mut i: usize = 0;
        let cn = self.commits.len();
        while i < cn
            invariant
                i <= cn,
                cn == self.commits@.len(),
                self == old(self),
                actions@.len() == i,
                forall|j: int|
                    0 <= j < i ==> actions@[j] == SessionAction::CommitAborted(
                        old(self).commits@[j],
                    ),
            decreases cn - i,
        {
            actions.push(SessionAction::CommitAborted(self.commits[i]));
            i = i + 1;
        }
        let mut l: usize = 0;
        let ln = self.lock_requests.len();
        while l < ln
            invariant
                l <= ln,
                ln == self.lock_requests@.len(),
                self == old(self),
                actions@.len() == old(self).commits@.len() + l,
                forall|j: int|
                    0 <= j < old(self).commits@.len() ==> actions@[j]
                        == SessionAction::CommitAborted(old(self).commits@[j]),
                forall|j: int|
                    0 <= j < l ==> actions@[old(self).commits@.len() + j]
                        == SessionAction::LockResolved(old(self).lock_requests@[j], false),
            decreases ln - l,
        {
            actions.push(SessionAction::LockResolved(self.lock_requests[l], false));
            l = l + 1;
        }
        self.commits = Vec::new();
        self.lock_requests = Vec::new();
        self.inbound_conversation.clear();
        self.outbound_conversation.clear();
        self.state = ConnectionState::Offline;
        self.backoff_ms = next_backoff(self.backoff_ms);
        actions
    }
}

/// Swaps two conversations.
fn core_swap_conv(a: &mut ConversationSession, b: &mut ConversationSession)
    ensures
        *final(a) == *old(b),
        *final(b) == *old(a),
{
    core::mem::swap(a, b)
}

/// Removes the first occurrence of `id`, reporting whether one was
/// there.
fn take_first_u64(v: &mut Vec<u64>, id: u64) -> (r: bool)
    ensures
        r == old(v)@.contains(id),
        r ==> final(v)@ == remove_first_u64(old(v)@, id),
        !r ==> final(v)@ == old(v)@,
{
    let mut i: usize = 0;
    while i < v.len()
        invariant
            i <= v@.len(),
            v@ == old(v)@,
            forall|j: int| 0 <= j < i ==> v@[j] != id,
        decreases v@.len() - i,
    {
        if v[i] == id {
            v.remove(i);
            proof {
                assert(old(v)@.contains(id));
                assert(v@ =~= remove_first_u64(old(v)@, id)) by {
                    lemma_remove_first_u64(old(v)@, id, i as int);
                }
            }
            return true;
        }
        i = i + 1;
    }
    proof {
        assert(!v@.contains(id));
    }
    false
}

/// The list with the first occurrence of `id` removed.
pub open spec fn remove_first_u64(s: Seq<u64>, id: u64) -> Seq<u64>
    decreases s.len(),
{
    if s.len() == 0 {
        s
    } else if s[0] == id {
        s.drop_first()
    } else {
        seq![s[0]] + remove_first_u64(s.drop_first(), id)
    }
}

proof fn lemma_remove_first_u64(s: Seq<u64>, id: u64, i: int)
    requires
        0 <= i < s.len(),
        s[i] == id,
        forall|j: int| 0 <= j < i ==> s[j] != id,
    ensures
        remove_first_u64(s, id) == s.subrange(0, i) + s.subrange(i + 1, s.len() as int),
    decreases i,
{
    if i == 0 {
        assert(s.drop_first() =~= s.subrange(0, 0) + s.subrange(1, s.len() as int));
    } else {
        lemma_remove_first_u64(s.drop_first(), id, i - 1);
        assert(s.drop_first().subrange(0, i - 1) =~= s.subrange(1, i));
        assert(s.drop_first().subrange(i, s.drop_first().len() as int) =~= s.subrange(
            i + 1,
            s.len() as int,
        ));
        assert(seq![s[0]] + (s.subrange(1, i) + s.subrange(i + 1, s.len() as int))
            =~= s.subrange(0, i) + s.subrange(i + 1, s.len() as int));
    }
}

/// Removes the first occurrence of `key`, reporting whether one was
/// there.
fn take_first_key(v: &mut Vec<PrimaryKey>, key: PrimaryKey) -> (r: bool)
    ensures
        r == old(v)@.contains(key),
        !r ==> final(v)@ == old(v)@,
{
    let mut i: usize = 0;
    while i < v.len()
        invariant
            i <= v@.len(),
            v@ == old(v)@,
            forall|j: int| 0 <= j < i ==> v@[j] != key,
        decreases v@.len() - i,
    {
        if v[i].val == key.val {
            proof {
                assert(v@[i as int] == key);
            }
            v.remove(i);
            return true;
        }
        i = i + 1;
    }
    proof {
        assert(!v@.contains(key));
    }
    false
}

/// Whether one metadata list carries a pending delayed-upload marker
/// covering `stamp`.
pub open spec fn spec_meta_covers(
    m: Seq<crate::meta::CoreMetadataV>,
    stamp: ChainTimestamp,
) -> bool {
    exists|j: int|
        0 <= j < m.len() && (match #[trigger] m[j] {
            crate::meta::CoreMetadataV::DelayedUpload(d) => !d.complete
                && d.from.time_since_epoch_ms <= stamp.time_since_epoch_ms
                && stamp.time_since_epoch_ms <= d.to.time_since_epoch_ms,
            _ => false,
        })
}

/// Whether some stored event already carries such a marker.
pub open spec fn spec_covered(hs: Seq<crate::event::EventHeaderV>, stamp: ChainTimestamp) -> bool {
    exists|k: int| 0 <= k < hs.len() && spec_meta_covers((#[trigger] hs[k]).meta, stamp)
}

/// Whether this metadata carries a pending marker covering `stamp`.
fn meta_covers(meta: &Metadata, stamp: ChainTimestamp) -> (r: bool)
    ensures
        r == spec_meta_covers(meta@, stamp),
{
    let mut i: usize = 0;
    while i < meta.core.len()
        invariant
            i <= meta.core@.len(),
            meta@.len() == meta.core@.len(),
            forall|j: int|
                0 <= j < i ==> !(match #[trigger] meta@[j] {
                    crate::meta::CoreMetadataV::DelayedUpload(d) => !d.complete
                        && d.from.time_since_epoch_ms <= stamp.time_since_epoch_ms
                        && stamp.time_since_epoch_ms <= d.to.time_since_epoch_ms,
                    _ => false,
                }),
        decreases meta.core@.len() - i,
    {
        proof {
            assert(meta@[i as int] == meta.core@[i as int]@);
        }
        match &meta.core[i] {
            CoreMetadata::DelayedUpload(d) => {
                if !d.complete && d.from.time_since_epoch_ms <= stamp.time_since_epoch_ms
                    && stamp.time_since_epoch_ms <= d.to.time_since_epoch_ms {
                    return true;
                }
            },
            _ => {},
        }
        i = i + 1;
    }
    proof {
        assert(!spec_meta_covers(meta@, stamp));
    }
    false
}

/// Whether a pending marker covering `stamp` is already stored.
fn has_covering_marker(chain: &Chain, stamp: ChainTimestamp) -> (r: bool)
    ensures
        r == spec_covered(chain.headers@.map_values(|h: crate::event::EventHeader| h@), stamp),
{
    let ghost hs = chain.headers@.map_values(|h: crate::event::EventHeader| h@);
    let mut k: usize = 0;
    while k < chain.headers.len()
        invariant
            k <= chain.headers@.len(),
            hs == chain.headers@.map_values(|h: crate::event::EventHeader| h@),
            hs.len() == chain.headers@.len(),
            forall|j: int| 0 <= j < k ==> !spec_meta_covers((#[trigger] hs[j]).meta, stamp),
        decreases chain.headers@.len() - k,
    {
        proof {
            assert(hs[k as int] == chain.headers@[k as int]@);
        }
        if meta_covers(&chain.headers[k].meta, stamp) {
            return true;
        }
        k = k + 1;
    }
    proof {
        assert(!spec_covered(hs, stamp));
    }
    false
}

/// The marker event for a local-origin range.
pub open spec fn spec_marker_event(
    complete: bool,
    from: ChainTimestamp,
    until: ChainTimestamp,
) -> crate::event::EventDataV {
    crate::event::EventDataV {
        meta: seq![
            crate::meta::CoreMetadataV::DelayedUpload(
                MetaDelayedUpload { complete, from, to: until },
            ),
        ],
        data: None,
        format: MessageFormat::Binary,
    }
}

/// A marker event always clears validation and always fits a frame.
proof fn lemma_marker_feeds(ev: crate::event::EventDataV)
    requires
        ev.meta.len() == 1,
        ev.meta[0] is DelayedUpload,
        ev.data is None,
    ensures
        crate::tree::spec_meta_sigs_ok(ev.meta),
        crate::redo::spec_framable(ev),
{
    assert(crate::tree::spec_meta_sigs_ok(ev.meta));
    let entry = ev.meta[0];
    crate::crypto::lemma_le_enc_len(1, 8);
    match entry {
        crate::meta::CoreMetadataV::DelayedUpload(d) => {
            crate::crypto::lemma_le_enc_len(d.from.time_since_epoch_ms as int, 8);
            crate::crypto::lemma_le_enc_len(d.to.time_since_epoch_ms as int, 8);
            assert(crate::codec::enc_delayed(d).len() == 17);
            assert(crate::codec::enc_core(entry).len() == 18);
            assert(crate::codec::enc_cores_rec(ev.meta.drop_first()) =~= Seq::<u8>::empty());
            assert(crate::codec::enc_cores_rec(ev.meta) =~= crate::codec::enc_core(entry)
                + crate::codec::enc_cores_rec(ev.meta.drop_first()));
            assert(crate::codec::enc_meta(ev.meta).len() == 26);
        },
        _ => {},
    }
}

/// Stamps the delayed-upload marker covering the local-origin range
/// `[from, until]` into the chain, unless a pending marker covering
/// `from` is already stored: writing twice is writing once.
pub fn record_delayed_upload(chain: &mut Chain, from: ChainTimestamp, until: ChainTimestamp) -> (r:
    Result<(), CommitError>)
    requires
        old(chain).wf(),
    ensures
        r is Ok,
        final(chain).wf(),
        final(chain).plugin@.integrity == old(chain).plugin@.integrity,
        final(chain).plugin@.root_keys == old(chain).plugin@.root_keys,
        spec_covered(
            old(chain).headers@.map_values(|h: crate::event::EventHeader| h@),
            from,
        ) ==> *final(chain) == *old(chain),
        !spec_covered(
            old(chain).headers@.map_values(|h: crate::event::EventHeader| h@),
            from,
        ) ==> {
            &&& final(chain).headers@.len() == old(chain).headers@.len() + 1
            &&& final(chain).headers@.subrange(0, old(chain).headers@.len() as int) == old(
                chain,
            ).headers@
            &&& final(chain).redo.entries@.map_values(
                |p: (int, crate::event::EventDataV)| p.1,
            ) == old(chain).redo.entries@.map_values(
                |p: (int, crate::event::EventDataV)| p.1,
            ).push(spec_marker_event(false, from, until))
        },
{
    if has_covering_marker(chain, from) {
        return Ok(());
    }
    write_marker(chain, false, from, until)
}

/// Marks a previously recorded delayed upload complete.
pub fn complete_delayed_upload(chain: &mut Chain, from: ChainTimestamp, until: ChainTimestamp)
    -> (r: Result<(), CommitError>)
    requires
        old(chain).wf(),
    ensures
        r is Ok,
        final(chain).wf(),
        final(chain).plugin@.integrity == old(chain).plugin@.integrity,
        final(chain).plugin@.root_keys == old(chain).plugin@.root_keys,
        final(chain).headers@.len() == old(chain).headers@.len() + 1,
        final(chain).headers@.subrange(0, old(chain).headers@.len() as int) == old(
            chain,
        ).headers@,
        final(chain).redo.entries@.map_values(
            |p: (int, crate::event::EventDataV)| p.1,
        ) == old(chain).redo.entries@.map_values(
            |p: (int, crate::event::EventDataV)| p.1,
        ).push(spec_marker_event(true, from, until)),
{
    write_marker(chain, true, from, until)
}

/// Feeds one marker event; markers always validate and always fit.
fn write_marker(chain: &mut Chain, complete: bool, from: ChainTimestamp, until: ChainTimestamp)
    -> (r: Result<(), CommitError>)
    requires
        old(chain).wf(),
    ensures
        r is Ok,
        final(chain).wf(),
        final(chain).plugin@.integrity == old(chain).plugin@.integrity,
        final(chain).plugin@.root_keys == old(chain).plugin@.root_keys,
        final(chain).headers@.len() == old(chain).headers@.len() + 1,
        final(chain).headers@.subrange(0, old(chain).headers@.len() as int) == old(
            chain,
        ).headers@,
        final(chain).redo.entries@.map_values(
            |p: (int, crate::event::EventDataV)| p.1,
        ) == old(chain).redo.entries@.map_values(
            |p: (int, crate::event::EventDataV)| p.1,
        ).push(spec_marker_event(complete, from, until)),
{
    let mut meta = Metadata::new();
    meta.push(CoreMetadata::DelayedUpload(MetaDelayedUpload { complete, from, to: until }));
    let ev = EventData::new(meta, None, MessageFormat::Binary);
    proof {
        assert(ev@ =~= spec_marker_event(complete, from, until));
        lemma_marker_feeds(ev@);
    }
    let mut events: Vec<EventData> = Vec::new();
    events.push(ev);
    let ghost views = events@.map_values(|e: EventData| e@);
    proof {
        assert(views =~= seq![spec_marker_event(complete, from, until)]);
    }
    let mut conv = ConversationSession::none();
    match chain.feed_replicated(events, &mut conv) {
        Ok(()) => {
            proof {
                assert(old(chain).redo.entries@.map_values(
                    |p: (int, crate::event::EventDataV)| p.1,
                ) + views =~= old(chain).redo.entries@.map_values(
                    |p: (int, crate::event::EventDataV)| p.1,
                ).push(spec_marker_event(complete, from, until)));
            }
            Ok(())
        },
        Err(e) => {
            proof {
                let mv = spec_marker_event(complete, from, until);
                match e {
                    CommitError::Sink(_) => {
                        assert(crate::tree::spec_meta_sigs_ok(views[0].meta));
                        assert(false);
                    },
                    CommitError::Validation(_) => {
                        let staged = crate::chain::spec_stage_sigs(Map::empty(), views, 0);
                        assert forall|i: int|
                            0 <= i < views.len() implies crate::tree::spec_validate(
                            old(chain).plugin@,
                            crate::event::spec_header_of(#[trigger] views[i]),
                            conv@,
                            staged,
                        ) is Ok by {
                            assert(views[i] == views[0]);
                            let h = crate::event::spec_header_of(views[0]);
                            assert(h.meta == views[0].meta);
                            assert(h.meta.len() == 1);
                            assert(h.meta.drop_first() =~= Seq::<
                                crate::meta::CoreMetadataV,
                            >::empty());
                            assert(!crate::meta::spec_entry_needs_signature(h.meta[0]));
                            assert(!crate::meta::spec_needs_signature(h.meta.drop_first()));
                            assert(crate::meta::spec_needs_signature(h.meta) == (
                            crate::meta::spec_entry_needs_signature(h.meta[0])
                                || crate::meta::spec_needs_signature(h.meta.drop_first())));
                            assert(!crate::meta::spec_needs_signature(h.meta));
                            assert(h.data_hash is None);
                            assert(crate::tree::spec_meta_sigs_ok(h.meta));
                        }
                        assert(false);
                    },
                    CommitError::Log(_) => {
                        assert(crate::redo::spec_framable(views[0]));
                        assert(false);
                    },
                    _ => {
                        assert(false);
                    },
                }
            }
            Err(e)
        },
    }
}

// ---------------------------------------------------------------------
// the listener side: hello handshake rules and the route table// ---------------------------------------------------------------------
// the listener side: hello handshake rules and the route table
// ---------------------------------------------------------------------

/// What a client declares when it connects.
pub struct HelloFromClient {
    pub path: String,
    pub client_id: u64,
    pub requested_enc: Option<KeySize>,
}

/// What the server answers.
pub struct HelloFromServer {
    pub server_id: u64,
    pub encryption: Option<KeySize>,
    pub format: MessageFormat,
}

/// The handshake rule: when wire encryption is required, a
/// certificate must be loaded and must be at least as strong.
pub open spec fn spec_accept_check(required: Option<KeySize>, cert: Option<KeySize>) -> Result<
    (),
    CommsError,
> {
    match required {
        None => Ok(()),
        Some(size) => match cert {
            None => Err(CommsError::MissingCertificate),
            Some(c) => {
                if spec_key_bits(c) < spec_key_bits(size) {
                    Err(CommsError::CertificateTooWeak(size, c))
                } else {
                    Ok(())
                }
            },
        },
    }
}

/// Checks the handshake rule.
pub fn accept_check(required: Option<KeySize>, cert: Option<KeySize>) -> (r: Result<
    (),
    CommsError,
>)
    ensures
        (r is Ok) == (spec_accept_check(required, cert) is Ok),
        (match r {
            Err(CommsError::MissingCertificate) => required is Some && cert is None,
            Err(CommsError::CertificateTooWeak(s, c)) => required == Some(s) && cert == Some(c)
                && spec_key_bits(c) < spec_key_bits(s),
            Err(_) => false,
            Ok(()) => true,
        }),
{
    match required {
        None => Ok(()),
        Some(size) => match cert {
            None => Err(CommsError::MissingCertificate),
            Some(c) => {
                if c.bits() < size.bits() {
                    Err(CommsError::CertificateTooWeak(size, c))
                } else {
                    Ok(())
                }
            },
        },
    }
}

/// One route of the listener: a chain path that a connection may ask
/// for, addressed by the hash of its path bytes.
pub struct ListenerNode {
    pub path_hash: u128,
}

/// The listener's route table and handshake configuration.
pub struct Listener {
    pub routes: Vec<ListenerNode>,
    pub wire_encryption: Option<KeySize>,
    pub listen_cert: Option<KeySize>,
}

impl Listener {
    /// A fresh listener is refused outright when wire encryption is
    /// required but the certificate is missing or too weak.
    pub fn new(wire_encryption: Option<KeySize>, listen_cert: Option<KeySize>) -> (r: Result<
        Listener,
        CommsError,
    >)
        ensures
            match r {
                Ok(l) => spec_accept_check(wire_encryption, listen_cert) is Ok
                    && l.routes@.len() == 0 && l.wire_encryption == wire_encryption
                    && l.listen_cert == listen_cert,
                Err(CommsError::MissingCertificate) => wire_encryption is Some && listen_cert
                    is None,
                Err(CommsError::CertificateTooWeak(s, c)) => wire_encryption == Some(s)
                    && listen_cert == Some(c) && spec_key_bits(c) < spec_key_bits(s),
                Err(_) => false,
            },
    {
        match accept_check(wire_encryption, listen_cert) {
            Ok(()) => Ok(
                Listener { routes: Vec::new(), wire_encryption, listen_cert },
            ),
            Err(e) => Err(e),
        }
    }

    /// Adds a route for a chain path.
    pub fn add_route(&mut self, path_hash: u128)
        ensures
            final(self).routes@ == old(self).routes@.push(ListenerNode { path_hash }),
            final(self).wire_encryption == old(self).wire_encryption,
            final(self).listen_cert == old(self).listen_cert,
    {
        self.routes.push(ListenerNode { path_hash });
    }

    /// Whether a connection path has a route.
    pub fn has_route(&self, path_hash: u128) -> (r: bool)
        ensures
            r == (exists|i: int|
                0 <= i < self.routes@.len() && (#[trigger] self.routes@[i]).path_hash
                    == path_hash),
    {
        let mut i: usize = 0;
        while i < self.routes.len()
            invariant
                i <= self.routes@.len(),
                forall|j: int| 0 <= j < i ==> (#[trigger] self.routes@[j]).path_hash != path_hash,
            decreases self.routes@.len() - i,
        {
            if self.routes[i].path_hash == path_hash {
                return true;
            }
            i = i + 1;
        }
        false
    }

    /// Decides one incoming connection: the handshake rule, then the
    /// route lookup.  A missing route closes politely; a weak or
    /// missing certificate is fatal for the connection only.
    pub fn accept_connection(&self, hello_path_hash: u128, requested_enc: Option<KeySize>) -> (r:
        Result<bool, CommsError>)
        ensures
            match r {
                Ok(routed) => spec_accept_check(requested_enc, self.listen_cert) is Ok
                    && routed == (exists|i: int|
                    0 <= i < self.routes@.len() && (#[trigger] self.routes@[i]).path_hash
                        == hello_path_hash),
                Err(_) => !(spec_accept_check(requested_enc, self.listen_cert) is Ok),
            },
    {
        match accept_check(requested_enc, self.listen_cert) {
            Ok(()) => Ok(self.has_route(hello_path_hash)),
            Err(e) => Err(e),
        }
    }
}

// ---------------------------------------------------------------------
// wire framing and key exchange
// ---------------------------------------------------------------------

/// A length-framed payload: a 32-bit little-endian length, then the
/// bytes.
pub open spec fn enc_frame32(payload: Seq<u8>) -> Seq<u8> {
    le_enc(payload.len() as int, 4) + payload
}

/// Parses one frame at `i`.
pub open spec fn p_frame32(s: Seq<u8>, i: int) -> Option<(Seq<u8>, int)> {
    match p_le(s, i, 4) {
        Some((n, j)) => {
            if j + n <= s.len() {
                Some((s.subrange(j, j + n), j + n))
            } else {
                None
            }
        },
        None => None,
    }
}

/// Framing inverts.
pub proof fn lemma_p_frame32_enc(s: Seq<u8>, i: int, payload: Seq<u8>)
    requires
        0 <= i,
        payload.len() < 0x1_0000_0000,
        i + enc_frame32(payload).len() <= s.len(),
        s.subrange(i, i + enc_frame32(payload).len()) == enc_frame32(payload),
    ensures
        p_frame32(s, i) == Some((payload, i + enc_frame32(payload).len())),
{
    lemma_le_enc_len(payload.len() as int, 4);
    lemma_split_at(s, i, le_enc(payload.len() as int, 4), payload);
    crate::redo::lemma_pow256_u32();
    lemma_p_le_enc(s, i, payload.len() as int, 4);
}

/// Appends one frame.
pub fn write_frame32(out: &mut Vec<u8>, payload: &Vec<u8>) -> (r: Result<(), CommsError>)
    ensures
        match r {
            Ok(()) => final(out)@ == old(out)@ + enc_frame32(payload@) && payload@.len()
                < 0x1_0000_0000,
            Err(e) => final(out)@ == old(out)@ && payload@.len() >= 0x1_0000_0000 && e
                == CommsError::Disconnected,
        },
{
    if (payload.len() as u64) >= 0x1_0000_0000u64 {
        return Err(CommsError::Disconnected);
    }
    let ghost base = out@;
    write_le(out, payload.len() as u128, 4);
    push_all(out, payload);
    proof {
        assert(out@ =~= base + enc_frame32(payload@));
    }
    Ok(())
}

/// Reads one frame at `*pos`, advancing past it.
pub fn read_frame32(buf: &Vec<u8>, pos: &mut usize) -> (r: Option<Vec<u8>>)
    requires
        *old(pos) <= buf@.len(),
    ensures
        match r {
            Some(v) => {
                &&& p_frame32(buf@, *old(pos) as int) == Some((v@, *final(pos) as int))
                &&& *final(pos) <= buf@.len()
            },
            None => {
                &&& p_frame32(buf@, *old(pos) as int) is None
                &&& *final(pos) == *old(pos)
            },
        },
{
    let start: usize = *pos;
    let n128 = match read_le(buf, pos, 4) {
        Some(v) => v,
        None => {
            return None;
        },
    };
    proof {
        lemma_le_dec_bound(buf@.subrange(start as int, start + 4));
        crate::redo::lemma_pow256_u32();
    }
    let n: usize = n128 as usize;
    match crate::redo::read_exact(buf, pos, n) {
        Some(v) => Some(v),
        None => {
            *pos = start;
            None
        },
    }
}

/// Both ends of the key exchange derive the shared wire key the same
/// way: the record-key derivation over the ephemeral value and the
/// server secret.
pub fn derive_shared_key(ephemeral: u128, server_secret: u128) -> (r: EncryptKey)
    ensures
        r.val == derived_key_of(ephemeral, server_secret),
{
    let d = crate::crypto::KeyDerivation { salt: ephemeral };
    d.transmute(&EncryptKey { val: server_secret })
}

/// A per-direction nonce counter; frames are numbered monotonically.
pub struct NonceCounter {
    pub next: u64,
}

impl NonceCounter {
    pub fn new() -> (r: NonceCounter)
        ensures
            r.next == 0,
    {
        NonceCounter { next: 0 }
    }

    /// Draws the next nonce; fails only when the counter would wrap.
    pub fn draw(&mut self) -> (r: Option<u64>)
        ensures
            match r {
                Some(n) => n == old(self).next && final(self).next == old(self).next + 1,
                None => old(self).next == u64::MAX && *final(self) == *old(self),
            },
    {
        if self.next == u64::MAX {
            return None;
        }
        let n = self.next;
        self.next = self.next + 1;
        Some(n)
    }
}

} // verus!
