//! Sessions: the keys a writer or reader carries, and the per-
//! connection conversation that accumulates observed signer keys for
//! centralized-integrity decisions.

use vstd::prelude::*;
use crate::crypto::AteHash;
use crate::crypto::EncryptKey;
use crate::crypto::PrivateSignKey;
use crate::crypto::hash128_of;

verus! {

/// The keys a caller brings to a chain: symmetric read keys for
/// decrypting payloads and signing keys for authorizing writes.
pub struct AteSession {
    pub read_keys: Vec<EncryptKey>,
    pub write_keys: Vec<PrivateSignKey>,
}

/// Every signing key in a session must be a well-formed pair.
pub open spec fn spec_session_wf(s: &AteSession) -> bool {
    forall|i: int| 0 <= i < s.write_keys@.len() ==> (#[trigger] s.write_keys@[i]).wf()
}

/// The first read key whose material hashes to `kh`, if any.
pub open spec fn spec_find_read_key(keys: Seq<EncryptKey>, kh: AteHash) -> Option<EncryptKey>
    decreases keys.len(),
{
    if keys.len() == 0 {
        None
    } else if crate::crypto::key_hash_of(keys[0].val) == kh.val {
        Some(keys[0])
    } else {
        spec_find_read_key(keys.drop_first(), kh)
    }
}

impl AteSession {
    pub fn new() -> (r: AteSession)
        ensures
            r.read_keys@ =~= Seq::<EncryptKey>::empty(),
            r.write_keys@ =~= Seq::<PrivateSignKey>::empty(),
            spec_session_wf(&r),
    {
        AteSession { read_keys: Vec::new(), write_keys: Vec::new() }
    }

    pub fn add_read_key(&mut self, key: EncryptKey)
        ensures
            final(self).read_keys@ == old(self).read_keys@.push(key),
            final(self).write_keys@ == old(self).write_keys@,
            spec_session_wf(old(self)) ==> spec_session_wf(final(self)),
    {
        self.read_keys.push(key);
    }

    pub fn add_write_key(&mut self, key: PrivateSignKey)
        requires
            key.wf(),
        ensures
            final(self).write_keys@ == old(self).write_keys@.push(key),
            final(self).read_keys@ == old(self).read_keys@,
            spec_session_wf(old(self)) ==> spec_session_wf(final(self)),
    {
        self.write_keys.push(key);
        proof {
            assert forall|i: int| 0 <= i < self.write_keys@.len() implies
                (#[trigger] self.write_keys@[i]).wf() || !spec_session_wf(old(self)) by {
                if i < self.write_keys@.len() - 1 {
                    assert(self.write_keys@[i] == old(self).write_keys@[i]);
                }
            }
        }
    }

    /// The first read key whose hash is `kh`.
    pub fn find_read_key(&self, kh: &AteHash) -> (r: Option<EncryptKey>)
        ensures
            r == spec_find_read_key(self.read_keys@, *kh),
    {
        let mut i: usize = 0;
        proof {
            assert(self.read_keys@.skip(0) =~= self.read_keys@);
        }
        while i < self.read_keys.len()
            invariant
                i <= self.read_keys@.len(),
                spec_find_read_key(self.read_keys@, *kh) == spec_find_read_key(
                    self.read_keys@.skip(i as int),
                    *kh,
                ),
            decreases self.read_keys@.len() - i,
        {
            let ghost rem = self.read_keys@.skip(i as int);
            proof {
                assert(rem[0] == self.read_keys@[i as int]);
                assert(rem.drop_first() =~= self.read_keys@.skip(i + 1));
            }
            let h = self.read_keys[i].hash();
            if h.val == kh.val {
                return Some(self.read_keys[i]);
            }
            i = i + 1;
        }
        None
    }
}

/// A per-connection context.  In centralized integrity mode, once a
/// writer key has been observed on a conversation, later events by
/// the same writer are trusted without a fresh signature.  A chain
/// fed outside any connection uses an inactive conversation.
pub struct ConversationSession {
    pub active: bool,
    pub other_end_is_server: bool,
    pub signatures: Vec<AteHash>,
}

/// The mathematical shape of a conversation.
pub struct ConvV {
    pub active: bool,
    pub other_end_is_server: bool,
    pub signatures: Seq<AteHash>,
}

impl View for ConversationSession {
    type V = ConvV;

    open spec fn view(&self) -> ConvV {
        ConvV {
            active: self.active,
            other_end_is_server: self.other_end_is_server,
            signatures: self.signatures@,
        }
    }
}

impl ConversationSession {
    /// The inactive conversation: no connection, nothing trusted.
    pub fn none() -> (r: ConversationSession)
        ensures
            !r.active,
            !r.other_end_is_server,
            r.signatures@ =~= Seq::<AteHash>::empty(),
    {
        ConversationSession { active: false, other_end_is_server: false, signatures: Vec::new() }
    }

    pub fn new(other_end_is_server: bool) -> (r: ConversationSession)
        ensures
            r.active,
            r.other_end_is_server == other_end_is_server,
            r.signatures@ =~= Seq::<AteHash>::empty(),
    {
        ConversationSession { active: true, other_end_is_server, signatures: Vec::new() }
    }

    /// Records that this conversation has presented a verified
    /// signature by the key with this hash.
    pub fn record_signer(&mut self, signer: AteHash)
        ensures
            final(self).signatures@ == old(self).signatures@.push(signer),
            final(self).active == old(self).active,
            final(self).other_end_is_server == old(self).other_end_is_server,
    {
        self.signatures.push(signer);
    }

    /// Whether this conversation has already presented a verified
    /// signature by the key with this hash.
    pub fn knows_signer(&self, signer: &AteHash) -> (r: bool)
        ensures
            r == self.signatures@.contains(*signer),
    {
        let mut i: usize = 0;
        while i < self.signatures.len()
            invariant
                i <= self.signatures@.len(),
                forall|j: int| 0 <= j < i ==> self.signatures@[j] != *signer,
            decreases self.signatures@.len() - i,
        {
            if self.signatures[i].val == signer.val {
                proof {
                    assert(self.signatures@[i as int] == *signer);
                }
                return true;
            }
            i = i + 1;
        }
        proof {
            assert(!self.signatures@.contains(*signer));
        }
        false
    }

    /// Drops everything the conversation has learned.
    pub fn clear(&mut self)
        ensures
            final(self).signatures@ =~= Seq::<AteHash>::empty(),
            final(self).active == old(self).active,
            final(self).other_end_is_server == old(self).other_end_is_server,
    {
        self.signatures = Vec::new();
    }
}

} // verus!
