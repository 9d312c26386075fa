//! The chain-of-trust pipeline.  One plugin carries four capabilities
//! over every event: feeding authorization and signature state,
//! validating events against the resolved write rights, stamping
//! sign-with hints and confidentiality fingerprints before a store,
//! and encrypting payloads on the way in and out.

use vstd::prelude::*;
use std::collections::HashMap;
use crate::codec::enc_hashes_rec;
use crate::crypto::AteHash;
use crate::crypto::EncryptKey;
use crate::crypto::InitializationVector;
use crate::crypto::PublicSignKey;
use crate::crypto::ed_signature_valid;
use crate::crypto::ed25519_verify;
use crate::crypto::hash128_of;
use crate::crypto::lemma_le_enc_len;
use crate::crypto::short_hash_of;
use crate::crypto::derived_key_of;
use crate::crypto::write_le;
use crate::crypto::xor_stream;
use crate::error::LintError;
use crate::error::LintErrorV;
use crate::error::SinkError;
use crate::error::TransformError;
use crate::error::TransformErrorV;
use crate::error::TrustError;
use crate::error::TrustErrorV;
use crate::error::ValidationError;
use crate::error::ValidationErrorV;
use crate::event::EventHeader;
use crate::event::EventHeaderV;
use crate::meta::CoreMetadata;
use crate::meta::CoreMetadataV;
use crate::meta::Metadata;
use crate::meta::MetaAuthorization;
use crate::meta::MetaAuthorizationV;
use crate::meta::MetaConfidentiality;
use crate::meta::MetaParent;
use crate::meta::MetaSignWith;
use crate::meta::ReadOption;
use crate::meta::WriteOption;
use crate::meta::WriteOptionV;
use crate::meta::copy_hashes;
use crate::meta::spec_authorization;
use crate::meta::spec_confidentiality;
use crate::meta::spec_data_key;
use crate::meta::spec_iv;
use crate::meta::spec_needs_signature;
use crate::meta::spec_parent;
use crate::meta::spec_tombstone;
use crate::meta::spec_write_vals;
use crate::session::AteSession;
use crate::session::ConversationSession;
use crate::session::ConvV;
use crate::session::spec_find_read_key;
use crate::transaction::TransactionMetadata;
use crate::transaction::TransMetaV;
use crate::transaction::spec_trans_empty;

verus! {

broadcast use vstd::std_specs::hash::group_hash_axioms;

/// How trust travels: in distributed mode every event carries its own
/// verifiable signature; in centralized mode, trust is transitive
/// within a conversation once a writer has been authenticated.
#[derive(Debug, Clone, Copy, PartialEq, Eq, Structural)]
pub enum IntegrityMode {
    Centralized,
    Distributed,
}

/// Whether authorization is computed before the record is stored
/// (for signing) or after (for reading).
#[derive(Debug, Clone, Copy, PartialEq, Eq, Structural)]
pub enum ComputePhase {
    BeforeStore,
    AfterStore,
}

/// The verdict of validation.
#[derive(Debug, Clone, Copy, PartialEq, Eq, Structural)]
pub enum ValidationResult {
    Allow,
}

/// The bytes a signature entry signs: the concatenated event hashes
/// it covers.
pub open spec fn spec_sig_message(hashes: Seq<AteHash>) -> Seq<u8> {
    enc_hashes_rec(hashes)
}

/// Whether a signature entry verifies cryptographically.
pub open spec fn spec_sig_valid(g: crate::meta::MetaSignatureV) -> bool {
    ed_signature_valid(g.public_key, spec_sig_message(g.hashes), g.signature)
}

/// Whether every signature entry of the metadata verifies.
pub open spec fn spec_meta_sigs_ok(meta: Seq<CoreMetadataV>) -> bool {
    forall|i: int|
        0 <= i < meta.len() ==> ((#[trigger] meta[i]) matches CoreMetadataV::Signature(g)
            ==> spec_sig_valid(g))
}

/// Records one verified signer under each hash it covered.
pub open spec fn spec_record(
    m: Map<u128, Seq<AteHash>>,
    hashes: Seq<AteHash>,
    signer: AteHash,
) -> Map<u128, Seq<AteHash>>
    decreases hashes.len(),
{
    if hashes.len() == 0 {
        m
    } else {
        let m1 = m.insert(
            hashes[0].val,
            if m.contains_key(hashes[0].val) {
                m[hashes[0].val].push(signer)
            } else {
                seq![signer]
            },
        );
        spec_record(m1, hashes.drop_first(), signer)
    }
}

/// Folds every signature entry of the metadata into the verified map.
pub open spec fn spec_sigs_feed(
    m: Map<u128, Seq<AteHash>>,
    meta: Seq<CoreMetadataV>,
    i: int,
) -> Map<u128, Seq<AteHash>>
    decreases meta.len() - i,
{
    if i < 0 || i >= meta.len() {
        m
    } else {
        let m1 = match meta[i] {
            CoreMetadataV::Signature(g) => spec_record(
                m,
                g.hashes,
                AteHash { val: hash128_of(g.public_key) },
            ),
            _ => m,
        };
        spec_sigs_feed(m1, meta, i + 1)
    }
}

/// The signer hashes of the metadata's signature entries, in order.
pub open spec fn spec_signers(meta: Seq<CoreMetadataV>) -> Seq<AteHash>
    decreases meta.len(),
{
    if meta.len() == 0 {
        Seq::empty()
    } else {
        (match meta[0] {
            CoreMetadataV::Signature(g) => seq![AteHash { val: hash128_of(g.public_key) }],
            _ => Seq::empty(),
        }) + spec_signers(meta.drop_first())
    }
}

/// Whether some hash of `a` is also in `b`.
pub open spec fn spec_any_common(a: Seq<AteHash>, b: Seq<AteHash>) -> bool {
    exists|i: int| 0 <= i < a.len() && b.contains(a[i])
}

/// The bytes a signature entry signs, as a fresh buffer.
pub fn sig_message(hashes: &Vec<AteHash>) -> (r: Vec<u8>)
    ensures
        r@ == spec_sig_message(hashes@),
{
    let mut out: Vec<u8> = Vec::new();
    let ghost target = enc_hashes_rec(hashes@);
    proof {
        assert(hashes@.subrange(0, hashes@.len() as int) =~= hashes@);
    }
    let mut k: usize = 0;
    while k < hashes.len()
        invariant
            k <= hashes@.len(),
            out@ + enc_hashes_rec(hashes@.subrange(k as int, hashes@.len() as int)) == enc_hashes_rec(
                hashes@,
            ),
        decreases hashes@.len() - k,
    {
        let ghost rem = hashes@.subrange(k as int, hashes@.len() as int);
        proof {
            assert(rem[0] == hashes@[k as int]);
            assert(rem.drop_first() =~= hashes@.subrange(k + 1, hashes@.len() as int));
            lemma_le_enc_len(hashes@[k as int].val as int, 16);
            crate::codec::lemma_enc_hashes_rec_len(rem.drop_first());
        }
        write_le(&mut out, hashes[k].val, 16);
        k = k + 1;
        proof {
            assert(out@ + enc_hashes_rec(hashes@.subrange(k as int, hashes@.len() as int))
                =~= enc_hashes_rec(hashes@));
        }
    }
    proof {
        assert(enc_hashes_rec(hashes@.subrange(hashes@.len() as int, hashes@.len() as int))
            =~= Seq::<u8>::empty());
        assert(out@ =~= enc_hashes_rec(hashes@));
    }
    out
}

/// Whether a hash list holds a given hash.
pub fn hashes_contain(v: &Vec<AteHash>, h: &AteHash) -> (r: bool)
    ensures
        r == v@.contains(*h),
{
    let mut i: usize = 0;
    while i < v.len()
        invariant
            i <= v@.len(),
            forall|j: int| 0 <= j < i ==> v@[j] != *h,
        decreases v@.len() - i,
    {
        if v[i].val == h.val {
            proof {
                assert(v@[i as int] == *h);
            }
            return true;
        }
        i = i + 1;
    }
    proof {
        assert(!v@.contains(*h));
    }
    false
}

/// Whether the two hash lists share any element.
pub fn any_common(a: &Vec<AteHash>, b: &Vec<AteHash>) -> (r: bool)
    ensures
        r == spec_any_common(a@, b@),
{
    let mut i: usize = 0;
    while i < a.len()
        invariant
            i <= a@.len(),
            forall|j: int| 0 <= j < i ==> !b@.contains(a@[j]),
        decreases a@.len() - i,
    {
        if hashes_contain(b, &a[i]) {
            proof {
                assert(b@.contains(a@[i as int]));
            }
            return true;
        }
        i = i + 1;
    }
    proof {
        assert(!spec_any_common(a@, b@));
    }
    false
}

/// The signature plugin: remembers, for each covered hash, which
/// verified keys signed it.
pub struct SignaturePlugin {
    sigs: HashMap<u128, Vec<AteHash>>,
}

impl View for SignaturePlugin {
    type V = Map<u128, Seq<AteHash>>;

    closed spec fn view(&self) -> Map<u128, Seq<AteHash>> {
        self.sigs@.map_values(|v: Vec<AteHash>| v@)
    }
}

impl SignaturePlugin {
    pub fn new() -> (r: SignaturePlugin)
        ensures
            r@ =~= Map::<u128, Seq<AteHash>>::empty(),
    {
        let r = SignaturePlugin { sigs: HashMap::new() };
        proof {
            assert(r@ =~= Map::<u128, Seq<AteHash>>::empty());
        }
        r
    }

    /// The verified signer hashes recorded for a hash.
    pub fn get_verified_signatures(&self, hash: &AteHash) -> (r: Option<Vec<AteHash>>)
        ensures
            match r {
                Some(v) => self@.contains_key(hash.val) && v@ == self@[hash.val],
                None => !self@.contains_key(hash.val),
            },
    {
        match self.sigs.get(&hash.val) {
            Some(v) => {
                let c = copy_hashes(v);
                proof {
                    assert(self@[hash.val] == self.sigs@[hash.val]@);
                }
                Some(c)
            },
            None => None,
        }
    }

    /// Verifies every signature entry of the event; when all verify,
    /// records each signer under every hash it covered, and notes the
    /// signers on an active conversation.
    pub fn feed(&mut self, header: &EventHeader, conv: &mut ConversationSession) -> (r: Result<
        (),
        SinkError,
    >)
        ensures
            match r {
                Ok(()) => {
                    &&& spec_meta_sigs_ok(header@.meta)
                    &&& final(self)@ == spec_sigs_feed(old(self)@, header@.meta, 0)
                    &&& final(conv).signatures@ == old(conv).signatures@ + (if old(conv).active {
                        spec_signers(header@.meta)
                    } else {
                        Seq::empty()
                    })
                    &&& final(conv).active == old(conv).active
                    &&& final(conv).other_end_is_server == old(conv).other_end_is_server
                },
                Err(_) => {
                    &&& !spec_meta_sigs_ok(header@.meta)
                    &&& *final(self) == *old(self)
                    &&& *final(conv) == *old(conv)
                },
            },
    {
        let ghost meta = header@.meta;
        // First pass: verify every signature entry.
        let mut i: usize = 0;
        while i < header.meta.core.len()
            invariant
                i <= header.meta.core@.len(),
                meta == header@.meta,
                meta.len() == header.meta.core@.len(),
                forall|j: int|
                    0 <= j < i ==> ((#[trigger] meta[j]) matches CoreMetadataV::Signature(g)
                        ==> spec_sig_valid(g)),
            decreases header.meta.core@.len() - i,
        {
            proof {
                assert(meta[i as int] == header.meta.core@[i as int]@);
            }
            match &header.meta.core[i] {
                CoreMetadata::Signature(g) => {
                    let msg = sig_message(&g.hashes);
                    let ok = ed25519_verify(
                        g.public_key.bytes.as_slice(),
                        msg.as_slice(),
                        g.signature.as_slice(),
                    );
                    if !ok {
                        proof {
                            assert(!spec_meta_sigs_ok(meta));
                        }
                        return Err(SinkError::InvalidSignature);
                    }
                },
                _ => {},
            }
            i = i + 1;
        }
        proof {
            assert(spec_meta_sigs_ok(meta));
        }
        // Second pass: record the signers.
        let ghost conv0 = conv.signatures@;
        let mut i2: usize = 0;
        proof {
            assert(meta.skip(0) =~= meta);
        }
        while i2 < header.meta.core.len()
            invariant
                i2 <= header.meta.core@.len(),
                meta == header@.meta,
                meta.len() == header.meta.core@.len(),
                spec_sigs_feed(self@, meta, i2 as int) == spec_sigs_feed(
                    old(self)@,
                    meta,
                    0,
                ),
                conv.active ==> conv0 + spec_signers(meta) == conv.signatures@ + spec_signers(
                    meta.skip(i2 as int),
                ),
                !conv.active ==> conv.signatures@ == conv0,
                conv.active == old(conv).active,
                conv.other_end_is_server == old(conv).other_end_is_server,
                conv0 == old(conv).signatures@,
            decreases header.meta.core@.len() - i2,
        {
            let ghost before = self@;
            let ghost rem_meta = meta.skip(i2 as int);
            proof {
                assert(meta[i2 as int] == header.meta.core@[i2 as int]@);
                assert(rem_meta[0] == meta[i2 as int]);
                assert(rem_meta.drop_first() =~= meta.skip(i2 + 1));
            }
            match &header.meta.core[i2] {
                CoreMetadata::Signature(g) => {
                    let signer = g.public_key.hash();
                    let mut j: usize = 0;
                    proof {
                        assert(g.hashes@.skip(0) =~= g.hashes@);
                    }
                    while j < g.hashes.len()
                        invariant
                            j <= g.hashes@.len(),
                            spec_record(self@, g.hashes@.skip(j as int), signer)
                                == spec_record(before, g.hashes@, signer),
                            signer.val == hash128_of(g.public_key.bytes@),
                        decreases g.hashes@.len() - j,
                    {
                        let ghost rem = g.hashes@.skip(j as int);
                        let ghost self_at = self@;
                        proof {
                            assert(rem[0] == g.hashes@[j as int]);
                            assert(rem.drop_first() =~= g.hashes@.skip(j + 1));
                        }
                        let hv = g.hashes[j].val;
                        let mut cur: Vec<AteHash> = match self.sigs.remove(&hv) {
                            Some(v) => v,
                            None => Vec::new(),
                        };
                        let ghost curview = cur@;
                        cur.push(signer);
                        self.sigs.insert(hv, cur);
                        proof {
                            if self_at.contains_key(hv) {
                                assert(curview == self_at[hv]);
                                assert(self@ =~= self_at.insert(hv, self_at[hv].push(signer)));
                            } else {
                                assert(curview =~= Seq::<AteHash>::empty());
                                assert(curview.push(signer) =~= seq![signer]);
                                assert(self@ =~= self_at.insert(hv, seq![signer]));
                            }
                        }
                        j = j + 1;
                    }
                    proof {
                        assert(g.hashes@.skip(g.hashes@.len() as int) =~= Seq::<
                            AteHash,
                        >::empty());
                    }
                    if conv.active {
                        conv.record_signer(signer);
                    }
                    proof {
                        if conv.active {
                            assert(spec_signers(rem_meta) == seq![signer] + spec_signers(
                                meta.skip(i2 + 1),
                            ));
                            assert(conv.signatures@ + spec_signers(meta.skip(i2 + 1))
                                =~= conv.signatures@.drop_last() + spec_signers(rem_meta));
                        }
                    }
                },
                _ => {
                    proof {
                        if conv.active {
                            assert(spec_signers(rem_meta) == spec_signers(meta.skip(i2 + 1)));
                        }
                    }
                },
            }
            i2 = i2 + 1;
        }
        proof {
            assert(meta.skip(meta.len() as int) =~= Seq::<CoreMetadataV>::empty());
            if conv.active {
                assert(conv.signatures@ =~= conv0 + spec_signers(meta));
            } else {
                assert(conv.signatures@ =~= conv0 + Seq::<AteHash>::empty());
            }
        }
        Ok(())
    }

    /// Drops everything learned.
    pub fn reset(&mut self)
        ensures
            final(self)@ =~= Map::<u128, Seq<AteHash>>::empty(),
    {
        self.sigs = HashMap::new();
        proof {
            assert(self@ =~= Map::<u128, Seq<AteHash>>::empty());
        }
    }
}


// ---------------------------------------------------------------------
// the tree authority plugin
// ---------------------------------------------------------------------

/// The mathematical state of the tree authority plugin.
#[verifier::ext_equal]
pub struct TreeAuthView {
    pub root_keys: Seq<Seq<u8>>,
    pub auth: Map<u128, MetaAuthorizationV>,
    pub parents: Map<u128, MetaParent>,
    pub sigs: Map<u128, Seq<AteHash>>,
    pub integrity: IntegrityMode,
}

/// The trust plugin: root keys, per-record authorization, the parent
/// graph, the verified-signature record, and the integrity mode.
pub struct TreeAuthorityPlugin {
    root_keys: Vec<PublicSignKey>,
    auth: HashMap<u128, MetaAuthorization>,
    parents: HashMap<u128, MetaParent>,
    signature_plugin: SignaturePlugin,
    integrity: IntegrityMode,
}

impl View for TreeAuthorityPlugin {
    type V = TreeAuthView;

    closed spec fn view(&self) -> TreeAuthView {
        TreeAuthView {
            root_keys: self.root_keys@.map_values(|k: PublicSignKey| k@),
            auth: self.auth@.map_values(|a: MetaAuthorization| a@),
            parents: self.parents@,
            sigs: self.signature_plugin@,
            integrity: self.integrity,
        }
    }
}

/// Whether a key with this material's hash is already loaded.
pub open spec fn spec_has_root_key(keys: Seq<Seq<u8>>, kb: Seq<u8>) -> bool {
    exists|i: int| 0 <= i < keys.len() && hash128_of(#[trigger] keys[i]) == hash128_of(kb)
}

/// Adding a root key is keyed by hash: a key already present (by
/// hash) leaves the store alone.
pub open spec fn spec_add_root_key(keys: Seq<Seq<u8>>, kb: Seq<u8>) -> Seq<Seq<u8>> {
    if spec_has_root_key(keys, kb) {
        keys
    } else {
        keys.push(kb)
    }
}

/// The root-key store that loading a whole list leaves behind:
/// every key added in order, deduplicated by hash.
pub open spec fn spec_root_fold(acc: Seq<Seq<u8>>, ks: Seq<Seq<u8>>, i: int) -> Seq<Seq<u8>>
    decreases ks.len() - i,
{
    if i < 0 || i >= ks.len() {
        acc
    } else {
        spec_root_fold(spec_add_root_key(acc, ks[i]), ks, i + 1)
    }
}

/// Adding the same key twice is the same as adding it once.
pub proof fn lemma_add_root_key_idempotent(keys: Seq<Seq<u8>>, kb: Seq<u8>)
    ensures
        spec_add_root_key(spec_add_root_key(keys, kb), kb) == spec_add_root_key(keys, kb),
{
    let once = spec_add_root_key(keys, kb);
    if !spec_has_root_key(keys, kb) {
        assert(once[keys.len() as int] == kb);
        assert(spec_has_root_key(once, kb));
    }
}

/// The chain root's write option: everyone when no root key is
/// loaded, else any of the root keys.
pub open spec fn spec_root_write(root_keys: Seq<Seq<u8>>) -> WriteOptionV {
    if root_keys.len() == 0 {
        WriteOptionV::Everyone
    } else {
        WriteOptionV::Any(root_keys.map_values(|b: Seq<u8>| AteHash { val: hash128_of(b) }))
    }
}

/// Fills whatever is still inherited at the top of the walk with the
/// root defaults: everyone may read, the chain root says who writes.
pub open spec fn spec_fill_root(
    v: TreeAuthView,
    read: ReadOption,
    write: WriteOptionV,
) -> MetaAuthorizationV {
    MetaAuthorizationV {
        read: if read is Inherit {
            ReadOption::Everyone(None)
        } else {
            read
        },
        write: if write is Inherit {
            spec_root_write(v.root_keys)
        } else {
            write
        },
    }
}

/// One parent's stored authorization: pending transaction state
/// first, then the chain.
pub open spec fn spec_parent_auth(v: TreeAuthView, trans: TransMetaV, pid: u128) -> Option<
    MetaAuthorizationV,
> {
    if trans.auth.contains_key(pid) {
        Some(trans.auth[pid])
    } else if v.auth.contains_key(pid) {
        Some(v.auth[pid])
    } else {
        None
    }
}

/// One record's next parent pointer: pending state first, then the
/// chain.
pub open spec fn spec_next_parent(v: TreeAuthView, trans: TransMetaV, pid: u128) -> Option<
    MetaParent,
> {
    if trans.parents.contains_key(pid) {
        Some(trans.parents[pid])
    } else if v.parents.contains_key(pid) {
        Some(v.parents[pid])
    } else {
        None
    }
}

/// Resolves inherited read and write options by walking up the parent
/// graph.  A missing parent is a hard error; at the top, what is
/// still inherited falls back to the root defaults.
pub open spec fn spec_resolve(
    v: TreeAuthView,
    trans: TransMetaV,
    read: ReadOption,
    write: WriteOptionV,
    parent: Option<MetaParent>,
    fuel: nat,
) -> Result<MetaAuthorizationV, TrustErrorV>
    decreases fuel,
{
    match parent {
        None => Ok(spec_fill_root(v, read, write)),
        Some(p) => {
            if !(read is Inherit) && !(write is Inherit) {
                Ok(spec_fill_root(v, read, write))
            } else if fuel == 0 {
                Err(TrustErrorV::MissingParent(p.vec.parent_id))
            } else {
                let pid = p.vec.parent_id;
                match spec_parent_auth(v, trans, pid.val) {
                    None => Err(TrustErrorV::MissingParent(pid)),
                    Some(pa) => {
                        let read1 = if read is Inherit {
                            pa.read
                        } else {
                            read
                        };
                        let write1 = if write is Inherit {
                            pa.write
                        } else {
                            write
                        };
                        match spec_next_parent(v, trans, pid.val) {
                            Some(np) => spec_resolve(
                                v,
                                trans,
                                read1,
                                write1,
                                Some(np),
                                (fuel - 1) as nat,
                            ),
                            None => Ok(spec_fill_root(v, read1, write1)),
                        }
                    },
                }
            }
        },
    }
}

/// The fuel that makes the resolution walk total: more steps than
/// there are parent entries anywhere.
pub open spec fn spec_auth_fuel(v: TreeAuthView, trans: TransMetaV) -> nat {
    v.parents.dom().len() + trans.parents.dom().len() + 1
}

/// The whole authorization computation for one event's metadata.
pub open spec fn spec_compute_auth(
    v: TreeAuthView,
    meta: Seq<CoreMetadataV>,
    trans: TransMetaV,
    phase: ComputePhase,
) -> Result<MetaAuthorizationV, TrustErrorV> {
    match spec_data_key(meta) {
        None => Ok(
            MetaAuthorizationV {
                read: ReadOption::Everyone(None),
                write: spec_root_write(v.root_keys),
            },
        ),
        Some(key) => {
            let auth0 = if phase is AfterStore && spec_authorization(meta) is Some {
                spec_authorization(meta)
            } else if trans.auth.contains_key(key.val) {
                Some(trans.auth[key.val])
            } else if v.auth.contains_key(key.val) {
                Some(v.auth[key.val])
            } else {
                None
            };
            let read0 = match auth0 {
                Some(a) => a.read,
                None => ReadOption::Inherit,
            };
            let write0 = match auth0 {
                Some(a) => a.write,
                None => WriteOptionV::Inherit,
            };
            spec_resolve(v, trans, read0, write0, spec_parent(meta), spec_auth_fuel(v, trans))
        },
    }
}

/// Inheritance resolution always lands on a concrete pair: whenever
/// it returns successfully, neither side is still `Inherit`.
pub proof fn lemma_resolution_concrete(
    v: TreeAuthView,
    trans: TransMetaV,
    read: ReadOption,
    write: WriteOptionV,
    parent: Option<MetaParent>,
    fuel: nat,
)
    ensures
        match spec_resolve(v, trans, read, write, parent, fuel) {
            Ok(a) => !(a.read is Inherit) && !(a.write is Inherit),
            Err(_) => true,
        },
    decreases fuel,
{
    match parent {
        None => {},
        Some(p) => {
            if !(read is Inherit) && !(write is Inherit) {
            } else if fuel == 0 {
            } else {
                match spec_parent_auth(v, trans, p.vec.parent_id.val) {
                    None => {},
                    Some(pa) => {
                        let read1 = if read is Inherit {
                            pa.read
                        } else {
                            read
                        };
                        let write1 = if write is Inherit {
                            pa.write
                        } else {
                            write
                        };
                        match spec_next_parent(v, trans, p.vec.parent_id.val) {
                            Some(np) => {
                                lemma_resolution_concrete(
                                    v,
                                    trans,
                                    read1,
                                    write1,
                                    Some(np),
                                    (fuel - 1) as nat,
                                );
                            },
                            None => {},
                        }
                    },
                }
            }
        },
    }
}

/// The same, at the level of the whole computation: a resolved
/// authorization pair is always concrete.
pub proof fn lemma_inheritance_resolution(
    v: TreeAuthView,
    meta: Seq<CoreMetadataV>,
    trans: TransMetaV,
    phase: ComputePhase,
)
    ensures
        match spec_compute_auth(v, meta, trans, phase) {
            Ok(a) => !(a.read is Inherit) && !(a.write is Inherit),
            Err(_) => true,
        },
{
    match spec_data_key(meta) {
        None => {},
        Some(key) => {
            let auth0 = if phase is AfterStore && spec_authorization(meta) is Some {
                spec_authorization(meta)
            } else if trans.auth.contains_key(key.val) {
                Some(trans.auth[key.val])
            } else if v.auth.contains_key(key.val) {
                Some(v.auth[key.val])
            } else {
                None
            };
            let read0 = match auth0 {
                Some(a) => a.read,
                None => ReadOption::Inherit,
            };
            let write0 = match auth0 {
                Some(a) => a.write,
                None => WriteOptionV::Inherit,
            };
            lemma_resolution_concrete(
                v,
                trans,
                read0,
                write0,
                spec_parent(meta),
                spec_auth_fuel(v, trans),
            );
        },
    }
}

/// How feeding one event moves the authorization and parent maps: a
/// tombstone forgets the record, a data event stores its declared (or
/// inherited) authorization and its parent, anything else is inert.
pub open spec fn spec_auth_feed(
    auth: Map<u128, MetaAuthorizationV>,
    parents: Map<u128, MetaParent>,
    meta: Seq<CoreMetadataV>,
) -> (Map<u128, MetaAuthorizationV>, Map<u128, MetaParent>) {
    match spec_tombstone(meta) {
        Some(k) => (auth.remove(k.val), parents.remove(k.val)),
        None => {
            match spec_data_key(meta) {
                Some(k) => {
                    let a = match spec_authorization(meta) {
                        Some(a) => a,
                        None => MetaAuthorizationV {
                            read: ReadOption::Inherit,
                            write: WriteOptionV::Inherit,
                        },
                    };
                    let auth1 = auth.insert(k.val, a);
                    let parents1 = match spec_parent(meta) {
                        Some(p) => parents.insert(k.val, p),
                        None => parents,
                    };
                    (auth1, parents1)
                },
                None => (auth, parents),
            }
        },
    }
}

/// The signing keys of a session whose hashes the write option
/// admits, in session order.
pub open spec fn spec_sign_with(
    keys: Seq<crate::crypto::PrivateSignKey>,
    vals: Seq<AteHash>,
) -> Seq<AteHash>
    decreases keys.len(),
{
    if keys.len() == 0 {
        Seq::empty()
    } else {
        (if vals.contains(AteHash { val: hash128_of(keys[0].spec_public_bytes()) }) {
            seq![AteHash { val: hash128_of(keys[0].spec_public_bytes()) }]
        } else {
            Seq::empty()
        }) + spec_sign_with(keys.drop_first(), vals)
    }
}

impl TreeAuthorityPlugin {
    /// A fresh plugin: no root keys (everyone may write), no stored
    /// state, distributed integrity.
    pub fn new() -> (r: TreeAuthorityPlugin)
        ensures
            r@.root_keys =~= Seq::<Seq<u8>>::empty(),
            r@.auth =~= Map::<u128, MetaAuthorizationV>::empty(),
            r@.parents =~= Map::<u128, MetaParent>::empty(),
            r@.sigs =~= Map::<u128, Seq<AteHash>>::empty(),
            r@.integrity == IntegrityMode::Distributed,
    {
        let r = TreeAuthorityPlugin {
            root_keys: Vec::new(),
            auth: HashMap::new(),
            parents: HashMap::new(),
            signature_plugin: SignaturePlugin::new(),
            integrity: IntegrityMode::Distributed,
        };
        proof {
            assert(r@.root_keys =~= Seq::<Seq<u8>>::empty());
            assert(r@.auth =~= Map::<u128, MetaAuthorizationV>::empty());
        }
        r
    }

    /// Adds one root public key, keyed by hash: adding a key that is
    /// already loaded changes nothing, so a repeated add equals a
    /// single one.  The root write option becomes "any of the loaded
    /// root keys".
    pub fn add_root_public_key(&mut self, key: &PublicSignKey)
        ensures
            final(self)@ == (TreeAuthView {
                root_keys: spec_add_root_key(old(self)@.root_keys, key@),
                ..old(self)@
            }),
    {
        let kh = key.hash();
        let mut i: usize = 0;
        while i < self.root_keys.len()
            invariant
                i <= self.root_keys@.len(),
                *self == *old(self),
                kh.val == hash128_of(key.bytes@),
                forall|j: int|
                    0 <= j < i ==> hash128_of((#[trigger] self.root_keys@[j])@) != hash128_of(
                        key.bytes@,
                    ),
            decreases self.root_keys@.len() - i,
        {
            let stored = self.root_keys[i].hash();
            if stored.val == kh.val {
                proof {
                    assert(hash128_of(self.root_keys@[i as int]@) == hash128_of(key.bytes@));
                    assert(self@.root_keys[i as int] == self.root_keys@[i as int]@);
                    assert(spec_has_root_key(self@.root_keys, key@));
                    assert(self@ =~= (TreeAuthView {
                        root_keys: spec_add_root_key(old(self)@.root_keys, key@),
                        ..old(self)@
                    }));
                }
                return ;
            }
            i = i + 1;
        }
        proof {
            assert forall|j: int| 0 <= j < self@.root_keys.len() implies hash128_of(
                #[trigger] self@.root_keys[j],
            ) != hash128_of(key@) by {
                assert(self@.root_keys[j] == self.root_keys@[j]@);
            }
            assert(!spec_has_root_key(self@.root_keys, key@));
        }
        self.root_keys.push(key.duplicate());
        proof {
            assert(self@.root_keys =~= old(self)@.root_keys.push(key@));
            assert(self@ =~= (TreeAuthView {
                root_keys: spec_add_root_key(old(self)@.root_keys, key@),
                ..old(self)@
            }));
        }
    }

    /// Resets the store to the given keys: everyone may write again,
    /// then each key is added in order, deduplicated by hash.
    pub fn set_root_keys(&mut self, keys: &Vec<PublicSignKey>)
        ensures
            final(self)@ == (TreeAuthView {
                root_keys: spec_root_fold(
                    Seq::empty(),
                    keys@.map_values(|k: PublicSignKey| k@),
                    0,
                ),
                ..old(self)@
            }),
    {
        self.root_keys = Vec::new();
        let ghost ks = keys@.map_values(|k: PublicSignKey| k@);
        proof {
            assert(self@.root_keys =~= Seq::<Seq<u8>>::empty());
        }
        let mut i: usize = 0;
        while i < keys.len()
            invariant
                i <= keys@.len(),
                ks == keys@.map_values(|k: PublicSignKey| k@),
                ks.len() == keys@.len(),
                self@.auth == old(self)@.auth,
                self@.parents == old(self)@.parents,
                self@.sigs == old(self)@.sigs,
                self@.integrity == old(self)@.integrity,
                spec_root_fold(self@.root_keys, ks, i as int) == spec_root_fold(
                    Seq::empty(),
                    ks,
                    0,
                ),
            decreases keys@.len() - i,
        {
            proof {
                assert(ks[i as int] == keys@[i as int]@);
            }
            self.add_root_public_key(&keys[i]);
            i = i + 1;
        }
        proof {
            assert(self@ =~= (TreeAuthView {
                root_keys: spec_root_fold(Seq::empty(), ks, 0),
                ..old(self)@
            }));
        }
    }

    /// The loaded root public keys, as a fresh list.
    pub fn root_keys(&self) -> (r: Vec<PublicSignKey>)
        ensures
            r@.map_values(|k: PublicSignKey| k@) == self@.root_keys,
    {
        let mut out: Vec<PublicSignKey> = Vec::new();
        let mut i: usize = 0;
        while i < self.root_keys.len()
            invariant
                i <= self.root_keys@.len(),
                out@.len() == i,
                out@.map_values(|k: PublicSignKey| k@) == self.root_keys@.map_values(
                    |k: PublicSignKey| k@,
                ).subrange(0, i as int),
            decreases self.root_keys@.len() - i,
        {
            let ghost prev = out@;
            out.push(self.root_keys[i].duplicate());
            i = i + 1;
            proof {
                let f = |k: PublicSignKey| k@;
                let mp = out@.map_values(f);
                let target = self.root_keys@.map_values(f).subrange(0, i as int);
                assert(mp.len() == target.len());
                assert forall|j: int| 0 <= j < mp.len() implies mp[j] == target[j] by {
                    assert(mp[j] == out@[j]@);
                    if j < i - 1 {
                        assert(out@[j] == prev[j]);
                        assert(prev.map_values(f)[j] == prev[j]@);
                    } else {
                        assert(out@[j]@ == self.root_keys@[i - 1]@);
                    }
                    assert(target[j] == self.root_keys@.map_values(f)[j]);
                }
                assert(mp =~= target);
            }
        }
        proof {
            let f = |k: PublicSignKey| k@;
            assert(self.root_keys@.map_values(f).subrange(0, self.root_keys@.len() as int)
                =~= self.root_keys@.map_values(f));
        }
        out
    }

    pub fn set_integrity_mode(&mut self, mode: IntegrityMode)
        ensures
            final(self)@ == (TreeAuthView { integrity: mode, ..old(self)@ }),
    {
        self.integrity = mode;
        proof {
            assert(self@ =~= (TreeAuthView { integrity: mode, ..old(self)@ }));
        }
    }

    pub fn integrity_mode(&self) -> (r: IntegrityMode)
        ensures
            r == self@.integrity,
    {
        self.integrity
    }

    /// The chain root's write option, as a fresh value.
    pub fn root_write(&self) -> (r: WriteOption)
        ensures
            r@ == spec_root_write(self@.root_keys),
    {
        if self.root_keys.len() == 0 {
            proof {
                assert(self.root_keys@.map_values(|k: PublicSignKey| k@).len() == 0);
            }
            return WriteOption::Everyone;
        }
        let mut hs: Vec<AteHash> = Vec::new();
        let mut i: usize = 0;
        let ghost target = spec_root_write(self@.root_keys);
        while i < self.root_keys.len()
            invariant
                i <= self.root_keys@.len(),
                hs@.len() == i,
                forall|j: int|
                    0 <= j < i ==> hs@[j] == (AteHash {
                        val: hash128_of(self.root_keys@[j]@),
                    }),
            decreases self.root_keys@.len() - i,
        {
            hs.push(self.root_keys[i].hash());
            i = i + 1;
        }
        proof {
            let f = |k: PublicSignKey| k@;
            let g = |b: Seq<u8>| AteHash { val: hash128_of(b) };
            let rk = self.root_keys@.map_values(f);
            assert(rk.len() > 0);
            assert forall|j: int| 0 <= j < hs@.len() implies hs@[j] == rk.map_values(g)[j] by {
                assert(rk[j] == self.root_keys@[j]@);
                assert(rk.map_values(g)[j] == g(rk[j]));
            }
            assert(hs@ =~= rk.map_values(g));
        }
        WriteOption::Any(hs)
    }

    /// Fills remaining inherited sides with the root defaults.
    fn fill_root(&self, read: ReadOption, write: WriteOption) -> (r: MetaAuthorization)
        ensures
            r@ == spec_fill_root(self@, read, write@),
    {
        let read2 = match read {
            ReadOption::Inherit => ReadOption::Everyone(None),
            other => other,
        };
        let write2 = match write {
            WriteOption::Inherit => self.root_write(),
            other => other,
        };
        MetaAuthorization { read: read2, write: write2 }
    }

    /// Walks the parent graph until both options are concrete.
    fn resolve_auth(
        &self,
        trans: &TransactionMetadata,
        read: ReadOption,
        write: WriteOption,
        parent: Option<MetaParent>,
        fuel: u128,
    ) -> (r: Result<MetaAuthorization, TrustError>)
        ensures
            match r {
                Ok(a) => spec_resolve(self@, trans@, read, write@, parent, fuel as nat) == Ok::<
                    MetaAuthorizationV,
                    TrustErrorV,
                >(a@),
                Err(e) => spec_resolve(self@, trans@, read, write@, parent, fuel as nat)
                    == Err::<MetaAuthorizationV, TrustErrorV>(e@),
            },
        decreases fuel,
    {
        let p = match parent {
            None => {
                return Ok(self.fill_root(read, write));
            },
            Some(p) => p,
        };
        let read_concrete = !matches!(read, ReadOption::Inherit);
        let write_concrete = !matches!(write, WriteOption::Inherit);
        if read_concrete && write_concrete {
            return Ok(self.fill_root(read, write));
        }
        if fuel == 0 {
            return Err(TrustError::MissingParent(p.vec.parent_id));
        }
        let pid = p.vec.parent_id;
        let pauth: &MetaAuthorization = match trans.auth.get(&pid.val) {
            Some(a) => {
                proof {
                    assert(trans@.auth[pid.val] == trans.auth@[pid.val]@);
                }
                a
            },
            None => {
                match self.auth.get(&pid.val) {
                    Some(a) => {
                        proof {
                            assert(self@.auth[pid.val] == self.auth@[pid.val]@);
                        }
                        a
                    },
                    None => {
                        return Err(TrustError::MissingParent(pid));
                    },
                }
            },
        };
        let read1 = if matches!(read, ReadOption::Inherit) {
            pauth.read
        } else {
            read
        };
        let write1 = if matches!(write, WriteOption::Inherit) {
            pauth.write.duplicate()
        } else {
            write
        };
        let nextp: Option<MetaParent> = match trans.parents.get(&pid.val) {
            Some(np) => Some(*np),
            None => {
                match self.parents.get(&pid.val) {
                    Some(np) => Some(*np),
                    None => None,
                }
            },
        };
        match nextp {
            Some(np) => self.resolve_auth(trans, read1, write1, Some(np), fuel - 1),
            None => Ok(self.fill_root(read1, write1)),
        }
    }

    /// Computes the authorization pair that governs this event.
    pub fn compute_auth(
        &self,
        meta: &Metadata,
        trans: &TransactionMetadata,
        phase: ComputePhase,
    ) -> (r: Result<MetaAuthorization, TrustError>)
        ensures
            match r {
                Ok(a) => spec_compute_auth(self@, meta@, trans@, phase) == Ok::<
                    MetaAuthorizationV,
                    TrustErrorV,
                >(a@),
                Err(e) => spec_compute_auth(self@, meta@, trans@, phase) == Err::<
                    MetaAuthorizationV,
                    TrustErrorV,
                >(e@),
            },
    {
        let key = match meta.get_data_key() {
            Some(k) => k,
            None => {
                return Ok(
                    MetaAuthorization {
                        read: ReadOption::Everyone(None),
                        write: self.root_write(),
                    },
                );
            },
        };
        let mut auth0: Option<(ReadOption, WriteOption)> = None;
        if matches!(phase, ComputePhase::AfterStore) {
            match meta.get_authorization() {
                Some(a) => {
                    auth0 = Some((a.read, a.write.duplicate()));
                },
                None => {},
            }
        }
        if auth0.is_none() {
            match trans.auth.get(&key.val) {
                Some(a) => {
                    proof {
                        assert(trans@.auth[key.val] == trans.auth@[key.val]@);
                    }
                    auth0 = Some((a.read, a.write.duplicate()));
                },
                None => {
                    match self.auth.get(&key.val) {
                        Some(a) => {
                            proof {
                                assert(self@.auth[key.val] == self.auth@[key.val]@);
                            }
                            auth0 = Some((a.read, a.write.duplicate()));
                        },
                        None => {},
                    }
                },
            }
        }
        let (read0, write0) = match auth0 {
            Some((r0, w0)) => (r0, w0),
            None => (ReadOption::Inherit, WriteOption::Inherit),
        };
        let parent = meta.get_parent();
        let fuel: u128 = (self.parents.len() as u128) + (trans.parents.len() as u128) + 1;
        proof {
            assert(fuel as nat == spec_auth_fuel(self@, trans@));
        }
        self.resolve_auth(trans, read0, write0, parent, fuel)
    }
}


// ---------------------------------------------------------------------
// feeding, validation, linting and payload transformation
// ---------------------------------------------------------------------

/// How feeding one event moves the whole plugin state.
pub open spec fn spec_tree_feed(v: TreeAuthView, h: EventHeaderV) -> TreeAuthView {
    let (auth1, parents1) = spec_auth_feed(v.auth, v.parents, h.meta);
    TreeAuthView {
        auth: auth1,
        parents: parents1,
        sigs: spec_sigs_feed(v.sigs, h.meta, 0),
        ..v
    }
}

/// Feeding a list of headers in order.
pub open spec fn spec_tree_feed_all(v: TreeAuthView, hs: Seq<EventHeaderV>) -> TreeAuthView
    decreases hs.len(),
{
    if hs.len() == 0 {
        v
    } else {
        spec_tree_feed_all(spec_tree_feed(v, hs[0]), hs.drop_first())
    }
}

/// The plugin state after a reset: stored state gone, root keys and
/// integrity kept.
pub open spec fn spec_tree_reset(v: TreeAuthView) -> TreeAuthView {
    TreeAuthView {
        auth: Map::empty(),
        parents: Map::empty(),
        sigs: Map::empty(),
        ..v
    }
}

impl TreeAuthorityPlugin {
    /// Observes one event: tombstones forget a record's authorization
    /// and parent; data events store theirs; verified signatures are
    /// recorded and noted on an active conversation.
    pub fn feed(&mut self, header: &EventHeader, conv: &mut ConversationSession) -> (r: Result<
        (),
        SinkError,
    >)
        ensures
            match r {
                Ok(()) => {
                    &&& spec_meta_sigs_ok(header@.meta)
                    &&& final(self)@ == spec_tree_feed(old(self)@, header@)
                    &&& final(conv).signatures@ == old(conv).signatures@ + (if old(
                        conv,
                    ).active {
                        spec_signers(header@.meta)
                    } else {
                        Seq::empty()
                    })
                    &&& final(conv).active == old(conv).active
                    &&& final(conv).other_end_is_server == old(conv).other_end_is_server
                },
                Err(_) => {
                    &&& !spec_meta_sigs_ok(header@.meta)
                    &&& *final(self) == *old(self)
                    &&& *final(conv) == *old(conv)
                },
            },
    {
        match self.signature_plugin.feed(header, conv) {
            Ok(()) => {},
            Err(e) => {
                return Err(e);
            },
        }
        match header.meta.get_tombstone() {
            Some(key) => {
                self.auth.remove(&key.val);
                self.parents.remove(&key.val);
                proof {
                    assert(self@.auth =~= old(self)@.auth.remove(key.val));
                    assert(self@ =~= spec_tree_feed(old(self)@, header@));
                }
                return Ok(());
            },
            None => {},
        }
        match header.meta.get_data_key() {
            Some(key) => {
                let a = match header.meta.get_authorization() {
                    Some(a) => a.duplicate(),
                    None => MetaAuthorization {
                        read: ReadOption::Inherit,
                        write: WriteOption::Inherit,
                    },
                };
                let ghost av = a@;
                self.auth.insert(key.val, a);
                match header.meta.get_parent() {
                    Some(p) => {
                        self.parents.insert(key.val, p);
                    },
                    None => {},
                }
                proof {
                    assert(self@.auth =~= old(self)@.auth.insert(key.val, av));
                    assert(self@ =~= spec_tree_feed(old(self)@, header@));
                }
            },
            None => {
                proof {
                    assert(self@ =~= spec_tree_feed(old(self)@, header@));
                }
            },
        }
        Ok(())
    }

    /// Drops the stored authorization, parent and signature state,
    /// keeping root keys and integrity mode.
    pub fn reset(&mut self)
        ensures
            final(self)@ == spec_tree_reset(old(self)@),
    {
        self.auth = HashMap::new();
        self.parents = HashMap::new();
        self.signature_plugin.reset();
        proof {
            assert(self@.auth =~= Map::<u128, MetaAuthorizationV>::empty());
            assert(self@ =~= spec_tree_reset(old(self)@));
        }
    }

    /// Rebuilds the plugin state from replayed headers.
    pub fn rebuild(&mut self, headers: &Vec<EventHeader>, conv: &mut ConversationSession) -> (r:
        Result<(), SinkError>)
        ensures
            match r {
                Ok(()) => final(self)@ == spec_tree_feed_all(
                    spec_tree_reset(old(self)@),
                    headers@.map_values(|h: EventHeader| h@),
                ),
                Err(_) => !(forall|k: int|
                    0 <= k < headers@.len() ==> spec_meta_sigs_ok(
                        (#[trigger] headers@[k])@.meta,
                    )),
            },
            final(conv).active == old(conv).active,
            final(conv).other_end_is_server == old(conv).other_end_is_server,
    {
        self.reset();
        let ghost hs = headers@.map_values(|h: EventHeader| h@);
        let mut i: usize = 0;
        proof {
            assert(hs.skip(0) =~= hs);
        }
        while i < headers.len()
            invariant
                i <= headers@.len(),
                hs == headers@.map_values(|h: EventHeader| h@),
                spec_tree_feed_all(self@, hs.skip(i as int)) == spec_tree_feed_all(
                    spec_tree_reset(old(self)@),
                    hs,
                ),
                forall|k: int|
                    0 <= k < i ==> spec_meta_sigs_ok((#[trigger] headers@[k])@.meta),
                conv.active == old(conv).active,
                conv.other_end_is_server == old(conv).other_end_is_server,
            decreases headers@.len() - i,
        {
            let ghost rem = hs.skip(i as int);
            proof {
                assert(rem[0] == hs[i as int]);
                assert(hs[i as int] == headers@[i as int]@);
                assert(rem.drop_first() =~= hs.skip(i + 1));
            }
            match self.feed(&headers[i], conv) {
                Ok(()) => {},
                Err(e) => {
                    proof {
                        assert(!spec_meta_sigs_ok(headers@[i as int]@.meta));
                    }
                    return Err(e);
                },
            }
            i = i + 1;
        }
        proof {
            assert(hs.skip(hs.len() as int) =~= Seq::<EventHeaderV>::empty());
        }
        Ok(())
    }

    /// The verified signer hashes recorded for an event hash.
    pub fn get_verified_signatures(&self, hash: &AteHash) -> (r: Option<Vec<AteHash>>)
        ensures
            match r {
                Some(v) => self@.sigs.contains_key(hash.val) && v@ == self@.sigs[hash.val],
                None => !self@.sigs.contains_key(hash.val),
            },
    {
        self.signature_plugin.get_verified_signatures(hash)
    }
}

/// What validation decides, over the plugin state, the event header,
/// the conversation, and the signer hashes staged from the same
/// transaction.
pub open spec fn spec_validate(
    v: TreeAuthView,
    h: EventHeaderV,
    c: ConvV,
    staged: Map<u128, Seq<AteHash>>,
) -> Result<ValidationResult, ValidationErrorV> {
    if !spec_meta_sigs_ok(h.meta) {
        Err(ValidationErrorV::InvalidSignature)
    } else if !spec_needs_signature(h.meta) && h.data_hash is None {
        Ok(ValidationResult::Allow)
    } else {
        match spec_compute_auth(v, h.meta, spec_trans_empty(), ComputePhase::BeforeStore) {
            Err(e) => Err(ValidationErrorV::Trust(e)),
            Ok(auth) => {
                if auth.write is Everyone {
                    Ok(ValidationResult::Allow)
                } else {
                    let recorded = (if v.sigs.contains_key(h.event_hash.val) {
                        v.sigs[h.event_hash.val]
                    } else {
                        Seq::empty()
                    }) + (if staged.contains_key(h.event_hash.val) {
                        staged[h.event_hash.val]
                    } else {
                        Seq::empty()
                    });
                    if recorded.len() > 0 {
                        if spec_any_common(recorded, spec_write_vals(auth.write)) {
                            Ok(ValidationResult::Allow)
                        } else {
                            Err(ValidationErrorV::Detached)
                        }
                    } else {
                        if v.integrity is Centralized && c.active {
                            if c.other_end_is_server {
                                Ok(ValidationResult::Allow)
                            } else if spec_any_common(
                                spec_write_vals(auth.write),
                                c.signatures,
                            ) {
                                Ok(ValidationResult::Allow)
                            } else {
                                Err(ValidationErrorV::NoSignatures)
                            }
                        } else {
                            Err(ValidationErrorV::NoSignatures)
                        }
                    }
                }
            },
        }
    }
}

/// Validation soundness: an event that carries a payload is rejected
/// unless a verified signature names a key in the resolved write set,
/// the write option is `Everyone`, or the centralized short-circuit
/// applies.
pub proof fn lemma_validation_soundness(
    v: TreeAuthView,
    h: EventHeaderV,
    c: ConvV,
    staged: Map<u128, Seq<AteHash>>,
)
    requires
        h.data_hash is Some,
        match spec_compute_auth(v, h.meta, spec_trans_empty(), ComputePhase::BeforeStore) {
            Ok(auth) => {
                &&& !(auth.write is Everyone)
                &&& !spec_any_common(
                    (if v.sigs.contains_key(h.event_hash.val) {
                        v.sigs[h.event_hash.val]
                    } else {
                        Seq::empty()
                    }) + (if staged.contains_key(h.event_hash.val) {
                        staged[h.event_hash.val]
                    } else {
                        Seq::empty()
                    }),
                    spec_write_vals(auth.write),
                )
                &&& !(v.integrity is Centralized && c.active && (c.other_end_is_server
                    || spec_any_common(spec_write_vals(auth.write), c.signatures)))
            },
            Err(_) => true,
        },
    ensures
        spec_validate(v, h, c, staged) is Err,
{
    match spec_compute_auth(v, h.meta, spec_trans_empty(), ComputePhase::BeforeStore) {
        Ok(auth) => {
            let recorded = (if v.sigs.contains_key(h.event_hash.val) {
                v.sigs[h.event_hash.val]
            } else {
                Seq::empty()
            }) + (if staged.contains_key(h.event_hash.val) {
                staged[h.event_hash.val]
            } else {
                Seq::empty()
            });
            if recorded.len() > 0 {
                assert(!spec_any_common(recorded, spec_write_vals(auth.write)));
            }
        },
        Err(_) => {},
    }
}

impl TreeAuthorityPlugin {
    /// Validates one event against the chain of trust.  `staged`
    /// holds the signatures of earlier events in the same transaction
    /// that have passed validation but are not yet stored.
    pub fn validate(
        &self,
        header: &EventHeader,
        conv: &ConversationSession,
        staged: &SignaturePlugin,
    ) -> (r: Result<ValidationResult, ValidationError>)
        ensures
            match r {
                Ok(a) => spec_validate(self@, header@, conv@, staged@) == Ok::<
                    ValidationResult,
                    ValidationErrorV,
                >(a),
                Err(e) => spec_validate(self@, header@, conv@, staged@) == Err::<
                    ValidationResult,
                    ValidationErrorV,
                >(e@),
            },
    {
        let ghost meta = header@.meta;
        // Every signature entry on the event itself must verify.
        let mut i: usize = 0;
        while i < header.meta.core.len()
            invariant
                i <= header.meta.core@.len(),
                meta == header@.meta,
                meta.len() == header.meta.core@.len(),
                forall|j: int|
                    0 <= j < i ==> ((#[trigger] meta[j]) matches CoreMetadataV::Signature(g)
                        ==> spec_sig_valid(g)),
            decreases header.meta.core@.len() - i,
        {
            proof {
                assert(meta[i as int] == header.meta.core@[i as int]@);
            }
            match &header.meta.core[i] {
                CoreMetadata::Signature(g) => {
                    let msg = sig_message(&g.hashes);
                    let ok = ed25519_verify(
                        g.public_key.bytes.as_slice(),
                        msg.as_slice(),
                        g.signature.as_slice(),
                    );
                    if !ok {
                        proof {
                            assert(!spec_meta_sigs_ok(meta));
                        }
                        return Err(ValidationError::InvalidSignature);
                    }
                },
                _ => {},
            }
            i = i + 1;
        }
        proof {
            assert(spec_meta_sigs_ok(meta));
        }
        // Events that need no signature and carry no payload pass.
        let has_data = match &header.raw.data_hash {
            Some(_) => true,
            None => false,
        };
        if !header.meta.needs_signature() && !has_data {
            return Ok(ValidationResult::Allow);
        }
        // Resolve who may write, against stored state alone.
        let trans = TransactionMetadata::new();
        proof {
            assert(trans@.auth =~= spec_trans_empty().auth);
            assert(trans@.parents =~= spec_trans_empty().parents);
            assert(trans@ =~= spec_trans_empty());
        }
        let auth = match self.compute_auth(&header.meta, &trans, ComputePhase::BeforeStore) {
            Ok(a) => a,
            Err(e) => {
                return Err(ValidationError::Trust(e));
            },
        };
        if matches!(auth.write, WriteOption::Everyone) {
            return Ok(ValidationResult::Allow);
        }
        // Gather the verified signers recorded for this event.
        let mut recorded: Vec<AteHash> = match self.signature_plugin.get_verified_signatures(
            &header.raw.event_hash,
        ) {
            Some(v) => v,
            None => Vec::new(),
        };
        let ghost recorded0 = recorded@;
        let from_stage: Vec<AteHash> = match staged.get_verified_signatures(
            &header.raw.event_hash,
        ) {
            Some(v) => v,
            None => Vec::new(),
        };
        let mut k: usize = 0;
        while k < from_stage.len()
            invariant
                k <= from_stage@.len(),
                recorded@ == recorded0 + from_stage@.subrange(0, k as int),
            decreases from_stage@.len() - k,
        {
            recorded.push(from_stage[k]);
            k = k + 1;
            proof {
                assert(recorded0 + from_stage@.subrange(0, k as int) =~= (recorded0
                    + from_stage@.subrange(0, k - 1)).push(from_stage@[k - 1]));
            }
        }
        proof {
            assert(from_stage@.subrange(0, from_stage@.len() as int) =~= from_stage@);
        }
        if recorded.len() > 0 {
            let vals = auth.write.vals();
            if any_common(&recorded, &vals) {
                Ok(ValidationResult::Allow)
            } else {
                Err(ValidationError::Detached)
            }
        } else {
            if matches!(self.integrity, IntegrityMode::Centralized) && conv.active {
                if conv.other_end_is_server {
                    Ok(ValidationResult::Allow)
                } else {
                    let vals = auth.write.vals();
                    if any_common(&vals, &conv.signatures) {
                        Ok(ValidationResult::Allow)
                    } else {
                        Err(ValidationError::NoSignatures)
                    }
                }
            } else {
                Err(ValidationError::NoSignatures)
            }
        }
    }
}


// ---------------------------------------------------------------------
// linting and payload transformation
// ---------------------------------------------------------------------

/// The confidentiality fingerprint the linter emits for a resolved
/// read option, if any: the truncated hash of the concrete record
/// key the session can derive.
pub open spec fn spec_conf_hash(
    meta: Seq<CoreMetadataV>,
    read: ReadOption,
    sess: AteSession,
) -> Result<Option<u64>, LintErrorV> {
    match read {
        ReadOption::Everyone(Some(k)) => Ok(Some(short_hash_of(k.val))),
        ReadOption::Everyone(None) => Ok(None),
        ReadOption::Specific(rh, derived) => match spec_find_read_key(sess.read_keys@, rh) {
            Some(k) => Ok(Some(short_hash_of(derived_key_of(derived.salt, k.val)))),
            None => match spec_data_key(meta) {
                Some(key) => Err(LintErrorV::Trust(TrustErrorV::NoAuthorizationRead(key, read))),
                None => Ok(None),
            },
        },
        ReadOption::Inherit => Ok(None),
    }
}

/// The extra metadata the linter stamps before a store: a sign-with
/// hint naming the session keys the resolved write set admits, and a
/// confidentiality fingerprint when the payload will be encrypted.
pub open spec fn spec_lint(
    v: TreeAuthView,
    meta: Seq<CoreMetadataV>,
    trans: TransMetaV,
    sess: AteSession,
) -> Result<Seq<CoreMetadataV>, LintErrorV> {
    match spec_compute_auth(v, meta, trans, ComputePhase::BeforeStore) {
        Err(e) => Err(LintErrorV::Trust(e)),
        Ok(a) => {
            let step1: Result<Seq<CoreMetadataV>, LintErrorV> = match a.write {
                WriteOptionV::Specific(_) => spec_lint_sign(v, meta, a.write, sess),
                WriteOptionV::Any(_) => spec_lint_sign(v, meta, a.write, sess),
                WriteOptionV::Inherit => Err(
                    LintErrorV::Trust(TrustErrorV::UnspecifiedWritability),
                ),
                _ => Ok(Seq::empty()),
            };
            match step1 {
                Err(e) => Err(e),
                Ok(ret1) => match spec_compute_auth(v, meta, trans, ComputePhase::AfterStore) {
                    Err(e) => Err(LintErrorV::Trust(e)),
                    Ok(a2) => match spec_conf_hash(meta, a2.read, sess) {
                        Err(e) => Err(e),
                        Ok(None) => Ok(ret1),
                        Ok(Some(kh)) => Ok(
                            ret1.push(
                                CoreMetadataV::Confidentiality(
                                    MetaConfidentiality { hash: kh, cache: Some(a2.read) },
                                ),
                            ),
                        ),
                    },
                },
            }
        },
    }
}

/// The sign-with step of linting, for a specific or any-of write set.
pub open spec fn spec_lint_sign(
    v: TreeAuthView,
    meta: Seq<CoreMetadataV>,
    write: WriteOptionV,
    sess: AteSession,
) -> Result<Seq<CoreMetadataV>, LintErrorV> {
    let sw = spec_sign_with(sess.write_keys@, spec_write_vals(write));
    if spec_needs_signature(meta) && sw.len() == 0 {
        Err(
            LintErrorV::Trust(
                match spec_data_key(meta) {
                    Some(key) => TrustErrorV::NoAuthorizationWrite(key, write),
                    None => TrustErrorV::NoAuthorizationOrphan,
                },
            ),
        )
    } else if sw.len() > 0 {
        Ok(seq![CoreMetadataV::SignWith(sw)])
    } else {
        Ok(Seq::empty())
    }
}

/// The concrete record key the write path derives for the resolved
/// read option, or the reason there is none.
pub open spec fn spec_underlay_key(
    v: TreeAuthView,
    meta: Seq<CoreMetadataV>,
    trans: TransMetaV,
    sess: AteSession,
) -> Result<Option<u128>, TransformErrorV> {
    match spec_read_auth_for_store(v, meta, trans) {
        Err(e) => Err(e),
        Ok(read) => match read {
            ReadOption::Inherit => Err(TransformErrorV::UnspecifiedReadability),
            ReadOption::Everyone(_) => Ok(None),
            ReadOption::Specific(kh, derived) => match spec_find_read_key(
                sess.read_keys@,
                kh,
            ) {
                Some(k) => Ok(Some(derived_key_of(derived.salt, k.val))),
                None => Err(TransformErrorV::MissingReadKey(kh)),
            },
        },
    }
}

/// The read option governing a store: the cached one from the
/// confidentiality entry when present, else resolved after-store.
pub open spec fn spec_read_auth_for_store(
    v: TreeAuthView,
    meta: Seq<CoreMetadataV>,
    trans: TransMetaV,
) -> Result<ReadOption, TransformErrorV> {
    match spec_confidentiality(meta) {
        Some(c) => match c.cache {
            Some(r0) => Ok(r0),
            None => spec_after_read(v, meta, trans),
        },
        None => spec_after_read(v, meta, trans),
    }
}

pub open spec fn spec_after_read(
    v: TreeAuthView,
    meta: Seq<CoreMetadataV>,
    trans: TransMetaV,
) -> Result<ReadOption, TransformErrorV> {
    match spec_compute_auth(v, meta, trans, ComputePhase::AfterStore) {
        Ok(a) => Ok(a.read),
        Err(e) => Err(TransformErrorV::Trust(e)),
    }
}

/// The key the read path would use for a stored event, or the reason
/// it cannot decrypt.
pub open spec fn spec_overlay_key(
    v: TreeAuthView,
    meta: Seq<CoreMetadataV>,
    sess: AteSession,
) -> Result<Option<u128>, TransformErrorV> {
    match spec_confidentiality(meta) {
        None => match spec_iv(meta) {
            Some(_) => Err(TransformErrorV::UnspecifiedReadability),
            None => Ok(None),
        },
        Some(conf) => {
            let read0 = match conf.cache {
                Some(r0) => Ok(r0),
                None => spec_after_read(v, meta, spec_trans_empty()),
            };
            match read0 {
                Err(e) => Err(e),
                Ok(read) => match read {
                    ReadOption::Inherit => Err(TransformErrorV::UnspecifiedReadability),
                    ReadOption::Everyone(k) => {
                        if spec_iv(meta) is Some && k is Some {
                            Ok(Some(k->0.val))
                        } else {
                            Ok(None)
                        }
                    },
                    ReadOption::Specific(kh, derived) => {
                        match spec_find_read_key(sess.read_keys@, kh) {
                            Some(k) => {
                                if short_hash_of(derived_key_of(derived.salt, k.val))
                                    == conf.hash {
                                    Ok(Some(derived_key_of(derived.salt, k.val)))
                                } else {
                                    Err(TransformErrorV::MissingReadKey(kh))
                                }
                            },
                            None => Err(TransformErrorV::MissingReadKey(kh)),
                        }
                    },
                },
            }
        },
    }
}

/// What the read path returns for stored payload bytes.
pub open spec fn spec_overlay(
    v: TreeAuthView,
    meta: Seq<CoreMetadataV>,
    sess: AteSession,
    data: Seq<u8>,
) -> Result<Seq<u8>, TransformErrorV> {
    match spec_overlay_key(v, meta, sess) {
        Err(e) => Err(e),
        Ok(None) => Ok(data),
        Ok(Some(kv)) => match spec_iv(meta) {
            Some(ivb) => Ok(xor_stream(kv, ivb, data)),
            None => Err(TransformErrorV::NoIvPresent),
        },
    }
}

/// Round-trip secrecy, read side: when the session can derive the
/// record key that a payload was encrypted under, reading the stored
/// bytes returns the original payload.
pub proof fn lemma_read_back_round_trip(
    v: TreeAuthView,
    meta: Seq<CoreMetadataV>,
    sess: AteSession,
    payload: Seq<u8>,
    kv: u128,
    ivb: Seq<u8>,
)
    requires
        spec_overlay_key(v, meta, sess) == Ok::<Option<u128>, TransformErrorV>(Some(kv)),
        spec_iv(meta) == Some(ivb),
    ensures
        spec_overlay(v, meta, sess, xor_stream(kv, ivb, payload)) == Ok::<
            Seq<u8>,
            TransformErrorV,
        >(payload),
{
    crate::crypto::lemma_stream_roundtrip(kv, ivb, payload);
}

/// Round-trip secrecy, denial side: a session that does not hold the
/// read key named by a specific read option cannot read the record.
pub proof fn lemma_read_denied_without_key(
    v: TreeAuthView,
    meta: Seq<CoreMetadataV>,
    sess: AteSession,
    data: Seq<u8>,
    kh: AteHash,
)
    requires
        spec_confidentiality(meta) is Some,
        (match spec_confidentiality(meta) {
            Some(conf) => (match conf.cache {
                Some(r0) => r0 matches ReadOption::Specific(h2, _) && h2 == kh,
                None => false,
            }),
            None => false,
        }),
        spec_find_read_key(sess.read_keys@, kh) is None,
    ensures
        spec_overlay(v, meta, sess, data) == Err::<Seq<u8>, TransformErrorV>(
            TransformErrorV::MissingReadKey(kh),
        ),
{
}

impl TreeAuthorityPlugin {
    /// Produces the extra metadata stamped before a store.
    pub fn metadata_lint_event(
        &self,
        meta: &Metadata,
        session: &AteSession,
        trans: &TransactionMetadata,
    ) -> (r: Result<Vec<CoreMetadata>, LintError>)
        ensures
            match r {
                Ok(out) => spec_lint(self@, meta@, trans@, *session) == Ok::<
                    Seq<CoreMetadataV>,
                    LintErrorV,
                >(out@.map_values(|m: CoreMetadata| m@)),
                Err(e) => spec_lint(self@, meta@, trans@, *session) == Err::<
                    Seq<CoreMetadataV>,
                    LintErrorV,
                >(e@),
            },
    {
        let mut ret: Vec<CoreMetadata> = Vec::new();
        let auth = match self.compute_auth(meta, trans, ComputePhase::BeforeStore) {
            Ok(a) => a,
            Err(e) => {
                return Err(LintError::Trust(e));
            },
        };
        let sign_step = match &auth.write {
            WriteOption::Specific(_) => true,
            WriteOption::Any(_) => true,
            WriteOption::Inherit => {
                return Err(LintError::Trust(TrustError::UnspecifiedWritability));
            },
            _ => false,
        };
        if sign_step {
            let vals = auth.write.vals();
            let mut sign_with: Vec<AteHash> = Vec::new();
            let mut i: usize = 0;
            proof {
                assert(session.write_keys@.skip(0) =~= session.write_keys@);
            }
            while i < session.write_keys.len()
                invariant
                    i <= session.write_keys@.len(),
                    vals@ == spec_write_vals(auth.write@),
                    sign_with@ + spec_sign_with(session.write_keys@.skip(i as int), vals@)
                        == spec_sign_with(session.write_keys@, vals@),
                decreases session.write_keys@.len() - i,
            {
                let ghost rem = session.write_keys@.skip(i as int);
                proof {
                    assert(rem[0] == session.write_keys@[i as int]);
                    assert(rem.drop_first() =~= session.write_keys@.skip(i + 1));
                }
                let h = session.write_keys[i].hash();
                if hashes_contain(&vals, &h) {
                    sign_with.push(h);
                    proof {
                        assert(sign_with@ + spec_sign_with(
                            session.write_keys@.skip(i + 1),
                            vals@,
                        ) =~= spec_sign_with(session.write_keys@, vals@));
                    }
                } else {
                    proof {
                        assert(sign_with@ + spec_sign_with(
                            session.write_keys@.skip(i + 1),
                            vals@,
                        ) =~= spec_sign_with(session.write_keys@, vals@));
                    }
                }
                i = i + 1;
            }
            proof {
                assert(session.write_keys@.skip(session.write_keys@.len() as int) =~= Seq::<
                    crate::crypto::PrivateSignKey,
                >::empty());
                assert(sign_with@ =~= spec_sign_with(session.write_keys@, vals@));
            }
            let none_available = sign_with.len() == 0;
            if meta.needs_signature() && none_available {
                match meta.get_data_key() {
                    Some(key) => {
                        return Err(
                            LintError::Trust(TrustError::NoAuthorizationWrite(key, auth.write)),
                        );
                    },
                    None => {
                        return Err(LintError::Trust(TrustError::NoAuthorizationOrphan));
                    },
                }
            }
            if sign_with.len() > 0 {
                let ghost sw = sign_with@;
                ret.push(CoreMetadata::SignWith(MetaSignWith { keys: sign_with }));
                proof {
                    assert(ret@.map_values(|m: CoreMetadata| m@) =~= seq![
                        CoreMetadataV::SignWith(sw),
                    ]);
                }
            } else {
                proof {
                    assert(ret@.map_values(|m: CoreMetadata| m@) =~= Seq::<
                        CoreMetadataV,
                    >::empty());
                }
            }
        } else {
            proof {
                assert(ret@.map_values(|m: CoreMetadata| m@) =~= Seq::<
                    CoreMetadataV,
                >::empty());
            }
        }
        let ghost ret1 = ret@.map_values(|m: CoreMetadata| m@);
        proof {
            if sign_step {
                assert(spec_lint_sign(self@, meta@, auth.write@, *session) == Ok::<
                    Seq<CoreMetadataV>,
                    LintErrorV,
                >(ret1));
            }
        }
        let auth2 = match self.compute_auth(meta, trans, ComputePhase::AfterStore) {
            Ok(a) => a,
            Err(e) => {
                return Err(LintError::Trust(e));
            },
        };
        let key_hash: Option<u64> = match &auth2.read {
            ReadOption::Everyone(Some(k)) => Some(k.short_hash()),
            ReadOption::Everyone(None) => None,
            ReadOption::Specific(rh, derived) => {
                match session.find_read_key(rh) {
                    Some(k) => {
                        let inner = derived.transmute(&k);
                        Some(inner.short_hash())
                    },
                    None => {
                        match meta.get_data_key() {
                            Some(key) => {
                                return Err(
                                    LintError::Trust(
                                        TrustError::NoAuthorizationRead(key, auth2.read),
                                    ),
                                );
                            },
                            None => None,
                        }
                    },
                }
            },
            ReadOption::Inherit => None,
        };
        match key_hash {
            Some(kh) => {
                let ghost before = ret@.map_values(|m: CoreMetadata| m@);
                ret.push(
                    CoreMetadata::Confidentiality(
                        MetaConfidentiality { hash: kh, cache: Some(auth2.read) },
                    ),
                );
                proof {
                    assert(ret@.map_values(|m: CoreMetadata| m@) =~= before.push(
                        CoreMetadataV::Confidentiality(
                            MetaConfidentiality { hash: kh, cache: Some(auth2.read) },
                        ),
                    ));
                    assert(spec_lint(self@, meta@, trans@, *session) == Ok::<
                        Seq<CoreMetadataV>,
                        LintErrorV,
                    >(ret@.map_values(|m: CoreMetadata| m@)));
                }
                Ok(ret)
            },
            None => {
                proof {
                    assert(spec_lint(self@, meta@, trans@, *session) == Ok::<
                        Seq<CoreMetadataV>,
                        LintErrorV,
                    >(ret@.map_values(|m: CoreMetadata| m@)));
                }
                Ok(ret)
            },
        }
    }

    /// Encrypts a payload on the write path when the resolved read
    /// option derives a record key, stamping the fresh nonce into the
    /// metadata.
    pub fn data_as_underlay(
        &self,
        meta: &mut Metadata,
        with: Vec<u8>,
        session: &AteSession,
        trans: &TransactionMetadata,
    ) -> (r: Result<Vec<u8>, TransformError>)
        ensures
            match r {
                Ok(out) => (match spec_underlay_key(self@, old(meta)@, trans@, *session) {
                    Ok(None) => final(meta)@ == old(meta)@ && out@ == with@,
                    Ok(Some(kv)) => {
                        &&& final(meta)@.len() == old(meta)@.len() + 1
                        &&& final(meta)@.drop_last() == old(meta)@
                        &&& (match final(meta)@.last() {
                            CoreMetadataV::InitializationVector(ivb) => ivb.len() == 16
                                && out@ == xor_stream(kv, ivb, with@),
                            _ => false,
                        })
                    },
                    Err(_) => false,
                }),
                Err(e) => spec_underlay_key(self@, old(meta)@, trans@, *session) == Err::<
                    Option<u128>,
                    TransformErrorV,
                >(e@) && final(meta)@ == old(meta)@,
            },
    {
        let read: ReadOption = match meta.get_confidentiality() {
            Some(c) => {
                match c.cache {
                    Some(r0) => r0,
                    None => {
                        match self.compute_auth(meta, trans, ComputePhase::AfterStore) {
                            Ok(a) => a.read,
                            Err(e) => {
                                return Err(TransformError::Trust(e));
                            },
                        }
                    },
                }
            },
            None => {
                match self.compute_auth(meta, trans, ComputePhase::AfterStore) {
                    Ok(a) => a.read,
                    Err(e) => {
                        return Err(TransformError::Trust(e));
                    },
                }
            },
        };
        match self.generate_encrypt_key(&read, session) {
            Err(e) => Err(e),
            Ok(None) => Ok(with),
            Ok(Some((iv, key))) => {
                let out = key.encrypt_with_iv(&iv, &with);
                let ghost ivb = iv.bytes@;
                meta.push(CoreMetadata::InitializationVector(iv));
                proof {
                    assert(final(meta)@.drop_last() =~= old(meta)@);
                }
                Ok(out)
            },
        }
    }

    /// Draws the record key and a fresh nonce for a resolved read
    /// option, when the session can derive the key.
    pub fn generate_encrypt_key(&self, auth: &ReadOption, session: &AteSession) -> (r: Result<
        Option<(InitializationVector, EncryptKey)>,
        TransformError,
    >)
        ensures
            match r {
                Ok(Some((iv, key))) => {
                    &&& iv.bytes@.len() == 16
                    &&& (match *auth {
                        ReadOption::Specific(kh, d) => (match spec_find_read_key(
                            session.read_keys@,
                            kh,
                        ) {
                            Some(k) => key.val == derived_key_of(d.salt, k.val),
                            None => false,
                        }),
                        _ => false,
                    })
                },
                Ok(None) => *auth matches ReadOption::Everyone(_),
                Err(e) => (match *auth {
                    ReadOption::Inherit => e@ == TransformErrorV::UnspecifiedReadability,
                    ReadOption::Specific(kh, _) => spec_find_read_key(session.read_keys@, kh)
                        is None && e@ == TransformErrorV::MissingReadKey(kh),
                    _ => false,
                }),
            },
    {
        match auth {
            ReadOption::Inherit => Err(TransformError::UnspecifiedReadability),
            ReadOption::Everyone(_) => Ok(None),
            ReadOption::Specific(kh, derived) => {
                match session.find_read_key(kh) {
                    Some(k) => Ok(
                        Some((InitializationVector::generate(), derived.transmute(&k))),
                    ),
                    None => Err(TransformError::MissingReadKey(*kh)),
                }
            },
        }
    }

    /// Decrypts a stored payload on the read path.  A confidentiality
    /// entry without a nonce is a hard error; a nonce without a
    /// confidentiality entry means nobody said whose key it is.
    pub fn data_as_overlay(&self, meta: &Metadata, with: Vec<u8>, session: &AteSession) -> (r:
        Result<Vec<u8>, TransformError>)
        ensures
            match r {
                Ok(out) => spec_overlay(self@, meta@, *session, with@) == Ok::<
                    Seq<u8>,
                    TransformErrorV,
                >(out@),
                Err(e) => spec_overlay(self@, meta@, *session, with@) == Err::<
                    Seq<u8>,
                    TransformErrorV,
                >(e@),
            },
    {
        let iv = match meta.get_iv() {
            Some(iv) => Some(iv.duplicate()),
            None => None,
        };
        let conf = match meta.get_confidentiality() {
            Some(c) => c,
            None => {
                if iv.is_some() {
                    return Err(TransformError::UnspecifiedReadability);
                }
                return Ok(with);
            },
        };
        let read: ReadOption = match conf.cache {
            Some(r0) => r0,
            None => {
                let trans = TransactionMetadata::new();
                proof {
                    assert(trans@ =~= spec_trans_empty());
                }
                match self.compute_auth(meta, &trans, ComputePhase::AfterStore) {
                    Ok(a) => a.read,
                    Err(e) => {
                        return Err(TransformError::Trust(e));
                    },
                }
            },
        };
        let key: Option<EncryptKey> = match read {
            ReadOption::Inherit => {
                return Err(TransformError::UnspecifiedReadability);
            },
            ReadOption::Everyone(k) => {
                match (iv.is_some(), k) {
                    (true, Some(k0)) => Some(k0),
                    _ => None,
                }
            },
            ReadOption::Specific(kh, derived) => {
                match session.find_read_key(&kh) {
                    Some(k) => {
                        let inner = derived.transmute(&k);
                        let sh = inner.short_hash();
                        if sh == conf.hash {
                            Some(inner)
                        } else {
                            return Err(TransformError::MissingReadKey(kh));
                        }
                    },
                    None => {
                        return Err(TransformError::MissingReadKey(kh));
                    },
                }
            },
        };
        match key {
            None => Ok(with),
            Some(k) => {
                match iv {
                    Some(ivv) => Ok(k.decrypt(&ivv, &with)),
                    None => Err(TransformError::NoIvPresent),
                }
            },
        }
    }
}

} // verus!
