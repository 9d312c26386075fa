//! Event metadata: the tagged entries that ride on every event and the
//! per-record read and write options they carry.
//!
//! Every executable type here has a mathematical view; contracts all
//! over the crate speak of those views, so two metadata values that
//! hold the same entries are interchangeable in specifications.

use vstd::prelude::*;
use crate::PrimaryKey;
use crate::crypto::EncryptKey;
use crate::crypto::InitializationVector;
use crate::crypto::KeyDerivation;
use crate::crypto::PublicSignKey;

verus! {

/// Monotonic chain time, in milliseconds since the epoch.
#[derive(Debug, Clone, Copy, PartialEq, Eq, Structural, Hash)]
pub struct ChainTimestamp {
    pub time_since_epoch_ms: u64,
}

/// Identifies the collection, under a parent record, that a child
/// record belongs to.
#[derive(Debug, Clone, Copy, PartialEq, Eq, Structural)]
pub struct MetaCollection {
    pub parent_id: PrimaryKey,
    pub collection_id: u64,
}

/// Declares a record's parent in the trust tree.
#[derive(Debug, Clone, Copy, PartialEq, Eq, Structural)]
pub struct MetaParent {
    pub vec: MetaCollection,
}

/// Who may read a record: inherited from the parent, everyone (with an
/// optional shared key), or holders of one specific read key.
#[derive(Debug, Clone, Copy, PartialEq, Eq)]
pub enum ReadOption {
    Inherit,
    Everyone(Option<EncryptKey>),
    Specific(crate::crypto::AteHash, KeyDerivation),
}

/// Who may write a record: inherited, everyone, nobody, one specific
/// signing key, or any key out of a list.
#[derive(Debug, PartialEq, Eq)]
pub enum WriteOption {
    Inherit,
    Everyone,
    Nobody,
    Specific(crate::crypto::AteHash),
    Any(Vec<crate::crypto::AteHash>),
}

/// The mathematical shape of a write option.
pub enum WriteOptionV {
    Inherit,
    Everyone,
    Nobody,
    Specific(crate::crypto::AteHash),
    Any(Seq<crate::crypto::AteHash>),
}

impl View for WriteOption {
    type V = WriteOptionV;

    open spec fn view(&self) -> WriteOptionV {
        match self {
            WriteOption::Inherit => WriteOptionV::Inherit,
            WriteOption::Everyone => WriteOptionV::Everyone,
            WriteOption::Nobody => WriteOptionV::Nobody,
            WriteOption::Specific(h) => WriteOptionV::Specific(*h),
            WriteOption::Any(v) => WriteOptionV::Any(v@),
        }
    }
}

/// The set of signing-key hashes that a write option admits.
pub open spec fn spec_write_vals(w: WriteOptionV) -> Seq<crate::crypto::AteHash> {
    match w {
        WriteOptionV::Specific(h) => seq![h],
        WriteOptionV::Any(v) => v,
        _ => Seq::empty(),
    }
}

impl WriteOption {
    /// The signing-key hashes admitted by this option, as a fresh list.
    pub fn vals(&self) -> (r: Vec<crate::crypto::AteHash>)
        ensures
            r@ == spec_write_vals(self@),
    {
        match self {
            WriteOption::Specific(h) => {
                let mut out: Vec<crate::crypto::AteHash> = Vec::new();
                out.push(*h);
                proof {
                    assert(out@ =~= seq![*h]);
                }
                out
            },
            WriteOption::Any(v) => copy_hashes(v),
            WriteOption::Inherit => Vec::new(),
            WriteOption::Everyone => Vec::new(),
            WriteOption::Nobody => Vec::new(),
        }
    }

    pub fn duplicate(&self) -> (r: WriteOption)
        ensures
            r@ == self@,
    {
        match self {
            WriteOption::Inherit => WriteOption::Inherit,
            WriteOption::Everyone => WriteOption::Everyone,
            WriteOption::Nobody => WriteOption::Nobody,
            WriteOption::Specific(h) => WriteOption::Specific(*h),
            WriteOption::Any(v) => WriteOption::Any(copy_hashes(v)),
        }
    }
}

/// Copies a list of hashes element for element.
pub fn copy_hashes(src: &Vec<crate::crypto::AteHash>) -> (r: Vec<crate::crypto::AteHash>)
    ensures
        r@ == src@,
{
    let mut out: Vec<crate::crypto::AteHash> = Vec::new();
    let mut i: usize = 0;
    while i < src.len()
        invariant
            i <= src@.len(),
            out@ == src@.subrange(0, i as int),
        decreases src@.len() - i,
    {
        out.push(src[i]);
        i = i + 1;
        proof {
            assert(src@.subrange(0, i as int) =~= src@.subrange(0, i - 1).push(src@[i - 1]));
        }
    }
    proof {
        assert(src@.subrange(0, src@.len() as int) =~= src@);
    }
    out
}

/// The per-record authorization pair.
#[derive(Debug, PartialEq, Eq)]
pub struct MetaAuthorization {
    pub read: ReadOption,
    pub write: WriteOption,
}

/// The mathematical shape of an authorization pair.
pub struct MetaAuthorizationV {
    pub read: ReadOption,
    pub write: WriteOptionV,
}

impl View for MetaAuthorization {
    type V = MetaAuthorizationV;

    open spec fn view(&self) -> MetaAuthorizationV {
        MetaAuthorizationV { read: self.read, write: self.write@ }
    }
}

impl MetaAuthorization {
    pub fn duplicate(&self) -> (r: MetaAuthorization)
        ensures
            r@ == self@,
    {
        MetaAuthorization { read: self.read, write: self.write.duplicate() }
    }
}

/// A cryptographic signature over one or more event hashes, together
/// with the verifying key that made it.
#[derive(Debug)]
pub struct MetaSignature {
    pub hashes: Vec<crate::crypto::AteHash>,
    pub signature: Vec<u8>,
    pub public_key: PublicSignKey,
}

/// The mathematical shape of a signature entry.
pub struct MetaSignatureV {
    pub hashes: Seq<crate::crypto::AteHash>,
    pub signature: Seq<u8>,
    pub public_key: Seq<u8>,
}

impl View for MetaSignature {
    type V = MetaSignatureV;

    open spec fn view(&self) -> MetaSignatureV {
        MetaSignatureV {
            hashes: self.hashes@,
            signature: self.signature@,
            public_key: self.public_key@,
        }
    }
}

/// A pre-commit hint: sign the transaction with these key hashes.
#[derive(Debug)]
pub struct MetaSignWith {
    pub keys: Vec<crate::crypto::AteHash>,
}

impl View for MetaSignWith {
    type V = Seq<crate::crypto::AteHash>;

    open spec fn view(&self) -> Seq<crate::crypto::AteHash> {
        self.keys@
    }
}

/// Identifies the encryption key a reader needs, by truncated
/// fingerprint, without revealing the key itself.  The resolved read
/// option may ride along as a cache for the write path.
#[derive(Debug, Clone, Copy)]
pub struct MetaConfidentiality {
    pub hash: u64,
    pub cache: Option<ReadOption>,
}

/// Records a local-origin event range that still has to be pushed
/// upstream after a resynchronization.
#[derive(Debug, Clone, Copy, PartialEq, Eq, Structural)]
pub struct MetaDelayedUpload {
    pub complete: bool,
    pub from: ChainTimestamp,
    pub to: ChainTimestamp,
}

/// One tagged metadata entry of an event.
#[derive(Debug)]
pub enum CoreMetadata {
    Data(PrimaryKey),
    Tombstone(PrimaryKey),
    Authorization(MetaAuthorization),
    InitializationVector(InitializationVector),
    Tree(MetaParent),
    Timestamp(ChainTimestamp),
    Signature(MetaSignature),
    SignWith(MetaSignWith),
    Confidentiality(MetaConfidentiality),
    DelayedUpload(MetaDelayedUpload),
}

/// The mathematical shape of one metadata entry.
pub enum CoreMetadataV {
    Data(PrimaryKey),
    Tombstone(PrimaryKey),
    Authorization(MetaAuthorizationV),
    InitializationVector(Seq<u8>),
    Tree(MetaParent),
    Timestamp(ChainTimestamp),
    Signature(MetaSignatureV),
    SignWith(Seq<crate::crypto::AteHash>),
    Confidentiality(MetaConfidentiality),
    DelayedUpload(MetaDelayedUpload),
}

impl View for CoreMetadata {
    type V = CoreMetadataV;

    open spec fn view(&self) -> CoreMetadataV {
        match self {
            CoreMetadata::Data(k) => CoreMetadataV::Data(*k),
            CoreMetadata::Tombstone(k) => CoreMetadataV::Tombstone(*k),
            CoreMetadata::Authorization(a) => CoreMetadataV::Authorization(a@),
            CoreMetadata::InitializationVector(iv) => CoreMetadataV::InitializationVector(iv@),
            CoreMetadata::Tree(p) => CoreMetadataV::Tree(*p),
            CoreMetadata::Timestamp(t) => CoreMetadataV::Timestamp(*t),
            CoreMetadata::Signature(s) => CoreMetadataV::Signature(s@),
            CoreMetadata::SignWith(s) => CoreMetadataV::SignWith(s@),
            CoreMetadata::Confidentiality(c) => CoreMetadataV::Confidentiality(*c),
            CoreMetadata::DelayedUpload(d) => CoreMetadataV::DelayedUpload(*d),
        }
    }
}

/// Whether one entry, by itself, makes the event require a signature.
pub open spec fn spec_entry_needs_signature(m: CoreMetadataV) -> bool {
    match m {
        CoreMetadataV::Data(_) => true,
        CoreMetadataV::Tombstone(_) => true,
        CoreMetadataV::Authorization(_) => true,
        CoreMetadataV::Tree(_) => true,
        _ => false,
    }
}

/// The metadata of one event: an ordered list of tagged entries.
#[derive(Debug)]
pub struct Metadata {
    pub core: Vec<CoreMetadata>,
}

impl View for Metadata {
    type V = Seq<CoreMetadataV>;

    open spec fn view(&self) -> Seq<CoreMetadataV> {
        self.core@.map_values(|m: CoreMetadata| m@)
    }
}

/// The first data key named by the metadata, if any.
pub open spec fn spec_data_key(s: Seq<CoreMetadataV>) -> Option<PrimaryKey>
    decreases s.len(),
{
    if s.len() == 0 {
        None
    } else {
        match s[0] {
            CoreMetadataV::Data(k) => Some(k),
            _ => spec_data_key(s.drop_first()),
        }
    }
}

/// The first tombstone key named by the metadata, if any.
pub open spec fn spec_tombstone(s: Seq<CoreMetadataV>) -> Option<PrimaryKey>
    decreases s.len(),
{
    if s.len() == 0 {
        None
    } else {
        match s[0] {
            CoreMetadataV::Tombstone(k) => Some(k),
            _ => spec_tombstone(s.drop_first()),
        }
    }
}

/// The first parent declaration, if any.
pub open spec fn spec_parent(s: Seq<CoreMetadataV>) -> Option<MetaParent>
    decreases s.len(),
{
    if s.len() == 0 {
        None
    } else {
        match s[0] {
            CoreMetadataV::Tree(p) => Some(p),
            _ => spec_parent(s.drop_first()),
        }
    }
}

/// The first authorization entry, if any.
pub open spec fn spec_authorization(s: Seq<CoreMetadataV>) -> Option<MetaAuthorizationV>
    decreases s.len(),
{
    if s.len() == 0 {
        None
    } else {
        match s[0] {
            CoreMetadataV::Authorization(a) => Some(a),
            _ => spec_authorization(s.drop_first()),
        }
    }
}

/// The first confidentiality entry, if any.
pub open spec fn spec_confidentiality(s: Seq<CoreMetadataV>) -> Option<MetaConfidentiality>
    decreases s.len(),
{
    if s.len() == 0 {
        None
    } else {
        match s[0] {
            CoreMetadataV::Confidentiality(c) => Some(c),
            _ => spec_confidentiality(s.drop_first()),
        }
    }
}

/// The nonce bytes of the first initialization vector entry, if any.
pub open spec fn spec_iv(s: Seq<CoreMetadataV>) -> Option<Seq<u8>>
    decreases s.len(),
{
    if s.len() == 0 {
        None
    } else {
        match s[0] {
            CoreMetadataV::InitializationVector(iv) => Some(iv),
            _ => spec_iv(s.drop_first()),
        }
    }
}

/// The first timestamp entry, if any.
pub open spec fn spec_timestamp(s: Seq<CoreMetadataV>) -> Option<ChainTimestamp>
    decreases s.len(),
{
    if s.len() == 0 {
        None
    } else {
        match s[0] {
            CoreMetadataV::Timestamp(t) => Some(t),
            _ => spec_timestamp(s.drop_first()),
        }
    }
}

/// Whether any entry makes the event require a signature.
pub open spec fn spec_needs_signature(s: Seq<CoreMetadataV>) -> bool
    decreases s.len(),
{
    if s.len() == 0 {
        false
    } else {
        spec_entry_needs_signature(s[0]) || spec_needs_signature(s.drop_first())
    }
}

/// Whether the metadata already carries a tombstone for `key`.
pub open spec fn spec_has_tombstone_for(s: Seq<CoreMetadataV>, key: PrimaryKey) -> bool {
    exists|i: int| 0 <= i < s.len() && s[i] == CoreMetadataV::Tombstone(key)
}

impl Metadata {
    /// Fresh metadata with no entries.
    pub fn new() -> (r: Metadata)
        ensures
            r@ =~= Seq::<CoreMetadataV>::empty(),
    {
        Metadata { core: Vec::new() }
    }

    /// Metadata that names `key` as the event's data key.
    pub fn for_data(key: PrimaryKey) -> (r: Metadata)
        ensures
            r@ =~= seq![CoreMetadataV::Data(key)],
    {
        let mut core: Vec<CoreMetadata> = Vec::new();
        core.push(CoreMetadata::Data(key));
        let r = Metadata { core };
        proof {
            assert(r@ =~= seq![CoreMetadataV::Data(key)]);
        }
        r
    }

    /// Adds one entry at the end.
    pub fn push(&mut self, entry: CoreMetadata)
        ensures
            final(self)@ == old(self)@.push(entry@),
    {
        let ghost e = entry@;
        self.core.push(entry);
        proof {
            assert(self@ =~= old(self)@.push(e));
        }
    }

    pub fn get_data_key(&self) -> (r: Option<PrimaryKey>)
        ensures
            r == spec_data_key(self@),
    {
        let mut i: usize = 0;
        proof {
            assert(self@.subrange(0, self@.len() as int) =~= self@);
        }
        while i < self.core.len()
            invariant
                i <= self@.len(),
                self@.len() == self.core@.len(),
                spec_data_key(self@) == spec_data_key(
                    self@.subrange(i as int, self@.len() as int),
                ),
            decreases self@.len() - i,
        {
            let ghost sub = self@.subrange(i as int, self@.len() as int);
            proof {
                assert(sub[0] == self@[i as int]);
                assert(self@[i as int] == self.core@[i as int]@);
                assert(sub.drop_first() =~= self@.subrange(i + 1, self@.len() as int));
            }
            match &self.core[i] {
                CoreMetadata::Data(k) => {
                    return Some(*k);
                },
                _ => {},
            }
            i = i + 1;
        }
        proof {
            assert(self@.subrange(i as int, self@.len() as int).len() == 0);
        }
        None
    }

    pub fn get_tombstone(&self) -> (r: Option<PrimaryKey>)
        ensures
            r == spec_tombstone(self@),
    {
        let mut i: usize = 0;
        proof {
            assert(self@.subrange(0, self@.len() as int) =~= self@);
        }
        while i < self.core.len()
            invariant
                i <= self@.len(),
                self@.len() == self.core@.len(),
                spec_tombstone(self@) == spec_tombstone(
                    self@.subrange(i as int, self@.len() as int),
                ),
            decreases self@.len() - i,
        {
            let ghost sub = self@.subrange(i as int, self@.len() as int);
            proof {
                assert(sub[0] == self@[i as int]);
                assert(self@[i as int] == self.core@[i as int]@);
                assert(sub.drop_first() =~= self@.subrange(i + 1, self@.len() as int));
            }
            match &self.core[i] {
                CoreMetadata::Tombstone(k) => {
                    return Some(*k);
                },
                _ => {},
            }
            i = i + 1;
        }
        proof {
            assert(self@.subrange(i as int, self@.len() as int).len() == 0);
        }
        None
    }

    /// Adds a tombstone for `key` unless one is already present.
    pub fn add_tombstone(&mut self, key: PrimaryKey)
        ensures
            final(self)@ == if spec_has_tombstone_for(old(self)@, key) {
                old(self)@
            } else {
                old(self)@.push(CoreMetadataV::Tombstone(key))
            },
    {
        let mut i: usize = 0;
        while i < self.core.len()
            invariant
                i <= self.core@.len(),
                self@.len() == self.core@.len(),
                self == old(self),
                forall|j: int| 0 <= j < i ==> self@[j] != CoreMetadataV::Tombstone(key),
            decreases self.core@.len() - i,
        {
            match &self.core[i] {
                CoreMetadata::Tombstone(k) => {
                    if k.val == key.val {
                        proof {
                            assert(self@[i as int] == self.core@[i as int]@);
                            assert(self@[i as int] == CoreMetadataV::Tombstone(key));
                        }
                        return ;
                    }
                },
                _ => {},
            }
            proof {
                assert(self@[i as int] == self.core@[i as int]@);
            }
            i = i + 1;
        }
        proof {
            assert(!spec_has_tombstone_for(self@, key));
        }
        let ghost before = self@;
        self.core.push(CoreMetadata::Tombstone(key));
        proof {
            assert(self@ =~= before.push(CoreMetadataV::Tombstone(key)));
        }
    }

    pub fn get_parent(&self) -> (r: Option<MetaParent>)
        ensures
            r == spec_parent(self@),
    {
        let mut i: usize = 0;
        proof {
            assert(self@.subrange(0, self@.len() as int) =~= self@);
        }
        while i < self.core.len()
            invariant
                i <= self@.len(),
                self@.len() == self.core@.len(),
                spec_parent(self@) == spec_parent(self@.subrange(i as int, self@.len() as int)),
            decreases self@.len() - i,
        {
            let ghost sub = self@.subrange(i as int, self@.len() as int);
            proof {
                assert(sub[0] == self@[i as int]);
                assert(self@[i as int] == self.core@[i as int]@);
                assert(sub.drop_first() =~= self@.subrange(i + 1, self@.len() as int));
            }
            match &self.core[i] {
                CoreMetadata::Tree(p) => {
                    return Some(*p);
                },
                _ => {},
            }
            i = i + 1;
        }
        proof {
            assert(self@.subrange(i as int, self@.len() as int).len() == 0);
        }
        None
    }

    pub fn get_authorization(&self) -> (r: Option<&MetaAuthorization>)
        ensures
            match r {
                Some(a) => spec_authorization(self@) == Some(a@),
                None => spec_authorization(self@) is None,
            },
    {
        let mut i: usize = 0;
        proof {
            assert(self@.subrange(0, self@.len() as int) =~= self@);
        }
        while i < self.core.len()
            invariant
                i <= self@.len(),
                self@.len() == self.core@.len(),
                spec_authorization(self@) == spec_authorization(
                    self@.subrange(i as int, self@.len() as int),
                ),
            decreases self@.len() - i,
        {
            let ghost sub = self@.subrange(i as int, self@.len() as int);
            proof {
                assert(sub[0] == self@[i as int]);
                assert(self@[i as int] == self.core@[i as int]@);
                assert(sub.drop_first() =~= self@.subrange(i + 1, self@.len() as int));
            }
            match &self.core[i] {
                CoreMetadata::Authorization(a) => {
                    return Some(a);
                },
                _ => {},
            }
            i = i + 1;
        }
        proof {
            assert(self@.subrange(i as int, self@.len() as int).len() == 0);
        }
        None
    }

    pub fn get_confidentiality(&self) -> (r: Option<MetaConfidentiality>)
        ensures
            r == spec_confidentiality(self@),
    {
        let mut i: usize = 0;
        proof {
            assert(self@.subrange(0, self@.len() as int) =~= self@);
        }
        while i < self.core.len()
            invariant
                i <= self@.len(),
                self@.len() == self.core@.len(),
                spec_confidentiality(self@) == spec_confidentiality(
                    self@.subrange(i as int, self@.len() as int),
                ),
            decreases self@.len() - i,
        {
            let ghost sub = self@.subrange(i as int, self@.len() as int);
            proof {
                assert(sub[0] == self@[i as int]);
                assert(self@[i as int] == self.core@[i as int]@);
                assert(sub.drop_first() =~= self@.subrange(i + 1, self@.len() as int));
            }
            match &self.core[i] {
                CoreMetadata::Confidentiality(c) => {
                    return Some(*c);
                },
                _ => {},
            }
            i = i + 1;
        }
        proof {
            assert(self@.subrange(i as int, self@.len() as int).len() == 0);
        }
        None
    }

    pub fn get_iv(&self) -> (r: Option<&InitializationVector>)
        ensures
            match r {
                Some(iv) => spec_iv(self@) == Some(iv@),
                None => spec_iv(self@) is None,
            },
    {
        let mut i: usize = 0;
        proof {
            assert(self@.subrange(0, self@.len() as int) =~= self@);
        }
        while i < self.core.len()
            invariant
                i <= self@.len(),
                self@.len() == self.core@.len(),
                spec_iv(self@) == spec_iv(self@.subrange(i as int, self@.len() as int)),
            decreases self@.len() - i,
        {
            let ghost sub = self@.subrange(i as int, self@.len() as int);
            proof {
                assert(sub[0] == self@[i as int]);
                assert(self@[i as int] == self.core@[i as int]@);
                assert(sub.drop_first() =~= self@.subrange(i + 1, self@.len() as int));
            }
            match &self.core[i] {
                CoreMetadata::InitializationVector(iv) => {
                    return Some(iv);
                },
                _ => {},
            }
            i = i + 1;
        }
        proof {
            assert(self@.subrange(i as int, self@.len() as int).len() == 0);
        }
        None
    }

    pub fn get_timestamp(&self) -> (r: Option<ChainTimestamp>)
        ensures
            r == spec_timestamp(self@),
    {
        let mut i: usize = 0;
        proof {
            assert(self@.subrange(0, self@.len() as int) =~= self@);
        }
        while i < self.core.len()
            invariant
                i <= self@.len(),
                self@.len() == self.core@.len(),
                spec_timestamp(self@) == spec_timestamp(
                    self@.subrange(i as int, self@.len() as int),
                ),
            decreases self@.len() - i,
        {
            let ghost sub = self@.subrange(i as int, self@.len() as int);
            proof {
                assert(sub[0] == self@[i as int]);
                assert(self@[i as int] == self.core@[i as int]@);
                assert(sub.drop_first() =~= self@.subrange(i + 1, self@.len() as int));
            }
            match &self.core[i] {
                CoreMetadata::Timestamp(t) => {
                    return Some(*t);
                },
                _ => {},
            }
            i = i + 1;
        }
        proof {
            assert(self@.subrange(i as int, self@.len() as int).len() == 0);
        }
        None
    }

    /// Whether this event must carry a signature before it is stored.
    pub fn needs_signature(&self) -> (r: bool)
        ensures
            r == spec_needs_signature(self@),
    {
        let mut i: usize = 0;
        proof {
            assert(self@.subrange(0, self@.len() as int) =~= self@);
        }
        while i < self.core.len()
            invariant
                i <= self@.len(),
                self@.len() == self.core@.len(),
                spec_needs_signature(self@) == spec_needs_signature(
                    self@.subrange(i as int, self@.len() as int),
                ),
            decreases self@.len() - i,
        {
            let ghost sub = self@.subrange(i as int, self@.len() as int);
            proof {
                assert(sub[0] == self@[i as int]);
                assert(self@[i as int] == self.core@[i as int]@);
                assert(sub.drop_first() =~= self@.subrange(i + 1, self@.len() as int));
            }
            match &self.core[i] {
                CoreMetadata::Data(_) => {
                    return true;
                },
                CoreMetadata::Tombstone(_) => {
                    return true;
                },
                CoreMetadata::Authorization(_) => {
                    return true;
                },
                CoreMetadata::Tree(_) => {
                    return true;
                },
                _ => {},
            }
            i = i + 1;
        }
        proof {
            assert(self@.subrange(i as int, self@.len() as int).len() == 0);
        }
        false
    }
}

} // verus!
