//! Content digests, signing keys and the symmetric payload cipher.
//!
//! A `Hash` is a 128-bit content digest: the first sixteen bytes of a
//! BLAKE-family digest read as a little-endian integer.  Payload
//! confidentiality uses a keystream cipher: byte `i` of a payload is
//! XOR-ed with byte `i % 32` of the digest of `(key, iv, i / 32)`, so
//! applying the cipher twice with the same key and nonce restores the
//! original bytes.

use vstd::prelude::*;
use vstd::arithmetic::div_mod::lemma_fundamental_div_mod;
use ed25519_dalek::Signer;

verus! {

/// The digest that `blake3::hash` assigns to a byte string.
pub uninterp spec fn hash_of(input: Seq<u8>) -> Seq<u8>;

/// The verifying key that ed25519 derives from a 32-byte seed.
pub uninterp spec fn ed_public_of(seed: Seq<u8>) -> Seq<u8>;

/// The deterministic ed25519 signature of a message under a seed.
pub uninterp spec fn ed_signature_of(seed: Seq<u8>, msg: Seq<u8>) -> Seq<u8>;

/// Whether ed25519 strict verification accepts `sig` as a signature of
/// `msg` under the verifying key `public`.
pub uninterp spec fn ed_signature_valid(public: Seq<u8>, msg: Seq<u8>, sig: Seq<u8>) -> bool;

/// Relies on `blake3::hash`: a 32-byte digest that depends on the input
/// bytes alone.
#[verifier::external_body]
pub(crate) fn blake3_digest(input: &[u8]) -> (r: Vec<u8>)
    ensures
        r@ == hash_of(input@),
        r@.len() == 32,
{
    blake3::hash(input).as_bytes().to_vec()
}

/// Relies on `ed25519_dalek::SigningKey::verifying_key`: the 32-byte
/// verifying key is a function of the 32-byte seed alone.
#[verifier::external_body]
pub(crate) fn ed25519_public_key(seed: &[u8]) -> (r: Vec<u8>)
    requires
        seed@.len() == 32,
    ensures
        r@ == ed_public_of(seed@),
        r@.len() == 32,
{
    let sk = ed25519_dalek::SigningKey::from_bytes(seed.try_into().unwrap());
    sk.verifying_key().to_bytes().to_vec()
}

/// Relies on `ed25519_dalek::SigningKey::sign`: RFC 8032 signing is a
/// deterministic function of seed and message, and `verify_strict`
/// accepts the signature it produces under the seed's verifying key.
#[verifier::external_body]
pub(crate) fn ed25519_sign(seed: &[u8], msg: &[u8]) -> (r: Vec<u8>)
    requires
        seed@.len() == 32,
    ensures
        r@ == ed_signature_of(seed@, msg@),
        r@.len() == 64,
        ed_signature_valid(ed_public_of(seed@), msg@, r@),
{
    let sk = ed25519_dalek::SigningKey::from_bytes(seed.try_into().unwrap());
    sk.sign(msg).to_bytes().to_vec()
}

/// Relies on `ed25519_dalek::VerifyingKey::verify_strict`: acceptance is
/// a function of key, message and signature bytes alone; malformed key
/// or signature bytes are never accepted.
#[verifier::external_body]
pub(crate) fn ed25519_verify(public: &[u8], msg: &[u8], sig: &[u8]) -> (r: bool)
    ensures
        r == ed_signature_valid(public@, msg@, sig@),
{
    let pk: [u8; 32] = match public.try_into() {
        Ok(a) => a,
        Err(_) => return false,
    };
    let sg: [u8; 64] = match sig.try_into() {
        Ok(a) => a,
        Err(_) => return false,
    };
    let vk = match ed25519_dalek::VerifyingKey::from_bytes(&pk) {
        Ok(a) => a,
        Err(_) => return false,
    };
    vk.verify_strict(msg, &ed25519_dalek::Signature::from_bytes(&sg)).is_ok()
}

/// Relies on `fastrand::u128`: a pseudo-random value; nothing is assumed
/// of the result.
#[verifier::external_body]
pub(crate) fn random_u128() -> u128 {
    fastrand::u128(..)
}

/// `256 ^ n`, the number of byte strings of length `n`.
pub open spec fn pow256(n: nat) -> int
    decreases n,
{
    if n == 0 {
        1
    } else {
        256 * pow256((n - 1) as nat)
    }
}

/// The `n`-byte little-endian encoding of `v` (modulo `256 ^ n`).
pub open spec fn le_enc(v: int, n: nat) -> Seq<u8>
    decreases n,
{
    if n == 0 {
        Seq::empty()
    } else {
        seq![(v % 256) as u8] + le_enc(v / 256, (n - 1) as nat)
    }
}

/// The integer that a little-endian byte string denotes.
pub open spec fn le_dec(s: Seq<u8>) -> int
    decreases s.len(),
{
    if s.len() == 0 {
        0
    } else {
        (s[0] as int) + 256 * le_dec(s.subrange(1, s.len() as int))
    }
}

pub proof fn lemma_pow256_pos(n: nat)
    ensures
        pow256(n) >= 1,
    decreases n,
{
    if n > 0 {
        lemma_pow256_pos((n - 1) as nat);
    }
}

pub proof fn lemma_pow256_increases(a: nat, b: nat)
    requires
        a <= b,
    ensures
        pow256(a) <= pow256(b),
    decreases b,
{
    if a < b {
        lemma_pow256_increases(a, (b - 1) as nat);
        lemma_pow256_pos((b - 1) as nat);
    }
}

pub proof fn lemma_pow256_u128()
    ensures
        pow256(16) == 0x1_0000_0000_0000_0000_0000_0000_0000_0000int,
{
    reveal_with_fuel(pow256, 17);
}

pub proof fn lemma_le_enc_len(v: int, n: nat)
    ensures
        le_enc(v, n).len() == n,
    decreases n,
{
    if n > 0 {
        lemma_le_enc_len(v / 256, (n - 1) as nat);
    }
}

pub proof fn lemma_le_dec_bound(s: Seq<u8>)
    ensures
        0 <= le_dec(s) < pow256(s.len()),
    decreases s.len(),
{
    if s.len() > 0 {
        lemma_le_dec_bound(s.subrange(1, s.len() as int));
    }
}

/// Decoding inverts encoding for values in range.
pub proof fn lemma_le_roundtrip(v: int, n: nat)
    requires
        0 <= v < pow256(n),
    ensures
        le_dec(le_enc(v, n)) == v,
    decreases n,
{
    if n > 0 {
        let e = le_enc(v, n);
        let tail = le_enc(v / 256, (n - 1) as nat);
        lemma_le_enc_len(v / 256, (n - 1) as nat);
        assert(e.subrange(1, e.len() as int) =~= tail);
        lemma_fundamental_div_mod(v, 256);
        lemma_le_roundtrip(v / 256, (n - 1) as nat);
    }
}

/// Appends the `n`-byte little-endian encoding of `v` to `out`.
pub fn write_le(out: &mut Vec<u8>, v: u128, n: usize)
    ensures
        final(out)@ == old(out)@ + le_enc(v as int, n as nat),
{
    let ghost base = out@;
    let mut cur: u128 = v;
    let mut i: usize = 0;
    while i < n
        invariant
            i <= n,
            out@.len() == base.len() + i,
            out@.subrange(0, base.len() as int) == base,
            le_enc(v as int, n as nat) == out@.subrange(base.len() as int, out@.len() as int)
                + le_enc(cur as int, (n - i) as nat),
        decreases n - i,
    {
        let ghost prev = out@;
        let ghost prev_cur = cur;
        let b: u8 = (cur % 256) as u8;
        out.push(b);
        cur = cur / 256;
        i = i + 1;
        proof {
            assert(out@.subrange(0, base.len() as int) =~= base);
            assert(out@.subrange(base.len() as int, out@.len() as int) =~= prev.subrange(
                base.len() as int,
                prev.len() as int,
            ) + seq![b]);
            assert(le_enc(prev_cur as int, (n - i + 1) as nat) == seq![b] + le_enc(
                cur as int,
                (n - i) as nat,
            ));
            assert(le_enc(v as int, n as nat) =~= out@.subrange(base.len() as int, out@.len() as int)
                + le_enc(cur as int, (n - i) as nat));
        }
    }
    proof {
        assert(le_enc(cur as int, 0) =~= Seq::<u8>::empty());
        assert(out@ =~= out@.subrange(0, base.len() as int) + out@.subrange(
            base.len() as int,
            out@.len() as int,
        ));
        assert(out@ =~= base + le_enc(v as int, n as nat));
    }
}

/// Reads an `n`-byte little-endian integer at `*pos`, advancing `*pos`.
/// Returns `None`, leaving `*pos` alone, when fewer than `n` bytes remain.
pub fn read_le(buf: &Vec<u8>, pos: &mut usize, n: usize) -> (r: Option<u128>)
    requires
        n <= 16,
        *old(pos) <= buf@.len(),
    ensures
        match r {
            Some(v) => {
                &&& *old(pos) + n <= buf@.len()
                &&& *final(pos) == *old(pos) + n
                &&& v as int == le_dec(buf@.subrange(*old(pos) as int, (*old(pos) + n) as int))
            },
            None => {
                &&& *old(pos) + n > buf@.len()
                &&& *final(pos) == *old(pos)
            },
        },
{
    if buf.len() - *pos < n {
        return None;
    }
    let start: usize = *pos;
    let mut acc: u128 = 0;
    let mut j: usize = n;
    proof {
        assert(buf@.subrange((start + n) as int, (start + n) as int) =~= Seq::<u8>::empty());
    }
    while j > 0
        invariant
            j <= n,
            n <= 16,
            start + n <= buf@.len(),
            start + n <= usize::MAX,
            acc as int == le_dec(buf@.subrange((start + j) as int, (start + n) as int)),
            acc < pow256((n - j) as nat),
        decreases j,
    {
        let ghost prev_acc = acc;
        j = j - 1;
        let b: u8 = buf[start + j];
        proof {
            assert(acc < pow256((n - j - 1) as nat));
            assert(pow256((n - j) as nat) == 256 * pow256((n - j - 1) as nat));
            lemma_pow256_increases((n - j) as nat, 16);
            lemma_pow256_u128();
            assert(256 * acc <= 256 * (pow256((n - j - 1) as nat) - 1));
        }
        acc = (b as u128) + 256 * acc;
        proof {
            let s = buf@.subrange((start + j) as int, (start + n) as int);
            assert(s.len() > 0);
            assert(s[0] == b);
            assert(s.subrange(1, s.len() as int) =~= buf@.subrange(
                (start + j + 1) as int,
                (start + n) as int,
            ));
        }
    }
    *pos = start + n;
    Some(acc)
}

/// Copies every byte of `src` onto the end of `out`.
pub fn push_all(out: &mut Vec<u8>, src: &Vec<u8>)
    ensures
        final(out)@ == old(out)@ + src@,
{
    let mut i: usize = 0;
    while i < src.len()
        invariant
            i <= src@.len(),
            out@ == old(out)@ + src@.subrange(0, i as int),
        decreases src@.len() - i,
    {
        out.push(src[i]);
        i = i + 1;
        proof {
            assert(old(out)@ + src@.subrange(0, i as int) =~= (old(out)@ + src@.subrange(
                0,
                i - 1,
            )).push(src@[i - 1]));
        }
    }
    proof {
        assert(src@.subrange(0, src@.len() as int) =~= src@);
    }
}

/// A 128-bit content digest: event hashes, meta hashes, public-key
/// hashes and confidentiality fingerprints all use this form.
#[derive(Debug, Clone, Copy, PartialEq, Eq, Structural, Hash)]
pub struct AteHash {
    pub val: u128,
}

/// The 128-bit digest of a byte string: the first sixteen digest bytes
/// read as a little-endian integer.
pub open spec fn hash128_of(input: Seq<u8>) -> u128 {
    le_dec(hash_of(input).subrange(0, 16)) as u128
}

impl AteHash {
    /// Digests an arbitrary byte string down to its 128-bit hash.
    pub fn from_bytes(input: &[u8]) -> (r: AteHash)
        ensures
            r.val == hash128_of(input@),
    {
        let d = blake3_digest(input);
        let mut pos: usize = 0;
        let v = read_le(&d, &mut pos, 16);
        proof {
            lemma_le_dec_bound(d@.subrange(0, 16));
            lemma_pow256_u128();
        }
        match v {
            Some(a) => AteHash { val: a },
            None => AteHash { val: 0 },  // unreachable: the digest holds 32 bytes
        }
    }

    /// The 16-byte little-endian encoding of this hash.
    pub fn to_bytes(&self) -> (r: Vec<u8>)
        ensures
            r@ == le_enc(self.val as int, 16),
    {
        let mut out: Vec<u8> = Vec::new();
        write_le(&mut out, self.val, 16);
        out
    }
}

/// The digest of the concatenation of two hashes; the canonical event
/// identifier is the double hash of meta hash and data hash.
pub open spec fn spec_double_hash(a: u128, b: u128) -> u128 {
    hash128_of(le_enc(a as int, 16) + le_enc(b as int, 16))
}

pub fn double_hash(a: &AteHash, b: &AteHash) -> (r: AteHash)
    ensures
        r.val == spec_double_hash(a.val, b.val),
{
    let mut buf: Vec<u8> = Vec::new();
    write_le(&mut buf, a.val, 16);
    write_le(&mut buf, b.val, 16);
    AteHash::from_bytes(buf.as_slice())
}

/// A symmetric encryption key for payload confidentiality.
#[derive(Debug, Clone, Copy, PartialEq, Eq, Structural)]
pub struct EncryptKey {
    pub val: u128,
}

/// The full hash of a symmetric key's material.
pub open spec fn key_hash_of(k: u128) -> u128 {
    hash128_of(le_enc(k as int, 16))
}

/// The truncated key fingerprint carried by confidentiality metadata:
/// it identifies which key a reader needs without revealing the key.
pub open spec fn short_hash_of(k: u128) -> u64 {
    key_hash_of(k) as u64
}

/// Keystream block `blk` for `(key, iv)`: the digest of key material,
/// nonce and block counter.
pub open spec fn keystream_block(key: u128, iv: Seq<u8>, blk: int) -> Seq<u8> {
    hash_of(le_enc(key as int, 16) + iv + le_enc(blk, 8))
}

/// Keystream byte `i` for `(key, iv)`.
pub open spec fn keystream_byte(key: u128, iv: Seq<u8>, i: int) -> u8 {
    keystream_block(key, iv, i / 32)[i % 32]
}

/// The cipher: XOR of the data with the keystream.  Encryption and
/// decryption are the same map.
pub open spec fn xor_stream(key: u128, iv: Seq<u8>, data: Seq<u8>) -> Seq<u8> {
    Seq::new(data.len(), |i: int| data[i] ^ keystream_byte(key, iv, i))
}

pub proof fn lemma_xor_cancel(a: u8, b: u8)
    ensures
        (a ^ b) ^ b == a,
{
    assert((a ^ b) ^ b == a) by (bit_vector);
}

/// Applying the cipher twice with the same key and nonce restores the
/// original bytes.
pub proof fn lemma_stream_roundtrip(key: u128, iv: Seq<u8>, data: Seq<u8>)
    ensures
        xor_stream(key, iv, xor_stream(key, iv, data)) == data,
{
    let once = xor_stream(key, iv, data);
    let twice = xor_stream(key, iv, once);
    assert forall|i: int| 0 <= i < data.len() implies twice[i] == data[i] by {
        lemma_xor_cancel(data[i], keystream_byte(key, iv, i));
    }
    assert(twice =~= data);
}

impl EncryptKey {
    /// Draws a fresh random key.
    pub fn generate() -> EncryptKey {
        EncryptKey { val: random_u128() }
    }

    pub fn hash(&self) -> (r: AteHash)
        ensures
            r.val == key_hash_of(self.val),
    {
        let mut buf: Vec<u8> = Vec::new();
        write_le(&mut buf, self.val, 16);
        AteHash::from_bytes(buf.as_slice())
    }

    pub fn short_hash(&self) -> (r: u64)
        ensures
            r == short_hash_of(self.val),
    {
        let h = self.hash();
        #[verifier::truncate] (h.val as u64)
    }

    /// Encrypts `data` under this key and the given nonce.
    pub fn encrypt_with_iv(&self, iv: &InitializationVector, data: &Vec<u8>) -> (r: Vec<u8>)
        ensures
            r@ == xor_stream(self.val, iv.bytes@, data@),
    {
        apply_keystream(self, iv, data)
    }

    /// Decrypts `data` under this key and the given nonce.
    pub fn decrypt(&self, iv: &InitializationVector, data: &Vec<u8>) -> (r: Vec<u8>)
        ensures
            r@ == xor_stream(self.val, iv.bytes@, data@),
    {
        apply_keystream(self, iv, data)
    }
}

/// A nonce for the payload cipher.  A fresh one is drawn for every
/// encryption; replaying the pair `(key, iv)` restores the plaintext.
#[derive(Debug)]
pub struct InitializationVector {
    pub bytes: Vec<u8>,
}

impl View for InitializationVector {
    type V = Seq<u8>;

    open spec fn view(&self) -> Seq<u8> {
        self.bytes@
    }
}

impl InitializationVector {
    /// Draws a fresh random 16-byte nonce.
    pub fn generate() -> (r: InitializationVector)
        ensures
            r.bytes@.len() == 16,
    {
        let mut bytes: Vec<u8> = Vec::new();
        let v: u128 = random_u128();
        write_le(&mut bytes, v, 16);
        proof {
            lemma_le_enc_len(v as int, 16);
        }
        InitializationVector { bytes }
    }

    pub fn duplicate(&self) -> (r: InitializationVector)
        ensures
            r.bytes@ == self.bytes@,
    {
        let mut bytes: Vec<u8> = Vec::new();
        push_all(&mut bytes, &self.bytes);
        InitializationVector { bytes }
    }
}

fn apply_keystream(key: &EncryptKey, iv: &InitializationVector, data: &Vec<u8>) -> (r: Vec<u8>)
    ensures
        r@ == xor_stream(key.val, iv.bytes@, data@),
{
    let mut out: Vec<u8> = Vec::new();
    let mut block: Vec<u8> = Vec::new();
    let mut i: usize = 0;
    while i < data.len()
        invariant
            i <= data@.len(),
            out@.len() == i,
            forall|k: int|
                0 <= k < i ==> out@[k] == (data@[k] ^ keystream_byte(key.val, iv.bytes@, k)),
            i % 32 != 0 ==> {
                &&& block@ == keystream_block(key.val, iv.bytes@, i as int / 32)
                &&& block@.len() == 32
            },
        decreases data@.len() - i,
    {
        if i % 32 == 0 {
            let mut msg: Vec<u8> = Vec::new();
            write_le(&mut msg, key.val, 16);
            push_all(&mut msg, &iv.bytes);
            write_le(&mut msg, (i / 32) as u128, 8);
            block = blake3_digest(msg.as_slice());
        }
        let kb: u8 = block[i % 32];
        proof {
            assert(block@ == keystream_block(key.val, iv.bytes@, i as int / 32));
            assert(kb == keystream_byte(key.val, iv.bytes@, i as int));
        }
        out.push(data[i] ^ kb);
        i = i + 1;
        proof {
            if i % 32 != 0 {
                assert(i as int / 32 == (i - 1) as int / 32) by {
                    lemma_fundamental_div_mod(i as int, 32);
                    lemma_fundamental_div_mod((i - 1) as int, 32);
                };
            }
        }
    }
    proof {
        assert(out@ =~= xor_stream(key.val, iv.bytes@, data@));
    }
    out
}

/// Derives a record key from a session's base read key: the digest of
/// salt and key material together.
pub open spec fn derived_key_of(salt: u128, key: u128) -> u128 {
    hash128_of(le_enc(salt as int, 16) + le_enc(key as int, 16))
}

/// A salt that turns a session read key into the concrete record key.
#[derive(Debug, Clone, Copy, PartialEq, Eq, Structural)]
pub struct KeyDerivation {
    pub salt: u128,
}

impl KeyDerivation {
    pub fn transmute(&self, key: &EncryptKey) -> (r: EncryptKey)
        ensures
            r.val == derived_key_of(self.salt, key.val),
    {
        let mut buf: Vec<u8> = Vec::new();
        write_le(&mut buf, self.salt, 16);
        write_le(&mut buf, key.val, 16);
        let h = AteHash::from_bytes(buf.as_slice());
        EncryptKey { val: h.val }
    }
}

/// The public half of a signing key: 32 verifying-key bytes.
#[derive(Debug, PartialEq, Eq)]
pub struct PublicSignKey {
    pub bytes: Vec<u8>,
}

impl View for PublicSignKey {
    type V = Seq<u8>;

    open spec fn view(&self) -> Seq<u8> {
        self.bytes@
    }
}

impl PublicSignKey {
    pub fn hash(&self) -> (r: AteHash)
        ensures
            r.val == hash128_of(self.bytes@),
    {
        AteHash::from_bytes(self.bytes.as_slice())
    }

    pub fn duplicate(&self) -> (r: PublicSignKey)
        ensures
            r.bytes@ == self.bytes@,
    {
        let mut bytes: Vec<u8> = Vec::new();
        push_all(&mut bytes, &self.bytes);
        PublicSignKey { bytes }
    }
}

/// A signing key pair: the 32-byte seed and the verifying key derived
/// from it.
#[derive(Debug)]
pub struct PrivateSignKey {
    seed: Vec<u8>,
    public: PublicSignKey,
}

impl PrivateSignKey {
    /// The key pair is well formed when the public half really is the
    /// verifying key of the seed.
    pub closed spec fn wf(&self) -> bool {
        &&& self.seed@.len() == 32
        &&& self.public.bytes@ == ed_public_of(self.seed@)
    }

    pub closed spec fn spec_seed(&self) -> Seq<u8> {
        self.seed@
    }

    pub open spec fn spec_public_bytes(&self) -> Seq<u8> {
        self.spec_public().bytes@
    }

    pub closed spec fn spec_public(&self) -> PublicSignKey {
        self.public
    }

    /// Builds the pair from a 32-byte seed.
    pub fn new(seed: Vec<u8>) -> (r: PrivateSignKey)
        requires
            seed@.len() == 32,
        ensures
            r.wf(),
            r.spec_seed() == seed@,
            r.spec_public_bytes() == ed_public_of(seed@),
    {
        let public = PublicSignKey { bytes: ed25519_public_key(seed.as_slice()) };
        PrivateSignKey { seed, public }
    }

    /// Draws a fresh random key pair.
    pub fn generate() -> (r: PrivateSignKey)
        ensures
            r.wf(),
    {
        let mut seed: Vec<u8> = Vec::new();
        let lo: u128 = random_u128();
        let hi: u128 = random_u128();
        write_le(&mut seed, lo, 16);
        write_le(&mut seed, hi, 16);
        proof {
            lemma_le_enc_len(lo as int, 16);
            lemma_le_enc_len(hi as int, 16);
        }
        PrivateSignKey::new(seed)
    }

    pub fn as_public_key(&self) -> (r: &PublicSignKey)
        ensures
            *r == self.spec_public(),
    {
        &self.public
    }

    pub fn hash(&self) -> (r: AteHash)
        ensures
            r.val == hash128_of(self.spec_public_bytes()),
    {
        self.public.hash()
    }

    /// Signs a message with the seed; the result verifies under the
    /// public half.
    pub fn sign(&self, msg: &Vec<u8>) -> (r: Vec<u8>)
        requires
            self.wf(),
        ensures
            r@ == ed_signature_of(self.spec_seed(), msg@),
            r@.len() == 64,
            ed_signature_valid(self.spec_public_bytes(), msg@, r@),
    {
        ed25519_sign(self.seed.as_slice(), msg.as_slice())
    }
}


/// The strength of a wire-encryption or signing key.
#[derive(Debug, Clone, Copy, PartialEq, Eq, Structural)]
pub enum KeySize {
    Bit128,
    Bit192,
    Bit256,
}

impl KeySize {
    /// The size in bits, for comparing key strengths.
    pub fn bits(&self) -> (r: u16)
        ensures
            r == spec_key_bits(*self),
    {
        match self {
            KeySize::Bit128 => 128,
            KeySize::Bit192 => 192,
            KeySize::Bit256 => 256,
        }
    }
}

/// The size in bits of a key-size choice.
pub open spec fn spec_key_bits(k: KeySize) -> u16 {
    match k {
        KeySize::Bit128 => 128,
        KeySize::Bit192 => 192,
        KeySize::Bit256 => 256,
    }
}

} // verus!
