//! The canonical binary form of event metadata.
//!
//! Every entry is encoded with a leading tag byte; integers are
//! little-endian and lists carry a 64-bit count.  Each decoder is
//! specified against a mathematical parse function, and parsing is
//! proved to invert encoding, so replaying a log reconstructs exactly
//! the metadata that was written.

use vstd::prelude::*;
use crate::PrimaryKey;
use crate::crypto::AteHash;
use crate::crypto::EncryptKey;
use crate::crypto::InitializationVector;
use crate::crypto::KeyDerivation;
use crate::crypto::PublicSignKey;
use crate::crypto::le_dec;
use crate::crypto::le_enc;
use crate::crypto::lemma_le_dec_bound;
use crate::crypto::lemma_le_enc_len;
use crate::crypto::lemma_le_roundtrip;
use crate::crypto::lemma_pow256_u128;
use crate::crypto::pow256;
use crate::crypto::push_all;
use crate::crypto::read_le;
use crate::crypto::write_le;
use crate::meta::ChainTimestamp;
use crate::meta::CoreMetadata;
use crate::meta::CoreMetadataV;
use crate::meta::Metadata;
use crate::meta::MetaAuthorization;
use crate::meta::MetaAuthorizationV;
use crate::meta::MetaCollection;
use crate::meta::MetaConfidentiality;
use crate::meta::MetaDelayedUpload;
use crate::meta::MetaParent;
use crate::meta::MetaSignature;
use crate::meta::MetaSignatureV;
use crate::meta::MetaSignWith;
use crate::meta::ReadOption;
use crate::meta::WriteOption;
use crate::meta::WriteOptionV;

verus! {

// ---------------------------------------------------------------------
// helper lemmas
// ---------------------------------------------------------------------

/// Splits knowledge about an encoded pair of fields sitting in a buffer.
pub proof fn lemma_split_at(s: Seq<u8>, i: int, a: Seq<u8>, b: Seq<u8>)
    requires
        0 <= i,
        i + a.len() + b.len() <= s.len(),
        s.subrange(i, i + a.len() + b.len()) == a + b,
    ensures
        s.subrange(i, i + a.len()) == a,
        s.subrange(i + a.len(), i + a.len() + b.len()) == b,
{
    let ab = s.subrange(i, i + a.len() + b.len());
    assert forall|k: int| 0 <= k < a.len() implies s.subrange(i, i + a.len())[k] == a[k] by {
        assert(ab[k] == (a + b)[k]);
    }
    assert(s.subrange(i, i + a.len()) =~= a);
    assert forall|k: int| 0 <= k < b.len() implies s.subrange(
        i + a.len(),
        i + a.len() + b.len(),
    )[k] == b[k] by {
        assert(ab[a.len() + k] == (a + b)[a.len() + k]);
    }
    assert(s.subrange(i + a.len(), i + a.len() + b.len()) =~= b);
}

pub proof fn lemma_pow256_u64()
    ensures
        pow256(8) == 0x1_0000_0000_0000_0000int,
{
    reveal_with_fuel(pow256, 9);
}

// ---------------------------------------------------------------------
// primitives: bytes of fixed width, tagged bytes, byte strings, lists
// ---------------------------------------------------------------------

/// Parses an `n`-byte little-endian integer at `i`.
pub open spec fn p_le(s: Seq<u8>, i: int, n: nat) -> Option<(int, int)> {
    if 0 <= i && i + n <= s.len() {
        Some((le_dec(s.subrange(i, i + n)), i + n))
    } else {
        None
    }
}

pub proof fn lemma_p_le_enc(s: Seq<u8>, i: int, v: int, n: nat)
    requires
        0 <= i,
        0 <= v < pow256(n),
        i + n <= s.len(),
        s.subrange(i, i + n) == le_enc(v, n),
    ensures
        p_le(s, i, n) == Some((v, i + n)),
{
    lemma_le_enc_len(v, n);
    lemma_le_roundtrip(v, n);
}

/// Parses one byte at `i`.
pub open spec fn p_u8(s: Seq<u8>, i: int) -> Option<(u8, int)> {
    if 0 <= i && i + 1 <= s.len() {
        Some((s[i], i + 1))
    } else {
        None
    }
}

pub fn read_u8(buf: &Vec<u8>, pos: &mut usize) -> (r: Option<u8>)
    requires
        *old(pos) <= buf@.len(),
    ensures
        match r {
            Some(v) => {
                &&& p_u8(buf@, *old(pos) as int) == Some((v, *final(pos) as int))
                &&& *final(pos) <= buf@.len()
            },
            None => {
                &&& p_u8(buf@, *old(pos) as int) is None
                &&& *final(pos) == *old(pos)
            },
        },
{
    if buf.len() - *pos < 1 {
        return None;
    }
    let b = buf[*pos];
    *pos = *pos + 1;
    Some(b)
}

/// Parses a 64-bit count at `i`.
pub open spec fn p_u64(s: Seq<u8>, i: int) -> Option<(u64, int)> {
    match p_le(s, i, 8) {
        Some((v, j)) => Some((v as u64, j)),
        None => None,
    }
}

pub fn read_u64(buf: &Vec<u8>, pos: &mut usize) -> (r: Option<u64>)
    requires
        *old(pos) <= buf@.len(),
    ensures
        match r {
            Some(v) => {
                &&& p_u64(buf@, *old(pos) as int) == Some((v, *final(pos) as int))
                &&& *final(pos) <= buf@.len()
            },
            None => {
                &&& p_u64(buf@, *old(pos) as int) is None
                &&& *final(pos) == *old(pos)
            },
        },
{
    let r = read_le(buf, pos, 8);
    match r {
        Some(v) => {
            proof {
                lemma_le_dec_bound(buf@.subrange(*old(pos) as int, (*old(pos) + 8) as int));
                lemma_pow256_u64();
            }
            Some(v as u64)
        },
        None => None,
    }
}

/// Parses a 128-bit integer at `i`.
pub open spec fn p_u128(s: Seq<u8>, i: int) -> Option<(u128, int)> {
    match p_le(s, i, 16) {
        Some((v, j)) => Some((v as u128, j)),
        None => None,
    }
}

pub fn read_u128(buf: &Vec<u8>, pos: &mut usize) -> (r: Option<u128>)
    requires
        *old(pos) <= buf@.len(),
    ensures
        match r {
            Some(v) => {
                &&& p_u128(buf@, *old(pos) as int) == Some((v, *final(pos) as int))
                &&& *final(pos) <= buf@.len()
            },
            None => {
                &&& p_u128(buf@, *old(pos) as int) is None
                &&& *final(pos) == *old(pos)
            },
        },
{
    let r = read_le(buf, pos, 16);
    match r {
        Some(v) => {
            proof {
                lemma_le_dec_bound(buf@.subrange(*old(pos) as int, (*old(pos) + 16) as int));
                lemma_pow256_u128();
            }
            Some(v)
        },
        None => None,
    }
}

/// The encoding of a byte string: a 64-bit length, then the bytes.
pub open spec fn enc_bytes(b: Seq<u8>) -> Seq<u8> {
    le_enc(b.len() as int, 8) + b
}

/// Parses a length-prefixed byte string at `i`.
pub open spec fn p_bytes(s: Seq<u8>, i: int) -> Option<(Seq<u8>, int)> {
    match p_u64(s, i) {
        Some((n, j)) => {
            if j + n <= s.len() {
                Some((s.subrange(j, j + n), j + n))
            } else {
                None
            }
        },
        None => None,
    }
}

pub proof fn lemma_p_bytes_enc(s: Seq<u8>, i: int, b: Seq<u8>)
    requires
        0 <= i,
        b.len() < 0x1_0000_0000_0000_0000,
        i + enc_bytes(b).len() <= s.len(),
        s.subrange(i, i + enc_bytes(b).len()) == enc_bytes(b),
    ensures
        enc_bytes(b).len() == 8 + b.len(),
        p_bytes(s, i) == Some((b, i + enc_bytes(b).len())),
{
    lemma_le_enc_len(b.len() as int, 8);
    lemma_split_at(s, i, le_enc(b.len() as int, 8), b);
    lemma_pow256_u64();
    lemma_p_le_enc(s, i, b.len() as int, 8);
}

pub fn write_bytes(out: &mut Vec<u8>, b: &Vec<u8>)
    ensures
        final(out)@ == old(out)@ + enc_bytes(b@),
{
    let ghost base = out@;
    write_le(out, b.len() as u128, 8);
    push_all(out, b);
    proof {
        assert(out@ =~= base + enc_bytes(b@));
    }
}

pub fn read_bytes(buf: &Vec<u8>, pos: &mut usize) -> (r: Option<Vec<u8>>)
    requires
        *old(pos) <= buf@.len(),
    ensures
        match r {
            Some(v) => {
                &&& p_bytes(buf@, *old(pos) as int) == Some((v@, *final(pos) as int))
                &&& *final(pos) <= buf@.len()
            },
            None => {
                &&& p_bytes(buf@, *old(pos) as int) is None
                &&& *final(pos) == *old(pos)
            },
        },
{
    let start: usize = *pos;
    let n = match read_u64(buf, pos) {
        Some(n) => n,
        None => {
            return None;
        },
    };
    let rem: usize = buf.len() - *pos;
    if (rem as u64) < n {
        *pos = start;
        return None;
    }
    let count: usize = n as usize;
    proof {
        assert(count as int == n as int);
    }
    let from: usize = *pos;
    let end: usize = from + count;
    let mut v: Vec<u8> = Vec::new();
    let mut k: usize = 0;
    while k < count
        invariant
            k <= count,
            from + count <= buf@.len(),
            from + count <= usize::MAX,
            v@ == buf@.subrange(from as int, (from + k) as int),
        decreases count - k,
    {
        v.push(buf[from + k]);
        k = k + 1;
        proof {
            assert(buf@.subrange(from as int, (from + k) as int) =~= buf@.subrange(
                from as int,
                (from + k - 1) as int,
            ).push(buf@[(from + k - 1) as int]));
        }
    }
    *pos = from + count;
    Some(v)
}

/// The encoding of a hash list: a 64-bit count, then each hash.
pub open spec fn enc_hashes_rec(hs: Seq<AteHash>) -> Seq<u8>
    decreases hs.len(),
{
    if hs.len() == 0 {
        Seq::empty()
    } else {
        le_enc(hs[0].val as int, 16) + enc_hashes_rec(hs.drop_first())
    }
}

pub open spec fn enc_hashes(hs: Seq<AteHash>) -> Seq<u8> {
    le_enc(hs.len() as int, 8) + enc_hashes_rec(hs)
}

pub proof fn lemma_enc_hashes_rec_len(hs: Seq<AteHash>)
    ensures
        enc_hashes_rec(hs).len() == 16 * hs.len(),
    decreases hs.len(),
{
    if hs.len() > 0 {
        lemma_le_enc_len(hs[0].val as int, 16);
        lemma_enc_hashes_rec_len(hs.drop_first());
    }
}

/// Parses `count` hashes at `i`.
pub open spec fn p_hashes_rec(s: Seq<u8>, i: int, count: nat) -> Option<(Seq<AteHash>, int)>
    decreases count,
{
    if count == 0 {
        Some((Seq::empty(), i))
    } else {
        match p_u128(s, i) {
            Some((v, j)) => {
                match p_hashes_rec(s, j, (count - 1) as nat) {
                    Some((rest, k)) => Some((seq![AteHash { val: v }] + rest, k)),
                    None => None,
                }
            },
            None => None,
        }
    }
}

pub open spec fn p_hashes(s: Seq<u8>, i: int) -> Option<(Seq<AteHash>, int)> {
    match p_u64(s, i) {
        Some((n, j)) => p_hashes_rec(s, j, n as nat),
        None => None,
    }
}

pub proof fn lemma_p_hashes_rec_enc(s: Seq<u8>, i: int, hs: Seq<AteHash>)
    requires
        0 <= i,
        i + enc_hashes_rec(hs).len() <= s.len(),
        s.subrange(i, i + enc_hashes_rec(hs).len()) == enc_hashes_rec(hs),
    ensures
        p_hashes_rec(s, i, hs.len()) == Some((hs, i + enc_hashes_rec(hs).len())),
    decreases hs.len(),
{
    lemma_enc_hashes_rec_len(hs);
    if hs.len() > 0 {
        let head = le_enc(hs[0].val as int, 16);
        let tail = enc_hashes_rec(hs.drop_first());
        lemma_le_enc_len(hs[0].val as int, 16);
        lemma_enc_hashes_rec_len(hs.drop_first());
        lemma_split_at(s, i, head, tail);
        lemma_pow256_u128();
        lemma_p_le_enc(s, i, hs[0].val as int, 16);
        lemma_p_hashes_rec_enc(s, i + 16, hs.drop_first());
        assert(seq![AteHash { val: hs[0].val }] + hs.drop_first() =~= hs);
    } else {
        assert(p_hashes_rec(s, i, 0) == Some((Seq::<AteHash>::empty(), i)));
        assert(Seq::<AteHash>::empty() =~= hs);
    }
}

pub proof fn lemma_p_hashes_enc(s: Seq<u8>, i: int, hs: Seq<AteHash>)
    requires
        0 <= i,
        hs.len() < 0x1_0000_0000_0000_0000,
        i + enc_hashes(hs).len() <= s.len(),
        s.subrange(i, i + enc_hashes(hs).len()) == enc_hashes(hs),
    ensures
        enc_hashes(hs).len() == 8 + 16 * hs.len(),
        p_hashes(s, i) == Some((hs, i + enc_hashes(hs).len())),
{
    lemma_le_enc_len(hs.len() as int, 8);
    lemma_enc_hashes_rec_len(hs);
    lemma_split_at(s, i, le_enc(hs.len() as int, 8), enc_hashes_rec(hs));
    lemma_pow256_u64();
    lemma_p_le_enc(s, i, hs.len() as int, 8);
    lemma_p_hashes_rec_enc(s, i + 8, hs);
}

pub fn write_hashes(out: &mut Vec<u8>, hs: &Vec<AteHash>)
    ensures
        final(out)@ == old(out)@ + enc_hashes(hs@),
{
    let ghost base = out@;
    write_le(out, hs.len() as u128, 8);
    let ghost target = base + le_enc(hs@.len() as int, 8) + enc_hashes_rec(hs@);
    proof {
        assert(hs@.subrange(0, hs@.len() as int) =~= hs@);
    }
    let mut k: usize = 0;
    while k < hs.len()
        invariant
            k <= hs@.len(),
            out@ + enc_hashes_rec(hs@.subrange(k as int, hs@.len() as int)) == target,
        decreases hs@.len() - k,
    {
        let ghost rem = hs@.subrange(k as int, hs@.len() as int);
        proof {
            assert(rem[0] == hs@[k as int]);
            assert(rem.drop_first() =~= hs@.subrange(k + 1, hs@.len() as int));
            lemma_le_enc_len(hs@[k as int].val as int, 16);
            lemma_enc_hashes_rec_len(rem.drop_first());
        }
        write_le(out, hs[k].val, 16);
        k = k + 1;
        proof {
            assert(out@ + enc_hashes_rec(hs@.subrange(k as int, hs@.len() as int)) =~= target);
        }
    }
    proof {
        assert(enc_hashes_rec(hs@.subrange(hs@.len() as int, hs@.len() as int))
            =~= Seq::<u8>::empty());
        assert(out@ =~= base + enc_hashes(hs@));
    }
}

pub fn read_hashes(buf: &Vec<u8>, pos: &mut usize) -> (r: Option<Vec<AteHash>>)
    requires
        *old(pos) <= buf@.len(),
    ensures
        match r {
            Some(v) => {
                &&& p_hashes(buf@, *old(pos) as int) == Some((v@, *final(pos) as int))
                &&& *final(pos) <= buf@.len()
            },
            None => {
                &&& p_hashes(buf@, *old(pos) as int) is None
                &&& *final(pos) == *old(pos)
            },
        },
{
    let start: usize = *pos;
    let n = match read_u64(buf, pos) {
        Some(n) => n,
        None => {
            return None;
        },
    };
    let mut v: Vec<AteHash> = Vec::new();
    let mut k: u64 = 0;
    while k < n
        invariant
            start == *old(pos),
            k <= n,
            *pos <= buf@.len(),
            v@.len() == k,
            p_hashes(buf@, start as int) == (match p_hashes_rec(
                buf@,
                *pos as int,
                (n - k) as nat,
            ) {
                Some((rest, end)) => Some::<(Seq<AteHash>, int)>((v@ + rest, end)),
                None => None,
            }),
        decreases n - k,
    {
        let ghost pos_before = *pos as int;
        let ghost v_before = v@;
        let h = match read_u128(buf, pos) {
            Some(h) => AteHash { val: h },
            None => {
                proof {
                    assert(p_hashes_rec(buf@, pos_before, (n - k) as nat) is None);
                }
                *pos = start;
                return None;
            },
        };
        v.push(h);
        k = k + 1;
        proof {
            match p_hashes_rec(buf@, *pos as int, (n - k) as nat) {
                Some((rest, end)) => {
                    assert(p_hashes_rec(buf@, pos_before, (n - k + 1) as nat) == Some::<
                        (Seq<AteHash>, int),
                    >((seq![h] + rest, end)));
                    assert(v_before + (seq![h] + rest) =~= v@ + rest);
                },
                None => {
                    assert(p_hashes_rec(buf@, pos_before, (n - k + 1) as nat) is None);
                },
            }
        }
    }
    proof {
        assert(p_hashes_rec(buf@, *pos as int, 0) == Some::<(Seq<AteHash>, int)>((
            Seq::empty(),
            *pos as int,
        )));
        assert(v@ + Seq::<AteHash>::empty() =~= v@);
    }
    Some(v)
}

// ---------------------------------------------------------------------
// composite encodings: options, authorizations, entries, metadata
// ---------------------------------------------------------------------

/// Whether a write option's view is small enough to encode.
pub open spec fn wf_write_option(w: WriteOptionV) -> bool {
    match w {
        WriteOptionV::Any(v) => v.len() < 0x1_0000_0000_0000_0000,
        _ => true,
    }
}

/// Whether a signature entry's view is small enough to encode.
pub open spec fn wf_sig(s: MetaSignatureV) -> bool {
    &&& s.hashes.len() < 0x1_0000_0000_0000_0000
    &&& s.signature.len() < 0x1_0000_0000_0000_0000
    &&& s.public_key.len() < 0x1_0000_0000_0000_0000
}

/// Whether one entry's view is small enough to encode.
pub open spec fn wf_core(m: CoreMetadataV) -> bool {
    match m {
        CoreMetadataV::Authorization(a) => wf_write_option(a.write),
        CoreMetadataV::InitializationVector(iv) => iv.len() < 0x1_0000_0000_0000_0000,
        CoreMetadataV::Signature(s) => wf_sig(s),
        CoreMetadataV::SignWith(k) => k.len() < 0x1_0000_0000_0000_0000,
        _ => true,
    }
}

/// Whether a whole metadata view is small enough to encode.
pub open spec fn wf_meta(s: Seq<CoreMetadataV>) -> bool {
    &&& s.len() < 0x1_0000_0000_0000_0000
    &&& forall|i: int| 0 <= i < s.len() ==> wf_core(#[trigger] s[i])
}

pub open spec fn enc_opt_key(k: Option<EncryptKey>) -> Seq<u8> {
    match k {
        None => seq![0u8],
        Some(e) => seq![1u8] + le_enc(e.val as int, 16),
    }
}

pub open spec fn p_opt_key(s: Seq<u8>, i: int) -> Option<(Option<EncryptKey>, int)> {
    match p_u8(s, i) {
        Some((t, j)) => {
            if t == 0 {
                Some((None, j))
            } else if t == 1 {
                match p_u128(s, j) {
                    Some((v, m)) => Some((Some(EncryptKey { val: v }), m)),
                    None => None,
                }
            } else {
                None
            }
        },
        None => None,
    }
}

/// Knowing that a tagged encoding sits at `i` pins the tag byte and the
/// bytes that follow it.
pub proof fn lemma_tag_at(s: Seq<u8>, i: int, t: u8, rest: Seq<u8>)
    requires
        0 <= i,
        i + 1 + rest.len() <= s.len(),
        s.subrange(i, i + 1 + rest.len()) == seq![t] + rest,
    ensures
        s[i] == t,
        p_u8(s, i) == Some((t, i + 1)),
        s.subrange(i + 1, i + 1 + rest.len()) == rest,
{
    lemma_split_at(s, i, seq![t], rest);
    assert(s.subrange(i, i + 1)[0] == s[i]);
}

pub proof fn lemma_p_opt_key_enc(s: Seq<u8>, i: int, k: Option<EncryptKey>)
    requires
        0 <= i,
        i + enc_opt_key(k).len() <= s.len(),
        s.subrange(i, i + enc_opt_key(k).len()) == enc_opt_key(k),
    ensures
        p_opt_key(s, i) == Some((k, i + enc_opt_key(k).len())),
{
    match k {
        None => {
            assert(s.subrange(i, i + 1)[0] == s[i]);
        },
        Some(e) => {
            lemma_le_enc_len(e.val as int, 16);
            lemma_tag_at(s, i, 1u8, le_enc(e.val as int, 16));
            lemma_pow256_u128();
            lemma_p_le_enc(s, i + 1, e.val as int, 16);
        },
    }
}

pub open spec fn enc_read_option(r: ReadOption) -> Seq<u8> {
    match r {
        ReadOption::Inherit => seq![0u8],
        ReadOption::Everyone(k) => seq![1u8] + enc_opt_key(k),
        ReadOption::Specific(h, d) => seq![2u8] + (le_enc(h.val as int, 16) + le_enc(
            d.salt as int,
            16,
        )),
    }
}

pub open spec fn p_read_option(s: Seq<u8>, i: int) -> Option<(ReadOption, int)> {
    match p_u8(s, i) {
        Some((t, j)) => {
            if t == 0 {
                Some((ReadOption::Inherit, j))
            } else if t == 1 {
                match p_opt_key(s, j) {
                    Some((k, m)) => Some((ReadOption::Everyone(k), m)),
                    None => None,
                }
            } else if t == 2 {
                match p_u128(s, j) {
                    Some((h, m)) => {
                        match p_u128(s, m) {
                            Some((d, q)) => Some((
                                ReadOption::Specific(
                                    AteHash { val: h },
                                    KeyDerivation { salt: d },
                                ),
                                q,
                            )),
                            None => None,
                        }
                    },
                    None => None,
                }
            } else {
                None
            }
        },
        None => None,
    }
}

pub proof fn lemma_p_read_option_enc(s: Seq<u8>, i: int, r: ReadOption)
    requires
        0 <= i,
        i + enc_read_option(r).len() <= s.len(),
        s.subrange(i, i + enc_read_option(r).len()) == enc_read_option(r),
    ensures
        p_read_option(s, i) == Some((r, i + enc_read_option(r).len())),
{
    match r {
        ReadOption::Inherit => {
            assert(s.subrange(i, i + 1)[0] == s[i]);
        },
        ReadOption::Everyone(k) => {
            lemma_tag_at(s, i, 1u8, enc_opt_key(k));
            lemma_p_opt_key_enc(s, i + 1, k);
        },
        ReadOption::Specific(h, d) => {
            let ha = le_enc(h.val as int, 16);
            let db = le_enc(d.salt as int, 16);
            lemma_le_enc_len(h.val as int, 16);
            lemma_le_enc_len(d.salt as int, 16);
            lemma_tag_at(s, i, 2u8, ha + db);
            lemma_split_at(s, i + 1, ha, db);
            lemma_pow256_u128();
            lemma_p_le_enc(s, i + 1, h.val as int, 16);
            lemma_p_le_enc(s, i + 17, d.salt as int, 16);
        },
    }
}

pub open spec fn enc_write_option(w: WriteOptionV) -> Seq<u8> {
    match w {
        WriteOptionV::Inherit => seq![0u8],
        WriteOptionV::Everyone => seq![1u8],
        WriteOptionV::Nobody => seq![2u8],
        WriteOptionV::Specific(h) => seq![3u8] + le_enc(h.val as int, 16),
        WriteOptionV::Any(v) => seq![4u8] + enc_hashes(v),
    }
}

pub open spec fn p_write_option(s: Seq<u8>, i: int) -> Option<(WriteOptionV, int)> {
    match p_u8(s, i) {
        Some((t, j)) => {
            if t == 0 {
                Some((WriteOptionV::Inherit, j))
            } else if t == 1 {
                Some((WriteOptionV::Everyone, j))
            } else if t == 2 {
                Some((WriteOptionV::Nobody, j))
            } else if t == 3 {
                match p_u128(s, j) {
                    Some((h, m)) => Some((WriteOptionV::Specific(AteHash { val: h }), m)),
                    None => None,
                }
            } else if t == 4 {
                match p_hashes(s, j) {
                    Some((v, m)) => Some((WriteOptionV::Any(v), m)),
                    None => None,
                }
            } else {
                None
            }
        },
        None => None,
    }
}

pub proof fn lemma_p_write_option_enc(s: Seq<u8>, i: int, w: WriteOptionV)
    requires
        0 <= i,
        wf_write_option(w),
        i + enc_write_option(w).len() <= s.len(),
        s.subrange(i, i + enc_write_option(w).len()) == enc_write_option(w),
    ensures
        p_write_option(s, i) == Some((w, i + enc_write_option(w).len())),
{
    match w {
        WriteOptionV::Inherit => {
            assert(s.subrange(i, i + 1)[0] == s[i]);
        },
        WriteOptionV::Everyone => {
            assert(s.subrange(i, i + 1)[0] == s[i]);
        },
        WriteOptionV::Nobody => {
            assert(s.subrange(i, i + 1)[0] == s[i]);
        },
        WriteOptionV::Specific(h) => {
            lemma_le_enc_len(h.val as int, 16);
            lemma_tag_at(s, i, 3u8, le_enc(h.val as int, 16));
            lemma_pow256_u128();
            lemma_p_le_enc(s, i + 1, h.val as int, 16);
        },
        WriteOptionV::Any(v) => {
            lemma_tag_at(s, i, 4u8, enc_hashes(v));
            lemma_p_hashes_enc(s, i + 1, v);
        },
    }
}

pub open spec fn enc_auth(a: MetaAuthorizationV) -> Seq<u8> {
    enc_read_option(a.read) + enc_write_option(a.write)
}

pub open spec fn p_auth(s: Seq<u8>, i: int) -> Option<(MetaAuthorizationV, int)> {
    match p_read_option(s, i) {
        Some((r, j)) => {
            match p_write_option(s, j) {
                Some((w, m)) => Some((MetaAuthorizationV { read: r, write: w }, m)),
                None => None,
            }
        },
        None => None,
    }
}

pub proof fn lemma_p_auth_enc(s: Seq<u8>, i: int, a: MetaAuthorizationV)
    requires
        0 <= i,
        wf_write_option(a.write),
        i + enc_auth(a).len() <= s.len(),
        s.subrange(i, i + enc_auth(a).len()) == enc_auth(a),
    ensures
        p_auth(s, i) == Some((a, i + enc_auth(a).len())),
{
    lemma_split_at(s, i, enc_read_option(a.read), enc_write_option(a.write));
    lemma_p_read_option_enc(s, i, a.read);
    lemma_p_write_option_enc(s, i + enc_read_option(a.read).len(), a.write);
}

pub open spec fn enc_conf(c: MetaConfidentiality) -> Seq<u8> {
    le_enc(c.hash as int, 8) + (match c.cache {
        None => seq![0u8],
        Some(r) => seq![1u8] + enc_read_option(r),
    })
}

pub open spec fn p_conf(s: Seq<u8>, i: int) -> Option<(MetaConfidentiality, int)> {
    match p_u64(s, i) {
        Some((h, j)) => {
            match p_u8(s, j) {
                Some((t, m)) => {
                    if t == 0 {
                        Some((MetaConfidentiality { hash: h, cache: None }, m))
                    } else if t == 1 {
                        match p_read_option(s, m) {
                            Some((r, q)) => Some((
                                MetaConfidentiality { hash: h, cache: Some(r) },
                                q,
                            )),
                            None => None,
                        }
                    } else {
                        None
                    }
                },
                None => None,
            }
        },
        None => None,
    }
}

pub proof fn lemma_p_conf_enc(s: Seq<u8>, i: int, c: MetaConfidentiality)
    requires
        0 <= i,
        i + enc_conf(c).len() <= s.len(),
        s.subrange(i, i + enc_conf(c).len()) == enc_conf(c),
    ensures
        p_conf(s, i) == Some((c, i + enc_conf(c).len())),
{
    let hb = le_enc(c.hash as int, 8);
    lemma_le_enc_len(c.hash as int, 8);
    match c.cache {
        None => {
            lemma_split_at(s, i, hb, seq![0u8]);
            lemma_pow256_u64();
            lemma_p_le_enc(s, i, c.hash as int, 8);
            assert(s.subrange(i + 8, i + 9)[0] == s[i + 8]);
        },
        Some(r) => {
            lemma_split_at(s, i, hb, seq![1u8] + enc_read_option(r));
            lemma_pow256_u64();
            lemma_p_le_enc(s, i, c.hash as int, 8);
            lemma_tag_at(s, i + 8, 1u8, enc_read_option(r));
            lemma_p_read_option_enc(s, i + 9, r);
        },
    }
}

pub open spec fn enc_delayed(d: MetaDelayedUpload) -> Seq<u8> {
    seq![if d.complete { 1u8 } else { 0u8 }] + (le_enc(d.from.time_since_epoch_ms as int, 8)
        + le_enc(d.to.time_since_epoch_ms as int, 8))
}

pub open spec fn p_delayed(s: Seq<u8>, i: int) -> Option<(MetaDelayedUpload, int)> {
    match p_u8(s, i) {
        Some((t, j)) => {
            if t == 0 || t == 1 {
                match p_u64(s, j) {
                    Some((f, m)) => {
                        match p_u64(s, m) {
                            Some((to, q)) => Some((
                                MetaDelayedUpload {
                                    complete: t == 1,
                                    from: ChainTimestamp { time_since_epoch_ms: f },
                                    to: ChainTimestamp { time_since_epoch_ms: to },
                                },
                                q,
                            )),
                            None => None,
                        }
                    },
                    None => None,
                }
            } else {
                None
            }
        },
        None => None,
    }
}

pub proof fn lemma_p_delayed_enc(s: Seq<u8>, i: int, d: MetaDelayedUpload)
    requires
        0 <= i,
        i + enc_delayed(d).len() <= s.len(),
        s.subrange(i, i + enc_delayed(d).len()) == enc_delayed(d),
    ensures
        p_delayed(s, i) == Some((d, i + enc_delayed(d).len())),
{
    let fb = le_enc(d.from.time_since_epoch_ms as int, 8);
    let tb = le_enc(d.to.time_since_epoch_ms as int, 8);
    lemma_le_enc_len(d.from.time_since_epoch_ms as int, 8);
    lemma_le_enc_len(d.to.time_since_epoch_ms as int, 8);
    let tag: u8 = if d.complete { 1u8 } else { 0u8 };
    lemma_tag_at(s, i, tag, fb + tb);
    lemma_split_at(s, i + 1, fb, tb);
    lemma_pow256_u64();
    lemma_p_le_enc(s, i + 1, d.from.time_since_epoch_ms as int, 8);
    lemma_p_le_enc(s, i + 9, d.to.time_since_epoch_ms as int, 8);
}

pub open spec fn enc_parent(p: MetaParent) -> Seq<u8> {
    le_enc(p.vec.parent_id.val as int, 16) + le_enc(p.vec.collection_id as int, 8)
}

pub open spec fn p_parent(s: Seq<u8>, i: int) -> Option<(MetaParent, int)> {
    match p_u128(s, i) {
        Some((pid, j)) => {
            match p_u64(s, j) {
                Some((cid, m)) => Some((
                    MetaParent {
                        vec: MetaCollection {
                            parent_id: PrimaryKey { val: pid },
                            collection_id: cid,
                        },
                    },
                    m,
                )),
                None => None,
            }
        },
        None => None,
    }
}

pub proof fn lemma_p_parent_enc(s: Seq<u8>, i: int, p: MetaParent)
    requires
        0 <= i,
        i + enc_parent(p).len() <= s.len(),
        s.subrange(i, i + enc_parent(p).len()) == enc_parent(p),
    ensures
        p_parent(s, i) == Some((p, i + enc_parent(p).len())),
{
    let pb = le_enc(p.vec.parent_id.val as int, 16);
    let cb = le_enc(p.vec.collection_id as int, 8);
    lemma_le_enc_len(p.vec.parent_id.val as int, 16);
    lemma_le_enc_len(p.vec.collection_id as int, 8);
    lemma_split_at(s, i, pb, cb);
    lemma_pow256_u128();
    lemma_pow256_u64();
    lemma_p_le_enc(s, i, p.vec.parent_id.val as int, 16);
    lemma_p_le_enc(s, i + 16, p.vec.collection_id as int, 8);
}

pub open spec fn enc_sig(g: MetaSignatureV) -> Seq<u8> {
    enc_hashes(g.hashes) + enc_bytes(g.signature) + enc_bytes(g.public_key)
}

pub open spec fn p_sig(s: Seq<u8>, i: int) -> Option<(MetaSignatureV, int)> {
    match p_hashes(s, i) {
        Some((hs, j)) => {
            match p_bytes(s, j) {
                Some((sg, m)) => {
                    match p_bytes(s, m) {
                        Some((pk, q)) => Some((
                            MetaSignatureV { hashes: hs, signature: sg, public_key: pk },
                            q,
                        )),
                        None => None,
                    }
                },
                None => None,
            }
        },
        None => None,
    }
}

pub proof fn lemma_p_sig_enc(s: Seq<u8>, i: int, g: MetaSignatureV)
    requires
        0 <= i,
        wf_sig(g),
        i + enc_sig(g).len() <= s.len(),
        s.subrange(i, i + enc_sig(g).len()) == enc_sig(g),
    ensures
        p_sig(s, i) == Some((g, i + enc_sig(g).len())),
{
    let ha = enc_hashes(g.hashes);
    let sb = enc_bytes(g.signature);
    let pb = enc_bytes(g.public_key);
    assert(enc_sig(g) =~= ha + (sb + pb));
    lemma_split_at(s, i, ha, sb + pb);
    lemma_split_at(s, i + ha.len(), sb, pb);
    lemma_p_hashes_enc(s, i, g.hashes);
    lemma_p_bytes_enc(s, i + ha.len(), g.signature);
    lemma_p_bytes_enc(s, i + ha.len() + sb.len(), g.public_key);
}

/// The encoding of one entry: a tag byte, then the entry's fields.
pub open spec fn enc_core(m: CoreMetadataV) -> Seq<u8> {
    match m {
        CoreMetadataV::Data(k) => seq![0u8] + le_enc(k.val as int, 16),
        CoreMetadataV::Tombstone(k) => seq![1u8] + le_enc(k.val as int, 16),
        CoreMetadataV::Authorization(a) => seq![2u8] + enc_auth(a),
        CoreMetadataV::InitializationVector(iv) => seq![3u8] + enc_bytes(iv),
        CoreMetadataV::Tree(p) => seq![4u8] + enc_parent(p),
        CoreMetadataV::Timestamp(t) => seq![5u8] + le_enc(t.time_since_epoch_ms as int, 8),
        CoreMetadataV::Signature(g) => seq![6u8] + enc_sig(g),
        CoreMetadataV::SignWith(k) => seq![7u8] + enc_hashes(k),
        CoreMetadataV::Confidentiality(c) => seq![8u8] + enc_conf(c),
        CoreMetadataV::DelayedUpload(d) => seq![9u8] + enc_delayed(d),
    }
}

pub open spec fn p_core(s: Seq<u8>, i: int) -> Option<(CoreMetadataV, int)> {
    match p_u8(s, i) {
        Some((t, j)) => {
            if t == 0 {
                match p_u128(s, j) {
                    Some((k, m)) => Some((CoreMetadataV::Data(PrimaryKey { val: k }), m)),
                    None => None,
                }
            } else if t == 1 {
                match p_u128(s, j) {
                    Some((k, m)) => Some((CoreMetadataV::Tombstone(PrimaryKey { val: k }), m)),
                    None => None,
                }
            } else if t == 2 {
                match p_auth(s, j) {
                    Some((a, m)) => Some((CoreMetadataV::Authorization(a), m)),
                    None => None,
                }
            } else if t == 3 {
                match p_bytes(s, j) {
                    Some((iv, m)) => Some((CoreMetadataV::InitializationVector(iv), m)),
                    None => None,
                }
            } else if t == 4 {
                match p_parent(s, j) {
                    Some((p, m)) => Some((CoreMetadataV::Tree(p), m)),
                    None => None,
                }
            } else if t == 5 {
                match p_u64(s, j) {
                    Some((ts, m)) => Some((
                        CoreMetadataV::Timestamp(ChainTimestamp { time_since_epoch_ms: ts }),
                        m,
                    )),
                    None => None,
                }
            } else if t == 6 {
                match p_sig(s, j) {
                    Some((g, m)) => Some((CoreMetadataV::Signature(g), m)),
                    None => None,
                }
            } else if t == 7 {
                match p_hashes(s, j) {
                    Some((k, m)) => Some((CoreMetadataV::SignWith(k), m)),
                    None => None,
                }
            } else if t == 8 {
                match p_conf(s, j) {
                    Some((c, m)) => Some((CoreMetadataV::Confidentiality(c), m)),
                    None => None,
                }
            } else if t == 9 {
                match p_delayed(s, j) {
                    Some((d, m)) => Some((CoreMetadataV::DelayedUpload(d), m)),
                    None => None,
                }
            } else {
                None
            }
        },
        None => None,
    }
}

pub proof fn lemma_p_core_enc(s: Seq<u8>, i: int, m: CoreMetadataV)
    requires
        0 <= i,
        wf_core(m),
        i + enc_core(m).len() <= s.len(),
        s.subrange(i, i + enc_core(m).len()) == enc_core(m),
    ensures
        p_core(s, i) == Some((m, i + enc_core(m).len())),
{
    match m {
        CoreMetadataV::Data(k) => {
            lemma_le_enc_len(k.val as int, 16);
            lemma_tag_at(s, i, 0u8, le_enc(k.val as int, 16));
            lemma_pow256_u128();
            lemma_p_le_enc(s, i + 1, k.val as int, 16);
        },
        CoreMetadataV::Tombstone(k) => {
            lemma_le_enc_len(k.val as int, 16);
            lemma_tag_at(s, i, 1u8, le_enc(k.val as int, 16));
            lemma_pow256_u128();
            lemma_p_le_enc(s, i + 1, k.val as int, 16);
        },
        CoreMetadataV::Authorization(a) => {
            lemma_tag_at(s, i, 2u8, enc_auth(a));
            lemma_p_auth_enc(s, i + 1, a);
        },
        CoreMetadataV::InitializationVector(iv) => {
            lemma_tag_at(s, i, 3u8, enc_bytes(iv));
            lemma_p_bytes_enc(s, i + 1, iv);
        },
        CoreMetadataV::Tree(p) => {
            lemma_tag_at(s, i, 4u8, enc_parent(p));
            lemma_p_parent_enc(s, i + 1, p);
        },
        CoreMetadataV::Timestamp(t) => {
            lemma_le_enc_len(t.time_since_epoch_ms as int, 8);
            lemma_tag_at(s, i, 5u8, le_enc(t.time_since_epoch_ms as int, 8));
            lemma_pow256_u64();
            lemma_p_le_enc(s, i + 1, t.time_since_epoch_ms as int, 8);
        },
        CoreMetadataV::Signature(g) => {
            lemma_tag_at(s, i, 6u8, enc_sig(g));
            lemma_p_sig_enc(s, i + 1, g);
        },
        CoreMetadataV::SignWith(k) => {
            lemma_tag_at(s, i, 7u8, enc_hashes(k));
            lemma_p_hashes_enc(s, i + 1, k);
        },
        CoreMetadataV::Confidentiality(c) => {
            lemma_tag_at(s, i, 8u8, enc_conf(c));
            lemma_p_conf_enc(s, i + 1, c);
        },
        CoreMetadataV::DelayedUpload(d) => {
            lemma_tag_at(s, i, 9u8, enc_delayed(d));
            lemma_p_delayed_enc(s, i + 1, d);
        },
    }
}

pub open spec fn enc_cores_rec(s: Seq<CoreMetadataV>) -> Seq<u8>
    decreases s.len(),
{
    if s.len() == 0 {
        Seq::empty()
    } else {
        enc_core(s[0]) + enc_cores_rec(s.drop_first())
    }
}

/// The canonical byte form of a whole metadata list.
pub open spec fn enc_meta(s: Seq<CoreMetadataV>) -> Seq<u8> {
    le_enc(s.len() as int, 8) + enc_cores_rec(s)
}

pub open spec fn p_cores_rec(s: Seq<u8>, i: int, count: nat) -> Option<(Seq<CoreMetadataV>, int)>
    decreases count,
{
    if count == 0 {
        Some((Seq::empty(), i))
    } else {
        match p_core(s, i) {
            Some((m, j)) => {
                match p_cores_rec(s, j, (count - 1) as nat) {
                    Some((rest, k)) => Some((seq![m] + rest, k)),
                    None => None,
                }
            },
            None => None,
        }
    }
}

/// Parses a whole metadata list.
pub open spec fn p_meta(s: Seq<u8>, i: int) -> Option<(Seq<CoreMetadataV>, int)> {
    match p_u64(s, i) {
        Some((n, j)) => p_cores_rec(s, j, n as nat),
        None => None,
    }
}

pub proof fn lemma_p_cores_rec_enc(s: Seq<u8>, i: int, items: Seq<CoreMetadataV>)
    requires
        0 <= i,
        forall|k: int| 0 <= k < items.len() ==> wf_core(#[trigger] items[k]),
        i + enc_cores_rec(items).len() <= s.len(),
        s.subrange(i, i + enc_cores_rec(items).len()) == enc_cores_rec(items),
    ensures
        p_cores_rec(s, i, items.len()) == Some((items, i + enc_cores_rec(items).len())),
    decreases items.len(),
{
    if items.len() == 0 {
        assert(Seq::<CoreMetadataV>::empty() =~= items);
    } else {
        let head = enc_core(items[0]);
        let tail = enc_cores_rec(items.drop_first());
        lemma_split_at(s, i, head, tail);
        lemma_p_core_enc(s, i, items[0]);
        assert(forall|k: int|
            0 <= k < items.drop_first().len() ==> wf_core(#[trigger] items.drop_first()[k]));
        lemma_p_cores_rec_enc(s, i + head.len(), items.drop_first());
        assert(seq![items[0]] + items.drop_first() =~= items);
    }
}

/// Parsing inverts encoding: a buffer that holds the canonical byte
/// form of a metadata list parses back to exactly that list.
pub proof fn lemma_p_meta_enc(s: Seq<u8>, i: int, items: Seq<CoreMetadataV>)
    requires
        0 <= i,
        wf_meta(items),
        i + enc_meta(items).len() <= s.len(),
        s.subrange(i, i + enc_meta(items).len()) == enc_meta(items),
    ensures
        p_meta(s, i) == Some((items, i + enc_meta(items).len())),
{
    lemma_le_enc_len(items.len() as int, 8);
    lemma_split_at(s, i, le_enc(items.len() as int, 8), enc_cores_rec(items));
    lemma_pow256_u64();
    lemma_p_le_enc(s, i, items.len() as int, 8);
    lemma_p_cores_rec_enc(s, i + 8, items);
}


// ---------------------------------------------------------------------
// executable writers
// ---------------------------------------------------------------------

pub fn write_opt_key(out: &mut Vec<u8>, k: &Option<EncryptKey>)
    ensures
        final(out)@ == old(out)@ + enc_opt_key(*k),
{
    let ghost base = out@;
    match k {
        None => {
            out.push(0u8);
            proof {
                assert(out@ =~= base + enc_opt_key(*k));
            }
        },
        Some(e) => {
            out.push(1u8);
            write_le(out, e.val, 16);
            proof {
                assert(out@ =~= base + enc_opt_key(*k));
            }
        },
    }
}

pub fn write_read_option(out: &mut Vec<u8>, r: &ReadOption)
    ensures
        final(out)@ == old(out)@ + enc_read_option(*r),
{
    let ghost base = out@;
    match r {
        ReadOption::Inherit => {
            out.push(0u8);
            proof {
                assert(out@ =~= base + enc_read_option(*r));
            }
        },
        ReadOption::Everyone(k) => {
            out.push(1u8);
            write_opt_key(out, k);
            proof {
                assert(out@ =~= base + enc_read_option(*r));
            }
        },
        ReadOption::Specific(h, d) => {
            out.push(2u8);
            write_le(out, h.val, 16);
            write_le(out, d.salt, 16);
            proof {
                assert(out@ =~= base + enc_read_option(*r));
            }
        },
    }
}

pub fn write_write_option(out: &mut Vec<u8>, w: &WriteOption)
    ensures
        final(out)@ == old(out)@ + enc_write_option(w@),
{
    let ghost base = out@;
    match w {
        WriteOption::Inherit => {
            out.push(0u8);
            proof {
                assert(out@ =~= base + enc_write_option(w@));
            }
        },
        WriteOption::Everyone => {
            out.push(1u8);
            proof {
                assert(out@ =~= base + enc_write_option(w@));
            }
        },
        WriteOption::Nobody => {
            out.push(2u8);
            proof {
                assert(out@ =~= base + enc_write_option(w@));
            }
        },
        WriteOption::Specific(h) => {
            out.push(3u8);
            write_le(out, h.val, 16);
            proof {
                assert(out@ =~= base + enc_write_option(w@));
            }
        },
        WriteOption::Any(v) => {
            out.push(4u8);
            write_hashes(out, v);
            proof {
                assert(out@ =~= base + enc_write_option(w@));
            }
        },
    }
}

pub fn write_auth(out: &mut Vec<u8>, a: &MetaAuthorization)
    ensures
        final(out)@ == old(out)@ + enc_auth(a@),
{
    let ghost base = out@;
    write_read_option(out, &a.read);
    write_write_option(out, &a.write);
    proof {
        assert(out@ =~= base + enc_auth(a@));
    }
}

pub fn write_conf(out: &mut Vec<u8>, c: &MetaConfidentiality)
    ensures
        final(out)@ == old(out)@ + enc_conf(*c),
{
    let ghost base = out@;
    write_le(out, c.hash as u128, 8);
    match &c.cache {
        None => {
            out.push(0u8);
            proof {
                assert(out@ =~= base + enc_conf(*c));
            }
        },
        Some(r) => {
            out.push(1u8);
            write_read_option(out, r);
            proof {
                assert(out@ =~= base + enc_conf(*c));
            }
        },
    }
}

pub fn write_delayed(out: &mut Vec<u8>, d: &MetaDelayedUpload)
    ensures
        final(out)@ == old(out)@ + enc_delayed(*d),
{
    let ghost base = out@;
    if d.complete {
        out.push(1u8);
    } else {
        out.push(0u8);
    }
    write_le(out, d.from.time_since_epoch_ms as u128, 8);
    write_le(out, d.to.time_since_epoch_ms as u128, 8);
    proof {
        assert(out@ =~= base + enc_delayed(*d));
    }
}

pub fn write_parent(out: &mut Vec<u8>, p: &MetaParent)
    ensures
        final(out)@ == old(out)@ + enc_parent(*p),
{
    let ghost base = out@;
    write_le(out, p.vec.parent_id.val, 16);
    write_le(out, p.vec.collection_id as u128, 8);
    proof {
        assert(out@ =~= base + enc_parent(*p));
    }
}

pub fn write_sig(out: &mut Vec<u8>, g: &MetaSignature)
    ensures
        final(out)@ == old(out)@ + enc_sig(g@),
{
    let ghost base = out@;
    write_hashes(out, &g.hashes);
    write_bytes(out, &g.signature);
    write_bytes(out, &g.public_key.bytes);
    proof {
        assert(out@ =~= base + enc_sig(g@));
    }
}

pub fn write_core(out: &mut Vec<u8>, m: &CoreMetadata)
    ensures
        final(out)@ == old(out)@ + enc_core(m@),
{
    let ghost base = out@;
    match m {
        CoreMetadata::Data(k) => {
            out.push(0u8);
            write_le(out, k.val, 16);
            proof {
                assert(out@ =~= base + enc_core(m@));
            }
        },
        CoreMetadata::Tombstone(k) => {
            out.push(1u8);
            write_le(out, k.val, 16);
            proof {
                assert(out@ =~= base + enc_core(m@));
            }
        },
        CoreMetadata::Authorization(a) => {
            out.push(2u8);
            write_auth(out, a);
            proof {
                assert(out@ =~= base + enc_core(m@));
            }
        },
        CoreMetadata::InitializationVector(iv) => {
            out.push(3u8);
            write_bytes(out, &iv.bytes);
            proof {
                assert(out@ =~= base + enc_core(m@));
            }
        },
        CoreMetadata::Tree(p) => {
            out.push(4u8);
            write_parent(out, p);
            proof {
                assert(out@ =~= base + enc_core(m@));
            }
        },
        CoreMetadata::Timestamp(t) => {
            out.push(5u8);
            write_le(out, t.time_since_epoch_ms as u128, 8);
            proof {
                assert(out@ =~= base + enc_core(m@));
            }
        },
        CoreMetadata::Signature(g) => {
            out.push(6u8);
            write_sig(out, g);
            proof {
                assert(out@ =~= base + enc_core(m@));
            }
        },
        CoreMetadata::SignWith(sw) => {
            out.push(7u8);
            write_hashes(out, &sw.keys);
            proof {
                assert(out@ =~= base + enc_core(m@));
            }
        },
        CoreMetadata::Confidentiality(c) => {
            out.push(8u8);
            write_conf(out, c);
            proof {
                assert(out@ =~= base + enc_core(m@));
            }
        },
        CoreMetadata::DelayedUpload(d) => {
            out.push(9u8);
            write_delayed(out, d);
            proof {
                assert(out@ =~= base + enc_core(m@));
            }
        },
    }
}

/// Writes the canonical byte form of a whole metadata list.
pub fn write_meta(out: &mut Vec<u8>, m: &Metadata)
    ensures
        final(out)@ == old(out)@ + enc_meta(m@),
{
    let ghost base = out@;
    write_le(out, m.core.len() as u128, 8);
    let ghost target = base + le_enc(m@.len() as int, 8) + enc_cores_rec(m@);
    proof {
        assert(m@.len() == m.core@.len());
        assert(m@.subrange(0, m@.len() as int) =~= m@);
    }
    let mut k: usize = 0;
    while k < m.core.len()
        invariant
            base == old(out)@,
            target == base + le_enc(m@.len() as int, 8) + enc_cores_rec(m@),
            k <= m.core@.len(),
            m@.len() == m.core@.len(),
            out@ + enc_cores_rec(m@.subrange(k as int, m@.len() as int)) == target,
        decreases m.core@.len() - k,
    {
        let ghost rem = m@.subrange(k as int, m@.len() as int);
        proof {
            assert(rem[0] == m@[k as int]);
            assert(m@[k as int] == m.core@[k as int]@);
            assert(rem.drop_first() =~= m@.subrange(k + 1, m@.len() as int));
        }
        write_core(out, &m.core[k]);
        k = k + 1;
        proof {
            assert(out@ + enc_cores_rec(m@.subrange(k as int, m@.len() as int)) =~= target);
        }
    }
    proof {
        assert(enc_cores_rec(m@.subrange(m@.len() as int, m@.len() as int))
            =~= Seq::<u8>::empty());
        assert(out@ =~= base + enc_meta(m@));
    }
}

/// The canonical byte form of a metadata value, as a fresh buffer.
pub fn meta_to_bytes(m: &Metadata) -> (r: Vec<u8>)
    ensures
        r@ == enc_meta(m@),
{
    let mut out: Vec<u8> = Vec::new();
    write_meta(&mut out, m);
    proof {
        assert(out@ =~= enc_meta(m@));
    }
    out
}

// ---------------------------------------------------------------------
// executable readers
// ---------------------------------------------------------------------

pub fn read_opt_key(buf: &Vec<u8>, pos: &mut usize) -> (r: Option<Option<EncryptKey>>)
    requires
        *old(pos) <= buf@.len(),
    ensures
        match r {
            Some(v) => {
                &&& p_opt_key(buf@, *old(pos) as int) == Some((v, *final(pos) as int))
                &&& *final(pos) <= buf@.len()
            },
            None => {
                &&& p_opt_key(buf@, *old(pos) as int) is None
                &&& *final(pos) == *old(pos)
            },
        },
{
    let start: usize = *pos;
    let t = match read_u8(buf, pos) {
        Some(t) => t,
        None => {
            return None;
        },
    };
    if t == 0 {
        Some(None)
    } else if t == 1 {
        match read_u128(buf, pos) {
            Some(v) => Some(Some(EncryptKey { val: v })),
            None => {
                *pos = start;
                None
            },
        }
    } else {
        *pos = start;
        None
    }
}

pub fn read_read_option(buf: &Vec<u8>, pos: &mut usize) -> (r: Option<ReadOption>)
    requires
        *old(pos) <= buf@.len(),
    ensures
        match r {
            Some(v) => {
                &&& p_read_option(buf@, *old(pos) as int) == Some((v, *final(pos) as int))
                &&& *final(pos) <= buf@.len()
            },
            None => {
                &&& p_read_option(buf@, *old(pos) as int) is None
                &&& *final(pos) == *old(pos)
            },
        },
{
    let start: usize = *pos;
    let t = match read_u8(buf, pos) {
        Some(t) => t,
        None => {
            return None;
        },
    };
    if t == 0 {
        Some(ReadOption::Inherit)
    } else if t == 1 {
        match read_opt_key(buf, pos) {
            Some(k) => Some(ReadOption::Everyone(k)),
            None => {
                *pos = start;
                None
            },
        }
    } else if t == 2 {
        let h = match read_u128(buf, pos) {
            Some(h) => h,
            None => {
                *pos = start;
                return None;
            },
        };
        match read_u128(buf, pos) {
            Some(d) => Some(
                ReadOption::Specific(AteHash { val: h }, KeyDerivation { salt: d }),
            ),
            None => {
                *pos = start;
                None
            },
        }
    } else {
        *pos = start;
        None
    }
}

pub fn read_write_option(buf: &Vec<u8>, pos: &mut usize) -> (r: Option<WriteOption>)
    requires
        *old(pos) <= buf@.len(),
    ensures
        match r {
            Some(v) => {
                &&& p_write_option(buf@, *old(pos) as int) == Some((v@, *final(pos) as int))
                &&& *final(pos) <= buf@.len()
            },
            None => {
                &&& p_write_option(buf@, *old(pos) as int) is None
                &&& *final(pos) == *old(pos)
            },
        },
{
    let start: usize = *pos;
    let t = match read_u8(buf, pos) {
        Some(t) => t,
        None => {
            return None;
        },
    };
    if t == 0 {
        Some(WriteOption::Inherit)
    } else if t == 1 {
        Some(WriteOption::Everyone)
    } else if t == 2 {
        Some(WriteOption::Nobody)
    } else if t == 3 {
        match read_u128(buf, pos) {
            Some(h) => Some(WriteOption::Specific(AteHash { val: h })),
            None => {
                *pos = start;
                None
            },
        }
    } else if t == 4 {
        match read_hashes(buf, pos) {
            Some(v) => Some(WriteOption::Any(v)),
            None => {
                *pos = start;
                None
            },
        }
    } else {
        *pos = start;
        None
    }
}

pub fn read_auth(buf: &Vec<u8>, pos: &mut usize) -> (r: Option<MetaAuthorization>)
    requires
        *old(pos) <= buf@.len(),
    ensures
        match r {
            Some(v) => {
                &&& p_auth(buf@, *old(pos) as int) == Some((v@, *final(pos) as int))
                &&& *final(pos) <= buf@.len()
            },
            None => {
                &&& p_auth(buf@, *old(pos) as int) is None
                &&& *final(pos) == *old(pos)
            },
        },
{
    let start: usize = *pos;
    let read = match read_read_option(buf, pos) {
        Some(v) => v,
        None => {
            return None;
        },
    };
    match read_write_option(buf, pos) {
        Some(write) => Some(MetaAuthorization { read, write }),
        None => {
            *pos = start;
            None
        },
    }
}

pub fn read_conf(buf: &Vec<u8>, pos: &mut usize) -> (r: Option<MetaConfidentiality>)
    requires
        *old(pos) <= buf@.len(),
    ensures
        match r {
            Some(v) => {
                &&& p_conf(buf@, *old(pos) as int) == Some((v, *final(pos) as int))
                &&& *final(pos) <= buf@.len()
            },
            None => {
                &&& p_conf(buf@, *old(pos) as int) is None
                &&& *final(pos) == *old(pos)
            },
        },
{
    let start: usize = *pos;
    let h = match read_u64(buf, pos) {
        Some(h) => h,
        None => {
            return None;
        },
    };
    let t = match read_u8(buf, pos) {
        Some(t) => t,
        None => {
            *pos = start;
            return None;
        },
    };
    if t == 0 {
        Some(MetaConfidentiality { hash: h, cache: None })
    } else if t == 1 {
        match read_read_option(buf, pos) {
            Some(r0) => Some(MetaConfidentiality { hash: h, cache: Some(r0) }),
            None => {
                *pos = start;
                None
            },
        }
    } else {
        *pos = start;
        None
    }
}

pub fn read_delayed(buf: &Vec<u8>, pos: &mut usize) -> (r: Option<MetaDelayedUpload>)
    requires
        *old(pos) <= buf@.len(),
    ensures
        match r {
            Some(v) => {
                &&& p_delayed(buf@, *old(pos) as int) == Some((v, *final(pos) as int))
                &&& *final(pos) <= buf@.len()
            },
            None => {
                &&& p_delayed(buf@, *old(pos) as int) is None
                &&& *final(pos) == *old(pos)
            },
        },
{
    let start: usize = *pos;
    let t = match read_u8(buf, pos) {
        Some(t) => t,
        None => {
            return None;
        },
    };
    if t > 1 {
        *pos = start;
        return None;
    }
    let f = match read_u64(buf, pos) {
        Some(f) => f,
        None => {
            *pos = start;
            return None;
        },
    };
    match read_u64(buf, pos) {
        Some(to) => Some(
            MetaDelayedUpload {
                complete: t == 1,
                from: ChainTimestamp { time_since_epoch_ms: f },
                to: ChainTimestamp { time_since_epoch_ms: to },
            },
        ),
        None => {
            *pos = start;
            None
        },
    }
}

pub fn read_parent(buf: &Vec<u8>, pos: &mut usize) -> (r: Option<MetaParent>)
    requires
        *old(pos) <= buf@.len(),
    ensures
        match r {
            Some(v) => {
                &&& p_parent(buf@, *old(pos) as int) == Some((v, *final(pos) as int))
                &&& *final(pos) <= buf@.len()
            },
            None => {
                &&& p_parent(buf@, *old(pos) as int) is None
                &&& *final(pos) == *old(pos)
            },
        },
{
    let start: usize = *pos;
    let pid = match read_u128(buf, pos) {
        Some(pid) => pid,
        None => {
            return None;
        },
    };
    match read_u64(buf, pos) {
        Some(cid) => Some(
            MetaParent {
                vec: MetaCollection {
                    parent_id: PrimaryKey { val: pid },
                    collection_id: cid,
                },
            },
        ),
        None => {
            *pos = start;
            None
        },
    }
}

pub fn read_sig(buf: &Vec<u8>, pos: &mut usize) -> (r: Option<MetaSignature>)
    requires
        *old(pos) <= buf@.len(),
    ensures
        match r {
            Some(v) => {
                &&& p_sig(buf@, *old(pos) as int) == Some((v@, *final(pos) as int))
                &&& *final(pos) <= buf@.len()
            },
            None => {
                &&& p_sig(buf@, *old(pos) as int) is None
                &&& *final(pos) == *old(pos)
            },
        },
{
    let start: usize = *pos;
    let hashes = match read_hashes(buf, pos) {
        Some(v) => v,
        None => {
            return None;
        },
    };
    let signature = match read_bytes(buf, pos) {
        Some(v) => v,
        None => {
            *pos = start;
            return None;
        },
    };
    match read_bytes(buf, pos) {
        Some(pk) => Some(
            MetaSignature { hashes, signature, public_key: PublicSignKey { bytes: pk } },
        ),
        None => {
            *pos = start;
            None
        },
    }
}

pub fn read_core(buf: &Vec<u8>, pos: &mut usize) -> (r: Option<CoreMetadata>)
    requires
        *old(pos) <= buf@.len(),
    ensures
        match r {
            Some(v) => {
                &&& p_core(buf@, *old(pos) as int) == Some((v@, *final(pos) as int))
                &&& *final(pos) <= buf@.len()
            },
            None => {
                &&& p_core(buf@, *old(pos) as int) is None
                &&& *final(pos) == *old(pos)
            },
        },
{
    let start: usize = *pos;
    let t = match read_u8(buf, pos) {
        Some(t) => t,
        None => {
            return None;
        },
    };
    if t == 0 {
        match read_u128(buf, pos) {
            Some(k) => Some(CoreMetadata::Data(PrimaryKey { val: k })),
            None => {
                *pos = start;
                None
            },
        }
    } else if t == 1 {
        match read_u128(buf, pos) {
            Some(k) => Some(CoreMetadata::Tombstone(PrimaryKey { val: k })),
            None => {
                *pos = start;
                None
            },
        }
    } else if t == 2 {
        match read_auth(buf, pos) {
            Some(a) => Some(CoreMetadata::Authorization(a)),
            None => {
                *pos = start;
                None
            },
        }
    } else if t == 3 {
        match read_bytes(buf, pos) {
            Some(iv) => Some(
                CoreMetadata::InitializationVector(InitializationVector { bytes: iv }),
            ),
            None => {
                *pos = start;
                None
            },
        }
    } else if t == 4 {
        match read_parent(buf, pos) {
            Some(p) => Some(CoreMetadata::Tree(p)),
            None => {
                *pos = start;
                None
            },
        }
    } else if t == 5 {
        match read_u64(buf, pos) {
            Some(ts) => Some(
                CoreMetadata::Timestamp(ChainTimestamp { time_since_epoch_ms: ts }),
            ),
            None => {
                *pos = start;
                None
            },
        }
    } else if t == 6 {
        match read_sig(buf, pos) {
            Some(g) => Some(CoreMetadata::Signature(g)),
            None => {
                *pos = start;
                None
            },
        }
    } else if t == 7 {
        match read_hashes(buf, pos) {
            Some(k) => Some(CoreMetadata::SignWith(MetaSignWith { keys: k })),
            None => {
                *pos = start;
                None
            },
        }
    } else if t == 8 {
        match read_conf(buf, pos) {
            Some(c) => Some(CoreMetadata::Confidentiality(c)),
            None => {
                *pos = start;
                None
            },
        }
    } else if t == 9 {
        match read_delayed(buf, pos) {
            Some(d) => Some(CoreMetadata::DelayedUpload(d)),
            None => {
                *pos = start;
                None
            },
        }
    } else {
        *pos = start;
        None
    }
}

/// Reads a whole metadata list.
pub fn read_meta(buf: &Vec<u8>, pos: &mut usize) -> (r: Option<Metadata>)
    requires
        *old(pos) <= buf@.len(),
    ensures
        match r {
            Some(m) => {
                &&& p_meta(buf@, *old(pos) as int) == Some((m@, *final(pos) as int))
                &&& *final(pos) <= buf@.len()
            },
            None => {
                &&& p_meta(buf@, *old(pos) as int) is None
                &&& *final(pos) == *old(pos)
            },
        },
{
    let start: usize = *pos;
    let n = match read_u64(buf, pos) {
        Some(n) => n,
        None => {
            return None;
        },
    };
    let mut core: Vec<CoreMetadata> = Vec::new();
    let mut k: u64 = 0;
    while k < n
        invariant
            start == *old(pos),
            k <= n,
            *pos <= buf@.len(),
            core@.len() == k,
            p_meta(buf@, start as int) == (match p_cores_rec(
                buf@,
                *pos as int,
                (n - k) as nat,
            ) {
                Some((rest, end)) => Some::<(Seq<CoreMetadataV>, int)>((
                    core@.map_values(|mm: CoreMetadata| mm@) + rest,
                    end,
                )),
                None => None,
            }),
        decreases n - k,
    {
        let ghost pos_before = *pos as int;
        let ghost v_before = core@.map_values(|mm: CoreMetadata| mm@);
        let item = match read_core(buf, pos) {
            Some(item) => item,
            None => {
                proof {
                    assert(p_cores_rec(buf@, pos_before, (n - k) as nat) is None);
                }
                *pos = start;
                return None;
            },
        };
        let ghost item_v = item@;
        core.push(item);
        k = k + 1;
        proof {
            assert(core@.map_values(|mm: CoreMetadata| mm@) =~= v_before.push(item_v));
            match p_cores_rec(buf@, *pos as int, (n - k) as nat) {
                Some((rest, end)) => {
                    assert(p_cores_rec(buf@, pos_before, (n - k + 1) as nat) == Some::<
                        (Seq<CoreMetadataV>, int),
                    >((seq![item_v] + rest, end)));
                    assert(v_before + (seq![item_v] + rest) =~= v_before.push(item_v) + rest);
                },
                None => {
                    assert(p_cores_rec(buf@, pos_before, (n - k + 1) as nat) is None);
                },
            }
        }
    }
    proof {
        assert(p_cores_rec(buf@, *pos as int, 0) == Some::<(Seq<CoreMetadataV>, int)>((
            Seq::empty(),
            *pos as int,
        )));
        let vv = core@.map_values(|mm: CoreMetadata| mm@);
        assert(vv + Seq::<CoreMetadataV>::empty() =~= vv);
    }
    Some(Metadata { core })
}


} // verus!
