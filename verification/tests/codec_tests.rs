use ate::codec::{meta_to_bytes, read_meta};
use ate::crypto::{AteHash, EncryptKey, InitializationVector, KeyDerivation, PublicSignKey};
use ate::meta::{
    ChainTimestamp, CoreMetadata, Metadata, MetaAuthorization, MetaCollection,
    MetaConfidentiality, MetaDelayedUpload, MetaParent, MetaSignature, MetaSignWith, ReadOption,
    WriteOption,
};
use ate::PrimaryKey;

fn sample_meta() -> Metadata {
    Metadata {
        core: vec![
            CoreMetadata::Data(PrimaryKey { val: 77 }),
            CoreMetadata::Tombstone(PrimaryKey { val: 12345678901234567890 }),
            CoreMetadata::Authorization(MetaAuthorization {
                read: ReadOption::Specific(AteHash { val: 42 }, KeyDerivation { salt: 7 }),
                write: WriteOption::Any(vec![AteHash { val: 1 }, AteHash { val: 2 }]),
            }),
            CoreMetadata::InitializationVector(InitializationVector { bytes: vec![9, 8, 7] }),
            CoreMetadata::Tree(MetaParent {
                vec: MetaCollection { parent_id: PrimaryKey { val: 5 }, collection_id: 3 },
            }),
            CoreMetadata::Timestamp(ChainTimestamp { time_since_epoch_ms: 1699999999 }),
            CoreMetadata::Signature(MetaSignature {
                hashes: vec![AteHash { val: 10 }, AteHash { val: 11 }],
                signature: vec![1, 2, 3, 4],
                public_key: PublicSignKey { bytes: vec![5; 32] },
            }),
            CoreMetadata::SignWith(MetaSignWith { keys: vec![AteHash { val: 99 }] }),
            CoreMetadata::Confidentiality(MetaConfidentiality {
                hash: 0xDEAD,
                cache: Some(ReadOption::Everyone(Some(EncryptKey { val: 55 }))),
            }),
            CoreMetadata::DelayedUpload(MetaDelayedUpload {
                complete: false,
                from: ChainTimestamp { time_since_epoch_ms: 1 },
                to: ChainTimestamp { time_since_epoch_ms: 2 },
            }),
        ],
    }
}

#[test]
fn meta_round_trip_all_variants() {
    let m = sample_meta();
    let bytes = meta_to_bytes(&m);
    let mut pos = 0usize;
    let back = read_meta(&bytes, &mut pos).expect("decodes");
    assert_eq!(pos, bytes.len());
    assert_eq!(back.core.len(), m.core.len());
    match (&back.core[0], &m.core[0]) {
        (CoreMetadata::Data(a), CoreMetadata::Data(b)) => assert_eq!(a.val, b.val),
        _ => panic!("variant mismatch"),
    }
    match &back.core[2] {
        CoreMetadata::Authorization(a) => {
            match &a.write {
                WriteOption::Any(v) => assert_eq!(v.len(), 2),
                _ => panic!("write option mismatch"),
            }
        }
        _ => panic!("variant mismatch"),
    }
    match &back.core[6] {
        CoreMetadata::Signature(g) => {
            assert_eq!(g.hashes.len(), 2);
            assert_eq!(g.signature, vec![1, 2, 3, 4]);
            assert_eq!(g.public_key.bytes, vec![5; 32]);
        }
        _ => panic!("variant mismatch"),
    }
    // re-encode gives identical bytes: the form is canonical
    let bytes2 = meta_to_bytes(&back);
    assert_eq!(bytes, bytes2);
}

#[test]
fn meta_decode_rejects_bad_tag() {
    let m = Metadata { core: vec![CoreMetadata::Data(PrimaryKey { val: 1 })] };
    let mut bytes = meta_to_bytes(&m);
    bytes[8] = 250; // corrupt the first entry's tag
    let mut pos = 0usize;
    assert!(read_meta(&bytes, &mut pos).is_none());
    assert_eq!(pos, 0);
}

#[test]
fn meta_decode_rejects_truncation() {
    let m = sample_meta();
    let bytes = meta_to_bytes(&m);
    let cut: Vec<u8> = bytes[0..bytes.len() - 1].to_vec();
    let mut pos = 0usize;
    assert!(read_meta(&cut, &mut pos).is_none());
}

#[test]
fn empty_meta_round_trip() {
    let m = Metadata::new();
    let bytes = meta_to_bytes(&m);
    assert_eq!(bytes.len(), 8);
    let mut pos = 0usize;
    let back = read_meta(&bytes, &mut pos).expect("decodes");
    assert_eq!(back.core.len(), 0);
}
