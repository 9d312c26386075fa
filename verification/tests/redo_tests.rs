use ate::error::LogError;
use ate::event::{EventData, MessageFormat};
use ate::meta::{ChainTimestamp, CoreMetadata, Metadata};
use ate::redo::RedoLog;
use ate::PrimaryKey;

fn ev(key: u128, stamp: u64, payload: &[u8]) -> EventData {
    let meta = Metadata {
        core: vec![
            CoreMetadata::Data(PrimaryKey { val: key }),
            CoreMetadata::Timestamp(ChainTimestamp { time_since_epoch_ms: stamp }),
        ],
    };
    EventData::new(meta, Some(payload.to_vec()), MessageFormat::Binary)
}

#[test]
fn append_then_open_recovers_everything() {
    let mut log = RedoLog::new(0);
    let l1 = log.append(&ev(1, 10, b"one")).expect("appends");
    let l2 = log.append(&ev(2, 20, b"two")).expect("appends");
    assert_eq!(l1.offset, 4);
    assert!(l2.offset > l1.offset);
    log.sync();
    let image = log.data.clone();
    let (_log2, evs) = RedoLog::open(0, &image).expect("opens");
    assert_eq!(evs.len(), 2);
    assert_eq!(evs[0].0.offset, l1.offset);
    assert_eq!(evs[1].0.offset, l2.offset);
    assert_eq!(evs[0].1.data_bytes.as_ref().unwrap(), &b"one".to_vec());
    assert_eq!(evs[1].1.data_bytes.as_ref().unwrap(), &b"two".to_vec());
}

#[test]
fn truncated_tail_recovers_prefix() {
    let mut log = RedoLog::new(0);
    log.append(&ev(1, 10, b"one")).expect("appends");
    let keep = log.data.len();
    log.append(&ev(2, 20, b"two")).expect("appends");
    // cut the second frame in half: replay stops at the last whole one
    let mut image = log.data.clone();
    image.truncate(keep + 5);
    let (log2, evs) = RedoLog::open(0, &image).expect("opens");
    assert_eq!(evs.len(), 1);
    assert_eq!(evs[0].1.data_bytes.as_ref().unwrap(), &b"one".to_vec());
    assert_eq!(log2.data.len(), keep);
}

#[test]
fn garbage_tail_recovers_prefix() {
    let mut log = RedoLog::new(0);
    log.append(&ev(1, 10, b"one")).expect("appends");
    let mut image = log.data.clone();
    image.extend_from_slice(&[0xFFu8; 6]);
    let (_log2, evs) = RedoLog::open(0, &image).expect("opens");
    assert_eq!(evs.len(), 1);
}

#[test]
fn bad_magic_is_refused() {
    // not a log at all
    let image = vec![0x57u8, 0x31, 0, 0];
    match RedoLog::open(0, &image) {
        Err(LogError::BadMagic) => {}
        _ => panic!("expected a bad magic refusal"),
    }
    // a version marker below the first version
    let old_version = vec![0x56u8, 0x30, 0, 0];
    assert!(matches!(RedoLog::open(0, &old_version), Err(LogError::BadMagic)));
    // a truncated header
    let short = vec![0x56u8, 0x31];
    assert!(matches!(RedoLog::open(0, &short), Err(LogError::BadMagic)));
}

#[test]
fn later_version_headers_are_accepted() {
    let image = vec![0x56u8, 0x32, 0, 0];
    let (log, evs) = RedoLog::open(0, &image).expect("a later version opens");
    assert_eq!(evs.len(), 0);
    assert_eq!(log.data, image);
}

#[test]
fn empty_image_becomes_fresh_stamped_log() {
    let (log, evs) = RedoLog::open(7, &Vec::new()).expect("opens");
    assert_eq!(evs.len(), 0);
    assert_eq!(log.data, vec![0x56u8, 0x31, 0, 0]);
    assert_eq!(log.index, 7);
}

#[test]
fn empty_payload_is_refused() {
    let mut log = RedoLog::new(0);
    let meta = Metadata { core: vec![CoreMetadata::Data(PrimaryKey { val: 1 })] };
    let bad = EventData { meta, data_bytes: Some(Vec::new()), format: MessageFormat::Binary };
    assert!(matches!(log.append(&bad), Err(LogError::EmptyPayload)));
}

#[test]
fn read_at_returns_the_stored_event() {
    let mut log = RedoLog::new(0);
    let l1 = log.append(&ev(1, 10, b"one")).expect("appends");
    let l2 = log.append(&ev(2, 20, b"two")).expect("appends");
    let e1 = log.read_at(l1.offset).expect("reads");
    let e2 = log.read_at(l2.offset).expect("reads");
    assert_eq!(e1.data_bytes.unwrap(), b"one".to_vec());
    assert_eq!(e2.data_bytes.unwrap(), b"two".to_vec());
    assert!(log.read_at(log.len()).is_none());
}

#[test]
fn sync_and_flush_move_the_watermarks() {
    let mut log = RedoLog::new(0);
    assert_eq!(log.synced, 4);
    log.append(&ev(1, 10, b"one")).expect("appends");
    assert!(log.synced < log.data.len());
    log.flush();
    assert_eq!(log.flushed, log.data.len());
    assert!(log.synced < log.data.len());
    log.sync();
    assert_eq!(log.synced, log.data.len());
    assert_eq!(log.offset(), log.len());
}
