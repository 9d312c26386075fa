use ate::bus::{BusEngine, BusError, CallHandle};

#[test]
fn calls_open_once_and_deliver() {
    let mut engine: BusEngine<u32> = BusEngine::new();
    let h = CallHandle { id: 1 };
    engine.start(100, h).expect("opens");
    assert!(matches!(engine.start(100, h), Err(BusError::InvalidHandle)));
    engine.subscribe(&h, 55u32);
    let w = engine.result(h, b"payload".to_vec());
    assert_eq!(w, Some(55));
    let inbox = engine.take_inbox();
    assert_eq!(inbox.len(), 1);
    assert_eq!(inbox[0].0, 1);
    assert_eq!(inbox[0].1, b"payload".to_vec());
    // orphaned responses are dropped
    let w = engine.finish_callback(CallHandle { id: 9 }, b"x".to_vec());
    assert!(w.is_none());
    assert!(engine.take_inbox().is_empty());
}

#[test]
fn faults_are_queued_for_known_calls() {
    let mut engine: BusEngine<u8> = BusEngine::new();
    let h = CallHandle { id: 4 };
    engine.start(7, h).expect("opens");
    engine.subscribe(&h, 9u8);
    let w = engine.error(h, BusError::Aborted);
    assert_eq!(w, Some(9));
    let faults = engine.take_faults();
    assert_eq!(faults, vec![(4u32, BusError::Aborted)]);
}

#[test]
fn closing_a_parent_closes_its_children() {
    let mut engine: BusEngine<u8> = BusEngine::new();
    let parent = CallHandle { id: 1 };
    let child = CallHandle { id: 2 };
    let grandchild = CallHandle { id: 3 };
    engine.start(10, parent).expect("opens");
    engine.start(11, child).expect("opens");
    engine.start(12, grandchild).expect("opens");
    engine.add_callback(parent, child);
    engine.add_callback(child, grandchild);
    engine.subscribe(&grandchild, 3u8);
    engine.close(&parent);
    // all three are gone: responses for them are now orphaned
    for id in [1u32, 2, 3] {
        let w = engine.finish_callback(CallHandle { id }, b"x".to_vec());
        assert!(w.is_none());
    }
    assert!(engine.take_inbox().is_empty());
}
