use proctime::output::DISCARD_CHUNK_SIZE;
use proctime::DiscardPump;

#[test]
fn chunk_request_is_constant() {
    // However much has been drained, the next request is one fixed chunk,
    // so draining N megabytes never grows the working set with N.
    let mut pump = DiscardPump::new();
    assert_eq!(pump.drained, 0);
    assert_eq!(pump.chunk_request(), DISCARD_CHUNK_SIZE);
    assert_eq!(DISCARD_CHUNK_SIZE, 64 * 1024);
    for _ in 0..1000 {
        assert!(pump.observe(DISCARD_CHUNK_SIZE));
        assert_eq!(pump.chunk_request(), DISCARD_CHUNK_SIZE);
    }
    assert_eq!(pump.drained, 1000 * DISCARD_CHUNK_SIZE as u64);
}

#[test]
fn drain_stops_exactly_on_empty_transfer() {
    let mut pump = DiscardPump::new();
    assert!(pump.observe(1));
    assert!(pump.observe(DISCARD_CHUNK_SIZE));
    assert!(!pump.observe(0));
    assert_eq!(pump.drained, 1 + DISCARD_CHUNK_SIZE as u64);
}

#[test]
fn drained_total_saturates() {
    let mut pump = DiscardPump::new();
    pump.drained = u64::MAX - 1;
    assert!(pump.observe(17));
    assert_eq!(pump.drained, u64::MAX);
}
