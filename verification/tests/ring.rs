use tcp_network::ring::ReaderRing;

#[test]
fn ring_visits_workers_in_turn() {
    let mut ring = ReaderRing::new(3);
    assert_eq!(ring.len(), 3);
    let picked: Vec<Option<usize>> = (0..7).map(|_| ring.pick()).collect();
    assert_eq!(
        picked,
        vec![Some(0), Some(1), Some(2), Some(0), Some(1), Some(2), Some(0)]
    );
}

#[test]
fn ring_of_one_worker() {
    let mut ring = ReaderRing::new(1);
    for _ in 0..4 {
        assert_eq!(ring.pick(), Some(0));
    }
}

#[test]
fn empty_ring_picks_nobody() {
    let mut ring = ReaderRing::new(0);
    assert_eq!(ring.len(), 0);
    assert_eq!(ring.pick(), None);
    assert_eq!(ring.pick(), None);
}
