use thther::client::reconnect::Backoff;

#[test]
fn delays_double_up_to_five_seconds() {
    let mut b = Backoff::new();
    let delays: Vec<u64> = (0..8).map(|_| b.next_delay()).collect();
    assert_eq!(delays, [250, 500, 1000, 2000, 4000, 5000, 5000, 5000]);
    b.reset();
    assert_eq!(b.next_delay(), 250);
    assert_eq!(b.next_delay(), 500);
}
