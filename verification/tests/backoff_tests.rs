use rapid_net::backoff::{next_reconnect_delay, INITIAL_RECONNECT_DELAY_SECS, MAX_RECONNECT_DELAY_SECS};

#[test]
fn delays_double_up_to_a_minute() {
    let mut d = INITIAL_RECONNECT_DELAY_SECS;
    let mut seen = vec![d];
    for _ in 0..9 {
        d = next_reconnect_delay(d);
        seen.push(d);
    }
    assert_eq!(seen, vec![1, 2, 4, 8, 16, 32, 60, 60, 60, 60]);
    assert_eq!(next_reconnect_delay(MAX_RECONNECT_DELAY_SECS), 60);
    assert_eq!(next_reconnect_delay(29), 58);
    assert_eq!(next_reconnect_delay(30), 60);
}
