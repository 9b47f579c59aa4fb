use std::time::{Duration, SystemTime, UNIX_EPOCH};

use agent::clock::{now_secs, secs_since_epoch};

#[test]
fn the_clock_is_read_in_whole_seconds() {
    assert_eq!(secs_since_epoch(Ok(Duration::from_millis(2999))), 2);
    let before_epoch = UNIX_EPOCH - Duration::from_secs(5);
    assert_eq!(secs_since_epoch(before_epoch.duration_since(UNIX_EPOCH)), 0);
    let read = secs_since_epoch(SystemTime::now().duration_since(UNIX_EPOCH));
    assert!(read <= now_secs());
}
