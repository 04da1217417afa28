use overclock::spawning::{spawn_count, SPAWN_BATCH};

#[test]
fn spawning_rounds_fill_up_in_batches() {
    assert_eq!(spawn_count(0, 80), 10);
    assert_eq!(spawn_count(75, 80), 5);
    assert_eq!(spawn_count(80, 80), 0);
    assert_eq!(spawn_count(90, 80), 0);
    assert_eq!(spawn_count(0, 0), 0);
    assert_eq!(SPAWN_BATCH, 10);
    // rounds from an empty world reach the maximum exactly
    let mut current = 0;
    let mut rounds = 0;
    while spawn_count(current, 50) > 0 {
        current += spawn_count(current, 50);
        rounds += 1;
    }
    assert_eq!((current, rounds), (50, 5));
}
