use obfustring::{FixedSequence, RandomByteSource, ThreadRandom};

#[test]
fn thread_source_stays_in_range() {
    let mut rng = ThreadRandom::new();
    for _ in 0..2000 {
        assert!(rng.next_in_range(0, 80) < 80);
        let value = rng.next_in_range(10, 13);
        assert!((10..13).contains(&value));
        assert_eq!(rng.next_in_range(255 - 1, 255), 254);
    }
}

#[test]
fn thread_source_reaches_every_byte_of_a_range() {
    let mut rng = ThreadRandom::new();
    let mut seen = [false; 80];
    for _ in 0..20000 {
        seen[rng.next_in_range(0, 80) as usize] = true;
    }
    assert!(seen.iter().all(|hit| *hit));
}

#[test]
fn fixed_source_replays_its_list_and_starts_over() {
    let mut rng = FixedSequence::new(vec![5, 3, 9]);
    let drawn: Vec<u8> = (0..7).map(|_| rng.next_in_range(0, 80)).collect();
    assert_eq!(drawn, vec![5, 3, 9, 5, 3, 9, 5]);
}

#[test]
fn fixed_source_moves_bytes_into_the_range() {
    let mut rng = FixedSequence::new(vec![200, 80, 79, 0]);
    assert_eq!(rng.next_in_range(0, 80), 79);
    assert_eq!(rng.next_in_range(0, 80), 79);
    assert_eq!(rng.next_in_range(0, 80), 79);
    assert_eq!(rng.next_in_range(0, 80), 0);
    let mut high = FixedSequence::new(vec![5, 15, 25]);
    assert_eq!(high.next_in_range(10, 20), 10);
    assert_eq!(high.next_in_range(10, 20), 15);
    assert_eq!(high.next_in_range(10, 20), 19);
}

#[test]
fn empty_fixed_source_answers_with_the_lowest_byte() {
    let mut rng = FixedSequence::new(Vec::new());
    assert_eq!(rng.next_in_range(0, 80), 0);
    assert_eq!(rng.next_in_range(7, 9), 7);
}
