use signature_scanner::{PatternElement, Signature};

const BUFFER: [u8; 11] = [0x00, 0x12, 0x34, 0x56, 0x12, 0x54, 0x12, 0x34, 0x00, 0x55, 0xAA];

fn brute_force(signature: &Signature, buffer: &[u8]) -> Vec<usize> {
    let elements = signature.get_elements();
    let mut found = Vec::new();
    for at in 0..=buffer.len() {
        if at + elements.len() > buffer.len() {
            break;
        }
        let mut equal = true;
        for (j, element) in elements.iter().enumerate() {
            match element.0 {
                Some(b) => equal = equal && b == buffer[at + j],
                None => {}
            }
        }
        if equal {
            found.push(at);
        }
    }
    found
}

fn sample(len: usize, seed: u32) -> Vec<u8> {
    let mut state = seed;
    let mut bytes = Vec::new();
    for _ in 0..len {
        state = state.wrapping_mul(1664525).wrapping_add(1013904223);
        bytes.push(((state >> 24) % 3) as u8);
    }
    bytes
}

#[test]
fn test_next_search_behavior() {
    assert_eq!(
        Signature::ida("12 34")
            .unwrap()
            .next(&[0x00u8, 0x12, 0x34, 0x56, 0x12, 0x54, 0x12, 0x34, 0x00, 0x55, 0xAA]),
        Some(1)
    );

    assert_eq!(
        Signature::string("lo, wor", false).next("Hello, world!".as_bytes()),
        Some(3)
    );
}

#[test]
fn test_prev_search_behavior() {
    assert_eq!(
        Signature::ida("12 34")
            .unwrap()
            .prev(&[0x00u8, 0x12, 0x34, 0x56, 0x12, 0x54, 0x12, 0x34, 0x00, 0x55, 0xAA]),
        Some(6)
    );

    assert_eq!(
        Signature::string("lo, wor", false).prev("Hello, world!".as_bytes()),
        Some(3)
    );
}

#[test]
fn test_all_search_behavior() {
    assert_eq!(
        Signature::ida("12 34")
            .unwrap()
            .all(&[0x00u8, 0x12, 0x34, 0x56, 0x12, 0x54, 0x12, 0x34, 0x00, 0x55, 0xAA])
            .collect(),
        [1, 6]
    );

    assert_eq!(
        Signature::string("lo, wor", false)
            .all("Hello, world!".as_bytes())
            .collect(),
        [3]
    );
}

#[test]
fn test_matches_behavior() {
    assert!(Signature::ida("12 34").unwrap().matches(&[0x12u8, 0x34]));

    assert!(Signature::string("lo, wor", false).matches("lo, wor".as_bytes()));
}

#[test]
fn matches_needs_the_length_of_the_pattern() {
    let signature = Signature::ida("12 34").unwrap();
    assert!(signature.matches(&[0x12, 0x34]));
    assert!(!signature.matches(&[0x12, 0x34, 0x00]));
    assert!(!signature.matches(&[0x12]));
    assert!(!signature.matches(&[]));
    assert!(!signature.matches(&[0x12, 0x35]));
    assert!(!signature.matches(&[0x13, 0x34]));
}

#[test]
fn wildcards_match_any_byte() {
    let signature = Signature::wildcard_string("T?st", '?', false);
    assert!(signature.matches(b"Test"));
    assert!(signature.matches(b"T st"));
    assert!(signature.matches(b"T\0st"));
    assert!(signature.matches(b"T\xffst"));
    assert!(!signature.matches(b"Tesa"));
    assert!(!signature.matches(b"test"));
    assert!(!signature.matches(b"Tests"));
    assert_eq!(signature.next(b"a Tost and a Test"), Some(2));
    assert_eq!(signature.prev(b"a Tost and a Test"), Some(13));
    assert_eq!(signature.all(b"a Tost and a Test").collect(), [2, 13]);
}

#[test]
fn pattern_of_wildcards_matches_every_window() {
    let signature = Signature::ida("? ?? ???").unwrap();
    assert_eq!(signature.next(&BUFFER), Some(0));
    assert_eq!(signature.prev(&BUFFER), Some(8));
    assert_eq!(signature.all(&BUFFER).collect(), [0, 1, 2, 3, 4, 5, 6, 7, 8]);
}

#[test]
fn overlapping_occurrences_are_all_found() {
    let signature = Signature::ida("AA AA").unwrap();
    let buffer = [0xAAu8, 0xAA, 0xAA, 0xAA, 0x00, 0xAA, 0xAA];
    assert_eq!(signature.next(&buffer), Some(0));
    assert_eq!(signature.prev(&buffer), Some(5));
    assert_eq!(signature.all(&buffer).collect(), [0, 1, 2, 5]);
}

#[test]
fn occurrences_at_both_ends() {
    let signature = Signature::ida("00 ?? 34").unwrap();
    let buffer = [0x00u8, 0x12, 0x34, 0x00, 0x00, 0x34];
    assert_eq!(signature.next(&buffer), Some(0));
    assert_eq!(signature.prev(&buffer), Some(3));
    assert_eq!(signature.all(&buffer).collect(), [0, 3]);
    assert_eq!(signature.all(&buffer[..3]).collect(), [0]);
}

#[test]
fn nothing_found() {
    let signature = Signature::ida("12 35").unwrap();
    assert_eq!(signature.next(&BUFFER), None);
    assert_eq!(signature.prev(&BUFFER), None);
    assert_eq!(signature.all(&BUFFER).collect(), Vec::<usize>::new());
    assert!(!signature.matches(&BUFFER));
}

#[test]
fn pattern_longer_than_the_buffer() {
    let signature = Signature::ida("12 34 56").unwrap();
    for buffer in [&[][..], &[0x12][..], &[0x12, 0x34][..]] {
        assert_eq!(signature.next(buffer), None);
        assert_eq!(signature.prev(buffer), None);
        assert_eq!(signature.all(buffer).collect(), Vec::<usize>::new());
        assert!(!signature.matches(buffer));
    }
    let wildcards = Signature::ida("? ? ?").unwrap();
    assert_eq!(wildcards.next(&[1, 2]), None);
    assert_eq!(wildcards.prev(&[1, 2]), None);
    assert_eq!(wildcards.all(&[1, 2]).collect(), Vec::<usize>::new());
}

#[test]
fn pattern_as_long_as_the_buffer() {
    let signature = Signature::ida("12 ? 56").unwrap();
    assert_eq!(signature.next(&[0x12, 0x34, 0x56]), Some(0));
    assert_eq!(signature.prev(&[0x12, 0x34, 0x56]), Some(0));
    assert_eq!(signature.all(&[0x12, 0x34, 0x56]).collect(), [0]);
    assert_eq!(signature.next(&[0x12, 0x34, 0x57]), None);
}

#[test]
fn empty_pattern_is_found_at_every_offset() {
    let signature = Signature::new(Vec::new());
    assert_eq!(signature.next(&[1, 2, 3]), Some(0));
    assert_eq!(signature.prev(&[1, 2, 3]), Some(3));
    assert_eq!(signature.all(&[1, 2, 3]).collect(), [0, 1, 2, 3]);
    assert_eq!(signature.next(&[]), Some(0));
    assert_eq!(signature.prev(&[]), Some(0));
    assert_eq!(signature.all(&[]).collect(), [0]);
    assert!(signature.matches(&[]));
    assert!(!signature.matches(&[0]));
}

#[test]
fn first_occurrence_has_none_before_it() {
    for seed in 0..50u32 {
        let buffer = sample(60, seed);
        let signature = Signature::new(vec![
            PatternElement(Some(1)),
            PatternElement(None),
            PatternElement(Some(2)),
        ]);
        let expected = brute_force(&signature, &buffer);
        assert_eq!(signature.next(&buffer), expected.first().copied());
        if let Some(at) = signature.next(&buffer) {
            assert!(signature.matches(&buffer[at..at + 3]));
            for earlier in 0..at {
                assert!(!signature.matches(&buffer[earlier..earlier + 3]));
            }
        }
    }
}

#[test]
fn last_occurrence_has_none_behind_it() {
    for seed in 0..50u32 {
        let buffer = sample(60, seed);
        let signature = Signature::new(vec![
            PatternElement(Some(0)),
            PatternElement(Some(2)),
            PatternElement(None),
        ]);
        let expected = brute_force(&signature, &buffer);
        assert_eq!(signature.prev(&buffer), expected.last().copied());
        if let Some(at) = signature.prev(&buffer) {
            assert!(signature.matches(&buffer[at..at + 3]));
            for later in at + 1..=buffer.len() - 3 {
                assert!(!signature.matches(&buffer[later..later + 3]));
            }
        }
    }
}

#[test]
fn all_occurrences_are_those_of_a_plain_comparison() {
    for seed in 0..50u32 {
        let buffer = sample(80, seed);
        for notation in ["00", "01 02", "?? 01", "00 ? 00", "02 02 ?", "? ?", ""] {
            let signature = Signature::ida(notation).unwrap();
            let found = signature.all(&buffer).collect();
            assert_eq!(found, brute_force(&signature, &buffer));
            for pair in found.windows(2) {
                assert!(pair[0] < pair[1]);
            }
        }
    }
}

#[test]
fn asking_again_gives_the_same() {
    let signature = Signature::ida("12 ??").unwrap();
    for _ in 0..3 {
        assert_eq!(signature.next(&BUFFER), Some(1));
        assert_eq!(signature.prev(&BUFFER), Some(6));
        assert_eq!(signature.all(&BUFFER).collect(), [1, 4, 6]);
        assert!(!signature.matches(&BUFFER));
        assert!(signature.matches(&BUFFER[1..3]));
    }
}

#[test]
fn occurrences_come_one_at_a_time() {
    let signature = Signature::ida("12 34").unwrap();
    let mut walk = signature.all(&BUFFER);
    assert_eq!(walk.next(), Some(1));
    assert_eq!(walk.next(), Some(6));
    assert_eq!(walk.next(), None);
    assert_eq!(walk.next(), None);
    assert_eq!(walk.collect(), Vec::<usize>::new());
}

#[test]
fn collect_gathers_what_is_left() {
    let signature = Signature::ida("12").unwrap();
    let mut walk = signature.all(&BUFFER);
    assert_eq!(walk.next(), Some(1));
    assert_eq!(walk.collect(), [4, 6]);
    let mut again = signature.all(&BUFFER);
    assert_eq!(again.next(), Some(1));
    assert_eq!(again.next(), Some(4));
    assert_eq!(again.next(), Some(6));
    assert_eq!(again.next(), None);
}

#[test]
fn two_walks_do_not_disturb_each_other() {
    let signature = Signature::ida("12 34").unwrap();
    let mut one = signature.all(&BUFFER);
    let mut two = signature.all(&BUFFER);
    assert_eq!(one.next(), Some(1));
    assert_eq!(two.next(), Some(1));
    assert_eq!(one.next(), Some(6));
    assert_eq!(two.collect(), [6]);
    assert_eq!(one.next(), None);
}

#[test]
fn searches_agree_with_each_other() {
    for seed in 0..50u32 {
        let buffer = sample(40, seed);
        let signature = Signature::ida("01 ? 01").unwrap();
        let all = signature.all(&buffer).collect();
        assert_eq!(signature.next(&buffer), all.first().copied());
        assert_eq!(signature.prev(&buffer), all.last().copied());
    }
}
