use image_to_tetris::note_intervals::NoteIntervals;

#[test]
fn an_empty_collection_covers_nothing() {
    let notes = NoteIntervals::new();
    assert!(notes.is_empty());
    assert!(!notes.covers(440));
    assert!(notes.covering(440).is_empty());
}

#[test]
fn intervals_hold_their_start_but_not_their_stop() {
    let mut notes = NoteIntervals::new();
    notes.insert(100, 200, 3);
    notes.insert(200, 300, 4);
    assert!(!notes.is_empty());
    assert_eq!(notes.covering(100), vec![(100, 200, 3)]);
    assert_eq!(notes.covering(199), vec![(100, 200, 3)]);
    assert_eq!(notes.covering(200), vec![(200, 300, 4)]);
    assert!(notes.covering(300).is_empty());
    assert!(!notes.covers(99));
    assert!(notes.covers(250));
}

#[test]
fn overlapping_intervals_are_all_found() {
    let mut notes = NoteIntervals::new();
    notes.insert(10, 50, 0);
    notes.insert(20, 30, 1);
    notes.insert(40, 45, 2);
    notes.insert(0, 5, 3);
    let mut found = notes.covering(25);
    found.sort();
    assert_eq!(found, vec![(10, 50, 0), (20, 30, 1)]);
    let mut found = notes.covering(42);
    found.sort();
    assert_eq!(found, vec![(10, 50, 0), (40, 45, 2)]);
    // an interval whose stop is not above its start holds no frequency
    notes.insert(60, 60, 9);
    assert!(!notes.covers(60));
}
