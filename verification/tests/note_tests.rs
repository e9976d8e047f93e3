use guitar_note::Note;

#[test]
fn test_order() {
    let mut sequence: Vec<Note> = vec![5, 3, 7, 1]
        .iter()
        .map(|s| Note { semitones: *s })
        .collect();
    sequence.sort();
    assert_eq!(sequence[0], Note { semitones: 1 });
    assert_eq!(sequence[1], Note { semitones: 3 });
    assert_eq!(sequence[2], Note { semitones: 5 });
    assert_eq!(sequence[3], Note { semitones: 7 });
}

#[test]
fn test_from_string_names() {
    assert_eq!(Note::from_string("c"), Some(Note { semitones: 0 }));
    assert_eq!(Note::from_string("db"), Some(Note { semitones: 1 }));
    assert_eq!(Note::from_string("c#"), Some(Note { semitones: 1 }));
    assert_eq!(Note::from_string("bb"), Some(Note { semitones: 10 }));
    assert_eq!(Note::from_string("b"), Some(Note { semitones: 11 }));
    assert_eq!(Note::from_string("h"), None);
    assert_eq!(Note::from_string(""), None);
}

#[test]
fn test_no_octaves_negative() {
    assert_eq!(Note { semitones: -1 }.no_octaves(), Note { semitones: 11 });
    assert_eq!(Note { semitones: -12 }.no_octaves(), Note { semitones: 0 });
    assert_eq!(Note { semitones: 13 }.no_octaves(), Note { semitones: 1 });
}

#[test]
fn test_regauge() {
    assert_eq!(Note { semitones: -1 }.regauge_if_negative(), Note { semitones: 1 });
    assert_eq!(Note { semitones: 5 }.regauge_if_negative(), Note { semitones: 5 });
}

#[test]
fn test_note_names_round() {
    for s in 0..12 {
        let name = Note { semitones: s }.to_string();
        assert_eq!(Note::from_string(name), Some(Note { semitones: s }));
    }
}
