use guitar_note::scale::Scale;
use guitar_note::scale::ScaleType;
use guitar_note::Note;

#[test]
fn test_notes_in_scale() {
    let root = Note { semitones: 4 };
    let scale = Scale::from_type_and_root(root, ScaleType::minor);
    let notes = scale.notes_in_scale();
    println!("{:?}", notes);
}

#[test]
fn test_major_scale_degrees() {
    let scale = Scale::from_type_and_root(Note { semitones: 0 }, ScaleType::major);
    let degrees = scale.degrees_in_scale();
    assert_eq!(degrees, vec!["1", "2", "3", "4", "5", "6", "7", "8"]);
}

#[test]
fn test_minor_scale_note_names() {
    let scale = Scale::from_type_and_root(Note { semitones: 9 }, ScaleType::minor);
    let names = scale.notes_in_scale();
    assert_eq!(names, vec!["a", "b", "c", "d", "e", "f", "g", "a"]);
}

#[test]
fn test_chords_in_major_scale() {
    let scale = Scale::from_type_and_root(Note { semitones: 0 }, ScaleType::major);
    let chords = scale.chords_in_scale();
    assert_eq!(chords.len(), 8);
    assert_eq!(chords[0], "C");
    assert_eq!(chords[1], "Dm");
    assert_eq!(chords[2], "Em");
    assert_eq!(chords[3], "F");
    assert_eq!(chords[4], "G");
    assert_eq!(chords[5], "Am");
}

#[test]
fn test_note_to_degree() {
    let root = Note { semitones: 0 };
    assert_eq!(Scale::note_to_degree(&root, &Note { semitones: 4 }), "3");
    assert_eq!(Scale::note_to_degree(&root, &Note { semitones: 7 }), "5");
    assert_eq!(Scale::note_to_degree(&root, &Note { semitones: 12 }), "1");
    assert_eq!(Scale::note_to_degree(&root, &Note { semitones: -1 }), "2b");
}

#[test]
fn test_scale_parse() {
    assert!(ScaleType::from_name("mixolydian").is_some());
    assert!(ScaleType::from_name("ionian").is_none());
}
