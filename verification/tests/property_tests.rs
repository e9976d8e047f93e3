use guitar_note::chord::Chord;
use guitar_note::chord::ChordType;
use guitar_note::chord::Interval;
use guitar_note::chord::TriadType;
use guitar_note::chord_from_tab_notation;
use guitar_note::parse_tuning;
use guitar_note::Note;

fn notes_of(semitones: &[i32]) -> Vec<Note> {
    semitones.iter().map(|s| Note { semitones: *s }).collect()
}

fn tags_of(chords: &[Option<Chord>]) -> Vec<Option<ChordType>> {
    chords.iter().map(|c| c.clone().map(|ch| ch.type_)).collect()
}

#[test]
fn test_base_scenarios() {
    let cases: Vec<(Vec<i32>, ChordType, &str)> = vec![
        (
            vec![0, 3, 7],
            ChordType::Triad {
                t: TriadType::minor,
            },
            "Cm",
        ),
        (vec![0, 2, 7], ChordType::Triad { t: TriadType::sus2 }, "Csus2"),
        (
            vec![0, 4, 7, 10],
            ChordType::SevenChord {
                t: TriadType::major,
                e: Interval::MINOR_7,
            },
            "C7",
        ),
        (
            vec![0, 3, 7, 14],
            ChordType::AddChord {
                t: TriadType::minor,
                e: Interval::MAJOR_9,
            },
            "Cmadd9",
        ),
        (
            vec![0, 7],
            ChordType::TwoTone {
                t: Interval::PERFECT_5,
            },
            "C5",
        ),
        (vec![0, 4, 8], ChordType::Triad { t: TriadType::plus }, "C+"),
        (
            vec![0, 4, 7],
            ChordType::Triad {
                t: TriadType::major,
            },
            "C",
        ),
        (vec![0, 5, 7], ChordType::Triad { t: TriadType::sus4 }, "Csus4"),
        (
            vec![0, 3, 6],
            ChordType::Triad {
                t: TriadType::minor_diminished,
            },
            "Cmdim",
        ),
        (
            vec![0, 4, 6],
            ChordType::Triad {
                t: TriadType::major_diminished,
            },
            "Cdim",
        ),
        (
            vec![0, 4, 7, 10, 14],
            ChordType::NineChord {
                t: TriadType::major,
                e1: Interval::MINOR_7,
                e2: Interval::MAJOR_9,
            },
            "C9",
        ),
        (
            vec![0, 4, 7, 10, 14, 17],
            ChordType::ElevenChord {
                t: TriadType::major,
                e1: Interval::MINOR_7,
                e2: Interval::MAJOR_9,
                e3: Interval::PERFECT_11,
            },
            "C11",
        ),
        (
            vec![0, 4, 10],
            ChordType::SevenChord {
                t: TriadType::major_omitted_5,
                e: Interval::MINOR_7,
            },
            "C7",
        ),
        (
            vec![0, 3],
            ChordType::TwoTone {
                t: Interval::MINOR_3,
            },
            "C3m",
        ),
        (
            vec![0, 4],
            ChordType::TwoTone {
                t: Interval::MAJOR_3,
            },
            "C3",
        ),
    ];
    for (semitones, expected_tag, expected_name) in cases {
        let chords = Chord::find_chord(&notes_of(&semitones));
        let first = chords[0].clone().expect("base voicing should match");
        assert_eq!(first.type_, expected_tag);
        assert_eq!(first.to_string(), expected_name);
    }
}

#[test]
fn test_octave_shift_keeps_tags() {
    // the whole input moved by whole octaves yields the same tag sequence
    let base = Chord::find_chord(&notes_of(&[0, 3, 7]));
    let up = Chord::find_chord(&notes_of(&[12, 15, 19]));
    let down = Chord::find_chord(&notes_of(&[-24, -21, -17]));
    assert_eq!(tags_of(&base), tags_of(&up));
    assert_eq!(tags_of(&base), tags_of(&down));
}

#[test]
fn test_bare_third_is_two_tone() {
    // two pitch classes a third apart name a two-tone chord, never an
    // omitted-fifth triad; a wide third folds back to the same answer
    let wide = Chord::find_chord(&notes_of(&[0, 16]));
    assert_eq!(
        wide[0].clone().unwrap().type_,
        ChordType::TwoTone {
            t: Interval::MAJOR_3
        }
    );
    // inside a larger voicing the third still starts a triad
    let triad = Chord::find_chord(&notes_of(&[0, 3, 7]));
    assert_eq!(
        triad[0].clone().unwrap().type_,
        ChordType::Triad {
            t: TriadType::minor
        }
    );
}

#[test]
fn test_per_note_shift_can_change_tags() {
    // moving a single note by an octave re-voices the set: the bass moves,
    // so the base voicing can be recognized as a different chord
    let plain = Chord::find_chord(&notes_of(&[0, 3, 7]));
    let revoiced = Chord::find_chord(&notes_of(&[24, 3, 7]));
    assert_eq!(
        plain[0].clone().unwrap().type_,
        ChordType::Triad {
            t: TriadType::minor
        }
    );
    assert_eq!(
        revoiced[0].clone().unwrap().type_,
        ChordType::AddChord {
            t: TriadType::major_omitted_5,
            e: Interval::MAJOR_6
        }
    );
}

#[test]
fn test_inversion_count() {
    // one result per distinct pitch class
    assert_eq!(Chord::find_chord(&notes_of(&[0, 7])).len(), 2);
    assert_eq!(Chord::find_chord(&notes_of(&[0, 3, 7])).len(), 3);
    assert_eq!(Chord::find_chord(&notes_of(&[0, 4, 7, 10])).len(), 4);
    // an octave duplicate collapses with its pitch class
    assert_eq!(Chord::find_chord(&notes_of(&[0, 12, 7])).len(), 2);
    assert_eq!(Chord::find_chord(&notes_of(&[0, 3, 7, 12, 19])).len(), 3);
}

#[test]
fn test_formatting_deterministic() {
    let chords = Chord::find_chord(&notes_of(&[0, 3, 7]));
    let chord = chords[0].clone().unwrap();
    assert_eq!(chord.to_string(), chord.to_string());
}

#[test]
fn test_no_match_is_none() {
    let chords = Chord::find_chord(&notes_of(&[0, 1, 2]));
    assert_eq!(chords.len(), 3);
    assert!(chords[0].is_none());
}

#[test]
fn test_chord_notes_root_first() {
    let chords = Chord::find_chord(&notes_of(&[3, 6, 10]));
    let chord = chords[0].clone().unwrap();
    assert_eq!(chord.get_notes()[0], Note { semitones: 3 });
    assert_eq!(
        chord.get_notes(),
        &notes_of(&[3, 6, 10])
    );
}

#[test]
fn test_chord_from_tab() {
    let tuning = parse_tuning("eadgbe").unwrap();
    let tokens = vec![
        String::from("e0"),
        String::from("a2"),
        String::from("d2"),
    ];
    let (names, fretboard) = chord_from_tab_notation(&tokens, &tuning, false);
    assert_eq!(names.len(), 2);
    assert_eq!(names[0], Some(String::from("E5")));
    assert!(!fretboard.is_empty());
}
