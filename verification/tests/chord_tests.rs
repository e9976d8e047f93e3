use guitar_note::chord::Chord;
use guitar_note::chord::ChordType;
use guitar_note::chord::Interval;
use guitar_note::chord::TriadType;
use guitar_note::Note;

#[test]
fn test_first_inversion() {
    let intervals = [
        Note { semitones: 0 },
        Interval::MINOR_3.note(),
        Interval::PERFECT_5.note(),
    ]
    .iter()
    .map(|n| *n)
    .collect::<Vec<_>>();
    let minor_inversions = Chord::build_inversions(&intervals);
    assert_eq!(
        minor_inversions[0],
        vec![3, 7, 12]
            .iter()
            .map(|s| Note { semitones: *s })
            .collect::<Vec<_>>()
    );
    assert_eq!(
        minor_inversions[1],
        vec![7, 12, 15]
            .iter()
            .map(|s| Note { semitones: *s })
            .collect::<Vec<_>>()
    );
    assert_eq!(minor_inversions.len(), 2);
    // now build from inversion
    let intervals2 = [5, 0, 3]
        .iter()
        .map(|s| Note { semitones: *s })
        .collect::<Vec<_>>();
    let inversion2 = Chord::build_inversions(&intervals2);
    assert_eq!(
        inversion2[0],
        vec![0, 3, 17]
            .iter()
            .map(|s| Note { semitones: *s })
            .collect::<Vec<_>>()
    );
    assert_eq!(
        inversion2[1],
        vec![3, 17, 12]
            .iter()
            .map(|s| Note { semitones: *s })
            .collect::<Vec<_>>()
    );
    assert_eq!(inversion2.len(), 2);
}

#[test]
fn test_find_chord() {
    let notes1 = [
        Note { semitones: 0 },
        Interval::MINOR_3.note(),
        Interval::PERFECT_5.note(),
    ]
    .iter()
    .map(|s| s.plus(Note { semitones: 3 }))
    .collect::<Vec<_>>();
    let notes2 = [
        Note { semitones: 0 },
        Interval::MAJOR_2.note(),
        Interval::PERFECT_5.note(),
    ]
    .iter()
    .map(|s| s.plus(Note { semitones: 3 }))
    .collect::<Vec<_>>();
    let notes3 = vec![0, 4, 7, 10]
        .iter()
        .map(|s| Note { semitones: *s + 12 })
        .collect::<Vec<_>>();
    let notes4 = vec![0, 3, 7, 14]
        .iter()
        .map(|s| Note { semitones: *s })
        .collect::<Vec<_>>();
    let notes5 = vec![0, 7]
        .iter()
        .map(|s| Note { semitones: *s + 0 })
        .collect::<Vec<_>>();
    let notes6 = vec![0, 4, 9, 7]
        .iter()
        .map(|s| Note { semitones: *s + 4 })
        .collect::<Vec<_>>();
    let notes7 = vec![0, 4, 8]
        .iter()
        .map(|s| Note { semitones: *s + 31 })
        .collect::<Vec<_>>();
    // second inversion of a major chord
    let notes8 = vec![0, 3, 8]
        .iter()
        .map(|s| Note { semitones: *s + 5 })
        .collect::<Vec<_>>();
    // first inversion of a major chord
    let notes9 = vec![0, 5, 9]
        .iter()
        .map(|s| Note { semitones: *s + 3 })
        .collect::<Vec<_>>();
    // 7 Chord, omitted five
    let notes10 = vec![0, 4, 10]
        .iter()
        .map(|s| Note { semitones: *s + 11 })
        .collect::<Vec<_>>();
    let notes11 = vec![0, 7, 10, 15]
        .iter()
        .map(|s| Note { semitones: *s + 11 })
        .collect::<Vec<_>>();
    let chord1 = Chord::find_chord(&notes1);
    let chord2 = Chord::find_chord(&notes2);
    let chord3 = Chord::find_chord(&notes3);
    let chord4 = Chord::find_chord(&notes4);
    let chord5 = Chord::find_chord(&notes5);
    let chord6 = Chord::find_chord(&notes6);
    let chord7 = Chord::find_chord(&notes7);
    let chord8 = Chord::find_chord(&notes8);
    let chord9 = Chord::find_chord(&notes9);
    let chord10 = Chord::find_chord(&notes10);
    let chord11 = Chord::find_chord(&notes11);

    assert_eq!(
        chord1[0].clone().unwrap().type_,
        ChordType::Triad {
            t: TriadType::minor
        }
    );
    assert_eq!(
        chord2[0].clone().unwrap().type_,
        ChordType::Triad { t: TriadType::sus2 }
    );
    assert_eq!(
        chord3[0].clone().unwrap().type_,
        ChordType::SevenChord {
            t: TriadType::major,
            e: Interval::MINOR_7
        }
    );
    assert_eq!(
        chord4[0].clone().unwrap().type_,
        ChordType::AddChord {
            t: TriadType::minor,
            e: Interval::MAJOR_9
        }
    );
    assert_eq!(
        chord5[0].clone().unwrap().type_,
        ChordType::TwoTone {
            t: Interval::PERFECT_5
        }
    );
    assert_eq!(
        chord6[0].clone().unwrap().type_,
        ChordType::AddChord {
            t: TriadType::major,
            e: Interval::MAJOR_6
        }
    );
    assert_eq!(
        chord7[0].clone().unwrap().type_,
        ChordType::Triad { t: TriadType::plus }
    );
    assert_eq!(
        chord8[2].clone().unwrap().type_,
        ChordType::Triad {
            t: TriadType::major
        }
    );
    assert_eq!(
        chord9[1].clone().unwrap().type_,
        ChordType::Triad {
            t: TriadType::major
        }
    );
    assert_eq!(
        chord10[0].clone().unwrap().type_,
        ChordType::SevenChord {
            t: TriadType::major_omitted_5,
            e: Interval::MINOR_7
        }
    );
    assert_eq!(
        chord11[0].clone().unwrap().type_,
        ChordType::SevenChord {
            t: TriadType::minor,
            e: Interval::MINOR_7
        }
    );
}
