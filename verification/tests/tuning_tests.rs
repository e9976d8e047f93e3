use guitar_note::tuning::Tuning;
use guitar_note::tuning::TuningType;
use guitar_note::Note;

#[test]
fn test_tune() {
    let tuning = Tuning::from_type(TuningType::eadgbe);
    // 1. test
    let strings = vec!["a", "g", "e"];
    let offsets = vec![3, 5, 7]
        .iter()
        .map(|s| Note { semitones: *s })
        .collect::<Vec<_>>();
    let result = tuning.tune(&strings, &offsets);
    println!("{:?}", result);
    assert_eq!(result[0], Some(Note { semitones: 12 }));
    assert_eq!(result[1], Some(Note { semitones: 24 }));
    assert_eq!(result[2], Some(Note { semitones: 35 }));
}

#[test]
fn test_tune_unknown_string() {
    let tuning = Tuning::from_type(TuningType::eadgbe);
    let strings = vec!["x", "e"];
    let offsets = vec![Note { semitones: 1 }, Note { semitones: 2 }];
    let result = tuning.tune(&strings, &offsets);
    assert_eq!(result[0], None);
    assert_eq!(result[1], Some(Note { semitones: 6 }));
}

#[test]
fn test_tuning_names() {
    let tuning = Tuning::from_name("dropd").unwrap();
    assert_eq!(tuning.to_string(), "dropd");
    assert_eq!(tuning.get_basenotes()[0], Note { semitones: 2 });
    assert!(Tuning::from_name("nosuchtuning").is_none());
}
