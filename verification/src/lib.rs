//! Recognition of musical chords from sets of pitches, together with the
//! scale tables, string tunings and fretboard rendering of a guitar helper.
#![allow(non_camel_case_types)]

use vstd::prelude::*;

pub mod chord;
pub mod fretboard;
pub mod laws;
pub mod note;
pub mod scale;
pub mod strutil;
pub mod tuning;

pub use chord::Chord;
pub use chord::ChordType;
pub use chord::Interval;
pub use chord::TriadType;
pub use fretboard::all_notes_on_fretboard;
pub use fretboard::chord_from_tab_notation;
pub use fretboard::from_tab_notation;
pub use fretboard::parse_tuning;
pub use fretboard::print_fret_markers;
pub use fretboard::print_fret_numbers;
pub use fretboard::scale_on_fretboard;
pub use fretboard::split_string_fret;
pub use note::Note;
pub use scale::Scale;
pub use scale::ScaleType;
pub use tuning::Tuning;
pub use tuning::TuningType;

