//! The chord-recognition engine: inversion generation, interval
//! classification by a state-machine walk over the catalogue of named
//! intervals, and chord formatting.
use vstd::prelude::*;

use itertools::Itertools;

use crate::note::Note;
use crate::note::class_of;
use crate::note::note_name_upper_chars;

verus! {

use vstd::string::StringExecFns;

/// The quality of a triad, including the omitted-fifth fallback variants
/// used when only a third together with an upper extension is present.
#[derive(Clone, Copy, PartialEq, Eq, Structural, Debug)]
pub enum TriadType {
    minor,
    minor_omitted_5,
    major,
    major_omitted_5,
    sus2,
    sus4,
    minor_diminished,
    major_diminished,
    plus,
}

/// A named semitone distance of the closed interval catalogue, each with a
/// canonical display string.
#[derive(Clone, Copy, PartialEq, Eq, Structural, Debug)]
pub enum Interval {
    OMITTED,
    MINOR_2,
    MAJOR_2,
    MINOR_3,
    MAJOR_3,
    PERFECT_4,
    FLATTENED_5,
    PERFECT_5,
    AUGMENTED_5,
    MINOR_6,
    MAJOR_6,
    MINOR_7,
    MAJOR_7,
    OCTAVE,
    MINOR_9,
    MAJOR_9,
    PLUS_9,
    FLATTENED_11,
    PERFECT_11,
    AUGMENTED_11,
    LOWER,
}

/// The semitone distance that each named interval stands for.
pub open spec fn interval_semitones(iv: Interval) -> int {
    match iv {
        Interval::OMITTED => 0,
        Interval::MINOR_2 => 1,
        Interval::MAJOR_2 => 2,
        Interval::MINOR_3 => 3,
        Interval::MAJOR_3 => 4,
        Interval::PERFECT_4 => 5,
        Interval::FLATTENED_5 => 6,
        Interval::PERFECT_5 => 7,
        Interval::AUGMENTED_5 => 8,
        Interval::MINOR_6 => 8,
        Interval::MAJOR_6 => 9,
        Interval::MINOR_7 => 10,
        Interval::MAJOR_7 => 11,
        Interval::OCTAVE => 12,
        Interval::MINOR_9 => 13,
        Interval::MAJOR_9 => 14,
        Interval::PLUS_9 => 15,
        Interval::FLATTENED_11 => 16,
        Interval::PERFECT_11 => 17,
        Interval::AUGMENTED_11 => 18,
        Interval::LOWER => 19,
    }
}

impl Interval {
    /// The semitone distance of this interval, as a pitch.
    pub fn note(&self) -> (r: Note)
        ensures
            r.semitones == interval_semitones(*self),
    {
        match *self {
            Interval::OMITTED => Note { semitones: 0 },
            Interval::MINOR_2 => Note { semitones: 1 },
            Interval::MAJOR_2 => Note { semitones: 2 },
            Interval::MINOR_3 => Note { semitones: 3 },
            Interval::MAJOR_3 => Note { semitones: 4 },
            Interval::PERFECT_4 => Note { semitones: 5 },
            Interval::FLATTENED_5 => Note { semitones: 6 },
            Interval::PERFECT_5 => Note { semitones: 7 },
            Interval::AUGMENTED_5 => Note { semitones: 8 },
            Interval::MINOR_6 => Note { semitones: 8 },
            Interval::MAJOR_6 => Note { semitones: 9 },
            Interval::MINOR_7 => Note { semitones: 10 },
            Interval::MAJOR_7 => Note { semitones: 11 },
            Interval::OCTAVE => Note { semitones: 12 },
            Interval::MINOR_9 => Note { semitones: 13 },
            Interval::MAJOR_9 => Note { semitones: 14 },
            Interval::PLUS_9 => Note { semitones: 15 },
            Interval::FLATTENED_11 => Note { semitones: 16 },
            Interval::PERFECT_11 => Note { semitones: 17 },
            Interval::AUGMENTED_11 => Note { semitones: 18 },
            Interval::LOWER => Note { semitones: 19 },
        }
    }

    /// The canonical display string of this interval.
    pub fn to_string(&self) -> (r: &'static str)
        ensures
            r@ == interval_suffix_chars(*self),
    {
        match *self {
            Interval::OMITTED => {
                proof { reveal_strlit(""); assert(""@ =~= Seq::<char>::empty()); }
                ""
            },
            Interval::MINOR_2 => {
                proof { reveal_strlit("2m"); assert("2m"@ =~= seq!['2', 'm']); }
                "2m"
            },
            Interval::MAJOR_2 => {
                proof { reveal_strlit("2"); assert("2"@ =~= seq!['2']); }
                "2"
            },
            Interval::MINOR_3 => {
                proof { reveal_strlit("3m"); assert("3m"@ =~= seq!['3', 'm']); }
                "3m"
            },
            Interval::MAJOR_3 => {
                proof { reveal_strlit("3"); assert("3"@ =~= seq!['3']); }
                "3"
            },
            Interval::PERFECT_4 => {
                proof { reveal_strlit("4"); assert("4"@ =~= seq!['4']); }
                "4"
            },
            Interval::FLATTENED_5 => {
                proof { reveal_strlit("5-"); assert("5-"@ =~= seq!['5', '-']); }
                "5-"
            },
            Interval::PERFECT_5 => {
                proof { reveal_strlit("5"); assert("5"@ =~= seq!['5']); }
                "5"
            },
            Interval::AUGMENTED_5 => {
                proof { reveal_strlit("5+"); assert("5+"@ =~= seq!['5', '+']); }
                "5+"
            },
            Interval::MINOR_6 => {
                proof { reveal_strlit("6m"); assert("6m"@ =~= seq!['6', 'm']); }
                "6m"
            },
            Interval::MAJOR_6 => {
                proof { reveal_strlit("6"); assert("6"@ =~= seq!['6']); }
                "6"
            },
            Interval::MINOR_7 => {
                proof { reveal_strlit("7"); assert("7"@ =~= seq!['7']); }
                "7"
            },
            Interval::MAJOR_7 => {
                // the major seventh is marked: a bare numeral means minor
                proof { reveal_strlit("7maj"); assert("7maj"@ =~= seq!['7', 'm', 'a', 'j']); }
                "7maj"
            },
            Interval::MINOR_9 => {
                proof { reveal_strlit("9-"); assert("9-"@ =~= seq!['9', '-']); }
                "9-"
            },
            Interval::MAJOR_9 => {
                proof { reveal_strlit("9"); assert("9"@ =~= seq!['9']); }
                "9"
            },
            Interval::PLUS_9 => {
                proof { reveal_strlit("9+"); assert("9+"@ =~= seq!['9', '+']); }
                "9+"
            },
            Interval::FLATTENED_11 => {
                proof { reveal_strlit("11-"); assert("11-"@ =~= seq!['1', '1', '-']); }
                "11-"
            },
            Interval::PERFECT_11 => {
                proof { reveal_strlit("11"); assert("11"@ =~= seq!['1', '1']); }
                "11"
            },
            Interval::AUGMENTED_11 => {
                proof { reveal_strlit("11+"); assert("11+"@ =~= seq!['1', '1', '+']); }
                "11+"
            },
            Interval::OCTAVE | Interval::LOWER => {
                proof { reveal_strlit("blub"); assert("blub"@ =~= seq!['b', 'l', 'u', 'b']); }
                "blub"
            },
        }
    }
}

impl TriadType {
    /// The display suffix of this triad quality.
    pub fn to_string(&self) -> (r: &'static str)
        ensures
            r@ == triad_suffix_chars(*self),
    {
        match *self {
            TriadType::minor | TriadType::minor_omitted_5 => {
                proof { reveal_strlit("m"); assert("m"@ =~= seq!['m']); }
                "m"
            },
            TriadType::major | TriadType::major_omitted_5 => {
                proof { reveal_strlit(""); assert(""@ =~= Seq::<char>::empty()); }
                ""
            },
            TriadType::sus2 => {
                proof { reveal_strlit("sus2"); assert("sus2"@ =~= seq!['s', 'u', 's', '2']); }
                "sus2"
            },
            TriadType::sus4 => {
                proof { reveal_strlit("sus4"); assert("sus4"@ =~= seq!['s', 'u', 's', '4']); }
                "sus4"
            },
            TriadType::minor_diminished => {
                proof { reveal_strlit("mdim"); assert("mdim"@ =~= seq!['m', 'd', 'i', 'm']); }
                "mdim"
            },
            TriadType::major_diminished => {
                proof { reveal_strlit("dim"); assert("dim"@ =~= seq!['d', 'i', 'm']); }
                "dim"
            },
            TriadType::plus => {
                proof { reveal_strlit("+"); assert("+"@ =~= seq!['+']); }
                "+"
            },
        }
    }
}

/// An identified harmonic unit, classified by note count and triad quality,
/// carrying up to three extension intervals.
#[derive(Clone, Copy, PartialEq, Eq, Structural, Debug)]
pub enum ChordType {
    UNKNOWN,
    TwoTone { t: Interval },
    Triad { t: TriadType },
    AddChord { t: TriadType, e: Interval },
    SevenChord { t: TriadType, e: Interval },
    NineChord { t: TriadType, e1: Interval, e2: Interval },
    ElevenChord { t: TriadType, e1: Interval, e2: Interval, e3: Interval },
}

/// A recognized chord: its classification tag and its constituent pitches,
/// root first.
#[derive(Clone, Debug)]
pub struct Chord {
    pub type_: ChordType,
    pub notes: Vec<Note>,
}

/// The semitone counts of a sequence of pitches.
pub open spec fn semis(s: Seq<Note>) -> Seq<int> {
    s.map_values(|n: Note| n.semitones as int)
}

/// One transition of the classifier: the chord shape reached from candidate
/// shape `st` when the next (larger) root-relative interval is `n` semitones.
pub open spec fn step(st: ChordType, n: int) -> ChordType {
    if n == 1 {
        // a minor second always restarts as a bare two-tone
        ChordType::TwoTone { t: Interval::MINOR_2 }
    } else if n == 2 {
        match st {
            ChordType::UNKNOWN => ChordType::TwoTone { t: Interval::MAJOR_2 },
            _ => ChordType::UNKNOWN,
        }
    } else if n == 3 {
        match st {
            ChordType::UNKNOWN => ChordType::Triad { t: TriadType::minor_omitted_5 },
            ChordType::TwoTone { t } => ChordType::AddChord { t: TriadType::minor_omitted_5, e: t },
            _ => ChordType::UNKNOWN,
        }
    } else if n == 4 {
        match st {
            ChordType::UNKNOWN => ChordType::Triad { t: TriadType::major_omitted_5 },
            ChordType::TwoTone { t } => ChordType::AddChord { t: TriadType::major_omitted_5, e: t },
            _ => ChordType::UNKNOWN,
        }
    } else if n == 5 {
        match st {
            ChordType::UNKNOWN => ChordType::TwoTone { t: Interval::PERFECT_4 },
            ChordType::Triad { t } => ChordType::AddChord { t, e: Interval::PERFECT_4 },
            _ => ChordType::UNKNOWN,
        }
    } else if n == 6 {
        match st {
            ChordType::UNKNOWN => ChordType::TwoTone { t: Interval::FLATTENED_5 },
            ChordType::Triad { t: TriadType::minor_omitted_5 } => ChordType::Triad {
                t: TriadType::minor_diminished,
            },
            ChordType::Triad { t: TriadType::major_omitted_5 } => ChordType::Triad {
                t: TriadType::major_diminished,
            },
            _ => ChordType::UNKNOWN,
        }
    } else if n == 7 {
        match st {
            ChordType::UNKNOWN => ChordType::TwoTone { t: Interval::PERFECT_5 },
            ChordType::Triad { t: TriadType::minor_omitted_5 } => ChordType::Triad {
                t: TriadType::minor,
            },
            ChordType::Triad { t: TriadType::major_omitted_5 } => ChordType::Triad {
                t: TriadType::major,
            },
            ChordType::AddChord { t: TriadType::minor_omitted_5, e } => ChordType::AddChord {
                t: TriadType::minor,
                e,
            },
            ChordType::AddChord { t: TriadType::major_omitted_5, e } => ChordType::AddChord {
                t: TriadType::major,
                e,
            },
            ChordType::TwoTone { t: Interval::MAJOR_2 } => ChordType::Triad { t: TriadType::sus2 },
            ChordType::TwoTone { t: Interval::PERFECT_4 } => ChordType::Triad { t: TriadType::sus4 },
            _ => ChordType::UNKNOWN,
        }
    } else if n == 8 {
        match st {
            ChordType::UNKNOWN => ChordType::TwoTone { t: Interval::AUGMENTED_5 },
            ChordType::Triad { t: TriadType::major_omitted_5 } => ChordType::Triad {
                t: TriadType::plus,
            },
            _ => ChordType::UNKNOWN,
        }
    } else if n == 9 {
        match st {
            ChordType::UNKNOWN => ChordType::TwoTone { t: Interval::MAJOR_6 },
            ChordType::Triad { t } => ChordType::AddChord { t, e: Interval::MAJOR_6 },
            _ => ChordType::UNKNOWN,
        }
    } else if n == 10 {
        match st {
            ChordType::UNKNOWN => ChordType::TwoTone { t: Interval::MINOR_7 },
            ChordType::Triad { t } => ChordType::SevenChord { t, e: Interval::MINOR_7 },
            _ => ChordType::UNKNOWN,
        }
    } else if n == 11 {
        match st {
            ChordType::UNKNOWN => ChordType::TwoTone { t: Interval::MAJOR_7 },
            ChordType::Triad { t } => ChordType::SevenChord { t, e: Interval::MAJOR_7 },
            _ => ChordType::UNKNOWN,
        }
    } else if n == 13 {
        match st {
            ChordType::UNKNOWN => ChordType::TwoTone { t: Interval::MINOR_9 },
            ChordType::Triad { t } => ChordType::AddChord { t, e: Interval::MINOR_9 },
            ChordType::SevenChord { t, e } => ChordType::NineChord {
                t,
                e1: e,
                e2: Interval::MINOR_9,
            },
            _ => ChordType::UNKNOWN,
        }
    } else if n == 14 {
        match st {
            ChordType::UNKNOWN => ChordType::TwoTone { t: Interval::MAJOR_9 },
            ChordType::Triad { t } => ChordType::AddChord { t, e: Interval::MAJOR_9 },
            ChordType::SevenChord { t, e } => ChordType::NineChord {
                t,
                e1: e,
                e2: Interval::MAJOR_9,
            },
            _ => ChordType::UNKNOWN,
        }
    } else if n == 15 {
        match st {
            ChordType::UNKNOWN => ChordType::TwoTone { t: Interval::PLUS_9 },
            ChordType::Triad { t } => ChordType::AddChord { t, e: Interval::PLUS_9 },
            ChordType::SevenChord { t, e } => ChordType::NineChord {
                t,
                e1: e,
                e2: Interval::PLUS_9,
            },
            _ => ChordType::UNKNOWN,
        }
    } else if n == 17 {
        match st {
            ChordType::UNKNOWN => ChordType::TwoTone { t: Interval::PERFECT_11 },
            ChordType::Triad { t } => ChordType::AddChord { t, e: Interval::PERFECT_11 },
            ChordType::SevenChord { t, e } => ChordType::ElevenChord {
                t,
                e1: e,
                e2: Interval::OMITTED,
                e3: Interval::PERFECT_11,
            },
            ChordType::NineChord { t, e1, e2 } => ChordType::ElevenChord {
                t,
                e1,
                e2,
                e3: Interval::PERFECT_11,
            },
            _ => ChordType::UNKNOWN,
        }
    } else {
        ChordType::UNKNOWN
    }
}

/// Run the classifier from state `st` over the remaining intervals; a walk
/// stops as soon as a transition falls out of the catalogue.
pub open spec fn run_steps(st: ChordType, ivs: Seq<int>) -> ChordType
    decreases ivs.len(),
{
    if ivs.len() == 0 {
        st
    } else {
        let st2 = step(st, ivs[0]);
        if st2 == ChordType::UNKNOWN {
            ChordType::UNKNOWN
        } else {
            run_steps(st2, ivs.drop_first())
        }
    }
}

/// Classify a root-relative, sorted interval sequence (whose first entry is
/// the root itself and is skipped). A two-pitch voicing whose sole interval
/// is a third is a two-tone chord named after that third; only in larger
/// voicings does a leading third start a triad walk.
pub open spec fn classify_intervals(ivs: Seq<int>) -> ChordType {
    if ivs.len() == 0 {
        ChordType::UNKNOWN
    } else if ivs.len() == 2 && ivs[1] == 3 {
        ChordType::TwoTone { t: Interval::MINOR_3 }
    } else if ivs.len() == 2 && ivs[1] == 4 {
        ChordType::TwoTone { t: Interval::MAJOR_3 }
    } else {
        run_steps(ChordType::UNKNOWN, ivs.drop_first())
    }
}

/// The display suffix of a triad quality; the omitted-fifth variants render
/// like their full shapes.
pub open spec fn triad_suffix_chars(t: TriadType) -> Seq<char> {
    match t {
        TriadType::minor => seq!['m'],
        TriadType::minor_omitted_5 => seq!['m'],
        TriadType::major => Seq::<char>::empty(),
        TriadType::major_omitted_5 => Seq::<char>::empty(),
        TriadType::sus2 => seq!['s', 'u', 's', '2'],
        TriadType::sus4 => seq!['s', 'u', 's', '4'],
        TriadType::minor_diminished => seq!['m', 'd', 'i', 'm'],
        TriadType::major_diminished => seq!['d', 'i', 'm'],
        TriadType::plus => seq!['+'],
    }
}

/// The canonical display string of a named interval (a major seventh is
/// marked `maj` since the minor seventh is the default seven-chord; the
/// unnamed octave and beyond-catalogue distances fall back to a dummy).
pub open spec fn interval_suffix_chars(iv: Interval) -> Seq<char> {
    match iv {
        Interval::OMITTED => Seq::<char>::empty(),
        Interval::MINOR_2 => seq!['2', 'm'],
        Interval::MAJOR_2 => seq!['2'],
        Interval::MINOR_3 => seq!['3', 'm'],
        Interval::MAJOR_3 => seq!['3'],
        Interval::PERFECT_4 => seq!['4'],
        Interval::FLATTENED_5 => seq!['5', '-'],
        Interval::PERFECT_5 => seq!['5'],
        Interval::AUGMENTED_5 => seq!['5', '+'],
        Interval::MINOR_6 => seq!['6', 'm'],
        Interval::MAJOR_6 => seq!['6'],
        Interval::MINOR_7 => seq!['7'],
        Interval::MAJOR_7 => seq!['7', 'm', 'a', 'j'],
        Interval::OCTAVE => seq!['b', 'l', 'u', 'b'],
        Interval::MINOR_9 => seq!['9', '-'],
        Interval::MAJOR_9 => seq!['9'],
        Interval::PLUS_9 => seq!['9', '+'],
        Interval::FLATTENED_11 => seq!['1', '1', '-'],
        Interval::PERFECT_11 => seq!['1', '1'],
        Interval::AUGMENTED_11 => seq!['1', '1', '+'],
        Interval::LOWER => seq!['b', 'l', 'u', 'b'],
    }
}

/// The suffix of a whole chord tag: triad quality plus extension symbols,
/// `add`-chords spelling the word out, seven/nine/eleven chords carrying the
/// numeral in the extension's own display string.
pub open spec fn chord_suffix_chars(t: ChordType) -> Seq<char> {
    match t {
        ChordType::UNKNOWN => seq!['U', 'n', 'k', 'n', 'o', 'w', 'n'],
        ChordType::TwoTone { t } => interval_suffix_chars(t),
        ChordType::Triad { t } => triad_suffix_chars(t),
        ChordType::AddChord { t, e } => triad_suffix_chars(t) + seq!['a', 'd', 'd']
            + interval_suffix_chars(e),
        ChordType::SevenChord { t, e } => triad_suffix_chars(t) + interval_suffix_chars(e),
        ChordType::NineChord { t, e1, e2 } => triad_suffix_chars(t) + interval_suffix_chars(e2),
        ChordType::ElevenChord { t, e1, e2, e3 } => triad_suffix_chars(t) + interval_suffix_chars(
            e3,
        ),
    }
}

/// A formatted chord: the uppercased root name followed by the tag suffix.
pub open spec fn chord_name_chars(t: ChordType, root: int) -> Seq<char> {
    note_name_upper_chars(class_of(root)) + chord_suffix_chars(t)
}

/// First-occurrence de-duplication by pitch class: an element is dropped
/// when a class in `seen`, or an earlier element of its class, precedes it.
pub open spec fn dedup_rec(s: Seq<int>, seen: Set<int>) -> Seq<int>
    decreases s.len(),
{
    if s.len() == 0 {
        Seq::<int>::empty()
    } else if seen.contains(class_of(s[0])) {
        dedup_rec(s.drop_first(), seen)
    } else {
        seq![s[0]] + dedup_rec(s.drop_first(), seen.insert(class_of(s[0])))
    }
}

/// De-duplicate a pitch sequence by pitch class, keeping the first
/// occurrence of each class in order.
pub open spec fn dedup_classes(s: Seq<int>) -> Seq<int> {
    dedup_rec(s, Set::<int>::empty())
}

/// Insert `x` into the sorted sequence `s`, after any equal elements.
pub open spec fn insert_sorted(x: int, s: Seq<int>) -> Seq<int>
    decreases s.len(),
{
    if s.len() == 0 {
        seq![x]
    } else if x < s[0] {
        seq![x] + s
    } else {
        seq![s[0]] + insert_sorted(x, s.drop_first())
    }
}

/// Insertion sort, folding the input from the front into `acc`.
pub open spec fn sort_rec(s: Seq<int>, acc: Seq<int>) -> Seq<int>
    decreases s.len(),
{
    if s.len() == 0 {
        acc
    } else {
        sort_rec(s.drop_first(), insert_sorted(s[0], acc))
    }
}

/// The stable ascending sort of a pitch sequence.
pub open spec fn sort_semis(s: Seq<int>) -> Seq<int> {
    sort_rec(s, Seq::<int>::empty())
}

/// The least element of a non-empty sequence.
pub open spec fn seq_min(s: Seq<int>) -> int
    decreases s.len(),
{
    if s.len() <= 1 {
        s[0]
    } else {
        let m = seq_min(s.drop_last());
        if s.last() < m {
            s.last()
        } else {
            m
        }
    }
}

/// The greatest element of a non-empty sequence.
pub open spec fn seq_max(s: Seq<int>) -> int
    decreases s.len(),
{
    if s.len() <= 1 {
        s[0]
    } else {
        let m = seq_max(s.drop_last());
        if s.last() > m {
            s.last()
        } else {
            m
        }
    }
}

/// How many octaves a voicing spans, rounded up and never less than one:
/// transposing by this many octaves puts a note above all the others.
pub open spec fn spec_octaves_spanned(s: Seq<int>) -> int {
    if s.len() == 0 {
        1
    } else {
        let c = (seq_max(s) - seq_min(s) + 11) / 12;
        if c < 1 {
            1
        } else {
            c
        }
    }
}

/// Inversion `i` of a base voicing: the last `len - i` notes unchanged,
/// then the first `i` notes transposed up by the spanned octaves, the whole
/// de-duplicated by pitch class.
pub open spec fn spec_inversion(base: Seq<int>, i: int) -> Seq<int> {
    dedup_classes(
        base.skip(i) + base.take(i).map_values(|p: int| p + 12 * spec_octaves_spanned(base)),
    )
}

/// All `len - 1` proper inversions of a base voicing, in order.
pub open spec fn spec_inversions(base: Seq<int>) -> Seq<Seq<int>> {
    if base.len() == 0 {
        Seq::<Seq<int>>::empty()
    } else {
        Seq::new((base.len() - 1) as nat, |j: int| spec_inversion(base, j + 1))
    }
}

/// Intervals beyond an augmented eleventh are folded back into one octave;
/// smaller ones keep their octave so that e.g. a ninth stays distinct from
/// a second.
pub open spec fn fold_high(d: int) -> int {
    if d > 18 {
        class_of(d)
    } else {
        d
    }
}

/// The sorted root-relative intervals of a voicing: each pitch minus the
/// lowest one, large distances folded, the whole sorted ascending.
pub open spec fn rel_intervals(v: Seq<int>) -> Seq<int> {
    sort_semis(v.map_values(|p: int| fold_high(p - seq_min(v))))
}

/// The same intervals with every octave folded away, the fallback attempt
/// when the octave-preserving intervals match no shape.
pub open spec fn folded_intervals(ivs: Seq<int>) -> Seq<int> {
    sort_semis(ivs.map_values(|d: int| class_of(d)))
}

/// The classification of one voicing: first on octave-preserving intervals,
/// then, if that matches nothing, on the fully folded ones.
pub open spec fn chord_type_of(v: Seq<int>) -> ChordType {
    let t = classify_intervals(rel_intervals(v));
    if t == ChordType::UNKNOWN {
        classify_intervals(folded_intervals(rel_intervals(v)))
    } else {
        t
    }
}

/// The interval list a recognized chord is built from: the octave-preserving
/// intervals when they matched, the folded ones otherwise.
pub open spec fn final_intervals(v: Seq<int>) -> Seq<int> {
    let ivs = rel_intervals(v);
    if classify_intervals(ivs) == ChordType::UNKNOWN {
        folded_intervals(ivs)
    } else {
        ivs
    }
}

/// The constituent pitches of the chord recognized in a voicing: the root
/// plus each matched interval, root first.
pub open spec fn chord_notes_of(v: Seq<int>) -> Seq<int> {
    final_intervals(v).map_values(|d: int| seq_min(v) + d)
}

/// The base voicing of an input pitch set: de-duplicated by pitch class,
/// then sorted ascending.
pub open spec fn base_voicing(notes: Seq<int>) -> Seq<int> {
    sort_semis(dedup_classes(notes))
}

/// Every voicing that the classifier walks: the base voicing first, then
/// its inversions.
pub open spec fn all_voicings(notes: Seq<int>) -> Seq<Seq<int>> {
    seq![base_voicing(notes)] + spec_inversions(base_voicing(notes))
}

/// All elements of `s` lie between `lo` and `hi`.
pub open spec fn in_range(s: Seq<int>, lo: int, hi: int) -> bool {
    forall|i: int| 0 <= i < s.len() ==> lo <= #[trigger] s[i] <= hi
}

/// Headroom for the semitone count of any pitch handed to the classifier,
/// so that octave transposition and interval arithmetic stay within `i32`.
pub const MAX_SEMITONES: i32 = 100_000_000;

/// Relies on `itertools::Itertools::unique_by`, keyed by
/// [`Note::no_octaves`]: it yields exactly the elements whose key has not
/// occurred earlier in the iteration, so the first note of each pitch class
/// is kept, in order.
#[verifier::external_body]
fn dedup_by_pitch_class(notes: &Vec<Note>) -> (r: Vec<Note>)
    ensures
        semis(r@) == dedup_classes(semis(notes@)),
{
    notes.iter().map(|s| *s).unique_by(|s1| s1.no_octaves()).collect::<Vec<_>>()
}

proof fn lemma_dedup_in_range(s: Seq<int>, seen: Set<int>, lo: int, hi: int)
    requires
        in_range(s, lo, hi),
    ensures
        in_range(dedup_rec(s, seen), lo, hi),
    decreases s.len(),
{
    if s.len() == 0 {
    } else {
        assert forall|i: int| 0 <= i < s.drop_first().len() implies lo <= #[trigger] s.drop_first()[i] <= hi by {
            assert(s.drop_first()[i] == s[i + 1]);
        }
        if seen.contains(class_of(s[0])) {
            lemma_dedup_in_range(s.drop_first(), seen, lo, hi);
        } else {
            lemma_dedup_in_range(s.drop_first(), seen.insert(class_of(s[0])), lo, hi);
        }
    }
}

proof fn lemma_dedup_nonempty(s: Seq<int>)
    requires
        s.len() > 0,
    ensures
        dedup_classes(s).len() >= 1,
{
    assert(!Set::<int>::empty().contains(class_of(s[0])));
}

proof fn lemma_insert_sorted_len(x: int, s: Seq<int>)
    ensures
        insert_sorted(x, s).len() == s.len() + 1,
    decreases s.len(),
{
    if s.len() == 0 {
    } else if x < s[0] {
    } else {
        lemma_insert_sorted_len(x, s.drop_first());
    }
}

proof fn lemma_insert_sorted_in_range(x: int, s: Seq<int>, lo: int, hi: int)
    requires
        in_range(s, lo, hi),
        lo <= x <= hi,
    ensures
        in_range(insert_sorted(x, s), lo, hi),
    decreases s.len(),
{
    if s.len() == 0 {
    } else if x < s[0] {
    } else {
        assert forall|i: int| 0 <= i < s.drop_first().len() implies lo <= #[trigger] s.drop_first()[i] <= hi by {
            assert(s.drop_first()[i] == s[i + 1]);
        }
        lemma_insert_sorted_in_range(x, s.drop_first(), lo, hi);
        lemma_insert_sorted_len(x, s.drop_first());
        assert forall|i: int| 0 <= i < insert_sorted(x, s).len() implies lo <= #[trigger] insert_sorted(
            x,
            s,
        )[i] <= hi by {
            if i == 0 {
            } else {
                assert(insert_sorted(x, s)[i] == insert_sorted(x, s.drop_first())[i - 1]);
            }
        }
    }
}

proof fn lemma_sort_rec_len(s: Seq<int>, acc: Seq<int>)
    ensures
        sort_rec(s, acc).len() == s.len() + acc.len(),
    decreases s.len(),
{
    if s.len() == 0 {
    } else {
        lemma_insert_sorted_len(s[0], acc);
        lemma_sort_rec_len(s.drop_first(), insert_sorted(s[0], acc));
    }
}

proof fn lemma_sort_rec_in_range(s: Seq<int>, acc: Seq<int>, lo: int, hi: int)
    requires
        in_range(s, lo, hi),
        in_range(acc, lo, hi),
    ensures
        in_range(sort_rec(s, acc), lo, hi),
    decreases s.len(),
{
    if s.len() == 0 {
    } else {
        assert forall|i: int| 0 <= i < s.drop_first().len() implies lo <= #[trigger] s.drop_first()[i] <= hi by {
            assert(s.drop_first()[i] == s[i + 1]);
        }
        lemma_insert_sorted_in_range(s[0], acc, lo, hi);
        lemma_sort_rec_in_range(s.drop_first(), insert_sorted(s[0], acc), lo, hi);
    }
}

/// Both bound lemmas for the whole base-voicing pipeline at once.
proof fn lemma_base_voicing_in_range(notes: Seq<int>, lo: int, hi: int)
    requires
        in_range(notes, lo, hi),
    ensures
        in_range(base_voicing(notes), lo, hi),
        base_voicing(notes).len() == dedup_classes(notes).len(),
{
    lemma_dedup_in_range(notes, Set::<int>::empty(), lo, hi);
    lemma_sort_rec_in_range(dedup_classes(notes), Seq::<int>::empty(), lo, hi);
    lemma_sort_rec_len(dedup_classes(notes), Seq::<int>::empty());
}

fn min_semitones(notes: &Vec<Note>) -> (r: i32)
    requires
        notes@.len() > 0,
    ensures
        r as int == seq_min(semis(notes@)),
{
    let s = Ghost(semis(notes@));
    let mut m = notes[0].semitones;
    proof {
        assert(s@.take(1) =~= seq![s@[0]]);
    }
    let mut i: usize = 1;
    while i < notes.len()
        invariant
            1 <= i <= s@.len(),
            s@ == semis(notes@),
            s@.len() == notes@.len(),
            m as int == seq_min(s@.take(i as int)),
        decreases s@.len() - i,
    {
        proof {
            assert(s@.take(i + 1).drop_last() =~= s@.take(i as int));
            assert(s@.take(i + 1).last() == s@[i as int]);
        }
        if notes[i].semitones < m {
            m = notes[i].semitones;
        }
        i += 1;
    }
    proof {
        assert(s@.take(notes@.len() as int) =~= s@);
    }
    m
}

fn max_semitones(notes: &Vec<Note>) -> (r: i32)
    requires
        notes@.len() > 0,
    ensures
        r as int == seq_max(semis(notes@)),
{
    let s = Ghost(semis(notes@));
    let mut m = notes[0].semitones;
    proof {
        assert(s@.take(1) =~= seq![s@[0]]);
    }
    let mut i: usize = 1;
    while i < notes.len()
        invariant
            1 <= i <= s@.len(),
            s@ == semis(notes@),
            s@.len() == notes@.len(),
            m as int == seq_max(s@.take(i as int)),
        decreases s@.len() - i,
    {
        proof {
            assert(s@.take(i + 1).drop_last() =~= s@.take(i as int));
            assert(s@.take(i + 1).last() == s@[i as int]);
        }
        if notes[i].semitones > m {
            m = notes[i].semitones;
        }
        i += 1;
    }
    proof {
        assert(s@.take(notes@.len() as int) =~= s@);
    }
    m
}

pub(crate) proof fn lemma_insert_sorted_split(x: int, s: Seq<int>, k: int)
    requires
        0 <= k <= s.len(),
        forall|j: int| 0 <= j < k ==> #[trigger] s[j] <= x,
        k < s.len() ==> x < s[k],
    ensures
        insert_sorted(x, s) == s.take(k).push(x) + s.skip(k),
    decreases k,
{
    if k == 0 {
        if s.len() == 0 {
            assert(insert_sorted(x, s) =~= s.take(0).push(x) + s.skip(0));
        } else {
            assert(x < s[0]);
            assert(seq![x] + s =~= s.take(0).push(x) + s.skip(0));
        }
    } else {
        assert(s[0] <= x);
        assert(s.len() > 0);
        let d = s.drop_first();
        assert forall|j: int| 0 <= j < k - 1 implies #[trigger] d[j] <= x by {
            assert(d[j] == s[j + 1]);
        }
        assert(k - 1 < d.len() ==> x < d[k - 1]);
        lemma_insert_sorted_split(x, d, k - 1);
        assert(seq![s[0]] + (d.take(k - 1).push(x) + d.skip(k - 1)) =~= s.take(k).push(x) + s.skip(
            k,
        ));
        assert(insert_sorted(x, s) == seq![s[0]] + insert_sorted(x, d));
    }
}

fn insert_note_sorted(acc: &mut Vec<Note>, x: Note)
    ensures
        semis(final(acc)@) == insert_sorted(x.semitones as int, semis(old(acc)@)),
{
    let ghost s = semis(old(acc)@);
    let mut k: usize = 0;
    while k < acc.len() && acc[k].semitones <= x.semitones
        invariant
            0 <= k <= acc@.len(),
            acc@ == old(acc)@,
            forall|j: int| 0 <= j < k ==> #[trigger] semis(acc@)[j] <= x.semitones,
        decreases acc@.len() - k,
    {
        k += 1;
    }
    proof {
        lemma_insert_sorted_split(x.semitones as int, s, k as int);
    }
    acc.insert(k, x);
    proof {
        assert(semis(acc@) =~= s.take(k as int).push(x.semitones as int) + s.skip(k as int));
    }
}

fn sort_notes(notes: &Vec<Note>) -> (r: Vec<Note>)
    ensures
        semis(r@) == sort_semis(semis(notes@)),
{
    let s = Ghost(semis(notes@));
    let mut acc: Vec<Note> = Vec::new();
    proof {
        assert(s@.skip(0) =~= s@);
        assert(semis(acc@) =~= Seq::<int>::empty());
    }
    let mut i: usize = 0;
    while i < notes.len()
        invariant
            0 <= i <= s@.len(),
            s@ == semis(notes@),
            s@.len() == notes@.len(),
            sort_rec(s@.skip(i as int), semis(acc@)) == sort_semis(s@),
        decreases s@.len() - i,
    {
        proof {
            assert(s@.skip(i as int).len() > 0);
            assert(s@.skip(i as int)[0] == s@[i as int]);
            assert(s@.skip(i as int).drop_first() =~= s@.skip(i + 1));
        }
        insert_note_sorted(&mut acc, notes[i]);
        i += 1;
    }
    proof {
        assert(s@.skip(notes@.len() as int) =~= Seq::<int>::empty());
    }
    acc
}

pub(crate) proof fn lemma_dedup_rec_distinct(s: Seq<int>, seen: Set<int>)
    requires
        forall|i: int, j: int|
            0 <= i < j < s.len() ==> class_of(#[trigger] s[i]) != class_of(#[trigger] s[j]),
        forall|i: int| 0 <= i < s.len() ==> !seen.contains(class_of(#[trigger] s[i])),
    ensures
        dedup_rec(s, seen) == s,
    decreases s.len(),
{
    if s.len() == 0 {
        assert(dedup_rec(s, seen) =~= s);
    } else {
        let d = s.drop_first();
        assert(!seen.contains(class_of(s[0])));
        assert forall|i: int, j: int|
            0 <= i < j < d.len() implies class_of(#[trigger] d[i]) != class_of(
            #[trigger] d[j],
        ) by {
            assert(d[i] == s[i + 1] && d[j] == s[j + 1]);
        }
        assert forall|i: int| 0 <= i < d.len() implies !seen.insert(class_of(s[0])).contains(
            class_of(#[trigger] d[i]),
        ) by {
            assert(d[i] == s[i + 1]);
            assert(class_of(s[i + 1]) != class_of(s[0]));
        }
        lemma_dedup_rec_distinct(d, seen.insert(class_of(s[0])));
        assert(seq![s[0]] + d =~= s);
    }
}

/// One result per distinct pitch class: for an input of `N` pairwise
/// class-distinct pitches, the classifier walks exactly `N` voicings, the
/// base voicing plus `N - 1` inversions, so `find_chord` returns exactly
/// `N` entries.
pub proof fn lemma_inversion_count(notes: Seq<int>)
    requires
        notes.len() > 0,
        forall|i: int, j: int|
            0 <= i < j < notes.len() ==> class_of(#[trigger] notes[i]) != class_of(
                #[trigger] notes[j],
            ),
    ensures
        base_voicing(notes).len() == notes.len(),
        all_voicings(notes).len() == notes.len(),
{
    assert forall|i: int| 0 <= i < notes.len() implies !Set::<int>::empty().contains(
        class_of(#[trigger] notes[i]),
    ) by {}
    lemma_dedup_rec_distinct(notes, Set::<int>::empty());
    lemma_sort_rec_len(dedup_classes(notes), Seq::<int>::empty());
}

/// Formatting is deterministic: the rendered name is a function of the
/// chord value alone, so two renderings of one chord are the same string.
pub proof fn lemma_format_deterministic(c: Chord, r1: Seq<char>, r2: Seq<char>)
    requires
        c.notes@.len() > 0,
        r1 == chord_name_chars(c.type_, c.notes@[0].semitones as int),
        r2 == chord_name_chars(c.type_, c.notes@[0].semitones as int),
    ensures
        r1 == r2,
{
}

/// Pairwise ascending order.
pub open spec fn sorted(s: Seq<int>) -> bool {
    forall|i: int, j: int| 0 <= i < j < s.len() ==> #[trigger] s[i] <= #[trigger] s[j]
}

pub(crate) proof fn lemma_insert_sorted_contains(x: int, s: Seq<int>, y: int)
    ensures
        insert_sorted(x, s).contains(y) <==> (s.contains(y) || y == x),
    decreases s.len(),
{
    if s.len() == 0 {
        assert(insert_sorted(x, s) =~= seq![x]);
        assert(seq![x][0] == x);
        assert(seq![x].contains(x));
    } else if x < s[0] {
        assert(insert_sorted(x, s) == seq![x] + s);
        assert forall|z: int| #[trigger] (seq![x] + s).contains(z) implies z == x || s.contains(
            z,
        ) by {
            let iw = choose|i: int| 0 <= i < (seq![x] + s).len() && (seq![x] + s)[i] == z;
            if iw > 0 {
                assert(s[iw - 1] == z);
            }
        }
        assert((seq![x] + s)[0] == x);
        assert forall|z: int| s.contains(z) implies (seq![x] + s).contains(z) by {
            let iw = choose|i: int| 0 <= i < s.len() && s[i] == z;
            assert((seq![x] + s)[iw + 1] == z);
        }
    } else {
        let d = s.drop_first();
        lemma_insert_sorted_contains(x, d, y);
        let t = insert_sorted(x, d);
        assert(insert_sorted(x, s) == seq![s[0]] + t);
        assert forall|z: int| #[trigger] (seq![s[0]] + t).contains(z) implies z == s[0]
            || t.contains(z) by {
            let iw = choose|i: int| 0 <= i < (seq![s[0]] + t).len() && (seq![s[0]] + t)[i] == z;
            if iw > 0 {
                assert(t[iw - 1] == z);
            }
        }
        assert((seq![s[0]] + t)[0] == s[0]);
        assert forall|z: int| t.contains(z) implies (seq![s[0]] + t).contains(z) by {
            let iw = choose|i: int| 0 <= i < t.len() && t[i] == z;
            assert((seq![s[0]] + t)[iw + 1] == z);
        }
        assert forall|z: int| s.contains(z) implies z == s[0] || d.contains(z) by {
            let iw = choose|i: int| 0 <= i < s.len() && s[i] == z;
            if iw > 0 {
                assert(d[iw - 1] == z);
            }
        }
        assert forall|z: int| d.contains(z) implies s.contains(z) by {
            let iw = choose|i: int| 0 <= i < d.len() && d[i] == z;
            assert(s[iw + 1] == z);
        }
    }
}

pub(crate) proof fn lemma_insert_sorted_sorted(x: int, s: Seq<int>)
    requires
        sorted(s),
    ensures
        sorted(insert_sorted(x, s)),
    decreases s.len(),
{
    if s.len() == 0 {
    } else if x < s[0] {
        assert(insert_sorted(x, s) == seq![x] + s);
        assert forall|i: int, j: int|
            0 <= i < j < (seq![x] + s).len() implies #[trigger] (seq![x] + s)[i] <= #[trigger] (
        seq![x] + s)[j] by {
            if i > 0 {
                assert(s[i - 1] <= s[j - 1]);
            } else {
                assert(x <= s[j - 1]);
            }
        }
    } else {
        let d = s.drop_first();
        assert forall|i: int, j: int|
            0 <= i < j < d.len() implies #[trigger] d[i] <= #[trigger] d[j] by {
            assert(s[i + 1] <= s[j + 1]);
        }
        lemma_insert_sorted_sorted(x, d);
        let t = insert_sorted(x, d);
        assert forall|i: int| 0 <= i < t.len() implies s[0] <= #[trigger] t[i] by {
            lemma_insert_sorted_contains(x, d, t[i]);
            assert(t.contains(t[i]));
            if t[i] == x {
            } else {
                let iw = choose|m: int| 0 <= m < d.len() && d[m] == t[i];
                assert(s[iw + 1] == t[i]);
            }
        }
        assert(insert_sorted(x, s) == seq![s[0]] + t);
        assert forall|i: int, j: int|
            0 <= i < j < (seq![s[0]] + t).len() implies #[trigger] (seq![s[0]] + t)[i]
            <= #[trigger] (seq![s[0]] + t)[j] by {
            if i > 0 {
                assert(t[i - 1] <= t[j - 1]);
            } else {
                assert(s[0] <= t[j - 1]);
            }
        }
    }
}

pub(crate) proof fn lemma_sort_rec_contains(s: Seq<int>, acc: Seq<int>, y: int)
    ensures
        sort_rec(s, acc).contains(y) <==> (s.contains(y) || acc.contains(y)),
    decreases s.len(),
{
    if s.len() == 0 {
    } else {
        let d = s.drop_first();
        lemma_insert_sorted_contains(s[0], acc, y);
        lemma_sort_rec_contains(d, insert_sorted(s[0], acc), y);
        assert forall|z: int| s.contains(z) implies z == s[0] || d.contains(z) by {
            let iw = choose|i: int| 0 <= i < s.len() && s[i] == z;
            if iw > 0 {
                assert(d[iw - 1] == z);
            }
        }
        assert forall|z: int| d.contains(z) implies s.contains(z) by {
            let iw = choose|i: int| 0 <= i < d.len() && d[i] == z;
            assert(s[iw + 1] == z);
        }
        assert(s.contains(s[0]));
    }
}

pub(crate) proof fn lemma_sort_rec_sorted(s: Seq<int>, acc: Seq<int>)
    requires
        sorted(acc),
    ensures
        sorted(sort_rec(s, acc)),
    decreases s.len(),
{
    if s.len() == 0 {
    } else {
        lemma_insert_sorted_sorted(s[0], acc);
        lemma_sort_rec_sorted(s.drop_first(), insert_sorted(s[0], acc));
    }
}

/// A non-empty pitch set keeps at least one note through de-duplication
/// and sorting.
pub proof fn lemma_base_voicing_nonempty(notes: Seq<int>)
    requires
        notes.len() > 0,
    ensures
        base_voicing(notes).len() >= 1,
{
    lemma_dedup_nonempty(notes);
    lemma_sort_rec_len(dedup_classes(notes), Seq::<int>::empty());
}

/// Every voicing the classifier walks is non-empty, and its pitches stay
/// within the headroom that interval arithmetic needs.
pub proof fn lemma_voicings_props(notes: Seq<int>)
    requires
        notes.len() > 0,
        in_range(notes, -(MAX_SEMITONES as int), MAX_SEMITONES as int),
    ensures
        all_voicings(notes).len() == base_voicing(notes).len(),
        forall|i: int|
            0 <= i < all_voicings(notes).len() ==> (#[trigger] all_voicings(notes)[i]).len() > 0,
        forall|i: int|
            0 <= i < all_voicings(notes).len() ==> in_range(
                #[trigger] all_voicings(notes)[i],
                -400_000_000,
                400_000_000,
            ),
{
    let base = base_voicing(notes);
    lemma_base_voicing_in_range(notes, -(MAX_SEMITONES as int), MAX_SEMITONES as int);
    lemma_dedup_nonempty(notes);
    lemma_sort_rec_len(dedup_classes(notes), Seq::<int>::empty());
    lemma_seq_min_max_props(base);
    let oct = spec_octaves_spanned(base);
    let span = seq_max(base) - seq_min(base);
    assert(0 <= span <= 2 * MAX_SEMITONES as int) by {
        let iw = choose|i: int| 0 <= i < base.len() && base[i] == seq_max(base);
        assert(seq_min(base) <= base[iw]);
        let im = choose|i: int| 0 <= i < base.len() && base[i] == seq_min(base);
        assert(-(MAX_SEMITONES as int) <= base[im]);
        assert(base[iw] <= MAX_SEMITONES as int);
    }
    assert(12 * oct <= span + 23) by {
        vstd::arithmetic::div_mod::lemma_fundamental_div_mod(span + 11, 12);
        vstd::arithmetic::div_mod::lemma_mod_pos_bound(span + 11, 12);
    }
    assert(oct >= 1);
    assert forall|i: int|
        0 <= i < all_voicings(notes).len() implies (#[trigger] all_voicings(notes)[i]).len() > 0
        && in_range(all_voicings(notes)[i], -400_000_000, 400_000_000) by {
        if i == 0 {
            assert(all_voicings(notes)[0] == base);
        } else {
            let j = i - 1;
            assert(all_voicings(notes)[i] == spec_inversions(base)[j]);
            assert(spec_inversions(base)[j] == spec_inversion(base, j + 1));
            let pre = base.skip(j + 1) + base.take(j + 1).map_values(|p: int| p + 12 * oct);
            assert(pre.len() == base.len());
            assert forall|m: int| 0 <= m < pre.len() implies -400_000_000 <= #[trigger] pre[m]
                <= 400_000_000 by {
                if m < base.len() - (j + 1) {
                    assert(pre[m] == base.skip(j + 1)[m]);
                    assert(base.skip(j + 1)[m] == base[j + 1 + m]);
                } else {
                    let t = m - (base.len() - (j + 1));
                    assert(pre[m] == base.take(j + 1).map_values(|p: int| p + 12 * oct)[t]);
                    assert(base.take(j + 1)[t] == base[t]);
                }
            }
            lemma_dedup_nonempty(pre);
            lemma_dedup_in_range(pre, Set::<int>::empty(), -400_000_000, 400_000_000);
        }
    }
}

/// The first pitch of a recognized chord's note list is the voicing's root,
/// its lowest note, and the list has one pitch per note of the voicing.
pub proof fn lemma_chord_root(v: Seq<int>)
    requires
        v.len() > 0,
    ensures
        chord_notes_of(v).len() == v.len(),
        chord_notes_of(v)[0] == seq_min(v),
{
    let mapped = v.map_values(|p: int| fold_high(p - seq_min(v)));
    let rel = rel_intervals(v);
    lemma_sort_rec_len(mapped, Seq::<int>::empty());
    lemma_sort_rec_sorted(mapped, Seq::<int>::empty());
    lemma_seq_min_max_props(v);
    assert forall|i: int| 0 <= i < mapped.len() implies 0 <= #[trigger] mapped[i] by {
        assert(mapped[i] == fold_high(v[i] - seq_min(v)));
        if v[i] - seq_min(v) > 18 {
            vstd::arithmetic::div_mod::lemma_mod_pos_bound(v[i] - seq_min(v), 12);
        }
    }
    let im = choose|i: int| 0 <= i < v.len() && v[i] == seq_min(v);
    assert(mapped[im] == fold_high(0));
    assert(mapped.contains(0));
    lemma_sort_rec_contains(mapped, Seq::<int>::empty(), 0);
    assert(rel.contains(0));
    let i0 = choose|i: int| 0 <= i < rel.len() && rel[i] == 0;
    assert forall|i: int| 0 <= i < rel.len() implies 0 <= #[trigger] rel[i] by {
        lemma_sort_rec_contains(mapped, Seq::<int>::empty(), rel[i]);
        assert(rel.contains(rel[i]));
    }
    assert(rel[0] <= rel[i0] && rel[0] >= 0);
    assert(rel[0] == 0);
    if classify_intervals(rel) == ChordType::UNKNOWN {
        let cmapped = rel.map_values(|d: int| class_of(d));
        lemma_sort_rec_len(cmapped, Seq::<int>::empty());
        lemma_sort_rec_sorted(cmapped, Seq::<int>::empty());
        assert forall|i: int| 0 <= i < cmapped.len() implies 0 <= #[trigger] cmapped[i] by {
            assert(cmapped[i] == class_of(rel[i]));
            vstd::arithmetic::div_mod::lemma_mod_pos_bound(rel[i], 12);
        }
        assert(cmapped[i0] == class_of(0int));
        assert(class_of(0int) == 0) by {
            vstd::arithmetic::div_mod::lemma_small_mod(0nat, 12nat);
        }
        assert(cmapped.contains(0));
        let fold = folded_intervals(rel);
        lemma_sort_rec_contains(cmapped, Seq::<int>::empty(), 0);
        assert(fold.contains(0));
        let j0 = choose|i: int| 0 <= i < fold.len() && fold[i] == 0;
        assert forall|i: int| 0 <= i < fold.len() implies 0 <= #[trigger] fold[i] by {
            lemma_sort_rec_contains(cmapped, Seq::<int>::empty(), fold[i]);
            assert(fold.contains(fold[i]));
        }
        assert(fold[0] <= fold[j0] && fold[0] >= 0);
        assert(fold[0] == 0);
    }
}

pub(crate) proof fn lemma_seq_min_max_props(s: Seq<int>)
    requires
        s.len() > 0,
    ensures
        s.contains(seq_min(s)),
        s.contains(seq_max(s)),
        forall|i: int| 0 <= i < s.len() ==> seq_min(s) <= #[trigger] s[i] <= seq_max(s),
    decreases s.len(),
{
    if s.len() == 1 {
        assert(s[0] == seq_min(s));
        assert(s[0] == seq_max(s));
        assert(s.contains(s[0]));
    } else {
        let d = s.drop_last();
        lemma_seq_min_max_props(d);
        let im = choose|i: int| 0 <= i < d.len() && d[i] == seq_min(d);
        assert(s[im] == seq_min(d));
        let ix = choose|i: int| 0 <= i < d.len() && d[i] == seq_max(d);
        assert(s[ix] == seq_max(d));
        assert(s.contains(seq_min(s)));
        assert(s.contains(seq_max(s)));
        assert forall|i: int| 0 <= i < s.len() implies seq_min(s) <= #[trigger] s[i] <= seq_max(s) by {
            if i < s.len() - 1 {
                assert(d[i] == s[i]);
            }
        }
    }
}

/// One executable transition of the classifier; the table mirrors [`step`].
fn step_chord(st: ChordType, n: i32) -> (r: ChordType)
    ensures
        r == step(st, n as int),
{
    if n == 1 {
        ChordType::TwoTone { t: Interval::MINOR_2 }
    } else if n == 2 {
        match st {
            ChordType::UNKNOWN => ChordType::TwoTone { t: Interval::MAJOR_2 },
            _ => ChordType::UNKNOWN,
        }
    } else if n == 3 {
        match st {
            ChordType::UNKNOWN => ChordType::Triad { t: TriadType::minor_omitted_5 },
            ChordType::TwoTone { t } => ChordType::AddChord { t: TriadType::minor_omitted_5, e: t },
            _ => ChordType::UNKNOWN,
        }
    } else if n == 4 {
        match st {
            ChordType::UNKNOWN => ChordType::Triad { t: TriadType::major_omitted_5 },
            ChordType::TwoTone { t } => ChordType::AddChord { t: TriadType::major_omitted_5, e: t },
            _ => ChordType::UNKNOWN,
        }
    } else if n == 5 {
        match st {
            ChordType::UNKNOWN => ChordType::TwoTone { t: Interval::PERFECT_4 },
            ChordType::Triad { t } => ChordType::AddChord { t, e: Interval::PERFECT_4 },
            _ => ChordType::UNKNOWN,
        }
    } else if n == 6 {
        match st {
            ChordType::UNKNOWN => ChordType::TwoTone { t: Interval::FLATTENED_5 },
            ChordType::Triad { t: TriadType::minor_omitted_5 } => ChordType::Triad {
                t: TriadType::minor_diminished,
            },
            ChordType::Triad { t: TriadType::major_omitted_5 } => ChordType::Triad {
                t: TriadType::major_diminished,
            },
            _ => ChordType::UNKNOWN,
        }
    } else if n == 7 {
        match st {
            ChordType::UNKNOWN => ChordType::TwoTone { t: Interval::PERFECT_5 },
            ChordType::Triad { t: TriadType::minor_omitted_5 } => ChordType::Triad {
                t: TriadType::minor,
            },
            ChordType::Triad { t: TriadType::major_omitted_5 } => ChordType::Triad {
                t: TriadType::major,
            },
            ChordType::AddChord { t: TriadType::minor_omitted_5, e } => ChordType::AddChord {
                t: TriadType::minor,
                e,
            },
            ChordType::AddChord { t: TriadType::major_omitted_5, e } => ChordType::AddChord {
                t: TriadType::major,
                e,
            },
            ChordType::TwoTone { t: Interval::MAJOR_2 } => ChordType::Triad { t: TriadType::sus2 },
            ChordType::TwoTone { t: Interval::PERFECT_4 } => ChordType::Triad { t: TriadType::sus4 },
            _ => ChordType::UNKNOWN,
        }
    } else if n == 8 {
        match st {
            ChordType::UNKNOWN => ChordType::TwoTone { t: Interval::AUGMENTED_5 },
            ChordType::Triad { t: TriadType::major_omitted_5 } => ChordType::Triad {
                t: TriadType::plus,
            },
            _ => ChordType::UNKNOWN,
        }
    } else if n == 9 {
        match st {
            ChordType::UNKNOWN => ChordType::TwoTone { t: Interval::MAJOR_6 },
            ChordType::Triad { t } => ChordType::AddChord { t, e: Interval::MAJOR_6 },
            _ => ChordType::UNKNOWN,
        }
    } else if n == 10 {
        match st {
            ChordType::UNKNOWN => ChordType::TwoTone { t: Interval::MINOR_7 },
            ChordType::Triad { t } => ChordType::SevenChord { t, e: Interval::MINOR_7 },
            _ => ChordType::UNKNOWN,
        }
    } else if n == 11 {
        match st {
            ChordType::UNKNOWN => ChordType::TwoTone { t: Interval::MAJOR_7 },
            ChordType::Triad { t } => ChordType::SevenChord { t, e: Interval::MAJOR_7 },
            _ => ChordType::UNKNOWN,
        }
    } else if n == 13 {
        match st {
            ChordType::UNKNOWN => ChordType::TwoTone { t: Interval::MINOR_9 },
            ChordType::Triad { t } => ChordType::AddChord { t, e: Interval::MINOR_9 },
            ChordType::SevenChord { t, e } => ChordType::NineChord {
                t,
                e1: e,
                e2: Interval::MINOR_9,
            },
            _ => ChordType::UNKNOWN,
        }
    } else if n == 14 {
        match st {
            ChordType::UNKNOWN => ChordType::TwoTone { t: Interval::MAJOR_9 },
            ChordType::Triad { t } => ChordType::AddChord { t, e: Interval::MAJOR_9 },
            ChordType::SevenChord { t, e } => ChordType::NineChord {
                t,
                e1: e,
                e2: Interval::MAJOR_9,
            },
            _ => ChordType::UNKNOWN,
        }
    } else if n == 15 {
        match st {
            ChordType::UNKNOWN => ChordType::TwoTone { t: Interval::PLUS_9 },
            ChordType::Triad { t } => ChordType::AddChord { t, e: Interval::PLUS_9 },
            ChordType::SevenChord { t, e } => ChordType::NineChord {
                t,
                e1: e,
                e2: Interval::PLUS_9,
            },
            _ => ChordType::UNKNOWN,
        }
    } else if n == 17 {
        match st {
            ChordType::UNKNOWN => ChordType::TwoTone { t: Interval::PERFECT_11 },
            ChordType::Triad { t } => ChordType::AddChord { t, e: Interval::PERFECT_11 },
            ChordType::SevenChord { t, e } => ChordType::ElevenChord {
                t,
                e1: e,
                e2: Interval::OMITTED,
                e3: Interval::PERFECT_11,
            },
            ChordType::NineChord { t, e1, e2 } => ChordType::ElevenChord {
                t,
                e1,
                e2,
                e3: Interval::PERFECT_11,
            },
            _ => ChordType::UNKNOWN,
        }
    } else {
        ChordType::UNKNOWN
    }
}

/// Walk the classifier over a root-relative, sorted, de-duplicated interval
/// list (the first entry is the root itself and is skipped); the walk stops
/// at the first transition that falls out of the catalogue. A lone third
/// is answered first, as a two-tone chord, before the walk would read it
/// as the start of a triad.
fn match_chord(intervals: &Vec<Note>) -> (r: ChordType)
    ensures
        r == classify_intervals(semis(intervals@)),
{
    let ghost s = semis(intervals@);
    let n = intervals.len();
    if n == 0 {
        return ChordType::UNKNOWN;
    }
    if n == 2 {
        proof {
            assert(s[1] == intervals@[1].semitones);
        }
        if intervals[1].semitones == 3 {
            return ChordType::TwoTone { t: Interval::MINOR_3 };
        }
        if intervals[1].semitones == 4 {
            return ChordType::TwoTone { t: Interval::MAJOR_3 };
        }
    }
    let mut candidate = ChordType::UNKNOWN;
    proof {
        assert(s.skip(1) =~= s.drop_first());
    }
    let mut i: usize = 1;
    while i < n
        invariant
            1 <= i <= n,
            n == s.len(),
            s == semis(intervals@),
            n == intervals@.len(),
            run_steps(candidate, s.skip(i as int)) == classify_intervals(s),
        decreases n - i,
    {
        proof {
            assert(s.skip(i as int).len() > 0);
            assert(s.skip(i as int)[0] == s[i as int]);
            assert(s.skip(i as int).drop_first() =~= s.skip(i + 1));
        }
        candidate = step_chord(candidate, intervals[i].semitones);
        if candidate == ChordType::UNKNOWN {
            return ChordType::UNKNOWN;
        }
        i += 1;
    }
    proof {
        assert(s.skip(n as int) =~= Seq::<int>::empty());
    }
    candidate
}

impl Chord {
    /// The constituent pitches of this chord, root first.
    pub fn get_notes(&self) -> (r: &Vec<Note>)
        ensures
            r@ == self.notes@,
    {
        &self.notes
    }

    /// Build a chord value from a root and its matched root-relative
    /// intervals: one constituent pitch per interval, root first.
    fn from_intervals(root: Note, intervals: &Vec<Note>, type_: ChordType) -> (r: Chord)
        requires
            -400_000_000 <= root.semitones <= 400_000_000,
            in_range(semis(intervals@), 0, 800_000_000),
        ensures
            r.type_ == type_,
            semis(r.notes@) == semis(intervals@).map_values(|d: int| root.semitones as int + d),
    {
        let mut notes: Vec<Note> = Vec::new();
        let n = intervals.len();
        let mut i: usize = 0;
        while i < n
            invariant
                0 <= i <= n,
                n == intervals@.len(),
                -400_000_000 <= root.semitones <= 400_000_000,
                in_range(semis(intervals@), 0, 800_000_000),
                notes@.len() == i,
                forall|k: int|
                    0 <= k < i ==> (#[trigger] notes@[k]).semitones == root.semitones + semis(
                        intervals@,
                    )[k],
            decreases n - i,
        {
            assert(0 <= semis(intervals@)[i as int] <= 800_000_000);
            notes.push(root.plus(intervals[i]));
            i += 1;
        }
        proof {
            assert(semis(notes@) =~= semis(intervals@).map_values(
                |d: int| root.semitones as int + d,
            ));
        }
        Chord { type_, notes }
    }

    /// Render this chord as the uppercased root name plus the tag suffix,
    /// e.g. `Cm`, `Csus2`, `C7`, `Cmadd9`.
    pub fn to_string(&self) -> (r: String)
        requires
            self.notes@.len() > 0,
        ensures
            r@ == chord_name_chars(self.type_, self.notes@[0].semitones as int),
    {
        let mut s = self.notes[0].to_string_upper().to_owned();
        match self.type_ {
            ChordType::UNKNOWN => {
                proof {
                    reveal_strlit("Unknown");
                    assert("Unknown"@ =~= seq!['U', 'n', 'k', 'n', 'o', 'w', 'n']);
                }
                s.append("Unknown");
            },
            ChordType::TwoTone { t } => {
                s.append(t.to_string());
            },
            ChordType::Triad { t } => {
                s.append(t.to_string());
            },
            ChordType::AddChord { t, e } => {
                s.append(t.to_string());
                proof {
                    reveal_strlit("add");
                    assert("add"@ =~= seq!['a', 'd', 'd']);
                }
                s.append("add");
                s.append(e.to_string());
            },
            ChordType::SevenChord { t, e } => {
                s.append(t.to_string());
                s.append(e.to_string());
            },
            ChordType::NineChord { t, e1: _, e2 } => {
                s.append(t.to_string());
                s.append(e2.to_string());
            },
            ChordType::ElevenChord { t, e1: _, e2: _, e3 } => {
                s.append(t.to_string());
                s.append(e3.to_string());
            },
        }
        s
    }

    /// For an `n`-note voicing, build its `n - 1` inversions: inversion `i`
    /// keeps the last `n - i` notes and moves the first `i` notes up by the
    /// number of octaves the voicing spans, de-duplicating by pitch class.
    pub fn build_inversions(intervals: &Vec<Note>) -> (r: Vec<Vec<Note>>)
        requires
            in_range(semis(intervals@), -(MAX_SEMITONES as int), MAX_SEMITONES as int),
        ensures
            r@.len() == spec_inversions(semis(intervals@)).len(),
            forall|j: int|
                0 <= j < r@.len() ==> semis(#[trigger] r@[j]@) == spec_inversion(
                    semis(intervals@),
                    j + 1,
                ),
            forall|j: int| 0 <= j < r@.len() ==> (#[trigger] r@[j]@).len() >= 1,
            forall|j: int|
                0 <= j < r@.len() ==> in_range(semis(#[trigger] r@[j]@), -400_000_000, 400_000_000),
    {
        let ghost base = semis(intervals@);
        let n = intervals.len();
        if n == 0 {
            let r: Vec<Vec<Note>> = Vec::new();
            return r;
        }
        assert(base.len() == n);
        let mx = max_semitones(intervals);
        let mn = min_semitones(intervals);
        proof {
            lemma_seq_min_max_props(base);
            let iw = choose|i: int| 0 <= i < base.len() && base[i] == seq_max(base);
            assert(seq_min(base) <= base[iw]);
        }
        let span = mx - mn;
        let c = (((span as u32) + 11) / 12) as i32;
        let octaves_spanned: i32 = if c < 1 {
            1
        } else {
            c
        };
        proof {
            assert(octaves_spanned as int == spec_octaves_spanned(base));
            // twelve times the spanned octaves never exceeds the span plus
            // eleven semitones (and is twelve for a one-octave voicing)
            vstd::arithmetic::div_mod::lemma_fundamental_div_mod(span as int + 11, 12);
            vstd::arithmetic::div_mod::lemma_mod_pos_bound(span as int + 11, 12);
            assert(12 * (octaves_spanned as int) <= span as int + 23);
        }
        let shift = Note::octave().times(octaves_spanned);
        let mut result: Vec<Vec<Note>> = Vec::new();
        let mut i: usize = 1;
        while i < n
            invariant
                1 <= i <= n,
                n == intervals@.len(),
                base == semis(intervals@),
                in_range(base, -(MAX_SEMITONES as int), MAX_SEMITONES as int),
                octaves_spanned as int == spec_octaves_spanned(base),
                1 <= octaves_spanned,
                shift.semitones == 12 * (octaves_spanned as int),
                shift.semitones <= 200_000_023,
                result@.len() == i - 1,
                forall|j: int|
                    0 <= j < i - 1 ==> semis(#[trigger] result@[j]@) == spec_inversion(base, j + 1),
                forall|j: int| 0 <= j < i - 1 ==> (#[trigger] result@[j]@).len() >= 1,
                forall|j: int|
                    0 <= j < i - 1 ==> in_range(
                        semis(#[trigger] result@[j]@),
                        -400_000_000,
                        400_000_000,
                    ),
            decreases n - i,
        {
            let mut inv: Vec<Note> = Vec::new();
            let mut j: usize = i;
            while j < n
                invariant
                    i <= j <= n,
                    n == intervals@.len(),
                    base == semis(intervals@),
                    in_range(base, -(MAX_SEMITONES as int), MAX_SEMITONES as int),
                    inv@.len() == j - i,
                    forall|k: int|
                        0 <= k < j - i ==> (#[trigger] inv@[k]).semitones == base[i + k],
                decreases n - j,
            {
                inv.push(intervals[j]);
                j += 1;
            }
            let mut j2: usize = 0;
            while j2 < i
                invariant
                    0 <= j2 <= i < n,
                    n == intervals@.len(),
                    base == semis(intervals@),
                    in_range(base, -(MAX_SEMITONES as int), MAX_SEMITONES as int),
                    1 <= octaves_spanned,
                    shift.semitones == 12 * (octaves_spanned as int),
                    shift.semitones <= 200_000_023,
                    inv@.len() == (n - i) + j2,
                    forall|k: int|
                        0 <= k < n - i ==> (#[trigger] inv@[k]).semitones == base[i + k],
                    forall|k: int|
                        0 <= k < j2 ==> (#[trigger] inv@[n - i + k]).semitones == base[k]
                            + shift.semitones,
                decreases i - j2,
            {
                assert(-(MAX_SEMITONES as int) <= base[j2 as int] <= MAX_SEMITONES as int);
                inv.push(intervals[j2].plus(shift));
                j2 += 1;
            }
            proof {
                let rhs = base.skip(i as int) + base.take(i as int).map_values(
                    |p: int| p + 12 * spec_octaves_spanned(base),
                );
                assert(semis(inv@).len() == rhs.len());
                assert forall|m: int| 0 <= m < rhs.len() implies semis(inv@)[m] == rhs[m] by {
                    if m < n - i {
                        assert(rhs[m] == base.skip(i as int)[m]);
                        assert(base.skip(i as int)[m] == base[i + m]);
                        assert(semis(inv@)[m] == inv@[m].semitones);
                    } else {
                        let k = m - (n - i);
                        assert(rhs[m] == base.take(i as int).map_values(
                            |p: int| p + 12 * spec_octaves_spanned(base),
                        )[k]);
                        assert(base.take(i as int)[k] == base[k]);
                        assert(semis(inv@)[m] == inv@[m].semitones);
                        assert(inv@[n - i + k].semitones == base[k] + shift.semitones);
                        assert(inv@[m].semitones == base[k] + shift.semitones);
                    }
                }
                assert(semis(inv@) =~= rhs);
                lemma_dedup_nonempty(semis(inv@));
                assert(in_range(semis(inv@), -400_000_000, 400_000_000));
                lemma_dedup_in_range(semis(inv@), Set::<int>::empty(), -400_000_000, 400_000_000);
            }
            let dd = dedup_by_pitch_class(&inv);
            result.push(dd);
            i += 1;
        }
        result
    }

    /// Classify one voicing: root-relative intervals first with octaves
    /// preserved, then, if nothing matched, with every octave folded away.
    fn classify_voicing(v: &Vec<Note>) -> (r: Option<Chord>)
        requires
            v@.len() > 0,
            in_range(semis(v@), -400_000_000, 400_000_000),
        ensures
            (r is Some) == (chord_type_of(semis(v@)) != ChordType::UNKNOWN),
            r matches Some(c) ==> c.type_ == chord_type_of(semis(v@)) && semis(c.notes@)
                == chord_notes_of(semis(v@)),
    {
        let ghost vs = semis(v@);
        let root = min_semitones(v);
        proof {
            lemma_seq_min_max_props(vs);
            let iw = choose|i: int| 0 <= i < vs.len() && vs[i] == seq_min(vs);
            assert(-400_000_000 <= vs[iw] <= 400_000_000);
        }
        let n = v.len();
        let mut diffs: Vec<Note> = Vec::new();
        let mut k: usize = 0;
        while k < n
            invariant
                0 <= k <= n,
                n == v@.len(),
                vs == semis(v@),
                in_range(vs, -400_000_000, 400_000_000),
                root as int == seq_min(vs),
                -400_000_000 <= root <= 400_000_000,
                forall|i: int| 0 <= i < vs.len() ==> root as int <= #[trigger] vs[i],
                diffs@.len() == k,
                forall|i: int|
                    0 <= i < k ==> (#[trigger] diffs@[i]).semitones == fold_high(vs[i] - root),
            decreases n - k,
        {
            assert(-400_000_000 <= vs[k as int] <= 400_000_000);
            let d = v[k].semitones - root;
            let nd = if d > 18 {
                Note { semitones: d }.no_octaves()
            } else {
                Note { semitones: d }
            };
            diffs.push(nd);
            k += 1;
        }
        proof {
            assert(semis(diffs@) =~= vs.map_values(|p: int| fold_high(p - seq_min(vs))));
            assert forall|i: int| 0 <= i < semis(diffs@).len() implies 0 <= #[trigger] semis(
                diffs@,
            )[i] <= 800_000_000 by {
                assert(semis(diffs@)[i] == diffs@[i].semitones);
            }
            lemma_sort_rec_in_range(semis(diffs@), Seq::<int>::empty(), 0, 800_000_000);
        }
        let sorted = sort_notes(&diffs);
        assert(semis(sorted@) == rel_intervals(vs));
        let t = match_chord(&sorted);
        if !(t == ChordType::UNKNOWN) {
            return Some(Chord::from_intervals(Note { semitones: root }, &sorted, t));
        }
        let m = sorted.len();
        let mut folded: Vec<Note> = Vec::new();
        let mut k2: usize = 0;
        while k2 < m
            invariant
                0 <= k2 <= m,
                m == sorted@.len(),
                folded@.len() == k2,
                forall|i: int|
                    0 <= i < k2 ==> (#[trigger] folded@[i]).semitones == class_of(
                        semis(sorted@)[i],
                    ),
            decreases m - k2,
        {
            folded.push(sorted[k2].no_octaves());
            k2 += 1;
        }
        proof {
            assert(semis(folded@) =~= semis(sorted@).map_values(|d: int| class_of(d)));
            assert forall|i: int| 0 <= i < semis(folded@).len() implies 0 <= #[trigger] semis(
                folded@,
            )[i] <= 800_000_000 by {
                assert(semis(folded@)[i] == folded@[i].semitones);
            }
            lemma_sort_rec_in_range(semis(folded@), Seq::<int>::empty(), 0, 800_000_000);
        }
        let sorted2 = sort_notes(&folded);
        assert(semis(sorted2@) == folded_intervals(rel_intervals(vs)));
        let t2 = match_chord(&sorted2);
        if t2 == ChordType::UNKNOWN {
            None
        } else {
            Some(Chord::from_intervals(Note { semitones: root }, &sorted2, t2))
        }
    }

    /// Identify the chords in a pitch set: de-duplicate it by pitch class,
    /// sort it, and classify the base voicing and each of its inversions in
    /// turn, one (optional) result per voicing.
    pub fn find_chord(notes: &Vec<Note>) -> (r: Vec<Option<Chord>>)
        requires
            notes@.len() > 0,
            in_range(semis(notes@), -(MAX_SEMITONES as int), MAX_SEMITONES as int),
        ensures
            r@.len() == base_voicing(semis(notes@)).len(),
            r@.len() == all_voicings(semis(notes@)).len(),
            forall|i: int|
                0 <= i < r@.len() ==> ((#[trigger] r@[i] is Some) == (chord_type_of(
                    all_voicings(semis(notes@))[i],
                ) != ChordType::UNKNOWN)),
            forall|i: int|
                0 <= i < r@.len() ==> (#[trigger] r@[i] matches Some(c) ==> c.type_
                    == chord_type_of(all_voicings(semis(notes@))[i]) && semis(c.notes@)
                    == chord_notes_of(all_voicings(semis(notes@))[i])),
    {
        let ghost ns = semis(notes@);
        proof {
            lemma_dedup_nonempty(ns);
            lemma_base_voicing_in_range(ns, -(MAX_SEMITONES as int), MAX_SEMITONES as int);
            lemma_sort_rec_len(dedup_classes(ns), Seq::<int>::empty());
        }
        let deduped = dedup_by_pitch_class(notes);
        let base = sort_notes(&deduped);
        assert(semis(base@) == base_voicing(ns));
        assert(base@.len() >= 1);
        assert(in_range(semis(base@), -400_000_000, 400_000_000));
        let inversions = Chord::build_inversions(&base);
        let mut results: Vec<Option<Chord>> = Vec::new();
        results.push(Chord::classify_voicing(&base));
        assert(all_voicings(ns)[0] == base_voicing(ns));
        let m = inversions.len();
        let mut i: usize = 0;
        while i < m
            invariant
                0 <= i <= m,
                ns == semis(notes@),
                m == inversions@.len(),
                m == spec_inversions(base_voicing(ns)).len(),
                semis(base@) == base_voicing(ns),
                forall|j: int|
                    0 <= j < m ==> semis(#[trigger] inversions@[j]@) == spec_inversion(
                        base_voicing(ns),
                        j + 1,
                    ),
                forall|j: int| 0 <= j < m ==> (#[trigger] inversions@[j]@).len() >= 1,
                forall|j: int|
                    0 <= j < m ==> in_range(
                        semis(#[trigger] inversions@[j]@),
                        -400_000_000,
                        400_000_000,
                    ),
                results@.len() == i + 1,
                (results@[0] is Some) == (chord_type_of(all_voicings(ns)[0])
                    != ChordType::UNKNOWN),
                results@[0] matches Some(c) ==> c.type_ == chord_type_of(all_voicings(ns)[0])
                    && semis(c.notes@) == chord_notes_of(all_voicings(ns)[0]),
                forall|j: int|
                    1 <= j < i + 1 ==> ((#[trigger] results@[j] is Some) == (chord_type_of(
                        all_voicings(ns)[j],
                    ) != ChordType::UNKNOWN)),
                forall|j: int|
                    1 <= j < i + 1 ==> (#[trigger] results@[j] matches Some(c) ==> c.type_
                        == chord_type_of(all_voicings(ns)[j]) && semis(c.notes@)
                        == chord_notes_of(all_voicings(ns)[j])),
            decreases m - i,
        {
            assert(semis(inversions@[i as int]@) == spec_inversion(base_voicing(ns), i + 1));
            assert(all_voicings(ns)[i + 1] == spec_inversions(base_voicing(ns))[i as int]);
            assert(spec_inversions(base_voicing(ns))[i as int] == spec_inversion(
                base_voicing(ns),
                i + 1,
            ));
            let c = Chord::classify_voicing(&inversions[i]);
            results.push(c);
            i += 1;
        }
        results
    }
}

} // verus!
