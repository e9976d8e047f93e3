//! Scales: a closed catalogue of interval-step tables, the notes a scale
//! spans, its degree labels, and the diatonic chord on each degree.
use vstd::prelude::*;

use crate::chord::Chord;
use crate::chord::ChordType;
use crate::chord::all_voicings;
use crate::chord::base_voicing;
use crate::chord::chord_name_chars;
use crate::chord::chord_type_of;
use crate::chord::in_range;
use crate::chord::lemma_chord_root;
use crate::chord::semis;
use crate::chord::seq_min;
use crate::note::Note;
use crate::note::class_of;
use crate::note::note_name_chars;
use crate::note::regauge_of;

verus! {

use vstd::string::StringExecFns;

/// The closed catalogue of scale types.
#[derive(Clone, Copy, PartialEq, Eq, Structural, Debug)]
pub enum ScaleType {
    minor,
    major,
    minor_blues,
    major_blues,
    minor_pentatonic,
    major_pentatonic,
    dorian,
    phrygian,
    lydian,
    mixolydian,
}

/// The semitone steps of each scale type, each step relative to the note
/// before it; the leading zero makes the root itself the first note.
pub open spec fn scale_steps(t: ScaleType) -> Seq<int> {
    match t {
        ScaleType::major => seq![0int, 2, 2, 1, 2, 2, 2, 1],
        ScaleType::minor => seq![0int, 2, 1, 2, 2, 1, 2, 2],
        ScaleType::minor_pentatonic => seq![0int, 3, 2, 2, 3, 2],
        ScaleType::major_pentatonic => seq![0int, 2, 2, 3, 2, 3],
        ScaleType::minor_blues => seq![0int, 3, 2, 1, 1, 3, 2],
        ScaleType::major_blues => seq![0int, 2, 1, 1, 3, 2, 3],
        ScaleType::dorian => seq![0int, 2, 1, 2, 2, 2, 1, 2],
        ScaleType::phrygian => seq![0int, 1, 2, 2, 2, 1, 2, 2],
        ScaleType::lydian => seq![0int, 2, 2, 2, 1, 2, 2, 1],
        ScaleType::mixolydian => seq![0int, 2, 2, 1, 2, 2, 1, 2],
    }
}

/// The sum of the first `i` steps.
pub open spec fn sum_to(steps: Seq<int>, i: int) -> int
    decreases i,
{
    if i <= 0 {
        0
    } else {
        sum_to(steps, i - 1) + steps[i - 1]
    }
}

/// The notes of a scale: the running sums of its steps from the root.
pub open spec fn spec_scale_notes(root: int, steps: Seq<int>) -> Seq<int> {
    Seq::new(steps.len(), |i: int| root + sum_to(steps, i + 1))
}

/// The scale name accepted for each scale type, for parsing.
pub open spec fn spec_scale_of_name(s: Seq<char>) -> Option<ScaleType> {
    if s == "minor"@ {
        Some(ScaleType::minor)
    } else if s == "major"@ {
        Some(ScaleType::major)
    } else if s == "minor_blues"@ {
        Some(ScaleType::minor_blues)
    } else if s == "major_blues"@ {
        Some(ScaleType::major_blues)
    } else if s == "minor_pentatonic"@ {
        Some(ScaleType::minor_pentatonic)
    } else if s == "major_pentatonic"@ {
        Some(ScaleType::major_pentatonic)
    } else if s == "dorian"@ {
        Some(ScaleType::dorian)
    } else if s == "phrygian"@ {
        Some(ScaleType::phrygian)
    } else if s == "lydian"@ {
        Some(ScaleType::lydian)
    } else if s == "mixolydian"@ {
        Some(ScaleType::mixolydian)
    } else {
        None
    }
}

impl ScaleType {
    /// Parse a scale name, one of the catalogue's ten lowercase names.
    pub fn from_name(name: &str) -> (r: Option<ScaleType>)
        ensures
            r == spec_scale_of_name(name@),
    {
        if crate::strutil::str_eq(name, "minor") {
            Some(ScaleType::minor)
        } else if crate::strutil::str_eq(name, "major") {
            Some(ScaleType::major)
        } else if crate::strutil::str_eq(name, "minor_blues") {
            Some(ScaleType::minor_blues)
        } else if crate::strutil::str_eq(name, "major_blues") {
            Some(ScaleType::major_blues)
        } else if crate::strutil::str_eq(name, "minor_pentatonic") {
            Some(ScaleType::minor_pentatonic)
        } else if crate::strutil::str_eq(name, "major_pentatonic") {
            Some(ScaleType::major_pentatonic)
        } else if crate::strutil::str_eq(name, "dorian") {
            Some(ScaleType::dorian)
        } else if crate::strutil::str_eq(name, "phrygian") {
            Some(ScaleType::phrygian)
        } else if crate::strutil::str_eq(name, "lydian") {
            Some(ScaleType::lydian)
        } else if crate::strutil::str_eq(name, "mixolydian") {
            Some(ScaleType::mixolydian)
        } else {
            None
        }
    }
}

/// A scale: its notes (root first, ascending) and its type.
pub struct Scale {
    pub notes: Vec<Note>,
    pub scale_type: ScaleType,
}

/// The degree labels of the thirteen semitone offsets inside one octave.
pub open spec fn degree_chars(d: int) -> Seq<char> {
    if d == 0 {
        seq!['1']
    } else if d == 1 {
        seq!['2', 'b']
    } else if d == 2 {
        seq!['2']
    } else if d == 3 {
        seq!['3', 'b']
    } else if d == 4 {
        seq!['3']
    } else if d == 5 {
        seq!['4']
    } else if d == 6 {
        seq!['5', 'b']
    } else if d == 7 {
        seq!['5']
    } else if d == 8 {
        seq!['6', 'b']
    } else if d == 9 {
        seq!['6']
    } else if d == 10 {
        seq!['7', 'b']
    } else if d == 11 {
        seq!['7']
    } else {
        seq!['8']
    }
}

/// The degree label of semitone offset `d` from the root, for `d` in
/// `[0, 12]`.
fn degree_of(d: i32) -> (r: &'static str)
    requires
        0 <= d <= 12,
    ensures
        r@ == degree_chars(d as int),
{
    if d == 0 {
        proof { reveal_strlit("1"); assert("1"@ =~= seq!['1']); }
        "1"
    } else if d == 1 {
        proof { reveal_strlit("2b"); assert("2b"@ =~= seq!['2', 'b']); }
        "2b"
    } else if d == 2 {
        proof { reveal_strlit("2"); assert("2"@ =~= seq!['2']); }
        "2"
    } else if d == 3 {
        proof { reveal_strlit("3b"); assert("3b"@ =~= seq!['3', 'b']); }
        "3b"
    } else if d == 4 {
        proof { reveal_strlit("3"); assert("3"@ =~= seq!['3']); }
        "3"
    } else if d == 5 {
        proof { reveal_strlit("4"); assert("4"@ =~= seq!['4']); }
        "4"
    } else if d == 6 {
        proof { reveal_strlit("5b"); assert("5b"@ =~= seq!['5', 'b']); }
        "5b"
    } else if d == 7 {
        proof { reveal_strlit("5"); assert("5"@ =~= seq!['5']); }
        "5"
    } else if d == 8 {
        proof { reveal_strlit("6b"); assert("6b"@ =~= seq!['6', 'b']); }
        "6b"
    } else if d == 9 {
        proof { reveal_strlit("6"); assert("6"@ =~= seq!['6']); }
        "6"
    } else if d == 10 {
        proof { reveal_strlit("7b"); assert("7b"@ =~= seq!['7', 'b']); }
        "7b"
    } else if d == 11 {
        proof { reveal_strlit("7"); assert("7"@ =~= seq!['7']); }
        "7"
    } else {
        proof { reveal_strlit("8"); assert("8"@ =~= seq!['8']); }
        "8"
    }
}

/// The two-octave extension a scale's diatonic chords are read from: the
/// notes short of the closing octave, then every note an octave up.
pub open spec fn spec_two_octaves(ns: Seq<int>) -> Seq<int> {
    ns.take(ns.len() - 1) + ns.map_values(|p: int| p + 12)
}

/// The three-note window on degree `i`: every other note from the degree
/// upward, read over two octaves.
pub open spec fn spec_degree_window(ns: Seq<int>, i: int) -> Seq<int> {
    let t = spec_two_octaves(ns);
    seq![t[i], t[i + 2], t[i + 4]]
}

/// The displayed chord of degree `i`: the name of the chord its window's
/// base voicing matches, or an `x ` placeholder when none matches.
pub open spec fn spec_degree_chord_name(ns: Seq<int>, i: int) -> Seq<char> {
    let w = spec_degree_window(ns, i);
    let t = chord_type_of(base_voicing(w));
    if t == ChordType::UNKNOWN {
        seq!['x', ' ']
    } else {
        chord_name_chars(t, seq_min(base_voicing(w)))
    }
}

impl Scale {
    /// The scale's data is well formed: at least six notes, each note the
    /// running sum of the type's steps from a root with ample headroom.
    pub open spec fn wf(self) -> bool {
        let ns = semis(self.notes@);
        &&& ns.len() >= 6
        &&& ns == spec_scale_notes(ns[0], scale_steps(self.scale_type))
        &&& -99_000_000 <= ns[0] <= 99_000_000
        &&& in_range(ns, ns[0], ns[0] + 24)
    }

    /// The notes of the scale, root first, ascending.
    pub fn get_notes(&self) -> (r: &Vec<Note>)
        ensures
            r@ == self.notes@,
    {
        &self.notes
    }

    /// The root the scale is built on: its first note.
    fn root(&self) -> (r: Note)
        requires
            self.notes@.len() > 0,
        ensures
            r == self.notes@[0],
    {
        self.notes[0]
    }

    /// The step table of `scale_type`, as executable values.
    fn steps_of(scale_type: ScaleType) -> (r: Vec<i32>)
        ensures
            r@.map_values(|x: i32| x as int) == scale_steps(scale_type),
            6 <= r@.len() <= 8,
            forall|i: int| 0 <= i < r@.len() ==> 0 <= #[trigger] r@[i] <= 3,
    {
        let mut v: Vec<i32> = Vec::new();
        match scale_type {
            ScaleType::major => {
                v.push(0); v.push(2); v.push(2); v.push(1);
                v.push(2); v.push(2); v.push(2); v.push(1);
            },
            ScaleType::minor => {
                v.push(0); v.push(2); v.push(1); v.push(2);
                v.push(2); v.push(1); v.push(2); v.push(2);
            },
            ScaleType::minor_pentatonic => {
                v.push(0); v.push(3); v.push(2); v.push(2); v.push(3); v.push(2);
            },
            ScaleType::major_pentatonic => {
                v.push(0); v.push(2); v.push(2); v.push(3); v.push(2); v.push(3);
            },
            ScaleType::minor_blues => {
                v.push(0); v.push(3); v.push(2); v.push(1);
                v.push(1); v.push(3); v.push(2);
            },
            ScaleType::major_blues => {
                v.push(0); v.push(2); v.push(1); v.push(1);
                v.push(3); v.push(2); v.push(3);
            },
            ScaleType::dorian => {
                v.push(0); v.push(2); v.push(1); v.push(2);
                v.push(2); v.push(2); v.push(1); v.push(2);
            },
            ScaleType::phrygian => {
                v.push(0); v.push(1); v.push(2); v.push(2);
                v.push(2); v.push(1); v.push(2); v.push(2);
            },
            ScaleType::lydian => {
                v.push(0); v.push(2); v.push(2); v.push(2);
                v.push(1); v.push(2); v.push(2); v.push(1);
            },
            ScaleType::mixolydian => {
                v.push(0); v.push(2); v.push(2); v.push(1);
                v.push(2); v.push(2); v.push(1); v.push(2);
            },
        }
        proof {
            assert(v@.map_values(|x: i32| x as int) =~= scale_steps(scale_type));
        }
        v
    }

    /// Build the scale on `root` from a step table.
    fn from_intervals(root: Note, steps: &Vec<i32>, scale_type: ScaleType) -> (r: Scale)
        requires
            -99_000_000 <= root.semitones <= 99_000_000,
            6 <= steps@.len() <= 8,
            forall|i: int| 0 <= i < steps@.len() ==> 0 <= #[trigger] steps@[i] <= 3,
        ensures
            r.scale_type == scale_type,
            semis(r.notes@) == spec_scale_notes(
                root.semitones as int,
                steps@.map_values(|x: i32| x as int),
            ),
            r.notes@.len() == steps@.len(),
            in_range(semis(r.notes@), root.semitones as int, root.semitones as int + 24),
    {
        let ghost sp = steps@.map_values(|x: i32| x as int);
        let n = steps.len();
        let mut notes: Vec<Note> = Vec::new();
        let mut cur: i32 = root.semitones;
        let mut i: usize = 0;
        while i < n
            invariant
                0 <= i <= n,
                n == steps@.len(),
                n <= 8,
                sp == steps@.map_values(|x: i32| x as int),
                forall|k: int| 0 <= k < n ==> 0 <= #[trigger] steps@[k] <= 3,
                -99_000_000 <= root.semitones <= 99_000_000,
                cur as int == root.semitones + sum_to(sp, i as int),
                root.semitones <= cur as int <= root.semitones + 3 * i,
                notes@.len() == i,
                forall|k: int|
                    0 <= k < i ==> (#[trigger] notes@[k]).semitones == root.semitones + sum_to(
                        sp,
                        k + 1,
                    ),
                forall|k: int|
                    0 <= k < i ==> root.semitones <= (#[trigger] notes@[k]).semitones
                        <= root.semitones + 24,
            decreases n - i,
        {
            proof {
                assert(sp[i as int] == steps@[i as int] as int);
            }
            cur = cur + steps[i];
            notes.push(Note { semitones: cur });
            i += 1;
        }
        proof {
            assert(semis(notes@) =~= spec_scale_notes(root.semitones as int, sp));
            assert forall|k: int|
                0 <= k < semis(notes@).len() implies root.semitones <= #[trigger] semis(
                notes@,
            )[k] <= root.semitones + 24 by {
                assert(semis(notes@)[k] == notes@[k].semitones);
            }
        }
        Scale { notes, scale_type }
    }

    /// Build the scale of `scale_type` on `root`.
    pub fn from_type_and_root(root: Note, scale_type: ScaleType) -> (r: Scale)
        requires
            -99_000_000 <= root.semitones <= 99_000_000,
        ensures
            r.wf(),
            r.scale_type == scale_type,
            semis(r.notes@) == spec_scale_notes(root.semitones as int, scale_steps(scale_type)),
            r.notes@[0].semitones == root.semitones,
    {
        let steps = Scale::steps_of(scale_type);
        let r = Scale::from_intervals(root, &steps, scale_type);
        proof {
            assert(semis(r.notes@)[0] == r.notes@[0].semitones);
            assert(scale_steps(scale_type)[0] == 0);
            assert(sum_to(scale_steps(scale_type), 0) == 0);
            assert(sum_to(scale_steps(scale_type), 1) == sum_to(scale_steps(scale_type), 0)
                + scale_steps(scale_type)[0]);
        }
        r
    }

    /// The diatonic chord on each degree: stack two thirds (every other
    /// note over two octaves) on the degree and name what the classifier
    /// finds, or an `x ` placeholder when it finds nothing.
    pub fn chords_in_scale(&self) -> (r: Vec<String>)
        requires
            self.wf(),
        ensures
            r@.len() == self.notes@.len(),
            forall|i: int|
                0 <= i < r@.len() ==> (#[trigger] r@[i])@ == spec_degree_chord_name(
                    semis(self.notes@),
                    i,
                ),
    {
        let ghost ns = semis(self.notes@);
        let n = self.notes.len();
        let mut two_octaves: Vec<Note> = Vec::new();
        let mut j: usize = 0;
        while j < n - 1
            invariant
                0 <= j <= n - 1,
                n == self.notes@.len(),
                ns == semis(self.notes@),
                self.wf(),
                two_octaves@.len() == j,
                forall|k: int| 0 <= k < j ==> #[trigger] two_octaves@[k] == self.notes@[k],
            decreases n - 1 - j,
        {
            two_octaves.push(self.notes[j]);
            j += 1;
        }
        let mut j2: usize = 0;
        while j2 < n
            invariant
                0 <= j2 <= n,
                n == self.notes@.len(),
                ns == semis(self.notes@),
                self.wf(),
                two_octaves@.len() == n - 1 + j2,
                forall|k: int| 0 <= k < n - 1 ==> #[trigger] two_octaves@[k] == self.notes@[k],
                forall|k: int|
                    0 <= k < j2 ==> (#[trigger] two_octaves@[n - 1 + k]).semitones == ns[k] + 12,
            decreases n - j2,
        {
            assert(ns[0] <= ns[j2 as int] <= ns[0] + 24);
            two_octaves.push(self.notes[j2].plus(Note::octave()));
            j2 += 1;
        }
        proof {
            assert(semis(two_octaves@).len() == spec_two_octaves(ns).len());
            assert forall|k: int|
                0 <= k < semis(two_octaves@).len() implies #[trigger] semis(two_octaves@)[k]
                == spec_two_octaves(ns)[k] by {
                assert(semis(two_octaves@)[k] == two_octaves@[k].semitones);
                if k < n - 1 {
                    assert(two_octaves@[k] == self.notes@[k]);
                    assert(spec_two_octaves(ns)[k] == ns.take(ns.len() - 1)[k]);
                } else {
                    assert(two_octaves@[n - 1 + (k - (n - 1))].semitones == ns[k - (n - 1)] + 12);
                    assert(spec_two_octaves(ns)[k] == ns.map_values(|p: int| p + 12)[k - (n - 1)]);
                }
            }
            assert(semis(two_octaves@) =~= spec_two_octaves(ns));
            assert forall|k: int|
                0 <= k < 2 * n - 1 implies ns[0] <= (#[trigger] two_octaves@[k]).semitones <= ns[0]
                + 36 by {
                if k < n - 1 {
                    assert(two_octaves@[k] == self.notes@[k]);
                    assert(ns[k] == self.notes@[k].semitones);
                    assert(ns[0] <= ns[k] <= ns[0] + 24);
                } else {
                    assert(two_octaves@[n - 1 + (k - (n - 1))].semitones == ns[k - (n - 1)] + 12);
                    assert(ns[0] <= ns[k - (n - 1)] <= ns[0] + 24);
                }
            }
        }
        let mut names: Vec<String> = Vec::new();
        let mut i: usize = 0;
        while i < n
            invariant
                0 <= i <= n,
                n == self.notes@.len(),
                n >= 6,
                ns == semis(self.notes@),
                self.wf(),
                two_octaves@.len() == 2 * n - 1,
                semis(two_octaves@) == spec_two_octaves(ns),
                forall|k: int|
                    0 <= k < 2 * n - 1 ==> ns[0] <= (#[trigger] two_octaves@[k]).semitones <= ns[0]
                        + 36,
                names@.len() == i,
                forall|k: int|
                    0 <= k < i ==> (#[trigger] names@[k])@ == spec_degree_chord_name(ns, k),
            decreases n - i,
        {
            let mut w: Vec<Note> = Vec::new();
            w.push(two_octaves[i]);
            w.push(two_octaves[i + 2]);
            w.push(two_octaves[i + 4]);
            proof {
                assert(semis(w@) =~= spec_degree_window(ns, i as int));
                assert forall|k: int|
                    0 <= k < semis(w@).len() implies -(crate::chord::MAX_SEMITONES as int)
                    <= #[trigger] semis(w@)[k] <= (crate::chord::MAX_SEMITONES as int) by {
                    assert(semis(w@)[k] == w@[k].semitones);
                }
            }
            let chords = Chord::find_chord(&w);
            proof {
                assert(all_voicings(semis(w@))[0] == base_voicing(semis(w@)));
            }
            let name: String;
            match &chords[0] {
                Some(chord) => {
                    proof {
                        lemma_chord_root(base_voicing(semis(w@)));
                        crate::chord::lemma_base_voicing_nonempty(semis(w@));
                    }
                    name = chord.to_string();
                },
                None => {
                    proof {
                        reveal_strlit("x ");
                        assert("x "@ =~= seq!['x', ' ']);
                    }
                    name = String::from_str("x ");
                },
            }
            names.push(name);
            i += 1;
        }
        names
    }

    /// The degree label of the pitch `diff` relative to `root`: negative
    /// intervals are reflected inside the octave, others folded into it.
    pub fn note_to_degree(root: &Note, diff: &Note) -> (r: &'static str)
        requires
            i32::MIN <= diff.semitones - root.semitones <= i32::MAX,
        ensures
            r@ == degree_chars(
                if diff.semitones - root.semitones < 0 {
                    regauge_of(diff.semitones - root.semitones)
                } else {
                    class_of(diff.semitones - root.semitones)
                },
            ),
    {
        let d = diff.minus(*root).regauge_if_negative();
        let dd = d.no_octaves();
        proof {
            if diff.semitones - root.semitones < 0 {
                assert(d.semitones == regauge_of(diff.semitones - root.semitones));
                vstd::arithmetic::div_mod::lemma_small_mod(d.semitones as nat, 12nat);
            }
        }
        degree_of(dd.semitones)
    }

    /// The degree labels of the scale's notes in order, the octave closing
    /// it labelled `8`.
    pub fn degrees_in_scale(&self) -> (r: Vec<&'static str>)
        requires
            self.wf(),
        ensures
            r@.len() == self.notes@.len(),
            forall|i: int|
                0 <= i < r@.len() ==> (#[trigger] r@[i])@ == degree_chars(
                    (semis(self.notes@)[i] - semis(self.notes@)[0]) % 13,
                ),
    {
        let ghost ns = semis(self.notes@);
        let root_semitone = self.root().semitones;
        let n = self.notes.len();
        let mut r: Vec<&'static str> = Vec::new();
        let mut i: usize = 0;
        while i < n
            invariant
                0 <= i <= n,
                n == self.notes@.len(),
                ns == semis(self.notes@),
                self.wf(),
                root_semitone == ns[0],
                r@.len() == i,
                forall|k: int|
                    0 <= k < i ==> (#[trigger] r@[k])@ == degree_chars((ns[k] - ns[0]) % 13),
            decreases n - i,
        {
            assert(ns[0] <= ns[i as int] <= ns[0] + 24);
            let d = (self.notes[i].semitones - root_semitone) % 13;
            r.push(degree_of(d));
            i += 1;
        }
        r
    }

    /// The lowercase names of the scale's notes in order.
    pub fn notes_in_scale(&self) -> (r: Vec<&'static str>)
        ensures
            r@.len() == self.notes@.len(),
            forall|i: int|
                0 <= i < r@.len() ==> (#[trigger] r@[i])@ == note_name_chars(
                    class_of(semis(self.notes@)[i]),
                ),
    {
        let n = self.notes.len();
        let mut r: Vec<&'static str> = Vec::new();
        let mut i: usize = 0;
        while i < n
            invariant
                0 <= i <= n,
                n == self.notes@.len(),
                r@.len() == i,
                forall|k: int|
                    0 <= k < i ==> (#[trigger] r@[k])@ == note_name_chars(
                        class_of(semis(self.notes@)[k]),
                    ),
            decreases n - i,
        {
            r.push(self.notes[i].to_string());
            i += 1;
        }
        r
    }
}

} // verus!
