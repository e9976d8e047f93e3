//! The pitch model: a semitone-indexed pitch with octave-folding arithmetic.
use vstd::prelude::*;

verus! {

/// A pitch: a signed count of semitones from a fixed reference (`c` = 0).
/// The raw count keeps the octave; pitch-class equality goes through
/// [`class_of`] / [`Note::no_octaves`].
#[derive(Eq, PartialEq, PartialOrd, Ord, Copy, Clone, Debug, Hash, Structural)]
pub struct Note {
    pub semitones: i32,
}

/// The pitch class of a semitone count: folded into `[0, 12)` by floored
/// modulo, so that negative pitches land in the same twelve classes.
pub open spec fn class_of(p: int) -> int {
    p % 12
}

/// The lowercase name of the pitch class `c`, for `c` in `[0, 12)`.
pub open spec fn note_name_chars(c: int) -> Seq<char> {
    if c == 0 {
        seq!['c']
    } else if c == 1 {
        seq!['c', '#']
    } else if c == 2 {
        seq!['d']
    } else if c == 3 {
        seq!['d', '#']
    } else if c == 4 {
        seq!['e']
    } else if c == 5 {
        seq!['f']
    } else if c == 6 {
        seq!['f', '#']
    } else if c == 7 {
        seq!['g']
    } else if c == 8 {
        seq!['g', '#']
    } else if c == 9 {
        seq!['a']
    } else if c == 10 {
        seq!['a', '#']
    } else {
        seq!['b']
    }
}

/// The uppercase name of the pitch class `c`, for `c` in `[0, 12)`.
pub open spec fn note_name_upper_chars(c: int) -> Seq<char> {
    if c == 0 {
        seq!['C']
    } else if c == 1 {
        seq!['C', '#']
    } else if c == 2 {
        seq!['D']
    } else if c == 3 {
        seq!['D', '#']
    } else if c == 4 {
        seq!['E']
    } else if c == 5 {
        seq!['F']
    } else if c == 6 {
        seq!['F', '#']
    } else if c == 7 {
        seq!['G']
    } else if c == 8 {
        seq!['G', '#']
    } else if c == 9 {
        seq!['A']
    } else if c == 10 {
        seq!['A', '#']
    } else {
        seq!['B']
    }
}

/// The pitch class named by `s`: the twelve lowercase names plus the
/// accepted enharmonic flat spellings (`db`, `eb`, `gb`, `ab`, `bb`).
pub open spec fn spec_note_of_name(s: Seq<char>) -> Option<int> {
    if s == seq!['c'] {
        Some(0int)
    } else if s == seq!['c', '#'] || s == seq!['d', 'b'] {
        Some(1int)
    } else if s == seq!['d'] {
        Some(2int)
    } else if s == seq!['d', '#'] || s == seq!['e', 'b'] {
        Some(3int)
    } else if s == seq!['e'] {
        Some(4int)
    } else if s == seq!['f'] {
        Some(5int)
    } else if s == seq!['f', '#'] || s == seq!['g', 'b'] {
        Some(6int)
    } else if s == seq!['g'] {
        Some(7int)
    } else if s == seq!['g', '#'] || s == seq!['a', 'b'] {
        Some(8int)
    } else if s == seq!['a'] {
        Some(9int)
    } else if s == seq!['a', '#'] || s == seq!['b', 'b'] {
        Some(10int)
    } else if s == seq!['b'] {
        Some(11int)
    } else {
        None
    }
}

/// `p` reflected inside the octave: the class of `12 - class_of(p)`.
pub open spec fn regauge_of(p: int) -> int {
    class_of(12 - class_of(p))
}

impl Note {
    /// The twelve-semitone octave.
    pub fn octave() -> (r: Note)
        ensures
            r.semitones == 12,
    {
        Note { semitones: 12 }
    }

    /// Parse a lowercase note name (with the flat spellings `db`, `eb`,
    /// `gb`, `ab`, `bb` accepted as enharmonic aliases) to a pitch class.
    pub fn from_string(name: &str) -> (r: Option<Note>)
        ensures
            match r {
                Some(n) => spec_note_of_name(name@) == Some(n.semitones as int),
                None => spec_note_of_name(name@) is None,
            },
    {
        proof {
            reveal_strlit("c");
            reveal_strlit("c#");
            reveal_strlit("db");
            reveal_strlit("d");
            reveal_strlit("d#");
            reveal_strlit("eb");
            reveal_strlit("e");
            reveal_strlit("f");
            reveal_strlit("f#");
            reveal_strlit("gb");
            reveal_strlit("g");
            reveal_strlit("g#");
            reveal_strlit("ab");
            reveal_strlit("a");
            reveal_strlit("a#");
            reveal_strlit("bb");
            reveal_strlit("b");
            assert("c"@ =~= seq!['c']);
            assert("c#"@ =~= seq!['c', '#']);
            assert("db"@ =~= seq!['d', 'b']);
            assert("d"@ =~= seq!['d']);
            assert("d#"@ =~= seq!['d', '#']);
            assert("eb"@ =~= seq!['e', 'b']);
            assert("e"@ =~= seq!['e']);
            assert("f"@ =~= seq!['f']);
            assert("f#"@ =~= seq!['f', '#']);
            assert("gb"@ =~= seq!['g', 'b']);
            assert("g"@ =~= seq!['g']);
            assert("g#"@ =~= seq!['g', '#']);
            assert("ab"@ =~= seq!['a', 'b']);
            assert("a"@ =~= seq!['a']);
            assert("a#"@ =~= seq!['a', '#']);
            assert("bb"@ =~= seq!['b', 'b']);
            assert("b"@ =~= seq!['b']);
        }
        if crate::strutil::str_eq(name, "c") {
            Some(Note { semitones: 0 })
        } else if crate::strutil::str_eq(name, "c#") || crate::strutil::str_eq(name, "db") {
            Some(Note { semitones: 1 })
        } else if crate::strutil::str_eq(name, "d") {
            Some(Note { semitones: 2 })
        } else if crate::strutil::str_eq(name, "d#") || crate::strutil::str_eq(name, "eb") {
            Some(Note { semitones: 3 })
        } else if crate::strutil::str_eq(name, "e") {
            Some(Note { semitones: 4 })
        } else if crate::strutil::str_eq(name, "f") {
            Some(Note { semitones: 5 })
        } else if crate::strutil::str_eq(name, "f#") || crate::strutil::str_eq(name, "gb") {
            Some(Note { semitones: 6 })
        } else if crate::strutil::str_eq(name, "g") {
            Some(Note { semitones: 7 })
        } else if crate::strutil::str_eq(name, "g#") || crate::strutil::str_eq(name, "ab") {
            Some(Note { semitones: 8 })
        } else if crate::strutil::str_eq(name, "a") {
            Some(Note { semitones: 9 })
        } else if crate::strutil::str_eq(name, "a#") || crate::strutil::str_eq(name, "bb") {
            Some(Note { semitones: 10 })
        } else if crate::strutil::str_eq(name, "b") {
            Some(Note { semitones: 11 })
        } else {
            None
        }
    }

    /// Fold this pitch into one octave: the result is its pitch class,
    /// always in `[0, 12)`.
    pub fn no_octaves(self) -> (r: Note)
        ensures
            r.semitones == class_of(self.semitones as int),
            0 <= r.semitones < 12,
    {
        let s: i64 = self.semitones as i64;
        if s >= 0 {
            Note { semitones: (s % 12) as i32 }
        } else {
            let m: i64 = (-s) % 12;
            if m == 0 {
                Note { semitones: 0 }
            } else {
                proof {
                    vstd::arithmetic::div_mod::lemma_mod_neg_neg(s as int, 12);
                }
                Note { semitones: (12 - m) as i32 }
            }
        }
    }

    /// Reflect a (typically negative) interval inside the octave.
    pub fn regauge(&self) -> (r: Note)
        ensures
            r.semitones == regauge_of(self.semitones as int),
            0 <= r.semitones < 12,
    {
        Note::octave().minus(self.no_octaves()).no_octaves()
    }

    /// [`Note::regauge`] applied only to negative pitches; non-negative
    /// pitches pass through unchanged.
    pub fn regauge_if_negative(&self) -> (r: Note)
        ensures
            r.semitones == if self.semitones < 0 {
                regauge_of(self.semitones as int)
            } else {
                self.semitones as int
            },
    {
        if self.semitones < 0 {
            self.regauge()
        } else {
            *self
        }
    }

    /// The lowercase name of this pitch's class.
    pub fn to_string(&self) -> (r: &'static str)
        ensures
            r@ == note_name_chars(class_of(self.semitones as int)),
    {
        let c = self.no_octaves().semitones;
        if c == 0 {
            proof { reveal_strlit("c"); assert("c"@ =~= seq!['c']); }
            "c"
        } else if c == 1 {
            proof { reveal_strlit("c#"); assert("c#"@ =~= seq!['c', '#']); }
            "c#"
        } else if c == 2 {
            proof { reveal_strlit("d"); assert("d"@ =~= seq!['d']); }
            "d"
        } else if c == 3 {
            proof { reveal_strlit("d#"); assert("d#"@ =~= seq!['d', '#']); }
            "d#"
        } else if c == 4 {
            proof { reveal_strlit("e"); assert("e"@ =~= seq!['e']); }
            "e"
        } else if c == 5 {
            proof { reveal_strlit("f"); assert("f"@ =~= seq!['f']); }
            "f"
        } else if c == 6 {
            proof { reveal_strlit("f#"); assert("f#"@ =~= seq!['f', '#']); }
            "f#"
        } else if c == 7 {
            proof { reveal_strlit("g"); assert("g"@ =~= seq!['g']); }
            "g"
        } else if c == 8 {
            proof { reveal_strlit("g#"); assert("g#"@ =~= seq!['g', '#']); }
            "g#"
        } else if c == 9 {
            proof { reveal_strlit("a"); assert("a"@ =~= seq!['a']); }
            "a"
        } else if c == 10 {
            proof { reveal_strlit("a#"); assert("a#"@ =~= seq!['a', '#']); }
            "a#"
        } else {
            proof { reveal_strlit("b"); assert("b"@ =~= seq!['b']); }
            "b"
        }
    }

    /// The uppercase name of this pitch's class.
    pub fn to_string_upper(&self) -> (r: &'static str)
        ensures
            r@ == note_name_upper_chars(class_of(self.semitones as int)),
    {
        let c = self.no_octaves().semitones;
        if c == 0 {
            proof { reveal_strlit("C"); assert("C"@ =~= seq!['C']); }
            "C"
        } else if c == 1 {
            proof { reveal_strlit("C#"); assert("C#"@ =~= seq!['C', '#']); }
            "C#"
        } else if c == 2 {
            proof { reveal_strlit("D"); assert("D"@ =~= seq!['D']); }
            "D"
        } else if c == 3 {
            proof { reveal_strlit("D#"); assert("D#"@ =~= seq!['D', '#']); }
            "D#"
        } else if c == 4 {
            proof { reveal_strlit("E"); assert("E"@ =~= seq!['E']); }
            "E"
        } else if c == 5 {
            proof { reveal_strlit("F"); assert("F"@ =~= seq!['F']); }
            "F"
        } else if c == 6 {
            proof { reveal_strlit("F#"); assert("F#"@ =~= seq!['F', '#']); }
            "F#"
        } else if c == 7 {
            proof { reveal_strlit("G"); assert("G"@ =~= seq!['G']); }
            "G"
        } else if c == 8 {
            proof { reveal_strlit("G#"); assert("G#"@ =~= seq!['G', '#']); }
            "G#"
        } else if c == 9 {
            proof { reveal_strlit("A"); assert("A"@ =~= seq!['A']); }
            "A"
        } else if c == 10 {
            proof { reveal_strlit("A#"); assert("A#"@ =~= seq!['A', '#']); }
            "A#"
        } else {
            proof { reveal_strlit("B"); assert("B"@ =~= seq!['B']); }
            "B"
        }
    }

    /// Raw semitone addition; octaves are deliberately not folded away.
    pub fn plus(self, rhs: Note) -> (r: Note)
        requires
            i32::MIN <= self.semitones + rhs.semitones <= i32::MAX,
        ensures
            r.semitones == self.semitones + rhs.semitones,
    {
        Note { semitones: self.semitones + rhs.semitones }
    }

    /// Raw semitone subtraction; octaves are deliberately not folded away.
    pub fn minus(self, rhs: Note) -> (r: Note)
        requires
            i32::MIN <= self.semitones - rhs.semitones <= i32::MAX,
        ensures
            r.semitones == self.semitones - rhs.semitones,
    {
        Note { semitones: self.semitones - rhs.semitones }
    }

    /// This pitch's interval taken `k` times, e.g. a whole number of octaves.
    pub fn times(self, k: i32) -> (r: Note)
        requires
            i32::MIN <= k * self.semitones <= i32::MAX,
        ensures
            r.semitones == k * self.semitones,
    {
        Note { semitones: k * self.semitones }
    }
}

} // verus!
