//! String tunings: the catalogue of named tunings, their open-string
//! pitches, and the mapping of tab notation to absolute pitches.
use vstd::prelude::*;

use crate::note::Note;
use crate::note::class_of;
use crate::note::note_name_chars;

verus! {

use vstd::string::StringExecFns;

/// The closed catalogue of supported tunings.
#[derive(Clone, Copy, PartialEq, Eq, Structural, Debug)]
pub enum TuningType {
    eadgbe,
    dropd,
    doubledropd,
    dadgad,
    dgcdcg,
    openc6,
    eeeebe,
    opend,
    opene,
    openg,
    opena,
    openc,
}

/// The open-string pitches of each tuning, lowest string first, counted in
/// semitones from the lowest `c`.
pub open spec fn tuning_base_semis(t: TuningType) -> Seq<int> {
    match t {
        TuningType::eadgbe => seq![4int, 9, 14, 19, 23, 28],
        TuningType::dropd => seq![2int, 9, 14, 19, 23, 28],
        TuningType::doubledropd => seq![2int, 9, 14, 19, 23, 26],
        TuningType::dadgad => seq![2int, 9, 14, 19, 21, 26],
        TuningType::dgcdcg => seq![2int, 7, 12, 19, 24, 26],
        TuningType::openc6 => seq![0int, 9, 12, 19, 24, 28],
        TuningType::eeeebe => seq![4int, 4, 16, 16, 23, 28],
        TuningType::opend => seq![2int, 9, 14, 18, 21, 26],
        TuningType::opene => seq![4int, 11, 14, 20, 23, 28],
        TuningType::openg => seq![2int, 11, 14, 19, 23, 26],
        TuningType::opena => seq![4int, 9, 16, 21, 25, 28],
        TuningType::openc => seq![0int, 7, 12, 19, 24, 28],
    }
}

/// The name under which each tuning is looked up and displayed.
pub open spec fn tuning_name_chars(t: TuningType) -> Seq<char> {
    match t {
        TuningType::eadgbe => "eadgbe"@,
        TuningType::dropd => "dropd"@,
        TuningType::doubledropd => "doubledropd"@,
        TuningType::dadgad => "dadgad"@,
        TuningType::dgcdcg => "dgcdcg"@,
        TuningType::openc6 => "openc6"@,
        TuningType::eeeebe => "eeeebe"@,
        TuningType::opend => "opend"@,
        TuningType::opene => "opene"@,
        TuningType::openg => "openg"@,
        TuningType::opena => "opena"@,
        TuningType::openc => "openc"@,
    }
}

/// The tuning named by `s`, if any.
pub open spec fn spec_tuning_of_name(s: Seq<char>) -> Option<TuningType> {
    if s == "eadgbe"@ {
        Some(TuningType::eadgbe)
    } else if s == "dropd"@ {
        Some(TuningType::dropd)
    } else if s == "doubledropd"@ {
        Some(TuningType::doubledropd)
    } else if s == "dadgad"@ {
        Some(TuningType::dadgad)
    } else if s == "dgcdcg"@ {
        Some(TuningType::dgcdcg)
    } else if s == "openc6"@ {
        Some(TuningType::openc6)
    } else if s == "eeeebe"@ {
        Some(TuningType::eeeebe)
    } else if s == "opend"@ {
        Some(TuningType::opend)
    } else if s == "opene"@ {
        Some(TuningType::opene)
    } else if s == "openg"@ {
        Some(TuningType::openg)
    } else if s == "opena"@ {
        Some(TuningType::opena)
    } else if s == "openc"@ {
        Some(TuningType::openc)
    } else {
        None
    }
}

/// The views of a list of owned strings.
pub open spec fn strviews(v: Seq<String>) -> Seq<Seq<char>> {
    v.map_values(|s: String| s@)
}

/// The first index at or after `from` whose name equals `s`.
pub open spec fn spec_find_string(names: Seq<Seq<char>>, from: int, s: Seq<char>) -> Option<int>
    decreases names.len() - from,
{
    if from < 0 || from >= names.len() {
        None
    } else if names[from] == s {
        Some(from)
    } else {
        spec_find_string(names, from + 1, s)
    }
}

/// The greedy mapping of tab tokens to pitches: each string name is looked
/// up from the running lower-string index; a hit yields the offset plus the
/// open string's pitch and moves the index past the hit's relative
/// position, a miss yields nothing and leaves the index unchanged.
pub open spec fn spec_tune(
    names: Seq<Seq<char>>,
    bases: Seq<int>,
    strs: Seq<Seq<char>>,
    offs: Seq<int>,
    idx: int,
) -> Seq<Option<int>>
    decreases strs.len(),
{
    if strs.len() == 0 || offs.len() == 0 {
        Seq::<Option<int>>::empty()
    } else {
        match spec_find_string(names, idx, strs[0]) {
            Some(p) => seq![Some(offs[0] + bases[p])] + spec_tune(
                names,
                bases,
                strs.drop_first(),
                offs.drop_first(),
                (p - idx) + 1,
            ),
            None => seq![None] + spec_tune(
                names,
                bases,
                strs.drop_first(),
                offs.drop_first(),
                idx,
            ),
        }
    }
}

/// The semitone values behind a list of optional pitches.
pub open spec fn opt_semis(s: Seq<Option<Note>>) -> Seq<Option<int>> {
    s.map_values(
        |o: Option<Note>|
            match o {
                Some(n) => Some(n.semitones as int),
                None => None,
            },
    )
}

pub(crate) proof fn lemma_find_string_range(names: Seq<Seq<char>>, from: int, s: Seq<char>)
    requires
        from >= 0,
    ensures
        spec_find_string(names, from, s) matches Some(p) ==> from <= p < names.len(),
    decreases names.len() - from,
{
    if from < 0 || from >= names.len() {
    } else if names[from] == s {
    } else {
        lemma_find_string_range(names, from + 1, s);
    }
}

/// Every pitch the greedy lookup produces is an offset plus an open-string
/// pitch, so it stays inside the sum of the two ranges.
pub(crate) proof fn lemma_spec_tune_bounds(
    names: Seq<Seq<char>>,
    bases: Seq<int>,
    strs: Seq<Seq<char>>,
    offs: Seq<int>,
    idx: int,
    blo: int,
    bhi: int,
    olo: int,
    ohi: int,
)
    requires
        bases.len() == names.len(),
        forall|i: int| 0 <= i < bases.len() ==> blo <= #[trigger] bases[i] <= bhi,
        forall|i: int| 0 <= i < offs.len() ==> olo <= #[trigger] offs[i] <= ohi,
        idx >= 0,
    ensures
        forall|k: int|
            0 <= k < spec_tune(names, bases, strs, offs, idx).len() ==> (match #[trigger] spec_tune(
                names,
                bases,
                strs,
                offs,
                idx,
            )[k] {
                Some(v) => olo + blo <= v <= ohi + bhi,
                None => true,
            }),
    decreases strs.len(),
{
    if strs.len() == 0 || offs.len() == 0 {
    } else {
        lemma_find_string_range(names, idx, strs[0]);
        assert forall|i: int|
            0 <= i < offs.drop_first().len() implies olo <= #[trigger] offs.drop_first()[i]
            <= ohi by {
            assert(offs.drop_first()[i] == offs[i + 1]);
        }
        let res = spec_tune(names, bases, strs, offs, idx);
        match spec_find_string(names, idx, strs[0]) {
            Some(p) => {
                lemma_spec_tune_bounds(
                    names,
                    bases,
                    strs.drop_first(),
                    offs.drop_first(),
                    (p - idx) + 1,
                    blo,
                    bhi,
                    olo,
                    ohi,
                );
                assert forall|k: int| 0 <= k < res.len() implies (match #[trigger] res[k] {
                    Some(v) => olo + blo <= v <= ohi + bhi,
                    None => true,
                }) by {
                    if k > 0 {
                        assert(res[k] == spec_tune(
                            names,
                            bases,
                            strs.drop_first(),
                            offs.drop_first(),
                            (p - idx) + 1,
                        )[k - 1]);
                    }
                }
            },
            None => {
                lemma_spec_tune_bounds(
                    names,
                    bases,
                    strs.drop_first(),
                    offs.drop_first(),
                    idx,
                    blo,
                    bhi,
                    olo,
                    ohi,
                );
                assert forall|k: int| 0 <= k < res.len() implies (match #[trigger] res[k] {
                    Some(v) => olo + blo <= v <= ohi + bhi,
                    None => true,
                }) by {
                    if k > 0 {
                        assert(res[k] == spec_tune(
                            names,
                            bases,
                            strs.drop_first(),
                            offs.drop_first(),
                            idx,
                        )[k - 1]);
                    }
                }
            },
        }
    }
}

pub(crate) proof fn lemma_tuning_base_in_range(t: TuningType)
    ensures
        tuning_base_semis(t).len() == 6,
        crate::chord::in_range(tuning_base_semis(t), 0, 28),
{
}

/// A tuning: its type, the display name of each open string, and each open
/// string's pitch.
pub struct Tuning {
    pub tuning_type: TuningType,
    pub note_strings: Vec<String>,
    pub base_notes: Vec<Note>,
}

impl Tuning {
    /// The tuning's data is well formed: six strings whose pitches follow
    /// the type's table and whose names are the pitches' note names.
    pub open spec fn wf(self) -> bool {
        &&& self.base_notes@.len() == 6
        &&& self.note_strings@.len() == 6
        &&& crate::chord::semis(self.base_notes@) == tuning_base_semis(self.tuning_type)
        &&& forall|i: int|
            0 <= i < 6 ==> (#[trigger] self.note_strings@[i])@ == note_name_chars(
                class_of(self.base_notes@[i].semitones as int),
            )
    }

    /// The open-string pitches, lowest string first.
    pub fn get_basenotes(&self) -> (r: &Vec<Note>)
        ensures
            r@ == self.base_notes@,
    {
        &self.base_notes
    }

    /// The tuning's display name.
    pub fn to_string(&self) -> (r: String)
        ensures
            r@ == tuning_name_chars(self.tuning_type),
    {
        match self.tuning_type {
            TuningType::eadgbe => String::from_str("eadgbe"),
            TuningType::dropd => String::from_str("dropd"),
            TuningType::doubledropd => String::from_str("doubledropd"),
            TuningType::dadgad => String::from_str("dadgad"),
            TuningType::dgcdcg => String::from_str("dgcdcg"),
            TuningType::openc6 => String::from_str("openc6"),
            TuningType::eeeebe => String::from_str("eeeebe"),
            TuningType::opend => String::from_str("opend"),
            TuningType::opene => String::from_str("opene"),
            TuningType::openg => String::from_str("openg"),
            TuningType::opena => String::from_str("opena"),
            TuningType::openc => String::from_str("openc"),
        }
    }

    /// Look a tuning up by name.
    pub fn from_name(name: &str) -> (r: Option<Tuning>)
        ensures
            match r {
                Some(t) => spec_tuning_of_name(name@) == Some(t.tuning_type) && t.wf(),
                None => spec_tuning_of_name(name@) is None,
            },
    {
        if crate::strutil::str_eq(name, "eadgbe") {
            Some(Tuning::from_type(TuningType::eadgbe))
        } else if crate::strutil::str_eq(name, "dropd") {
            Some(Tuning::from_type(TuningType::dropd))
        } else if crate::strutil::str_eq(name, "doubledropd") {
            Some(Tuning::from_type(TuningType::doubledropd))
        } else if crate::strutil::str_eq(name, "dadgad") {
            Some(Tuning::from_type(TuningType::dadgad))
        } else if crate::strutil::str_eq(name, "dgcdcg") {
            Some(Tuning::from_type(TuningType::dgcdcg))
        } else if crate::strutil::str_eq(name, "openc6") {
            Some(Tuning::from_type(TuningType::openc6))
        } else if crate::strutil::str_eq(name, "eeeebe") {
            Some(Tuning::from_type(TuningType::eeeebe))
        } else if crate::strutil::str_eq(name, "opend") {
            Some(Tuning::from_type(TuningType::opend))
        } else if crate::strutil::str_eq(name, "opene") {
            Some(Tuning::from_type(TuningType::opene))
        } else if crate::strutil::str_eq(name, "openg") {
            Some(Tuning::from_type(TuningType::openg))
        } else if crate::strutil::str_eq(name, "opena") {
            Some(Tuning::from_type(TuningType::opena))
        } else if crate::strutil::str_eq(name, "openc") {
            Some(Tuning::from_type(TuningType::openc))
        } else {
            None
        }
    }

    /// Build the tuning of `tuning_type` from its table.
    pub fn from_type(tuning_type: TuningType) -> (r: Tuning)
        ensures
            r.wf(),
            r.tuning_type == tuning_type,
    {
        let mut base_notes: Vec<Note> = Vec::new();
        match tuning_type {
            TuningType::eadgbe => {
                base_notes.push(Note { semitones: 4 });
                base_notes.push(Note { semitones: 9 });
                base_notes.push(Note { semitones: 14 });
                base_notes.push(Note { semitones: 19 });
                base_notes.push(Note { semitones: 23 });
                base_notes.push(Note { semitones: 28 });
            },
            TuningType::dropd => {
                base_notes.push(Note { semitones: 2 });
                base_notes.push(Note { semitones: 9 });
                base_notes.push(Note { semitones: 14 });
                base_notes.push(Note { semitones: 19 });
                base_notes.push(Note { semitones: 23 });
                base_notes.push(Note { semitones: 28 });
            },
            TuningType::doubledropd => {
                base_notes.push(Note { semitones: 2 });
                base_notes.push(Note { semitones: 9 });
                base_notes.push(Note { semitones: 14 });
                base_notes.push(Note { semitones: 19 });
                base_notes.push(Note { semitones: 23 });
                base_notes.push(Note { semitones: 26 });
            },
            TuningType::dadgad => {
                base_notes.push(Note { semitones: 2 });
                base_notes.push(Note { semitones: 9 });
                base_notes.push(Note { semitones: 14 });
                base_notes.push(Note { semitones: 19 });
                base_notes.push(Note { semitones: 21 });
                base_notes.push(Note { semitones: 26 });
            },
            TuningType::dgcdcg => {
                base_notes.push(Note { semitones: 2 });
                base_notes.push(Note { semitones: 7 });
                base_notes.push(Note { semitones: 12 });
                base_notes.push(Note { semitones: 19 });
                base_notes.push(Note { semitones: 24 });
                base_notes.push(Note { semitones: 26 });
            },
            TuningType::openc6 => {
                base_notes.push(Note { semitones: 0 });
                base_notes.push(Note { semitones: 9 });
                base_notes.push(Note { semitones: 12 });
                base_notes.push(Note { semitones: 19 });
                base_notes.push(Note { semitones: 24 });
                base_notes.push(Note { semitones: 28 });
            },
            TuningType::eeeebe => {
                base_notes.push(Note { semitones: 4 });
                base_notes.push(Note { semitones: 4 });
                base_notes.push(Note { semitones: 16 });
                base_notes.push(Note { semitones: 16 });
                base_notes.push(Note { semitones: 23 });
                base_notes.push(Note { semitones: 28 });
            },
            TuningType::opend => {
                base_notes.push(Note { semitones: 2 });
                base_notes.push(Note { semitones: 9 });
                base_notes.push(Note { semitones: 14 });
                base_notes.push(Note { semitones: 18 });
                base_notes.push(Note { semitones: 21 });
                base_notes.push(Note { semitones: 26 });
            },
            TuningType::opene => {
                base_notes.push(Note { semitones: 4 });
                base_notes.push(Note { semitones: 11 });
                base_notes.push(Note { semitones: 14 });
                base_notes.push(Note { semitones: 20 });
                base_notes.push(Note { semitones: 23 });
                base_notes.push(Note { semitones: 28 });
            },
            TuningType::openg => {
                base_notes.push(Note { semitones: 2 });
                base_notes.push(Note { semitones: 11 });
                base_notes.push(Note { semitones: 14 });
                base_notes.push(Note { semitones: 19 });
                base_notes.push(Note { semitones: 23 });
                base_notes.push(Note { semitones: 26 });
            },
            TuningType::opena => {
                base_notes.push(Note { semitones: 4 });
                base_notes.push(Note { semitones: 9 });
                base_notes.push(Note { semitones: 16 });
                base_notes.push(Note { semitones: 21 });
                base_notes.push(Note { semitones: 25 });
                base_notes.push(Note { semitones: 28 });
            },
            TuningType::openc => {
                base_notes.push(Note { semitones: 0 });
                base_notes.push(Note { semitones: 7 });
                base_notes.push(Note { semitones: 12 });
                base_notes.push(Note { semitones: 19 });
                base_notes.push(Note { semitones: 24 });
                base_notes.push(Note { semitones: 28 });
            },
        }
        proof {
            assert(crate::chord::semis(base_notes@) =~= tuning_base_semis(tuning_type));
        }
        let mut note_strings: Vec<String> = Vec::new();
        let mut i: usize = 0;
        while i < base_notes.len()
            invariant
                0 <= i <= base_notes@.len(),
                note_strings@.len() == i,
                forall|k: int|
                    0 <= k < i ==> (#[trigger] note_strings@[k])@ == note_name_chars(
                        class_of(base_notes@[k].semitones as int),
                    ),
            decreases base_notes@.len() - i,
        {
            let name = base_notes[i].to_string();
            note_strings.push(name.to_owned());
            i += 1;
        }
        Tuning { tuning_type, note_strings, base_notes }
    }

    /// Find the first string at or after `from` whose display name is `s`.
    fn find_string_from(note_strings: &Vec<String>, from: usize, s: &str) -> (r: Option<usize>)
        ensures
            match r {
                Some(p) => spec_find_string(strviews(note_strings@), from as int, s@) == Some(
                    p as int,
                ) && from <= p < note_strings@.len(),
                None => spec_find_string(strviews(note_strings@), from as int, s@) is None,
            },
    {
        let ghost names = strviews(note_strings@);
        let mut j: usize = from;
        while j < note_strings.len()
            invariant
                from <= j,
                names == strviews(note_strings@),
                note_strings@.len() == names.len(),
                spec_find_string(names, j as int, s@) == spec_find_string(names, from as int, s@),
            decreases names.len() - j,
        {
            proof {
                assert(names[j as int] == note_strings@[j as int]@);
            }
            if crate::strutil::str_eq(s, note_strings[j].as_str()) {
                return Some(j);
            }
            j += 1;
        }
        None
    }

    /// Map tab tokens to absolute pitches: each recognized string name
    /// yields its fret offset plus the open string's pitch; lookups walk
    /// upward from a running lower-string index, as tabs list low strings
    /// first.
    pub fn tune(&self, strings: &Vec<&str>, notes: &Vec<Note>) -> (r: Vec<Option<Note>>)
        requires
            self.wf(),
            forall|k: int|
                0 <= k < notes@.len() ==> -100_000_000 <= (#[trigger] notes@[k]).semitones
                    <= 100_000_000,
        ensures
            opt_semis(r@) == spec_tune(
                strviews(self.note_strings@),
                crate::chord::semis(self.base_notes@),
                strings@.map_values(|s: &str| s@),
                crate::chord::semis(notes@),
                0,
            ),
    {
        let ghost names = strviews(self.note_strings@);
        let ghost bases = crate::chord::semis(self.base_notes@);
        let ghost strs = strings@.map_values(|s: &str| s@);
        let ghost offs = crate::chord::semis(notes@);
        let n = if strings.len() < notes.len() {
            strings.len()
        } else {
            notes.len()
        };
        let mut result: Vec<Option<Note>> = Vec::new();
        let mut lower_string_idx: usize = 0;
        let mut k: usize = 0;
        proof {
            assert(strs.skip(0) =~= strs);
            assert(offs.skip(0) =~= offs);
            assert(opt_semis(result@) =~= Seq::<Option<int>>::empty());
        }
        while k < n
            invariant
                0 <= k <= n,
                n == if strs.len() < offs.len() { strs.len() } else { offs.len() },
                names == strviews(self.note_strings@),
                bases == crate::chord::semis(self.base_notes@),
                strs == strings@.map_values(|s: &str| s@),
                offs == crate::chord::semis(notes@),
                strs.len() == strings@.len(),
                offs.len() == notes@.len(),
                self.wf(),
                forall|m: int|
                    0 <= m < notes@.len() ==> -100_000_000 <= (#[trigger] notes@[m]).semitones
                        <= 100_000_000,
                0 <= lower_string_idx,
                opt_semis(result@) + spec_tune(names, bases, strs.skip(k as int), offs.skip(k as int), lower_string_idx as int)
                    == spec_tune(names, bases, strs, offs, 0),
            decreases n - k,
        {
            proof {
                assert(strs.skip(k as int).len() > 0);
                assert(offs.skip(k as int).len() > 0);
                assert(strs.skip(k as int)[0] == strs[k as int]);
                assert(offs.skip(k as int)[0] == offs[k as int]);
                assert(strs.skip(k as int).drop_first() =~= strs.skip(k + 1));
                assert(offs.skip(k as int).drop_first() =~= offs.skip(k + 1));
            }
            let s = strings[k];
            proof {
                assert(s@ == strs[k as int]);
            }
            let found = Tuning::find_string_from(&self.note_strings, lower_string_idx, s);
            let ghost prev = result@;
            let ghost idx0 = lower_string_idx as int;
            match found {
                Some(p) => {
                    proof {
                        lemma_tuning_base_in_range(self.tuning_type);
                        assert(0 <= bases[p as int] <= 28);
                        assert(self.base_notes@[p as int].semitones == bases[p as int]);
                    }
                    result.push(
                        Some(Note { semitones: notes[k].semitones + self.base_notes[p].semitones }),
                    );
                    lower_string_idx = (p - lower_string_idx) + 1;
                    proof {
                        let v = Some(offs[k as int] + bases[p as int]);
                        assert(spec_tune(names, bases, strs.skip(k as int), offs.skip(k as int), idx0)
                            == seq![v] + spec_tune(names, bases, strs.skip(k + 1), offs.skip(k + 1), lower_string_idx as int));
                        assert(opt_semis(result@) =~= opt_semis(prev) + seq![v]);
                        assert((opt_semis(prev) + seq![v]) + spec_tune(names, bases, strs.skip(k + 1), offs.skip(k + 1), lower_string_idx as int)
                            =~= opt_semis(prev) + (seq![v] + spec_tune(names, bases, strs.skip(k + 1), offs.skip(k + 1), lower_string_idx as int)));
                    }
                },
                None => {
                    result.push(None);
                    proof {
                        let v = None::<int>;
                        assert(spec_tune(names, bases, strs.skip(k as int), offs.skip(k as int), idx0)
                            == seq![v] + spec_tune(names, bases, strs.skip(k + 1), offs.skip(k + 1), lower_string_idx as int));
                        assert(opt_semis(result@) =~= opt_semis(prev) + seq![v]);
                        assert((opt_semis(prev) + seq![v]) + spec_tune(names, bases, strs.skip(k + 1), offs.skip(k + 1), lower_string_idx as int)
                            =~= opt_semis(prev) + (seq![v] + spec_tune(names, bases, strs.skip(k + 1), offs.skip(k + 1), lower_string_idx as int)));
                    }
                },
            }
            k += 1;
        }
        proof {
            assert(strs.skip(n as int).len() == 0 || offs.skip(n as int).len() == 0);
            assert(spec_tune(names, bases, strs.skip(n as int), offs.skip(n as int), lower_string_idx as int)
                =~= Seq::<Option<int>>::empty());
            assert(opt_semis(result@) + Seq::<Option<int>>::empty() =~= opt_semis(result@));
        }
        result
    }
}

} // verus!
