//! The fretboard layer: tab-notation parsing, note layout on the strings
//! of a tuned instrument, and the ASCII rendering around it.
use vstd::prelude::*;

use crate::note::Note;
use crate::note::class_of;
use crate::note::note_name_chars;

verus! {

use vstd::string::StringExecFns;

/// An ASCII decimal digit.
pub open spec fn is_digit_char(c: char) -> bool {
    48 <= (c as u32) <= 57
}

/// The value of an ASCII decimal digit.
pub open spec fn digit_val(c: char) -> int {
    (c as u32) - 48
}

/// The digits of `s`, in order, everything else dropped.
pub open spec fn digits_of(s: Seq<char>) -> Seq<char>
    decreases s.len(),
{
    if s.len() == 0 {
        Seq::<char>::empty()
    } else {
        let pre = digits_of(s.drop_last());
        if is_digit_char(s.last()) {
            pre.push(s.last())
        } else {
            pre
        }
    }
}

/// The number the digit string `ds` denotes.
pub open spec fn digits_num(ds: Seq<char>) -> int
    decreases ds.len(),
{
    if ds.len() == 0 {
        0
    } else {
        digits_num(ds.drop_last()) * 10 + digit_val(ds.last())
    }
}

/// `needle` occurs somewhere in `hay`.
pub open spec fn contains_sub(hay: Seq<char>, needle: Seq<char>) -> bool {
    exists|i: int|
        0 <= i && i + needle.len() <= hay.len() && #[trigger] hay.subrange(i, i + needle.len())
            == needle
}

/// The longest note name contained in `tok`, looking through the first `k`
/// pitch classes' names in catalogue order; a later name of the same
/// length wins, a shorter one never does.
pub open spec fn best_name_rec(tok: Seq<char>, k: int) -> Option<int>
    decreases k,
{
    if k <= 0 {
        None
    } else {
        let prev = best_name_rec(tok, k - 1);
        if contains_sub(tok, note_name_chars(k - 1)) {
            match prev {
                None => Some(k - 1),
                Some(b) => if note_name_chars(k - 1).len() >= note_name_chars(b).len() {
                    Some(k - 1)
                } else {
                    Some(b)
                },
            }
        } else {
            prev
        }
    }
}

/// The pitch class whose name is the longest match inside `tok`.
pub open spec fn spec_best_name(tok: Seq<char>) -> Option<int> {
    best_name_rec(tok, 12)
}

/// Parsing one tab token: the longest contained note name gives the pitch
/// class, all digits of the token together give the fret; the token is
/// rejected when no name is contained, no digit occurs, or the fret
/// overflows a machine integer.
pub open spec fn spec_split_string_fret(tok: Seq<char>) -> Option<(int, int)> {
    match spec_best_name(tok) {
        None => None,
        Some(cls) => {
            let ds = digits_of(tok);
            if ds.len() == 0 || digits_num(ds) > i32::MAX {
                None
            } else {
                Some((cls, digits_num(ds)))
            }
        },
    }
}

proof fn lemma_digits_of_digits(s: Seq<char>)
    ensures
        forall|i: int| 0 <= i < digits_of(s).len() ==> is_digit_char(#[trigger] digits_of(s)[i]),
    decreases s.len(),
{
    if s.len() == 0 {
    } else {
        lemma_digits_of_digits(s.drop_last());
        let pre = digits_of(s.drop_last());
        if is_digit_char(s.last()) {
            assert forall|i: int| 0 <= i < digits_of(s).len() implies is_digit_char(
                #[trigger] digits_of(s)[i],
            ) by {
                if i < pre.len() {
                    assert(digits_of(s)[i] == pre[i]);
                } else {
                    assert(digits_of(s)[i] == s.last());
                }
            }
        }
    }
}

proof fn lemma_digits_num_nonneg(ds: Seq<char>)
    requires
        forall|i: int| 0 <= i < ds.len() ==> is_digit_char(#[trigger] ds[i]),
    ensures
        digits_num(ds) >= 0,
    decreases ds.len(),
{
    if ds.len() == 0 {
    } else {
        assert forall|i: int| 0 <= i < ds.drop_last().len() implies is_digit_char(
            #[trigger] ds.drop_last()[i],
        ) by {
            assert(ds.drop_last()[i] == ds[i]);
        }
        lemma_digits_num_nonneg(ds.drop_last());
        assert(is_digit_char(ds.last()));
    }
}

/// Whether `needle` occurs in `hay`, by a straightforward scan.
fn contains_name(hay: &str, needle: &str) -> (r: bool)
    ensures
        r == contains_sub(hay@, needle@),
{
    let hn = hay.unicode_len();
    let nn = needle.unicode_len();
    if nn > hn {
        return false;
    }
    if nn == 0 {
        proof {
            assert(hay@.subrange(0, 0 + needle@.len() as int) =~= needle@);
            assert(contains_sub(hay@, needle@)) by {
                assert(0 <= 0 && 0 + needle@.len() <= hay@.len() && hay@.subrange(
                    0,
                    0 + needle@.len() as int,
                ) == needle@);
            }
        }
        return true;
    }
    let mut i: usize = 0;
    while i <= hn - nn
        invariant
            0 <= i <= hn - nn + 1,
            nn <= hn,
            hn == hay@.len(),
            nn == needle@.len(),
            0 < nn,
            forall|m: int|
                0 <= m < i ==> #[trigger] hay@.subrange(m, m + needle@.len()) != needle@,
        decreases hn - i,
    {
        let mut j: usize = 0;
        let mut matches_here = true;
        while j < nn
            invariant
                0 <= j <= nn,
                0 <= i <= hn - nn,
                hn == hay@.len(),
                nn == needle@.len(),
                matches_here ==> forall|m: int| 0 <= m < j ==> hay@[i + m] == needle@[m],
                !matches_here ==> hay@.subrange(i as int, i + needle@.len()) != needle@,
            decreases nn - j,
        {
            if hay.get_char(i + j) != needle.get_char(j) {
                proof {
                    assert(hay@.subrange(i as int, i + needle@.len())[j as int] == hay@[i + j]);
                }
                matches_here = false;
            }
            j += 1;
        }
        if matches_here {
            proof {
                assert(hay@.subrange(i as int, i + needle@.len()) =~= needle@);
            }
            return true;
        }
        i += 1;
    }
    proof {
        assert forall|m: int|
            0 <= m && m + needle@.len() <= hay@.len() implies #[trigger] hay@.subrange(
            m,
            m + needle@.len(),
        ) != needle@ by {
            assert(m < i);
        }
    }
    false
}

/// Split a tab token like `a#3` into its note name and fret number: the
/// longest contained note name wins, and every digit of the token belongs
/// to the fret.
pub fn split_string_fret(tab_note: &str) -> (r: Option<(&'static str, i32)>)
    ensures
        match r {
            Some(p) => spec_split_string_fret(tab_note@) matches Some(q) && p.0@
                == note_name_chars(q.0) && p.1 == q.1,
            None => spec_split_string_fret(tab_note@) is None,
        },
{
    let mut best: Option<i32> = None;
    let mut best_len: usize = 0;
    let mut k: i32 = 0;
    while k < 12
        invariant
            0 <= k <= 12,
            match best {
                None => best_name_rec(tab_note@, k as int) is None,
                Some(b) => 0 <= b < 12 && best_name_rec(tab_note@, k as int) == Some(b as int)
                    && best_len == note_name_chars(b as int).len(),
            },
        decreases 12 - k,
    {
        proof {
            vstd::arithmetic::div_mod::lemma_small_mod(k as nat, 12nat);
        }
        let name = Note { semitones: k }.to_string();
        if contains_name(tab_note, name) {
            let l = name.unicode_len();
            match best {
                None => {
                    best = Some(k);
                    best_len = l;
                },
                Some(_) => {
                    if l >= best_len {
                        best = Some(k);
                        best_len = l;
                    }
                },
            }
        }
        k += 1;
    }
    let cls: i32;
    match best {
        None => {
            return None;
        },
        Some(b) => {
            cls = b;
        },
    }
    let n = tab_note.unicode_len();
    let mut acc: i32 = 0;
    let mut too_big = false;
    let mut any_digit = false;
    let mut i: usize = 0;
    proof {
        assert(tab_note@.take(0) =~= Seq::<char>::empty());
    }
    while i < n
        invariant
            0 <= i <= n,
            n == tab_note@.len(),
            any_digit == (digits_of(tab_note@.take(i as int)).len() > 0),
            !too_big ==> acc as int == digits_num(digits_of(tab_note@.take(i as int))),
            !too_big ==> 0 <= acc,
            too_big ==> digits_num(digits_of(tab_note@.take(i as int))) > i32::MAX,
        decreases n - i,
    {
        let ghost pre = digits_of(tab_note@.take(i as int));
        proof {
            assert(tab_note@.take(i + 1).drop_last() =~= tab_note@.take(i as int));
            assert(tab_note@.take(i + 1).last() == tab_note@[i as int]);
            lemma_digits_of_digits(tab_note@.take(i as int));
            lemma_digits_num_nonneg(pre);
        }
        let c = tab_note.get_char(i);
        let u = c as u32;
        if u >= 48 && u <= 57 {
            any_digit = true;
            proof {
                assert(digits_of(tab_note@.take(i + 1)) == pre.push(c));
                assert(pre.push(c).drop_last() =~= pre);
                assert(pre.push(c).last() == c);
                assert(digits_num(pre.push(c)) == digits_num(pre) * 10 + digit_val(c));
            }
            if !too_big {
                let next: i64 = (acc as i64) * 10 + ((u - 48) as i64);
                if next > 2147483647i64 {
                    too_big = true;
                } else {
                    acc = next as i32;
                }
            } else {
                proof {
                    assert(digits_num(pre) > i32::MAX);
                    assert(digit_val(c) >= 0);
                    assert(digits_num(pre) * 10 >= digits_num(pre)) by (nonlinear_arith)
                        requires digits_num(pre) >= 0;
                }
            }
        } else {
            proof {
                assert(digits_of(tab_note@.take(i + 1)) == pre);
            }
        }
        i += 1;
    }
    proof {
        assert(tab_note@.take(n as int) =~= tab_note@);
    }
    if !any_digit || too_big {
        return None;
    }
    proof {
        vstd::arithmetic::div_mod::lemma_small_mod(cls as nat, 12nat);
    }
    Some((Note { semitones: cls }.to_string(), acc))
}

/// The names of the notes named by the tokens that parse, in order.
pub open spec fn parsed_names(toks: Seq<Seq<char>>) -> Seq<Seq<char>>
    decreases toks.len(),
{
    if toks.len() == 0 {
        Seq::<Seq<char>>::empty()
    } else {
        let rest = parsed_names(toks.drop_first());
        match spec_split_string_fret(toks[0]) {
            Some(p) => seq![note_name_chars(p.0)] + rest,
            None => rest,
        }
    }
}

/// The fret numbers of the tokens that parse, in order.
pub open spec fn parsed_frets(toks: Seq<Seq<char>>) -> Seq<int>
    decreases toks.len(),
{
    if toks.len() == 0 {
        Seq::<int>::empty()
    } else {
        let rest = parsed_frets(toks.drop_first());
        match spec_split_string_fret(toks[0]) {
            Some(p) => seq![p.1] + rest,
            None => rest,
        }
    }
}

/// The present values of a list of optional values, in order.
pub open spec fn somes(s: Seq<Option<int>>) -> Seq<int>
    decreases s.len(),
{
    if s.len() == 0 {
        Seq::<int>::empty()
    } else {
        let rest = somes(s.drop_first());
        match s[0] {
            Some(v) => seq![v] + rest,
            None => rest,
        }
    }
}

/// The pitches a list of tab tokens stands for under a tuning: the tokens
/// that parse are handed to the tuning's greedy string lookup, and the
/// hits are kept.
pub open spec fn spec_parsed_notes(tu: crate::tuning::Tuning, toks: Seq<Seq<char>>) -> Seq<int> {
    somes(
        crate::tuning::spec_tune(
            crate::tuning::strviews(tu.note_strings@),
            crate::chord::semis(tu.base_notes@),
            parsed_names(toks),
            parsed_frets(toks),
            0,
        ),
    )
}

/// Every fret a token list names fits the pitch headroom.
pub open spec fn frets_in_headroom(toks: Seq<Seq<char>>) -> bool {
    forall|k: int|
        0 <= k < toks.len() ==> (match spec_split_string_fret(#[trigger] toks[k]) {
            Some(p) => p.1 <= 99_000_000,
            None => true,
        })
}

/// Parse tab tokens and map them to absolute pitches under a tuning,
/// dropping tokens that do not parse and names the tuning cannot place.
fn parse_tab_notation(tab_note: &Vec<String>, tuning: &crate::tuning::Tuning) -> (r: Vec<Note>)
    requires
        tuning.wf(),
        frets_in_headroom(tab_note@.map_values(|s: String| s@)),
    ensures
        crate::chord::semis(r@) == spec_parsed_notes(*tuning, tab_note@.map_values(|s: String| s@)),
        forall|k: int|
            0 <= k < r@.len() ==> 0 <= (#[trigger] r@[k]).semitones <= 99_000_028,
{
    let ghost toks = tab_note@.map_values(|s: String| s@);
    let n = tab_note.len();
    let mut strs: Vec<&str> = Vec::new();
    let mut offs: Vec<Note> = Vec::new();
    let mut i: usize = 0;
    proof {
        assert(toks.skip(0) =~= toks);
    }
    while i < n
        invariant
            0 <= i <= n,
            n == tab_note@.len(),
            toks == tab_note@.map_values(|s: String| s@),
            frets_in_headroom(toks),
            strs@.len() == offs@.len(),
            strs@.map_values(|s: &str| s@) + parsed_names(toks.skip(i as int)) == parsed_names(
                toks,
            ),
            crate::chord::semis(offs@) + parsed_frets(toks.skip(i as int)) == parsed_frets(toks),
            forall|k: int|
                0 <= k < offs@.len() ==> 0 <= (#[trigger] offs@[k]).semitones <= 99_000_000,
        decreases n - i,
    {
        proof {
            assert(toks.skip(i as int).len() > 0);
            assert(toks.skip(i as int)[0] == toks[i as int]);
            assert(toks.skip(i as int).drop_first() =~= toks.skip(i + 1));
            assert(toks[i as int] == tab_note@[i as int]@);
        }
        let ghost prev_strs = strs@.map_values(|s: &str| s@);
        let ghost prev_offs = crate::chord::semis(offs@);
        match split_string_fret(tab_note[i].as_str()) {
            Some((nm, fret)) => {
                proof {
                    lemma_digits_of_digits(toks[i as int]);
                    lemma_digits_num_nonneg(digits_of(toks[i as int]));
                }
                strs.push(nm);
                offs.push(Note { semitones: fret });
                proof {
                    let q = spec_split_string_fret(toks[i as int])->Some_0;
                    assert(strs@.map_values(|s: &str| s@) =~= prev_strs
                        + seq![note_name_chars(q.0)]);
                    assert(crate::chord::semis(offs@) =~= prev_offs + seq![q.1]);
                    assert((prev_strs + seq![note_name_chars(q.0)]) + parsed_names(
                        toks.skip(i + 1),
                    ) =~= prev_strs + (seq![note_name_chars(q.0)] + parsed_names(toks.skip(i + 1))));
                    assert((prev_offs + seq![q.1]) + parsed_frets(toks.skip(i + 1)) =~= prev_offs
                        + (seq![q.1] + parsed_frets(toks.skip(i + 1))));
                }
            },
            None => {
            },
        }
        i += 1;
    }
    proof {
        assert(toks.skip(n as int) =~= Seq::<Seq<char>>::empty());
        assert(parsed_names(Seq::<Seq<char>>::empty()) =~= Seq::<Seq<char>>::empty());
        assert(strs@.map_values(|s: &str| s@) + Seq::<Seq<char>>::empty() =~= strs@.map_values(
            |s: &str| s@,
        ));
        assert(crate::chord::semis(offs@) + Seq::<int>::empty() =~= crate::chord::semis(offs@));
    }
    let tuned = tuning.tune(&strs, &offs);
    let ghost tuned_sem = crate::tuning::opt_semis(tuned@);
    proof {
        crate::tuning::lemma_tuning_base_in_range(tuning.tuning_type);
        assert forall|k: int|
            0 <= k < offs@.len() implies 0 <= #[trigger] crate::chord::semis(offs@)[k]
            <= 99_000_000 by {
            assert(crate::chord::semis(offs@)[k] == offs@[k].semitones);
        }
        crate::tuning::lemma_spec_tune_bounds(
            crate::tuning::strviews(tuning.note_strings@),
            crate::chord::semis(tuning.base_notes@),
            strs@.map_values(|s: &str| s@),
            crate::chord::semis(offs@),
            0,
            0,
            28,
            0,
            99_000_000,
        );
        assert forall|k: int| 0 <= k < tuned@.len() implies (match #[trigger] tuned@[k] {
            Some(nn) => 0 <= nn.semitones <= 99_000_028,
            None => true,
        }) by {
            assert(tuned_sem[k] == (match tuned@[k] {
                Some(nn) => Some(nn.semitones as int),
                None => None,
            }));
        }
    }
    let m = tuned.len();
    let mut out: Vec<Note> = Vec::new();
    let mut j: usize = 0;
    proof {
        assert(tuned_sem.skip(0) =~= tuned_sem);
    }
    while j < m
        invariant
            0 <= j <= m,
            m == tuned@.len(),
            m == tuned_sem.len(),
            tuned_sem == crate::tuning::opt_semis(tuned@),
            crate::chord::semis(out@) + somes(tuned_sem.skip(j as int)) == somes(tuned_sem),
            forall|k: int|
                0 <= k < tuned@.len() ==> (match #[trigger] tuned@[k] {
                    Some(nn) => 0 <= nn.semitones <= 99_000_028,
                    None => true,
                }),
            forall|k: int|
                0 <= k < out@.len() ==> 0 <= (#[trigger] out@[k]).semitones
                    <= 99_000_028,
        decreases m - j,
    {
        proof {
            assert(tuned_sem.skip(j as int).len() > 0);
            assert(tuned_sem.skip(j as int)[0] == tuned_sem[j as int]);
            assert(tuned_sem.skip(j as int).drop_first() =~= tuned_sem.skip(j + 1));
        }
        let ghost prev = crate::chord::semis(out@);
        match &tuned[j] {
            Some(nn) => {
                out.push(*nn);
                proof {
                    let v = nn.semitones as int;
                    assert(tuned_sem[j as int] == Some(v));
                    assert(crate::chord::semis(out@) =~= prev + seq![v]);
                    assert((prev + seq![v]) + somes(tuned_sem.skip(j + 1)) =~= prev + (seq![v]
                        + somes(tuned_sem.skip(j + 1))));
                }
            },
            None => {
                proof {
                    assert(tuned_sem[j as int] is None);
                }
            },
        }
        j += 1;
    }
    proof {
        assert(tuned_sem.skip(m as int) =~= Seq::<Option<int>>::empty());
        assert(crate::chord::semis(out@) + Seq::<int>::empty() =~= crate::chord::semis(out@));
    }
    out
}

/// The uppercase names of a list of pitches.
pub open spec fn upper_names_of(ns: Seq<int>) -> Seq<Seq<char>> {
    ns.map_values(|p: int| crate::note::note_name_upper_chars(class_of(p)))
}

/// Render the notes a list of tab tokens stands for, as uppercase names
/// separated by blanks; nothing when no token could be placed.
pub fn from_tab_notation(note_str: &Vec<String>, tuning: &crate::tuning::Tuning) -> (r: Option<
    String,
>)
    requires
        tuning.wf(),
        frets_in_headroom(note_str@.map_values(|s: String| s@)),
    ensures
        ({
            let ns = spec_parsed_notes(*tuning, note_str@.map_values(|s: String| s@));
            match r {
                Some(out) => ns.len() > 0 && out@ == crate::strutil::join_with(
                    upper_names_of(ns),
                    seq![' '],
                ),
                None => ns.len() == 0,
            }
        }),
{
    let ghost ns = spec_parsed_notes(*tuning, note_str@.map_values(|s: String| s@));
    let opt_notes = parse_tab_notation(note_str, tuning);
    if opt_notes.len() == 0 {
        return None;
    }
    let mut names: Vec<String> = Vec::new();
    let n = opt_notes.len();
    let mut i: usize = 0;
    while i < n
        invariant
            0 <= i <= n,
            n == opt_notes@.len(),
            ns == crate::chord::semis(opt_notes@),
            names@.len() == i,
            forall|k: int|
                0 <= k < i ==> (#[trigger] names@[k])@ == crate::note::note_name_upper_chars(
                    class_of(ns[k]),
                ),
        decreases n - i,
    {
        names.push(opt_notes[i].to_string_upper().to_owned());
        i += 1;
    }
    proof {
        assert(names@.map_values(|s: String| s@) =~= upper_names_of(ns));
        reveal_strlit(" ");
        assert(" "@ =~= seq![' ']);
    }
    Some(crate::strutil::join_strings_with(&names, " "))
}

/// Look a tuning up by name.
pub fn parse_tuning(tuning_name: &str) -> (r: Option<crate::tuning::Tuning>)
    ensures
        match r {
            Some(t) => crate::tuning::spec_tuning_of_name(tuning_name@) == Some(t.tuning_type)
                && t.wf(),
            None => crate::tuning::spec_tuning_of_name(tuning_name@) is None,
        },
{
    crate::tuning::Tuning::from_name(tuning_name)
}

/// Pad a rendered cell to two characters with a trailing blank.
fn pad_to_length(cifar: &String) -> (r: String)
    ensures
        r@ == crate::strutil::pad2(cifar@),
{
    let mut s = cifar.clone();
    if s.as_str().unicode_len() < 2 {
        proof {
            reveal_strlit(" ");
            assert(" "@ =~= seq![' ']);
        }
        s.append(" ");
    }
    s
}

/// The fret-number cells of the header line: the numbers one to
/// twenty-three, each padded to two characters.
pub open spec fn spec_fret_number_cells() -> Seq<Seq<char>> {
    Seq::new(23, |i: int| crate::strutil::pad2(crate::strutil::dec2_chars(i + 1)))
}

/// The header line of fret numbers above a rendered fretboard.
pub fn print_fret_numbers() -> (r: String)
    ensures
        r@ == "      "@ + crate::strutil::join_with(spec_fret_number_cells(), "  "@),
{
    let mut cells: Vec<String> = Vec::new();
    let mut x: u32 = 1;
    while x < 24
        invariant
            1 <= x <= 24,
            cells@.len() == x - 1,
            forall|k: int|
                0 <= k < x - 1 ==> (#[trigger] cells@[k])@ == crate::strutil::pad2(
                    crate::strutil::dec2_chars(k + 1),
                ),
        decreases 24 - x,
    {
        let num = crate::strutil::small_number_string(x);
        cells.push(pad_to_length(&num));
        x += 1;
    }
    proof {
        assert(cells@.map_values(|s: String| s@) =~= spec_fret_number_cells());
    }
    let joined = crate::strutil::join_strings_with(&cells, "  ");
    let mut s = String::from_str("      ");
    s.append(joined.as_str());
    s
}

/// The marker cells under the fretboard: dots on the third, fifth,
/// seventh, ninth and similar frets, a colon on the octave.
pub open spec fn spec_marker_cells() -> Seq<Seq<char>> {
    seq![
        "   "@, "  "@, "  "@, "* "@, "  "@, "* "@, "  "@, "* "@, "  "@, "* "@, "  "@, "  "@,
        ": "@, "  "@, "  "@, "* "@, "  "@, "* "@, "  "@, "* "@, "  "@, "* "@, "  "@, "* "@,
        "  "@,
    ]
}

/// The line of fret markers under a rendered fretboard.
pub fn print_fret_markers() -> (r: String)
    ensures
        r@ == " "@ + crate::strutil::join_with(spec_marker_cells(), "  "@),
{
    let mut cells: Vec<String> = Vec::new();
    cells.push(String::from_str("   "));
    cells.push(String::from_str("  "));
    cells.push(String::from_str("  "));
    cells.push(String::from_str("* "));
    cells.push(String::from_str("  "));
    cells.push(String::from_str("* "));
    cells.push(String::from_str("  "));
    cells.push(String::from_str("* "));
    cells.push(String::from_str("  "));
    cells.push(String::from_str("* "));
    cells.push(String::from_str("  "));
    cells.push(String::from_str("  "));
    cells.push(String::from_str(": "));
    cells.push(String::from_str("  "));
    cells.push(String::from_str("  "));
    cells.push(String::from_str("* "));
    cells.push(String::from_str("  "));
    cells.push(String::from_str("* "));
    cells.push(String::from_str("  "));
    cells.push(String::from_str("* "));
    cells.push(String::from_str("  "));
    cells.push(String::from_str("* "));
    cells.push(String::from_str("  "));
    cells.push(String::from_str("* "));
    cells.push(String::from_str("  "));
    proof {
        assert(cells@.map_values(|s: String| s@) =~= spec_marker_cells());
    }
    let joined = crate::strutil::join_strings_with(&cells, "  ");
    let mut s = String::from_str(" ");
    s.append(joined.as_str());
    s
}

/// The fret on one string where the pitch class of `p` sounds: the class
/// distance from the string's open pitch class.
pub open spec fn fret_of(p: int, base: int) -> int {
    class_of(class_of(p) - base)
}

/// Some note lands on fret `f` (or its octave twin twelve frets down).
pub open spec fn fret_hit(notes: Seq<int>, base: int, f: int) -> bool {
    exists|j: int|
        0 <= j < notes.len() && #[trigger] fret_of(notes[j], base) == (if f < 12 {
            f
        } else {
            f - 12
        })
}

/// The twenty-four frets of one string: fret `f` is marked (with its own
/// number as the relative pitch) exactly when some note lands there.
pub open spec fn spec_frets(notes: Seq<int>, base: int) -> Seq<Option<int>> {
    Seq::new(
        24,
        |f: int|
            if fret_hit(notes, base, f) {
                Some(f)
            } else {
                None
            },
    )
}

/// Mark every fret of one string where one of `notes` sounds, over two
/// octaves.
fn locate_on_string(notes: &Vec<Note>, base_note: &Note) -> (r: Vec<Option<Note>>)
    requires
        -1_000_000 <= base_note.semitones <= 1_000_000,
    ensures
        crate::tuning::opt_semis(r@) == spec_frets(
            crate::chord::semis(notes@),
            base_note.semitones as int,
        ),
{
    let ghost ns = crate::chord::semis(notes@);
    let ghost base = base_note.semitones as int;
    let mut frets: Vec<Option<Note>> = Vec::new();
    let mut f: usize = 0;
    while f < 24
        invariant
            0 <= f <= 24,
            frets@.len() == f,
            forall|m: int| 0 <= m < f ==> #[trigger] frets@[m] is None,
        decreases 24 - f,
    {
        frets.push(None);
        f += 1;
    }
    let n = notes.len();
    let mut k: usize = 0;
    while k < n
        invariant
            0 <= k <= n,
            n == notes@.len(),
            ns == crate::chord::semis(notes@),
            base == base_note.semitones as int,
            -1_000_000 <= base <= 1_000_000,
            frets@.len() == 24,
            forall|m: int|
                0 <= m < 24 ==> (match #[trigger] frets@[m] {
                    Some(nn) => nn.semitones == m && fret_hit(ns.take(k as int), base, m),
                    None => !fret_hit(ns.take(k as int), base, m),
                }),
        decreases n - k,
    {
        let ghost prev = frets@;
        proof {
            assert(ns.take(k + 1).drop_last() =~= ns.take(k as int));
            assert(ns.take(k + 1).last() == ns[k as int]);
        }
        let fret1 = notes[k].no_octaves().minus(*base_note).no_octaves();
        let f1 = fret1.semitones as usize;
        proof {
            assert(fret1.semitones == fret_of(ns[k as int], base));
        }
        frets.set(f1, Some(fret1));
        frets.set(f1 + 12, Some(fret1.plus(Note::octave())));
        proof {
            assert forall|m: int| 0 <= m < 24 implies (match #[trigger] frets@[m] {
                Some(nn) => nn.semitones == m && fret_hit(ns.take(k + 1), base, m),
                None => !fret_hit(ns.take(k + 1), base, m),
            }) by {
                let fm = if m < 12 {
                    m
                } else {
                    m - 12
                };
                if m == f1 || m == f1 + 12 {
                    assert(fret_of(ns.take(k + 1)[k as int], base) == fm);
                    assert(fret_hit(ns.take(k + 1), base, m));
                } else {
                    assert(frets@[m] == prev[m]);
                    assert forall|j: int|
                        0 <= j < ns.take(k + 1).len() && #[trigger] fret_of(
                            ns.take(k + 1)[j],
                            base,
                        ) == fm implies fret_hit(ns.take(k as int), base, m) by {
                        assert(j < k);
                        assert(ns.take(k as int)[j] == ns.take(k + 1)[j]);
                        assert(fret_of(ns.take(k as int)[j], base) == fm);
                    }
                    assert forall|j: int|
                        0 <= j < ns.take(k as int).len() && #[trigger] fret_of(
                            ns.take(k as int)[j],
                            base,
                        ) == fm implies fret_hit(ns.take(k + 1), base, m) by {
                        assert(ns.take(k + 1)[j] == ns.take(k as int)[j]);
                        assert(fret_of(ns.take(k + 1)[j], base) == fm);
                    }
                }
            }
        }
        k += 1;
    }
    proof {
        assert(ns.take(n as int) =~= ns);
        assert(crate::tuning::opt_semis(frets@) =~= spec_frets(ns, base));
    }
    frets
}

/// How one marked fret is labelled: in relative mode by its degree
/// relative to the root, otherwise by its note name, uppercased on the
/// root's own pitch class.
pub open spec fn spec_print_note(base: int, note: int, root: int, relative: bool) -> Seq<char> {
    if relative {
        crate::scale::degree_chars(
            if (base + note) - root < 0 {
                crate::note::regauge_of((base + note) - root)
            } else {
                class_of((base + note) - root)
            },
        )
    } else {
        if class_of(base + note) == class_of(root) {
            crate::note::note_name_upper_chars(class_of(base + note))
        } else {
            note_name_chars(class_of(base + note))
        }
    }
}

/// Label one marked fret.
fn print_note(base_note: &Note, note: &Note, root: &Note, relative: bool) -> (r: String)
    requires
        -400_000_000 <= base_note.semitones + note.semitones <= 400_000_000,
        -400_000_000 <= root.semitones <= 400_000_000,
    ensures
        r@ == spec_print_note(
            base_note.semitones as int,
            note.semitones as int,
            root.semitones as int,
            relative,
        ),
{
    let abs = base_note.plus(*note);
    if relative {
        crate::scale::Scale::note_to_degree(root, &abs).to_owned()
    } else {
        if abs.no_octaves().semitones == root.no_octaves().semitones {
            abs.to_string_upper().to_owned()
        } else {
            abs.to_string().to_owned()
        }
    }
}

/// The nut cell of one string's line: the label of the open string when it
/// is marked, else blank, closed with the nut's bar.
pub open spec fn spec_nut_cell(notes: Seq<int>, base: int, root: int, relative: bool) -> Seq<
    char,
> {
    if spec_frets(notes, base)[0] is Some {
        seq![' '] + crate::strutil::pad2(spec_print_note(base, 0, root, relative)) + seq!['|']
    } else {
        "   |"@
    }
}

/// One fret cell of one string's line, for `f` from one to twenty-three.
pub open spec fn spec_fret_cell(
    notes: Seq<int>,
    base: int,
    root: int,
    relative: bool,
    f: int,
) -> Seq<char> {
    match spec_frets(notes, base)[f] {
        Some(v) => crate::strutil::pad2(spec_print_note(base, v, root, relative)),
        None => "- "@,
    }
}

/// The whole line of one string: the nut cell, then each fret cell, glued
/// with two blanks.
pub open spec fn spec_string_line(notes: Seq<int>, base: int, root: int, relative: bool) -> Seq<
    char,
> {
    crate::strutil::join_with(
        seq![spec_nut_cell(notes, base, root, relative)] + Seq::new(
            23,
            |f: int| spec_fret_cell(notes, base, root, relative, f + 1),
        ),
        "  "@,
    )
}

/// The fretboard: one line per string of the tuning, in tuning order.
pub open spec fn spec_layout(
    notes: Seq<int>,
    bases: Seq<int>,
    root: int,
    relative: bool,
) -> Seq<Seq<char>> {
    Seq::new(bases.len(), |s: int| spec_string_line(notes, bases[s], root, relative))
}

/// Lay the notes out on every string of the tuning, one rendered line per
/// string.
fn layout_on_fretboard(
    notes: &Vec<Note>,
    tuning: &crate::tuning::Tuning,
    root: &Note,
    relative: bool,
) -> (r: Vec<String>)
    requires
        tuning.wf(),
        -400_000_000 <= root.semitones <= 400_000_000,
    ensures
        r@.map_values(|s: String| s@) == spec_layout(
            crate::chord::semis(notes@),
            crate::chord::semis(tuning.base_notes@),
            root.semitones as int,
            relative,
        ),
{
    let ghost ns = crate::chord::semis(notes@);
    let ghost bases = crate::chord::semis(tuning.base_notes@);
    proof {
        crate::tuning::lemma_tuning_base_in_range(tuning.tuning_type);
    }
    let mut result: Vec<String> = Vec::new();
    let nstrings = tuning.get_basenotes().len();
    let mut s: usize = 0;
    while s < nstrings
        invariant
            0 <= s <= nstrings,
            nstrings == tuning.base_notes@.len(),
            ns == crate::chord::semis(notes@),
            bases == crate::chord::semis(tuning.base_notes@),
            tuning.wf(),
            crate::chord::in_range(bases, 0, 28),
            -400_000_000 <= root.semitones <= 400_000_000,
            result@.len() == s,
            forall|m: int|
                0 <= m < s ==> (#[trigger] result@[m])@ == spec_string_line(
                    ns,
                    bases[m],
                    root.semitones as int,
                    relative,
                ),
        decreases nstrings - s,
    {
        let base_note = tuning.get_basenotes()[s];
        proof {
            assert(bases[s as int] == base_note.semitones);
            assert(0 <= bases[s as int] <= 28);
        }
        let ghost base = base_note.semitones as int;
        let frets = locate_on_string(notes, &base_note);
        let ghost fr = spec_frets(ns, base);
        proof {
            assert(frets@.len() == fr.len());
            assert forall|m: int| 0 <= m < 24 implies (match #[trigger] frets@[m] {
                Some(nn) => fr[m] == Some(nn.semitones as int) && nn.semitones == m,
                None => fr[m] is None,
            }) by {
                assert(crate::tuning::opt_semis(frets@)[m] == fr[m]);
            }
        }
        let mut cells: Vec<String> = Vec::new();
        let nut_string: String;
        match &frets[0] {
            Some(note) => {
                let label = print_note(&base_note, note, root, relative);
                let padded = pad_to_length(&label);
                proof {
                    reveal_strlit(" ");
                    reveal_strlit("|");
                    assert(" "@ =~= seq![' ']);
                    assert("|"@ =~= seq!['|']);
                }
                let mut nut = String::from_str(" ");
                nut.append(padded.as_str());
                nut.append("|");
                nut_string = nut;
            },
            None => {
                nut_string = String::from_str("   |");
            },
        }
        cells.push(nut_string);
        let mut f: usize = 1;
        while f < 24
            invariant
                1 <= f <= 24,
                ns == crate::chord::semis(notes@),
                base == base_note.semitones,
                0 <= base <= 28,
                -400_000_000 <= root.semitones <= 400_000_000,
                fr == spec_frets(ns, base),
                frets@.len() == 24,
                forall|m: int|
                    0 <= m < 24 ==> (match #[trigger] frets@[m] {
                        Some(nn) => fr[m] == Some(nn.semitones as int) && nn.semitones == m,
                        None => fr[m] is None,
                    }),
                cells@.len() == f,
                (cells@[0])@ == spec_nut_cell(ns, base, root.semitones as int, relative),
                forall|m: int|
                    1 <= m < f ==> (#[trigger] cells@[m])@ == spec_fret_cell(
                        ns,
                        base,
                        root.semitones as int,
                        relative,
                        m,
                    ),
            decreases 24 - f,
        {
            match &frets[f] {
                Some(note) => {
                    let label = print_note(&base_note, note, root, relative);
                    cells.push(pad_to_length(&label));
                },
                None => {
                    proof {
                        reveal_strlit("- ");
                    }
                    cells.push(String::from_str("- "));
                },
            }
            f += 1;
        }
        proof {
            assert(cells@.map_values(|c: String| c@) =~= seq![
                spec_nut_cell(ns, base, root.semitones as int, relative)] + Seq::new(
                23,
                |ff: int| spec_fret_cell(ns, base, root.semitones as int, relative, ff + 1),
            ));
            reveal_strlit("  ");
        }
        let line = crate::strutil::join_strings_with(&cells, "  ");
        result.push(line);
        s += 1;
    }
    proof {
        assert(result@.map_values(|x: String| x@) =~= spec_layout(
            ns,
            bases,
            root.semitones as int,
            relative,
        ));
    }
    result
}

/// Glue rendered string lines to one block, highest string first.
fn join_strings(fret_strings: &mut Vec<String>) -> (r: String)
    ensures
        final(fret_strings)@ == old(fret_strings)@.reverse(),
        r@ == crate::strutil::join_with(
            old(fret_strings)@.map_values(|s: String| s@).reverse(),
            "\n"@,
        ),
{
    let ghost orig = fret_strings@.map_values(|s: String| s@);
    let n = fret_strings.len();
    let mut rev: Vec<String> = Vec::new();
    let mut i: usize = n;
    while i > 0
        invariant
            0 <= i <= n,
            n == fret_strings@.len(),
            fret_strings@ == old(fret_strings)@,
            orig == fret_strings@.map_values(|s: String| s@),
            rev@.len() == n - i,
            forall|k: int| 0 <= k < n - i ==> #[trigger] rev@[k] == fret_strings@[n - 1 - k],
        decreases i,
    {
        i -= 1;
        rev.push(fret_strings[i].clone());
    }
    proof {
        assert(rev@ =~= fret_strings@.reverse());
        assert forall|k: int| 0 <= k < n implies rev@.map_values(|s: String| s@)[k]
            == #[trigger] orig.reverse()[k] by {
            assert(rev@[k] == fret_strings@[n - 1 - k]);
            assert(orig[n - 1 - k] == fret_strings@[n - 1 - k]@);
        }
        assert(rev@.map_values(|s: String| s@) =~= orig.reverse());
    }
    let joined = crate::strutil::join_strings_with(&rev, "\n");
    *fret_strings = rev;
    joined
}

/// The pitch classes of the names that parse, in order.
pub open spec fn parsed_classes(names: Seq<Seq<char>>) -> Seq<int>
    decreases names.len(),
{
    if names.len() == 0 {
        Seq::<int>::empty()
    } else {
        let rest = parsed_classes(names.drop_first());
        match crate::note::spec_note_of_name(names[0]) {
            Some(c) => seq![c] + rest,
            None => rest,
        }
    }
}

/// Render every position of the named pitch classes on the fretboard, the
/// first named class serving as the (uppercased) reference note.
pub fn all_notes_on_fretboard(note_names: &Vec<String>, tuning: &crate::tuning::Tuning) -> (r:
    Option<String>)
    requires
        tuning.wf(),
        parsed_classes(note_names@.map_values(|s: String| s@)).len() > 0,
    ensures
        ({
            let cs = parsed_classes(note_names@.map_values(|s: String| s@));
            r matches Some(out) && out@ == crate::strutil::join_with(
                spec_layout(
                    cs,
                    crate::chord::semis(tuning.base_notes@),
                    cs[0],
                    false,
                ).reverse(),
                "\n"@,
            )
        }),
{
    let ghost names = note_names@.map_values(|s: String| s@);
    let ghost cs = parsed_classes(names);
    let n = note_names.len();
    let mut notes: Vec<Note> = Vec::new();
    let mut i: usize = 0;
    proof {
        assert(names.skip(0) =~= names);
    }
    while i < n
        invariant
            0 <= i <= n,
            n == note_names@.len(),
            names == note_names@.map_values(|s: String| s@),
            cs == parsed_classes(names),
            crate::chord::semis(notes@) + parsed_classes(names.skip(i as int)) == cs,
            forall|k: int| 0 <= k < notes@.len() ==> 0 <= (#[trigger] notes@[k]).semitones <= 11,
        decreases n - i,
    {
        proof {
            assert(names.skip(i as int).len() > 0);
            assert(names.skip(i as int)[0] == names[i as int]);
            assert(names.skip(i as int).drop_first() =~= names.skip(i + 1));
            assert(names[i as int] == note_names@[i as int]@);
        }
        let ghost prev = crate::chord::semis(notes@);
        match Note::from_string(note_names[i].as_str()) {
            Some(nn) => {
                notes.push(nn);
                proof {
                    let v = nn.semitones as int;
                    assert(crate::chord::semis(notes@) =~= prev + seq![v]);
                    assert((prev + seq![v]) + parsed_classes(names.skip(i + 1)) =~= prev + (
                    seq![v] + parsed_classes(names.skip(i + 1))));
                }
            },
            None => {
            },
        }
        i += 1;
    }
    proof {
        assert(names.skip(n as int) =~= Seq::<Seq<char>>::empty());
        assert(crate::chord::semis(notes@) + Seq::<int>::empty() =~= crate::chord::semis(notes@));
        assert(crate::chord::semis(notes@) == cs);
        assert(cs[0] == notes@[0].semitones);
    }
    let root = notes[0];
    let mut lines = layout_on_fretboard(&notes, tuning, &root, false);
    Some(join_strings(&mut lines))
}

/// The root of the first voicing whose shape the classifier recognizes,
/// walking the voicings in order.
pub open spec fn first_match_root(vs: Seq<Seq<int>>, i: int) -> Option<int>
    decreases vs.len() - i,
{
    if i < 0 || i >= vs.len() {
        None
    } else if crate::chord::chord_type_of(vs[i]) != crate::chord::ChordType::UNKNOWN {
        Some(crate::chord::seq_min(vs[i]))
    } else {
        first_match_root(vs, i + 1)
    }
}

/// Identify the chord a tab stands for: one optional chord name per
/// voicing, plus the notes laid out on the fretboard around the first
/// recognized voicing's root (or nothing when no voicing matches).
pub fn chord_from_tab_notation(
    note_str: &Vec<String>,
    tuning: &crate::tuning::Tuning,
    relative: bool,
) -> (r: (Vec<Option<String>>, String))
    requires
        tuning.wf(),
        frets_in_headroom(note_str@.map_values(|s: String| s@)),
        spec_parsed_notes(*tuning, note_str@.map_values(|s: String| s@)).len() > 0,
    ensures
        ({
            let pn = spec_parsed_notes(*tuning, note_str@.map_values(|s: String| s@));
            let vs = crate::chord::all_voicings(pn);
            &&& r.0@.len() == vs.len()
            &&& forall|i: int|
                0 <= i < vs.len() ==> (match #[trigger] r.0@[i] {
                    Some(s) => crate::chord::chord_type_of(vs[i])
                        != crate::chord::ChordType::UNKNOWN && s@ == crate::chord::chord_name_chars(
                        crate::chord::chord_type_of(vs[i]),
                        crate::chord::seq_min(vs[i]),
                    ),
                    None => crate::chord::chord_type_of(vs[i])
                        == crate::chord::ChordType::UNKNOWN,
                })
            &&& (match first_match_root(vs, 0) {
                Some(root) => r.1@ == crate::strutil::join_with(
                    spec_layout(
                        pn,
                        crate::chord::semis(tuning.base_notes@),
                        root,
                        relative,
                    ).reverse(),
                    "\n"@,
                ),
                None => r.1@ == Seq::<char>::empty(),
            })
        }),
{
    let ghost pn = spec_parsed_notes(*tuning, note_str@.map_values(|s: String| s@));
    let notes = parse_tab_notation(note_str, tuning);
    proof {
        assert forall|k: int|
            0 <= k < crate::chord::semis(notes@).len() implies -(crate::chord::MAX_SEMITONES
            as int) <= #[trigger] crate::chord::semis(notes@)[k] <= (crate::chord::MAX_SEMITONES
            as int) by {
            assert(crate::chord::semis(notes@)[k] == notes@[k].semitones);
        }
        crate::chord::lemma_voicings_props(pn);
    }
    let ghost vs = crate::chord::all_voicings(pn);
    let chords = crate::chord::Chord::find_chord(&notes);
    let m = chords.len();
    let mut inversions: Vec<Option<String>> = Vec::new();
    let mut first_root: Option<Note> = None;
    let mut i: usize = 0;
    while i < m
        invariant
            0 <= i <= m,
            m == chords@.len(),
            m == vs.len(),
            vs == crate::chord::all_voicings(pn),
            forall|k: int| 0 <= k < vs.len() ==> (#[trigger] vs[k]).len() > 0,
            forall|k: int|
                0 <= k < vs.len() ==> crate::chord::in_range(
                    #[trigger] vs[k],
                    -400_000_000,
                    400_000_000,
                ),
            forall|k: int|
                0 <= k < m ==> ((#[trigger] chords@[k] is Some) == (crate::chord::chord_type_of(
                    vs[k],
                ) != crate::chord::ChordType::UNKNOWN)),
            forall|k: int|
                0 <= k < m ==> (#[trigger] chords@[k] matches Some(c) ==> c.type_
                    == crate::chord::chord_type_of(vs[k]) && crate::chord::semis(c.notes@)
                    == crate::chord::chord_notes_of(vs[k])),
            inversions@.len() == i,
            forall|k: int|
                0 <= k < i ==> (match #[trigger] inversions@[k] {
                    Some(s) => crate::chord::chord_type_of(vs[k])
                        != crate::chord::ChordType::UNKNOWN && s@ == crate::chord::chord_name_chars(
                        crate::chord::chord_type_of(vs[k]),
                        crate::chord::seq_min(vs[k]),
                    ),
                    None => crate::chord::chord_type_of(vs[k])
                        == crate::chord::ChordType::UNKNOWN,
                }),
            match first_root {
                Some(nn) => first_match_root(vs, 0) == Some(nn.semitones as int)
                    && -400_000_000 <= nn.semitones <= 400_000_000,
                None => first_match_root(vs, 0) == first_match_root(vs, i as int),
            },
        decreases m - i,
    {
        match &chords[i] {
            Some(chord) => {
                proof {
                    crate::chord::lemma_chord_root(vs[i as int]);
                    crate::chord::lemma_seq_min_max_props(vs[i as int]);
                    let iw = choose|w: int|
                        0 <= w < vs[i as int].len() && vs[i as int][w] == crate::chord::seq_min(
                            vs[i as int],
                        );
                    assert(-400_000_000 <= vs[i as int][iw] <= 400_000_000);
                }
                inversions.push(Some(chord.to_string()));
                if first_root.is_none() {
                    let rn = chord.get_notes()[0];
                    proof {
                        assert(crate::chord::semis(chord.notes@)[0] == chord.notes@[0].semitones);
                        assert(rn.semitones as int == crate::chord::seq_min(vs[i as int]));
                    }
                    first_root = Some(rn);
                }
            },
            None => {
                inversions.push(None);
            },
        }
        i += 1;
    }
    let fretboard: String;
    match &first_root {
        Some(root) => {
            let rr = *root;
            let mut lines = layout_on_fretboard(&notes, tuning, &rr, relative);
            fretboard = join_strings(&mut lines);
        },
        None => {
            proof {
                assert(first_match_root(vs, m as int) is None);
            }
            fretboard = String::new();
        },
    }
    (inversions, fretboard)
}

/// Blues and pentatonic scales list their note names in place of diatonic
/// chords.
pub open spec fn scale_lists_notes(st: crate::scale::ScaleType) -> bool {
    st == crate::scale::ScaleType::major_blues || st == crate::scale::ScaleType::minor_blues || st
        == crate::scale::ScaleType::major_pentatonic || st
        == crate::scale::ScaleType::minor_pentatonic
}

/// Render a scale for the shell: the fretboard block, the degree labels,
/// and either the diatonic chords or (for blues and pentatonic scales) the
/// note names, each list glued with tabs.
pub fn scale_on_fretboard(
    scale_name: &str,
    root: &str,
    tuning: &crate::tuning::Tuning,
    relative: bool,
) -> (r: Option<(String, String, String)>)
    requires
        tuning.wf(),
    ensures
        ({
            match (crate::note::spec_note_of_name(root@), crate::scale::spec_scale_of_name(
                scale_name@,
            )) {
                (Some(rc), Some(st)) => {
                    let ns = crate::scale::spec_scale_notes(rc, crate::scale::scale_steps(st));
                    r matches Some(t) && t.0@ == crate::strutil::join_with(
                        spec_layout(
                            ns,
                            crate::chord::semis(tuning.base_notes@),
                            rc,
                            relative,
                        ).reverse(),
                        "\n"@,
                    ) && t.1@ == crate::strutil::join_with(
                        Seq::new(
                            ns.len(),
                            |i: int| crate::scale::degree_chars((ns[i] - ns[0]) % 13),
                        ),
                        "\t"@,
                    ) && t.2@ == (if scale_lists_notes(st) {
                        crate::strutil::join_with(
                            Seq::new(ns.len(), |i: int| note_name_chars(class_of(ns[i]))),
                            "\t"@,
                        )
                    } else {
                        crate::strutil::join_with(
                            Seq::new(
                                ns.len(),
                                |i: int| crate::scale::spec_degree_chord_name(ns, i),
                            ),
                            "\t"@,
                        )
                    })
                },
                _ => r is None,
            }
        }),
{
    let opt_root = Note::from_string(root);
    let opt_type = crate::scale::ScaleType::from_name(scale_name);
    if opt_root.is_none() || opt_type.is_none() {
        return None;
    }
    let root_note = opt_root.unwrap();
    let scale_type = opt_type.unwrap();
    let scale = crate::scale::Scale::from_type_and_root(root_note, scale_type);
    let ghost ns = crate::chord::semis(scale.notes@);
    let scale_root = scale.get_notes()[0];
    let mut strings = layout_on_fretboard(scale.get_notes(), tuning, &scale_root, relative);
    let fretboard = join_strings(&mut strings);
    let degree_strs = scale.degrees_in_scale();
    let mut degree_vec: Vec<String> = Vec::new();
    let mut i: usize = 0;
    while i < degree_strs.len()
        invariant
            0 <= i <= degree_strs@.len(),
            degree_vec@.len() == i,
            forall|k: int| 0 <= k < i ==> (#[trigger] degree_vec@[k])@ == degree_strs@[k]@,
        decreases degree_strs@.len() - i,
    {
        degree_vec.push(degree_strs[i].to_owned());
        i += 1;
    }
    proof {
        assert(degree_vec@.map_values(|s: String| s@) =~= Seq::new(
            ns.len(),
            |k: int| crate::scale::degree_chars((ns[k] - ns[0]) % 13),
        ));
    }
    let degrees = crate::strutil::join_strings_with(&degree_vec, "\t");
    let listed: String;
    let is_note_list = match scale_type {
        crate::scale::ScaleType::major_blues => true,
        crate::scale::ScaleType::minor_blues => true,
        crate::scale::ScaleType::major_pentatonic => true,
        crate::scale::ScaleType::minor_pentatonic => true,
        _ => false,
    };
    if is_note_list {
        let note_strs = scale.notes_in_scale();
        let mut note_vec: Vec<String> = Vec::new();
        let mut j: usize = 0;
        while j < note_strs.len()
            invariant
                0 <= j <= note_strs@.len(),
                note_vec@.len() == j,
                forall|k: int| 0 <= k < j ==> (#[trigger] note_vec@[k])@ == note_strs@[k]@,
            decreases note_strs@.len() - j,
        {
            note_vec.push(note_strs[j].to_owned());
            j += 1;
        }
        proof {
            assert(note_vec@.map_values(|s: String| s@) =~= Seq::new(
                ns.len(),
                |k: int| note_name_chars(class_of(ns[k])),
            ));
        }
        listed = crate::strutil::join_strings_with(&note_vec, "\t");
    } else {
        let chord_strs = scale.chords_in_scale();
        proof {
            assert(chord_strs@.map_values(|s: String| s@) =~= Seq::new(
                ns.len(),
                |k: int| crate::scale::spec_degree_chord_name(ns, k),
            ));
        }
        listed = crate::strutil::join_strings_with(&chord_strs, "\t");
    }
    Some((fretboard, degrees, listed))
}

} // verus!
