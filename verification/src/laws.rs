//! Global properties of the chord classifier, proved once and for all:
//! octave-shift invariance of the recognized tags, and the recognition of
//! the catalogued shapes on every root.
use vstd::prelude::*;

use crate::chord::ChordType;
use crate::chord::TriadType;
use crate::chord::Interval;
use crate::chord::all_voicings;
use crate::chord::base_voicing;
use crate::chord::chord_type_of;
use crate::chord::classify_intervals;
use crate::chord::dedup_classes;
use crate::chord::dedup_rec;
use crate::chord::final_intervals;
use crate::chord::fold_high;
use crate::chord::folded_intervals;
use crate::chord::insert_sorted;
use crate::chord::lemma_dedup_rec_distinct;
use crate::chord::lemma_seq_min_max_props;
use crate::chord::rel_intervals;
use crate::chord::run_steps;
use crate::chord::seq_max;
use crate::chord::seq_min;
use crate::chord::sort_rec;
use crate::chord::sort_semis;
use crate::chord::sorted;
use crate::chord::spec_inversion;
use crate::chord::spec_inversions;
use crate::chord::spec_octaves_spanned;
use crate::chord::step;
use crate::note::class_of;

verus! {

/// Every pitch of `s`, moved by `c` semitones.
pub open spec fn shifted(s: Seq<int>, c: int) -> Seq<int> {
    s.map_values(|p: int| p + c)
}

proof fn lemma_class_shift(p: int, k: int)
    ensures
        class_of(p + 12 * k) == class_of(p),
{
    vstd::arithmetic::div_mod::lemma_mod_multiples_vanish(k, p, 12);
}

proof fn lemma_shift_drop_first(s: Seq<int>, c: int)
    requires
        s.len() > 0,
    ensures
        shifted(s, c).drop_first() == shifted(s.drop_first(), c),
{
    assert(shifted(s, c).drop_first() =~= shifted(s.drop_first(), c));
}

proof fn lemma_dedup_shift(s: Seq<int>, seen: Set<int>, k: int)
    ensures
        dedup_rec(shifted(s, 12 * k), seen) == shifted(dedup_rec(s, seen), k * 12),
    decreases s.len(),
{
    assert(12 * k == k * 12) by (nonlinear_arith);
    if s.len() == 0 {
        assert(dedup_rec(shifted(s, 12 * k), seen) =~= shifted(dedup_rec(s, seen), k * 12));
    } else {
        assert(shifted(s, 12 * k)[0] == s[0] + 12 * k);
        lemma_class_shift(s[0], k);
        lemma_shift_drop_first(s, 12 * k);
        if seen.contains(class_of(s[0])) {
            lemma_dedup_shift(s.drop_first(), seen, k);
        } else {
            lemma_dedup_shift(s.drop_first(), seen.insert(class_of(s[0])), k);
            assert(seq![s[0] + 12 * k] + shifted(
                dedup_rec(s.drop_first(), seen.insert(class_of(s[0]))),
                k * 12,
            ) =~= shifted(
                seq![s[0]] + dedup_rec(s.drop_first(), seen.insert(class_of(s[0]))),
                k * 12,
            ));
        }
    }
}

proof fn lemma_insert_shift(x: int, s: Seq<int>, c: int)
    ensures
        insert_sorted(x + c, shifted(s, c)) == shifted(insert_sorted(x, s), c),
    decreases s.len(),
{
    if s.len() == 0 {
        assert(insert_sorted(x + c, shifted(s, c)) =~= shifted(insert_sorted(x, s), c));
    } else {
        assert(shifted(s, c)[0] == s[0] + c);
        lemma_shift_drop_first(s, c);
        if x < s[0] {
            assert(seq![x + c] + shifted(s, c) =~= shifted(seq![x] + s, c));
        } else {
            lemma_insert_shift(x, s.drop_first(), c);
            assert(seq![s[0] + c] + shifted(insert_sorted(x, s.drop_first()), c) =~= shifted(
                seq![s[0]] + insert_sorted(x, s.drop_first()),
                c,
            ));
        }
    }
}

proof fn lemma_sort_rec_shift(s: Seq<int>, acc: Seq<int>, c: int)
    ensures
        sort_rec(shifted(s, c), shifted(acc, c)) == shifted(sort_rec(s, acc), c),
    decreases s.len(),
{
    if s.len() == 0 {
    } else {
        assert(shifted(s, c)[0] == s[0] + c);
        lemma_shift_drop_first(s, c);
        lemma_insert_shift(s[0], acc, c);
        lemma_sort_rec_shift(s.drop_first(), insert_sorted(s[0], acc), c);
    }
}

proof fn lemma_sort_shift(s: Seq<int>, c: int)
    ensures
        sort_semis(shifted(s, c)) == shifted(sort_semis(s), c),
{
    assert(shifted(Seq::<int>::empty(), c) =~= Seq::<int>::empty());
    lemma_sort_rec_shift(s, Seq::<int>::empty(), c);
}

proof fn lemma_min_max_shift(s: Seq<int>, c: int)
    requires
        s.len() > 0,
    ensures
        seq_min(shifted(s, c)) == seq_min(s) + c,
        seq_max(shifted(s, c)) == seq_max(s) + c,
    decreases s.len(),
{
    if s.len() == 1 {
        assert(shifted(s, c)[0] == s[0] + c);
    } else {
        assert(shifted(s, c).drop_last() =~= shifted(s.drop_last(), c));
        assert(shifted(s, c).last() == s.last() + c);
        lemma_min_max_shift(s.drop_last(), c);
    }
}

proof fn lemma_base_voicing_shift(notes: Seq<int>, k: int)
    ensures
        base_voicing(shifted(notes, 12 * k)) == shifted(base_voicing(notes), 12 * k),
{
    lemma_dedup_shift(notes, Set::<int>::empty(), k);
    assert(k * 12 == 12 * k) by (nonlinear_arith);
    lemma_sort_shift(dedup_classes(notes), 12 * k);
}

proof fn lemma_octaves_shift(s: Seq<int>, c: int)
    ensures
        spec_octaves_spanned(shifted(s, c)) == spec_octaves_spanned(s),
{
    if s.len() == 0 {
    } else {
        lemma_min_max_shift(s, c);
    }
}

proof fn lemma_inversion_shift(base: Seq<int>, i: int, k: int)
    requires
        0 <= i <= base.len(),
    ensures
        spec_inversion(shifted(base, 12 * k), i) == shifted(spec_inversion(base, i), 12 * k),
{
    let c = 12 * k;
    lemma_octaves_shift(base, c);
    let oct = spec_octaves_spanned(base);
    assert(shifted(base, c).skip(i) + shifted(base, c).take(i).map_values(
        |p: int| p + 12 * oct,
    ) =~= shifted(base.skip(i) + base.take(i).map_values(|p: int| p + 12 * oct), c));
    lemma_dedup_shift(base.skip(i) + base.take(i).map_values(|p: int| p + 12 * oct), Set::<
        int,
    >::empty(), k);
    assert(k * 12 == 12 * k) by (nonlinear_arith);
}

proof fn lemma_rel_shift(v: Seq<int>, c: int)
    requires
        v.len() > 0,
    ensures
        rel_intervals(shifted(v, c)) == rel_intervals(v),
        chord_type_of(shifted(v, c)) == chord_type_of(v),
        final_intervals(shifted(v, c)) == final_intervals(v),
{
    lemma_min_max_shift(v, c);
    assert(shifted(v, c).map_values(|p: int| fold_high(p - seq_min(shifted(v, c))))
        =~= v.map_values(|p: int| fold_high(p - seq_min(v))));
}

/// Octave-shift invariance: moving every pitch of the input by the same
/// whole number of octaves leaves the number of voicings and the chord
/// tag recognized on each voicing unchanged.
pub proof fn lemma_octave_shift_invariance(notes: Seq<int>, k: int)
    requires
        notes.len() > 0,
    ensures
        all_voicings(shifted(notes, 12 * k)).len() == all_voicings(notes).len(),
        forall|i: int|
            0 <= i < all_voicings(notes).len() ==> chord_type_of(
                #[trigger] all_voicings(shifted(notes, 12 * k))[i],
            ) == chord_type_of(all_voicings(notes)[i]),
{
    let c = 12 * k;
    let base = base_voicing(notes);
    lemma_base_voicing_shift(notes, k);
    assert(base_voicing(shifted(notes, c)).len() == base.len());
    assert forall|i: int|
        0 <= i < all_voicings(notes).len() implies chord_type_of(
        #[trigger] all_voicings(shifted(notes, c))[i],
    ) == chord_type_of(all_voicings(notes)[i]) by {
        if i == 0 {
            assert(all_voicings(notes)[0] == base);
            assert(all_voicings(shifted(notes, c))[0] == shifted(base, c));
            if base.len() > 0 {
                lemma_rel_shift(base, c);
            } else {
                assert(shifted(base, c) =~= base);
            }
        } else {
            let j = i - 1;
            assert(all_voicings(notes)[i] == spec_inversions(base)[j]);
            assert(spec_inversions(base)[j] == spec_inversion(base, j + 1));
            assert(all_voicings(shifted(notes, c))[i] == spec_inversion(shifted(base, c), j + 1));
            lemma_inversion_shift(base, j + 1, k);
            let v = spec_inversion(base, j + 1);
            if v.len() > 0 {
                lemma_rel_shift(v, c);
            } else {
                assert(shifted(v, c) =~= v);
            }
        }
    }
}

proof fn lemma_class_add_distinct(r: int, a: int, b: int)
    requires
        (a - b) % 12 != 0,
    ensures
        class_of(r + a) != class_of(r + b),
{
    vstd::arithmetic::div_mod::lemma_mod_equivalence(r + a, r + b, 12);
    assert((r + a) - (r + b) == a - b);
}

proof fn lemma_min_of_sorted(s: Seq<int>)
    requires
        s.len() > 0,
        sorted(s),
    ensures
        seq_min(s) == s[0],
{
    lemma_seq_min_max_props(s);
    let iw = choose|i: int| 0 <= i < s.len() && s[i] == seq_min(s);
    assert(seq_min(s) <= s[0]);
    if iw > 0 {
        assert(s[0] <= s[iw]);
    }
}

proof fn lemma_sort_sorted_prefix(s: Seq<int>, i: int)
    requires
        sorted(s),
        0 <= i <= s.len(),
    ensures
        sort_rec(s.skip(i), s.take(i)) == s,
    decreases s.len() - i,
{
    if i == s.len() {
        assert(s.skip(i) =~= Seq::<int>::empty());
        assert(s.take(i) =~= s);
    } else {
        assert(s.skip(i)[0] == s[i]);
        assert(s.skip(i).drop_first() =~= s.skip(i + 1));
        assert forall|j: int| 0 <= j < i implies #[trigger] s.take(i)[j] <= s[i] by {
            assert(s.take(i)[j] == s[j]);
        }
        crate::chord::lemma_insert_sorted_split(s[i], s.take(i), i);
        assert(s.take(i).take(i).push(s[i]) + s.take(i).skip(i) =~= s.take(i + 1));
        lemma_sort_sorted_prefix(s, i + 1);
    }
}

proof fn lemma_sort_sorted_id(s: Seq<int>)
    requires
        sorted(s),
    ensures
        sort_semis(s) == s,
{
    assert(s.skip(0) =~= s);
    assert(s.take(0) =~= Seq::<int>::empty());
    lemma_sort_sorted_prefix(s, 0);
}

/// A strictly ascending, class-distinct pitch list spanning at most an
/// augmented eleventh is its own base voicing, and its intervals are the
/// plain distances from its first note.
proof fn lemma_canonical_shape(w: Seq<int>)
    requires
        w.len() > 0,
        forall|i: int, j: int| 0 <= i < j < w.len() ==> #[trigger] w[i] < #[trigger] w[j],
        forall|i: int, j: int|
            0 <= i < j < w.len() ==> class_of(#[trigger] w[i]) != class_of(#[trigger] w[j]),
        forall|i: int| 0 <= i < w.len() ==> #[trigger] w[i] - w[0] <= 18,
    ensures
        base_voicing(w) == w,
        seq_min(w) == w[0],
        rel_intervals(w) == w.map_values(|p: int| p - w[0]),
{
    assert forall|i: int| 0 <= i < w.len() implies !Set::<int>::empty().contains(
        class_of(#[trigger] w[i]),
    ) by {}
    lemma_dedup_rec_distinct(w, Set::<int>::empty());
    assert(sorted(w));
    lemma_sort_sorted_id(w);
    lemma_min_of_sorted(w);
    let mapped = w.map_values(|p: int| fold_high(p - seq_min(w)));
    assert(mapped =~= w.map_values(|p: int| p - w[0]));
    assert(sorted(mapped)) by {
        assert forall|i: int, j: int|
            0 <= i < j < mapped.len() implies #[trigger] mapped[i] <= #[trigger] mapped[j] by {
            assert(mapped[i] == w[i] - w[0]);
            assert(mapped[j] == w[j] - w[0]);
        }
    }
    lemma_sort_sorted_id(mapped);
}

proof fn lemma_classify_two(a: int)
    ensures
        classify_intervals(seq![0int, a]) == ({
            if a == 3 {
                ChordType::TwoTone { t: Interval::MINOR_3 }
            } else if a == 4 {
                ChordType::TwoTone { t: Interval::MAJOR_3 }
            } else {
                let s1 = step(ChordType::UNKNOWN, a);
                if s1 == ChordType::UNKNOWN {
                    ChordType::UNKNOWN
                } else {
                    s1
                }
            }
        }),
{
    let ivs = seq![0int, a];
    assert(ivs[1] == a);
    if a != 3 && a != 4 {
        assert(ivs.drop_first() =~= seq![a]);
        assert(seq![a][0] == a);
        assert(seq![a].drop_first() =~= Seq::<int>::empty());
        let s1 = step(ChordType::UNKNOWN, a);
        if s1 != ChordType::UNKNOWN {
            assert(run_steps(s1, Seq::<int>::empty()) == s1);
        }
    }
}

proof fn lemma_classify_three(a: int, b: int)
    ensures
        classify_intervals(seq![0int, a, b]) == ({
            let s1 = step(ChordType::UNKNOWN, a);
            if s1 == ChordType::UNKNOWN {
                ChordType::UNKNOWN
            } else {
                let s2 = step(s1, b);
                if s2 == ChordType::UNKNOWN {
                    ChordType::UNKNOWN
                } else {
                    s2
                }
            }
        }),
{
    let ivs = seq![0int, a, b];
    assert(ivs.drop_first() =~= seq![a, b]);
    assert(seq![a, b][0] == a);
    assert(seq![a, b].drop_first() =~= seq![b]);
    assert(seq![b][0] == b);
    assert(seq![b].drop_first() =~= Seq::<int>::empty());
    let s1 = step(ChordType::UNKNOWN, a);
    assert(run_steps(ChordType::UNKNOWN, seq![a, b]) == (if s1 == ChordType::UNKNOWN {
        ChordType::UNKNOWN
    } else {
        run_steps(s1, seq![b])
    }));
    if s1 != ChordType::UNKNOWN {
        let s2 = step(s1, b);
        assert(run_steps(s1, seq![b]) == (if s2 == ChordType::UNKNOWN {
            ChordType::UNKNOWN
        } else {
            run_steps(s2, Seq::<int>::empty())
        }));
        if s2 != ChordType::UNKNOWN {
            assert(run_steps(s2, Seq::<int>::empty()) == s2);
        }
    }
}

proof fn lemma_classify_four(a: int, b: int, c: int)
    ensures
        classify_intervals(seq![0int, a, b, c]) == ({
            let s1 = step(ChordType::UNKNOWN, a);
            if s1 == ChordType::UNKNOWN {
                ChordType::UNKNOWN
            } else {
                let s2 = step(s1, b);
                if s2 == ChordType::UNKNOWN {
                    ChordType::UNKNOWN
                } else {
                    let s3 = step(s2, c);
                    if s3 == ChordType::UNKNOWN {
                        ChordType::UNKNOWN
                    } else {
                        s3
                    }
                }
            }
        }),
{
    let ivs = seq![0int, a, b, c];
    assert(ivs.drop_first() =~= seq![a, b, c]);
    assert(seq![a, b, c][0] == a);
    assert(seq![a, b, c].drop_first() =~= seq![b, c]);
    assert(seq![b, c][0] == b);
    assert(seq![b, c].drop_first() =~= seq![c]);
    assert(seq![c][0] == c);
    assert(seq![c].drop_first() =~= Seq::<int>::empty());
    let s1 = step(ChordType::UNKNOWN, a);
    assert(run_steps(ChordType::UNKNOWN, seq![a, b, c]) == (if s1 == ChordType::UNKNOWN {
        ChordType::UNKNOWN
    } else {
        run_steps(s1, seq![b, c])
    }));
    if s1 != ChordType::UNKNOWN {
        let s2 = step(s1, b);
        assert(run_steps(s1, seq![b, c]) == (if s2 == ChordType::UNKNOWN {
            ChordType::UNKNOWN
        } else {
            run_steps(s2, seq![c])
        }));
        if s2 != ChordType::UNKNOWN {
            let s3 = step(s2, c);
            assert(run_steps(s2, seq![c]) == (if s3 == ChordType::UNKNOWN {
                ChordType::UNKNOWN
            } else {
                run_steps(s3, Seq::<int>::empty())
            }));
            if s3 != ChordType::UNKNOWN {
                assert(run_steps(s3, Seq::<int>::empty()) == s3);
            }
        }
    }
}

proof fn lemma_classify_five(a: int, b: int, c: int, d: int)
    ensures
        classify_intervals(seq![0int, a, b, c, d]) == ({
            let s1 = step(ChordType::UNKNOWN, a);
            if s1 == ChordType::UNKNOWN {
                ChordType::UNKNOWN
            } else {
                let s2 = step(s1, b);
                if s2 == ChordType::UNKNOWN {
                    ChordType::UNKNOWN
                } else {
                    let s3 = step(s2, c);
                    if s3 == ChordType::UNKNOWN {
                        ChordType::UNKNOWN
                    } else {
                        let s4 = step(s3, d);
                        if s4 == ChordType::UNKNOWN {
                            ChordType::UNKNOWN
                        } else {
                            s4
                        }
                    }
                }
            }
        }),
{
    let ivs = seq![0int, a, b, c, d];
    assert(ivs.drop_first() =~= seq![a, b, c, d]);
    assert(seq![a, b, c, d][0] == a);
    assert(seq![a, b, c, d].drop_first() =~= seq![b, c, d]);
    assert(seq![b, c, d][0] == b);
    assert(seq![b, c, d].drop_first() =~= seq![c, d]);
    assert(seq![c, d][0] == c);
    assert(seq![c, d].drop_first() =~= seq![d]);
    assert(seq![d][0] == d);
    assert(seq![d].drop_first() =~= Seq::<int>::empty());
    let s1 = step(ChordType::UNKNOWN, a);
    assert(run_steps(ChordType::UNKNOWN, seq![a, b, c, d]) == (if s1 == ChordType::UNKNOWN {
        ChordType::UNKNOWN
    } else {
        run_steps(s1, seq![b, c, d])
    }));
    if s1 != ChordType::UNKNOWN {
        let s2 = step(s1, b);
        assert(run_steps(s1, seq![b, c, d]) == (if s2 == ChordType::UNKNOWN {
            ChordType::UNKNOWN
        } else {
            run_steps(s2, seq![c, d])
        }));
        if s2 != ChordType::UNKNOWN {
            let s3 = step(s2, c);
            assert(run_steps(s2, seq![c, d]) == (if s3 == ChordType::UNKNOWN {
                ChordType::UNKNOWN
            } else {
                run_steps(s3, seq![d])
            }));
            if s3 != ChordType::UNKNOWN {
                let s4 = step(s3, d);
                assert(run_steps(s3, seq![d]) == (if s4 == ChordType::UNKNOWN {
                    ChordType::UNKNOWN
                } else {
                    run_steps(s4, Seq::<int>::empty())
                }));
                if s4 != ChordType::UNKNOWN {
                    assert(run_steps(s4, Seq::<int>::empty()) == s4);
                }
            }
        }
    }
}

/// On every root, the bare fifth is recognized as a power chord.
pub proof fn lemma_power_chord_shape(r: int)
    ensures
        chord_type_of(base_voicing(seq![r, r + 7])) == (ChordType::TwoTone {
            t: Interval::PERFECT_5,
        }),
{
    let w = seq![r, r + 7];
    lemma_class_add_distinct(r, 0, 7);
    lemma_canonical_shape(w);
    assert(rel_intervals(w) =~= seq![0int, 7]);
    lemma_classify_two(7);
}

/// On every root, any single catalogued interval — the thirds included —
/// is recognized as a two-tone chord named after that interval.
pub proof fn lemma_two_tone_shape(r: int, a: int)
    requires
        1 <= a <= 17,
        a != 12,
        a != 16,
    ensures
        chord_type_of(base_voicing(seq![r, r + a])) == (if a == 3 {
            ChordType::TwoTone { t: Interval::MINOR_3 }
        } else if a == 4 {
            ChordType::TwoTone { t: Interval::MAJOR_3 }
        } else {
            step(ChordType::UNKNOWN, a)
        }),
        chord_type_of(base_voicing(seq![r, r + a])) matches ChordType::TwoTone { t: _ },
{
    let w = seq![r, r + a];
    assert((0 - a) % 12 != 0) by {
        if a < 12 {
            vstd::arithmetic::div_mod::lemma_mod_neg_neg(0 - a, 12);
            vstd::arithmetic::div_mod::lemma_small_mod(a as nat, 12nat);
        } else {
            vstd::arithmetic::div_mod::lemma_mod_neg_neg(0 - a, 12);
            vstd::arithmetic::div_mod::lemma_small_mod((a - 12) as nat, 12nat);
            vstd::arithmetic::div_mod::lemma_mod_sub_multiples_vanish(a, 12);
        }
    }
    lemma_class_add_distinct(r, 0, a);
    lemma_canonical_shape(w);
    assert(rel_intervals(w) =~= seq![0int, a]);
    lemma_classify_two(a);
}

/// On every root, a minor third and a fifth make the minor triad.
pub proof fn lemma_minor_triad_shape(r: int)
    ensures
        chord_type_of(base_voicing(seq![r, r + 3, r + 7])) == (ChordType::Triad {
            t: TriadType::minor,
        }),
{
    let w = seq![r, r + 3, r + 7];
    lemma_class_add_distinct(r, 0, 3);
    lemma_class_add_distinct(r, 0, 7);
    lemma_class_add_distinct(r, 3, 7);
    lemma_canonical_shape(w);
    assert(rel_intervals(w) =~= seq![0int, 3, 7]);
    lemma_classify_three(3, 7);
}

/// On every root, a major second and a fifth make the suspended-second
/// triad.
pub proof fn lemma_sus2_shape(r: int)
    ensures
        chord_type_of(base_voicing(seq![r, r + 2, r + 7])) == (ChordType::Triad {
            t: TriadType::sus2,
        }),
{
    let w = seq![r, r + 2, r + 7];
    lemma_class_add_distinct(r, 0, 2);
    lemma_class_add_distinct(r, 0, 7);
    lemma_class_add_distinct(r, 2, 7);
    lemma_canonical_shape(w);
    assert(rel_intervals(w) =~= seq![0int, 2, 7]);
    lemma_classify_three(2, 7);
}

/// On every root, a major third and an augmented fifth make the augmented
/// triad.
pub proof fn lemma_augmented_triad_shape(r: int)
    ensures
        chord_type_of(base_voicing(seq![r, r + 4, r + 8])) == (ChordType::Triad {
            t: TriadType::plus,
        }),
{
    let w = seq![r, r + 4, r + 8];
    lemma_class_add_distinct(r, 0, 4);
    lemma_class_add_distinct(r, 0, 8);
    lemma_class_add_distinct(r, 4, 8);
    lemma_canonical_shape(w);
    assert(rel_intervals(w) =~= seq![0int, 4, 8]);
    lemma_classify_three(4, 8);
}

/// On every root, a major third and a fifth make the major triad.
pub proof fn lemma_major_triad_shape(r: int)
    ensures
        chord_type_of(base_voicing(seq![r, r + 4, r + 7])) == (ChordType::Triad {
            t: TriadType::major,
        }),
{
    let w = seq![r, r + 4, r + 7];
    lemma_class_add_distinct(r, 0, 4);
    lemma_class_add_distinct(r, 0, 7);
    lemma_class_add_distinct(r, 4, 7);
    lemma_canonical_shape(w);
    assert(rel_intervals(w) =~= seq![0int, 4, 7]);
    lemma_classify_three(4, 7);
}

/// On every root, a perfect fourth and a fifth make the suspended-fourth
/// triad.
pub proof fn lemma_sus4_shape(r: int)
    ensures
        chord_type_of(base_voicing(seq![r, r + 5, r + 7])) == (ChordType::Triad {
            t: TriadType::sus4,
        }),
{
    let w = seq![r, r + 5, r + 7];
    lemma_class_add_distinct(r, 0, 5);
    lemma_class_add_distinct(r, 0, 7);
    lemma_class_add_distinct(r, 5, 7);
    lemma_canonical_shape(w);
    assert(rel_intervals(w) =~= seq![0int, 5, 7]);
    lemma_classify_three(5, 7);
}

/// On every root, a minor third and a flattened fifth make the diminished
/// minor triad.
pub proof fn lemma_minor_diminished_shape(r: int)
    ensures
        chord_type_of(base_voicing(seq![r, r + 3, r + 6])) == (ChordType::Triad {
            t: TriadType::minor_diminished,
        }),
{
    let w = seq![r, r + 3, r + 6];
    lemma_class_add_distinct(r, 0, 3);
    lemma_class_add_distinct(r, 0, 6);
    lemma_class_add_distinct(r, 3, 6);
    lemma_canonical_shape(w);
    assert(rel_intervals(w) =~= seq![0int, 3, 6]);
    lemma_classify_three(3, 6);
}

/// On every root, a major third and a flattened fifth make the diminished
/// major triad.
pub proof fn lemma_major_diminished_shape(r: int)
    ensures
        chord_type_of(base_voicing(seq![r, r + 4, r + 6])) == (ChordType::Triad {
            t: TriadType::major_diminished,
        }),
{
    let w = seq![r, r + 4, r + 6];
    lemma_class_add_distinct(r, 0, 4);
    lemma_class_add_distinct(r, 0, 6);
    lemma_class_add_distinct(r, 4, 6);
    lemma_canonical_shape(w);
    assert(rel_intervals(w) =~= seq![0int, 4, 6]);
    lemma_classify_three(4, 6);
}

/// On every root, the major triad with a minor seventh is recognized as
/// the dominant seven-chord.
pub proof fn lemma_seven_chord_shape(r: int)
    ensures
        chord_type_of(base_voicing(seq![r, r + 4, r + 7, r + 10])) == (ChordType::SevenChord {
            t: TriadType::major,
            e: Interval::MINOR_7,
        }),
{
    let w = seq![r, r + 4, r + 7, r + 10];
    lemma_class_add_distinct(r, 0, 4);
    lemma_class_add_distinct(r, 0, 7);
    lemma_class_add_distinct(r, 0, 10);
    lemma_class_add_distinct(r, 4, 7);
    lemma_class_add_distinct(r, 4, 10);
    lemma_class_add_distinct(r, 7, 10);
    lemma_canonical_shape(w);
    assert(rel_intervals(w) =~= seq![0int, 4, 7, 10]);
    lemma_classify_four(4, 7, 10);
}

/// On every root, the minor triad with a major ninth is recognized as the
/// added-ninth chord.
pub proof fn lemma_minor_add9_shape(r: int)
    ensures
        chord_type_of(base_voicing(seq![r, r + 3, r + 7, r + 14])) == (ChordType::AddChord {
            t: TriadType::minor,
            e: Interval::MAJOR_9,
        }),
{
    let w = seq![r, r + 3, r + 7, r + 14];
    lemma_class_add_distinct(r, 0, 3);
    lemma_class_add_distinct(r, 0, 7);
    lemma_class_add_distinct(r, 0, 14);
    lemma_class_add_distinct(r, 3, 7);
    lemma_class_add_distinct(r, 3, 14);
    lemma_class_add_distinct(r, 7, 14);
    lemma_canonical_shape(w);
    assert(rel_intervals(w) =~= seq![0int, 3, 7, 14]);
    lemma_classify_four(3, 7, 14);
}

/// On every root, a major third with a minor seventh but no fifth is
/// still recognized as a seven-chord, on the omitted-fifth fallback.
pub proof fn lemma_omitted_fifth_seven_shape(r: int)
    ensures
        chord_type_of(base_voicing(seq![r, r + 4, r + 10])) == (ChordType::SevenChord {
            t: TriadType::major_omitted_5,
            e: Interval::MINOR_7,
        }),
{
    let w = seq![r, r + 4, r + 10];
    lemma_class_add_distinct(r, 0, 4);
    lemma_class_add_distinct(r, 0, 10);
    lemma_class_add_distinct(r, 4, 10);
    lemma_canonical_shape(w);
    assert(rel_intervals(w) =~= seq![0int, 4, 10]);
    lemma_classify_three(4, 10);
}

/// On every root, the major triad with a major sixth is recognized as the
/// added-sixth chord.
pub proof fn lemma_major_add6_shape(r: int)
    ensures
        chord_type_of(base_voicing(seq![r, r + 4, r + 7, r + 9])) == (ChordType::AddChord {
            t: TriadType::major,
            e: Interval::MAJOR_6,
        }),
{
    let w = seq![r, r + 4, r + 7, r + 9];
    lemma_class_add_distinct(r, 0, 4);
    lemma_class_add_distinct(r, 0, 7);
    lemma_class_add_distinct(r, 0, 9);
    lemma_class_add_distinct(r, 4, 7);
    lemma_class_add_distinct(r, 4, 9);
    lemma_class_add_distinct(r, 7, 9);
    lemma_canonical_shape(w);
    assert(rel_intervals(w) =~= seq![0int, 4, 7, 9]);
    lemma_classify_four(4, 7, 9);
}

proof fn lemma_classify_six(a: int, b: int, c: int, d: int, e: int)
    ensures
        classify_intervals(seq![0int, a, b, c, d, e]) == ({
            let s1 = step(ChordType::UNKNOWN, a);
            if s1 == ChordType::UNKNOWN {
                ChordType::UNKNOWN
            } else {
                let s2 = step(s1, b);
                if s2 == ChordType::UNKNOWN {
                    ChordType::UNKNOWN
                } else {
                    let s3 = step(s2, c);
                    if s3 == ChordType::UNKNOWN {
                        ChordType::UNKNOWN
                    } else {
                        let s4 = step(s3, d);
                        if s4 == ChordType::UNKNOWN {
                            ChordType::UNKNOWN
                        } else {
                            let s5 = step(s4, e);
                            if s5 == ChordType::UNKNOWN {
                                ChordType::UNKNOWN
                            } else {
                                s5
                            }
                        }
                    }
                }
            }
        }),
{
    let ivs = seq![0int, a, b, c, d, e];
    assert(ivs.drop_first() =~= seq![a, b, c, d, e]);
    assert(seq![a, b, c, d, e][0] == a);
    assert(seq![a, b, c, d, e].drop_first() =~= seq![b, c, d, e]);
    assert(seq![b, c, d, e][0] == b);
    assert(seq![b, c, d, e].drop_first() =~= seq![c, d, e]);
    assert(seq![c, d, e][0] == c);
    assert(seq![c, d, e].drop_first() =~= seq![d, e]);
    assert(seq![d, e][0] == d);
    assert(seq![d, e].drop_first() =~= seq![e]);
    assert(seq![e][0] == e);
    assert(seq![e].drop_first() =~= Seq::<int>::empty());
    let s1 = step(ChordType::UNKNOWN, a);
    assert(run_steps(ChordType::UNKNOWN, seq![a, b, c, d, e]) == (if s1 == ChordType::UNKNOWN {
        ChordType::UNKNOWN
    } else {
        run_steps(s1, seq![b, c, d, e])
    }));
    if s1 != ChordType::UNKNOWN {
        let s2 = step(s1, b);
        assert(run_steps(s1, seq![b, c, d, e]) == (if s2 == ChordType::UNKNOWN {
            ChordType::UNKNOWN
        } else {
            run_steps(s2, seq![c, d, e])
        }));
        if s2 != ChordType::UNKNOWN {
            let s3 = step(s2, c);
            assert(run_steps(s2, seq![c, d, e]) == (if s3 == ChordType::UNKNOWN {
                ChordType::UNKNOWN
            } else {
                run_steps(s3, seq![d, e])
            }));
            if s3 != ChordType::UNKNOWN {
                let s4 = step(s3, d);
                assert(run_steps(s3, seq![d, e]) == (if s4 == ChordType::UNKNOWN {
                    ChordType::UNKNOWN
                } else {
                    run_steps(s4, seq![e])
                }));
                if s4 != ChordType::UNKNOWN {
                    let s5 = step(s4, e);
                    assert(run_steps(s4, seq![e]) == (if s5 == ChordType::UNKNOWN {
                        ChordType::UNKNOWN
                    } else {
                        run_steps(s5, Seq::<int>::empty())
                    }));
                    if s5 != ChordType::UNKNOWN {
                        assert(run_steps(s5, Seq::<int>::empty()) == s5);
                    }
                }
            }
        }
    }
}

/// On every root, the nine-chord with a perfect eleventh on top is
/// recognized as the eleven-chord.
pub proof fn lemma_eleven_chord_shape(r: int)
    ensures
        chord_type_of(base_voicing(seq![r, r + 4, r + 7, r + 10, r + 14, r + 17]))
            == (ChordType::ElevenChord {
            t: TriadType::major,
            e1: Interval::MINOR_7,
            e2: Interval::MAJOR_9,
            e3: Interval::PERFECT_11,
        }),
{
    let w = seq![r, r + 4, r + 7, r + 10, r + 14, r + 17];
    lemma_class_add_distinct(r, 0, 4);
    lemma_class_add_distinct(r, 0, 7);
    lemma_class_add_distinct(r, 0, 10);
    lemma_class_add_distinct(r, 0, 14);
    lemma_class_add_distinct(r, 0, 17);
    lemma_class_add_distinct(r, 4, 7);
    lemma_class_add_distinct(r, 4, 10);
    lemma_class_add_distinct(r, 4, 14);
    lemma_class_add_distinct(r, 4, 17);
    lemma_class_add_distinct(r, 7, 10);
    lemma_class_add_distinct(r, 7, 14);
    lemma_class_add_distinct(r, 7, 17);
    lemma_class_add_distinct(r, 10, 14);
    lemma_class_add_distinct(r, 10, 17);
    lemma_class_add_distinct(r, 14, 17);
    lemma_canonical_shape(w);
    assert(rel_intervals(w) =~= seq![0int, 4, 7, 10, 14, 17]);
    lemma_classify_six(4, 7, 10, 14, 17);
}

/// On every root, the dominant seven-chord with a major ninth is
/// recognized as the nine-chord.
pub proof fn lemma_nine_chord_shape(r: int)
    ensures
        chord_type_of(base_voicing(seq![r, r + 4, r + 7, r + 10, r + 14]))
            == (ChordType::NineChord {
            t: TriadType::major,
            e1: Interval::MINOR_7,
            e2: Interval::MAJOR_9,
        }),
{
    let w = seq![r, r + 4, r + 7, r + 10, r + 14];
    lemma_class_add_distinct(r, 0, 4);
    lemma_class_add_distinct(r, 0, 7);
    lemma_class_add_distinct(r, 0, 10);
    lemma_class_add_distinct(r, 0, 14);
    lemma_class_add_distinct(r, 4, 7);
    lemma_class_add_distinct(r, 4, 10);
    lemma_class_add_distinct(r, 4, 14);
    lemma_class_add_distinct(r, 7, 10);
    lemma_class_add_distinct(r, 7, 14);
    lemma_class_add_distinct(r, 10, 14);
    lemma_canonical_shape(w);
    assert(rel_intervals(w) =~= seq![0int, 4, 7, 10, 14]);
    lemma_classify_five(4, 7, 10, 14);
}

} // verus!
