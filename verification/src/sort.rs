//! Sorting a track's notes by start time. The result is a reordering of the
//! input (multiset equality) that is non-decreasing in `time_ms` and stable:
//! notes with equal start times keep their relative order.

use vstd::prelude::*;
use crate::events::MidiNote;

verus! {

/// Non-decreasing start times.
pub open spec fn sorted_by_time(s: Seq<MidiNote>) -> bool {
    forall|i: int, j: int| 0 <= i < j < s.len() ==> s[i].time_ms <= s[j].time_ms
}

/// The notes of `s` that start at time `v`, in their order in `s`.
pub open spec fn time_class(s: Seq<MidiNote>, v: u64) -> Seq<MidiNote> {
    s.filter(|n: MidiNote| n.time_ms == v)
}

/// Ties keep their order: for every start time, the notes with that start
/// time stand in the same order in both lists.
pub open spec fn keeps_tie_order(a: Seq<MidiNote>, b: Seq<MidiNote>) -> bool {
    forall|v: u64| #[trigger] time_class(a, v) == time_class(b, v)
}

/// Inserting `x` at position `k`, when everything from `k` on starts
/// strictly later than `x`, appends `x` to its own time class and leaves
/// every other class alone.
proof fn lemma_class_insert(s: Seq<MidiNote>, k: int, x: MidiNote, v: u64)
    requires
        0 <= k <= s.len(),
        forall|j: int| k <= j < s.len() ==> s[j].time_ms > x.time_ms,
    ensures
        time_class(s.insert(k, x), v) == (if v == x.time_ms {
            time_class(s, v).push(x)
        } else {
            time_class(s, v)
        }),
    decreases s.len(),
{
    reveal(Seq::filter);
    let t = s.insert(k, x);
    assert(t.len() == s.len() + 1);
    if k == s.len() {
        assert(t.drop_last() =~= s);
        assert(t.last() == x);
        assert(time_class(t, v) == (if t.last().time_ms == v {
            time_class(t.drop_last(), v).push(t.last())
        } else {
            time_class(t.drop_last(), v)
        }));
        assert(time_class(t.drop_last(), v) == time_class(s, v));
    } else {
        assert(t.last() == s.last());
        assert(t.drop_last() =~= s.drop_last().insert(k, x));
        assert(forall|j: int| k <= j < s.drop_last().len() ==> s.drop_last()[j].time_ms
            > x.time_ms);
        lemma_class_insert(s.drop_last(), k, x, v);
        assert(s.last().time_ms > x.time_ms);
        assert(time_class(t, v) == (if t.last().time_ms == v {
            time_class(t.drop_last(), v).push(t.last())
        } else {
            time_class(t.drop_last(), v)
        }));
        assert(time_class(t.drop_last(), v) == time_class(s.drop_last().insert(k, x), v));
        assert(time_class(s, v) == (if s.last().time_ms == v {
            time_class(s.drop_last(), v).push(s.last())
        } else {
            time_class(s.drop_last(), v)
        }));
    }
}

fn insert_sorted(out: &mut Vec<MidiNote>, x: MidiNote)
    requires
        sorted_by_time(old(out)@),
    ensures
        sorted_by_time(final(out)@),
        final(out)@.to_multiset() == old(out)@.to_multiset().insert(x),
        final(out)@.len() == old(out)@.len() + 1,
        forall|v: u64|
            #[trigger] time_class(final(out)@, v) == (if v == x.time_ms {
                time_class(old(out)@, v).push(x)
            } else {
                time_class(old(out)@, v)
            }),
{
    let mut k: usize = 0;
    while k < out.len() && out[k].time_ms <= x.time_ms
        invariant
            k <= out@.len(),
            *out == *old(out),
            forall|i: int| 0 <= i < k ==> out@[i].time_ms <= x.time_ms,
        decreases out@.len() - k,
    {
        k += 1;
    }
    proof {
        assert forall|j: int| k as int <= j < out@.len() implies out@[j].time_ms > x.time_ms by {
            assert(out@[k as int].time_ms > x.time_ms);
        }
    }
    out.insert(k, x);
    proof {
        let t = out@;
        let s = old(out)@;
        assert(t == s.insert(k as int, x));
        assert forall|i: int, j: int| 0 <= i < j < t.len() implies t[i].time_ms
            <= t[j].time_ms by {
            let ki = k as int;
            if i == ki {
                // t[i] is x; everything shifted up from s was > x or sorted
                // after the first element found to exceed x.
                assert(t[j] == s[j - 1]);
                assert(s[ki].time_ms > x.time_ms);
                if ki < j - 1 {
                    assert(s[ki].time_ms <= s[j - 1].time_ms);
                }
            } else if j == ki {
                assert(t[i] == s[i]);
            } else if i < ki && j < ki {
                assert(t[i] == s[i] && t[j] == s[j]);
            } else if i > ki && j > ki {
                assert(t[i] == s[i - 1] && t[j] == s[j - 1]);
            } else {
                assert(t[i] == s[i] && t[j] == s[j - 1]);
            }
        }
        broadcast use vstd::seq_lib::group_to_multiset_ensures;
        broadcast use vstd::multiset::group_multiset_axioms;

        assert(t.remove(k as int) =~= s);
        assert(t.remove(k as int).to_multiset() =~= t.to_multiset().remove(t[k as int]));
        assert(t[k as int] == x);
        assert(t.to_multiset().contains(x));
        assert(t.to_multiset() =~= t.to_multiset().remove(x).insert(x));
        assert(t.to_multiset() =~= s.to_multiset().insert(x));
        assert forall|v: u64|
            #[trigger] time_class(t, v) == (if v == x.time_ms {
                time_class(s, v).push(x)
            } else {
                time_class(s, v)
            }) by {
            lemma_class_insert(s, k as int, x, v);
        }
    }
}

/// Sorts the notes by `time_ms`, keeping exactly the same notes, with notes
/// of equal start time in their incoming order.
pub fn sort_notes(notes: &mut Vec<MidiNote>)
    ensures
        sorted_by_time(final(notes)@),
        final(notes)@.to_multiset() == old(notes)@.to_multiset(),
        final(notes)@.len() == old(notes)@.len(),
        keeps_tie_order(final(notes)@, old(notes)@),
{
    broadcast use vstd::seq_lib::group_to_multiset_ensures;

    let mut out: Vec<MidiNote> = Vec::new();
    let mut i: usize = 0;
    while i < notes.len()
        invariant
            i <= notes@.len(),
            *notes == *old(notes),
            sorted_by_time(out@),
            out@.len() == i,
            out@.to_multiset() == notes@.take(i as int).to_multiset(),
            forall|v: u64| #[trigger] time_class(out@, v) == time_class(notes@.take(i as int), v),
        decreases notes@.len() - i,
    {
        let x = notes[i];
        let ghost out_before = out@;
        insert_sorted(&mut out, x);
        proof {
            broadcast use vstd::seq_lib::group_to_multiset_ensures;

            assert(notes@.take(i as int + 1) =~= notes@.take(i as int).push(x));
            assert(notes@.take(i as int).push(x).to_multiset() == notes@.take(
                i as int,
            ).to_multiset().insert(x));
            assert forall|v: u64| #[trigger] time_class(out@, v) == time_class(
                notes@.take(i as int + 1),
                v,
            ) by {
                reveal(Seq::filter);
                assert(time_class(out@, v) == (if v == x.time_ms {
                    time_class(out_before, v).push(x)
                } else {
                    time_class(out_before, v)
                }));
                assert(time_class(out_before, v) == time_class(notes@.take(i as int), v));
                let tk = notes@.take(i as int + 1);
                assert(tk.len() == i + 1);
                assert(tk.drop_last() =~= notes@.take(i as int));
                assert(tk.last() == x);
                assert(time_class(tk, v) == (if tk.last().time_ms == v {
                    time_class(tk.drop_last(), v).push(tk.last())
                } else {
                    time_class(tk.drop_last(), v)
                }));
            }
        }
        i += 1;
    }
    proof {
        assert(notes@.take(notes@.len() as int) =~= notes@);
        assert forall|v: u64| #[trigger] time_class(out@, v) == time_class(notes@, v) by {
            assert(time_class(out@, v) == time_class(notes@.take(notes@.len() as int), v));
        }
    }
    *notes = out;
}

} // verus!
