//! The ranking engine: deduplicates a history and orders it by how often each
//! entry occurs, most frequent first, breaking ties by the most recent
//! occurrence.

use vstd::prelude::*;
use crate::entries::{contains_entry, lemma_views_of_push, views_of};

verus! {

/// How many times `e` occurs in `s`.
pub open spec fn occurrences(s: Seq<Seq<char>>, e: Seq<char>) -> nat
    decreases s.len(),
{
    if s.len() == 0 {
        0
    } else {
        occurrences(s.drop_last(), e) + if s.last() == e {
            1nat
        } else {
            0nat
        }
    }
}

/// The largest index of `s` holding `e`, or `-1` when there is none.
pub open spec fn last_occurrence(s: Seq<Seq<char>>, e: Seq<char>) -> int
    decreases s.len(),
{
    if s.len() == 0 {
        -1
    } else if s.last() == e {
        s.len() - 1
    } else {
        last_occurrence(s.drop_last(), e)
    }
}

/// `a` ranks strictly before `b` in the history `h`: it occurs more often, or
/// as often but more recently.
pub open spec fn ranks_before(h: Seq<Seq<char>>, a: Seq<char>, b: Seq<char>) -> bool {
    ||| occurrences(h, a) > occurrences(h, b)
    ||| (occurrences(h, a) == occurrences(h, b) && last_occurrence(h, a) > last_occurrence(h, b))
}

/// `r` is the ranked form of the history `h`: the same entries without
/// duplicates, in strictly descending rank order. Because two distinct
/// entries never share a last occurrence, this order is total, so `h` pins
/// `r` completely.
pub open spec fn is_ranking(h: Seq<Seq<char>>, r: Seq<Seq<char>>) -> bool {
    &&& forall|i: int, j: int| 0 <= i < j < r.len() ==> r[i] != r[j]
    &&& forall|e: Seq<char>| #[trigger] r.contains(e) ==> h.contains(e)
    &&& forall|e: Seq<char>| #[trigger] h.contains(e) ==> r.contains(e)
    &&& forall|i: int, j: int| 0 <= i < j < r.len() ==> ranks_before(h, r[i], r[j])
}

/// An entry occurs in `s` exactly when its count there is positive.
pub proof fn lemma_occurrences_positive(s: Seq<Seq<char>>, e: Seq<char>)
    ensures
        s.contains(e) <==> occurrences(s, e) > 0,
    decreases s.len(),
{
    if s.len() > 0 {
        lemma_occurrences_positive(s.drop_last(), e);
        if s.contains(e) {
            let i = choose|i: int| 0 <= i < s.len() && s[i] == e;
            if i < s.len() - 1 {
                assert(s.drop_last()[i] == e);
            }
        }
        if s.drop_last().contains(e) {
            let i = choose|i: int| 0 <= i < s.drop_last().len() && s.drop_last()[i] == e;
            assert(s[i] == e);
        }
    }
}

/// When `e` occurs in `s`, its last occurrence is a real index holding `e`.
pub proof fn lemma_last_occurrence_valid(s: Seq<Seq<char>>, e: Seq<char>)
    requires
        s.contains(e),
    ensures
        0 <= last_occurrence(s, e) < s.len(),
        s[last_occurrence(s, e)] == e,
    decreases s.len(),
{
    lemma_occurrences_positive(s, e);
    if s.last() != e {
        lemma_occurrences_positive(s.drop_last(), e);
        lemma_last_occurrence_valid(s.drop_last(), e);
        assert(s[last_occurrence(s.drop_last(), e)] == s.drop_last()[last_occurrence(
            s.drop_last(),
            e,
        )]);
    }
}

/// Two distinct entries of `s` have distinct last occurrences, so one of them
/// ranks strictly before the other.
pub proof fn lemma_rank_total(h: Seq<Seq<char>>, a: Seq<char>, b: Seq<char>)
    requires
        h.contains(a),
        h.contains(b),
        a != b,
    ensures
        ranks_before(h, a, b) || ranks_before(h, b, a),
{
    lemma_last_occurrence_valid(h, a);
    lemma_last_occurrence_valid(h, b);
}

/// Count and last occurrence of `e` in `history`.
fn entry_stats(history: &Vec<String>, e: &String) -> (r: (usize, usize))
    requires
        views_of(history@).contains(e@),
    ensures
        r.0 == occurrences(views_of(history@), e@),
        r.1 == last_occurrence(views_of(history@), e@),
{
    let ghost hd = views_of(history@);
    let mut c: usize = 0;
    let mut last: usize = 0;
    let mut i: usize = 0;
    while i < history.len()
        invariant
            0 <= i <= history@.len(),
            hd == views_of(history@),
            c == occurrences(hd.take(i as int), e@),
            c <= i,
            c > 0 ==> last < i && last == last_occurrence(hd.take(i as int), e@),
            c == 0 ==> last_occurrence(hd.take(i as int), e@) == -1,
        decreases history@.len() - i,
    {
        proof {
            assert(hd.take(i as int + 1).drop_last() =~= hd.take(i as int));
            assert(hd.take(i as int + 1).last() == hd[i as int]);
            assert(hd[i as int] == history@[i as int]@);
        }
        if history[i].eq(e) {
            c = c + 1;
            last = i;
        }
        i += 1;
    }
    proof {
        assert(hd.take(history@.len() as int) =~= hd);
        lemma_occurrences_positive(hd, e@);
    }
    (c, last)
}

/// Rank a history: drop duplicate entries and order what remains by
/// occurrence count, most frequent first, ties broken by the most recent
/// occurrence. The returned list is the one sequence that [`is_ranking`]
/// admits for this history.
pub fn rank(history: &Vec<String>) -> (r: Vec<String>)
    ensures
        is_ranking(views_of(history@), views_of(r@)),
{
    let ghost hd = views_of(history@);
    // Collect each distinct entry once.
    let mut uniq: Vec<String> = Vec::new();
    let mut i: usize = 0;
    while i < history.len()
        invariant
            0 <= i <= history@.len(),
            hd == views_of(history@),
            forall|a: int, b: int| 0 <= a < b < uniq@.len() ==> uniq@[a]@ != uniq@[b]@,
            forall|k: int| 0 <= k < i ==> views_of(uniq@).contains(hd[k]),
            forall|a: int| 0 <= a < uniq@.len() ==> hd.contains(#[trigger] uniq@[a]@),
        decreases history@.len() - i,
    {
        let present = contains_entry(&uniq, &history[i]);
        proof {
            assert(hd[i as int] == history@[i as int]@);
        }
        if !present {
            let ghost old_uniq = uniq@;
            uniq.push(history[i].clone());
            proof {
                assert forall|a: int| 0 <= a < old_uniq.len() implies old_uniq[a]@
                    != history@[i as int]@ by {
                    assert(views_of(old_uniq)[a] == old_uniq[a]@);
                }
                lemma_views_of_push(old_uniq, history@[i as int]);
                assert(views_of(uniq@)[old_uniq.len() as int] == hd[i as int]);
                assert forall|k: int| 0 <= k < i + 1 implies views_of(uniq@).contains(
                    hd[k],
                ) by {
                    if k < i {
                        let a = choose|a: int|
                            0 <= a < views_of(old_uniq).len() && views_of(old_uniq)[a] == hd[k];
                        assert(views_of(uniq@)[a] == hd[k]);
                    }
                }
            }
        }
        i += 1;
    }
    // Attach each distinct entry's count and last occurrence.
    let mut items: Vec<(String, usize, usize)> = Vec::new();
    let mut j: usize = 0;
    while j < uniq.len()
        invariant
            0 <= j <= uniq@.len(),
            hd == views_of(history@),
            items@.len() == j,
            forall|a: int, b: int| 0 <= a < b < uniq@.len() ==> uniq@[a]@ != uniq@[b]@,
            forall|k: int| 0 <= k < history@.len() ==> views_of(uniq@).contains(hd[k]),
            forall|a: int| 0 <= a < uniq@.len() ==> hd.contains(#[trigger] uniq@[a]@),
            forall|k: int| 0 <= k < j ==> (#[trigger] items@[k].0)@ == uniq@[k]@,
            forall|k: int| 0 <= k < j ==> (#[trigger] items@[k].1) == occurrences(hd, uniq@[k]@),
            forall|k: int| 0 <= k < j ==> (#[trigger] items@[k].2) == last_occurrence(
                hd,
                uniq@[k]@,
            ),
        decreases uniq@.len() - j,
    {
        let st = entry_stats(history, &uniq[j]);
        items.push((uniq[j].clone(), st.0, st.1));
        j += 1;
    }
    proof {
        assert forall|e: Seq<char>| #[trigger] hd.contains(e) implies exists|k: int|
            0 <= k < items@.len() && (#[trigger] items@[k].0)@ == e by {
            let i0 = choose|i0: int| 0 <= i0 < hd.len() && hd[i0] == e;
            assert(views_of(uniq@).contains(hd[i0]));
            let a = choose|a: int| 0 <= a < views_of(uniq@).len() && views_of(uniq@)[a] == e;
            assert(views_of(uniq@)[a] == uniq@[a]@);
            assert(items@[a].0@ == e);
        }
    }
    // Repeatedly move the best-ranked remaining entry to the output.
    let mut out: Vec<String> = Vec::new();
    while items.len() > 0
        invariant
            hd == views_of(history@),
            forall|k: int| 0 <= k < items@.len() ==> hd.contains((#[trigger] items@[k].0)@),
            forall|k: int| 0 <= k < items@.len() ==> (#[trigger] items@[k].1) == occurrences(
                hd,
                items@[k].0@,
            ),
            forall|k: int| 0 <= k < items@.len() ==> (#[trigger] items@[k].2) == last_occurrence(
                hd,
                items@[k].0@,
            ),
            forall|a: int, b: int|
                0 <= a < b < items@.len() ==> items@[a].0@ != items@[b].0@,
            forall|a: int, b: int|
                0 <= a < b < out@.len() ==> views_of(out@)[a] != views_of(out@)[b],
            forall|a: int| 0 <= a < out@.len() ==> hd.contains(#[trigger] views_of(out@)[a]),
            forall|e: Seq<char>| #[trigger] hd.contains(e) ==> (views_of(out@).contains(e)
                || exists|k: int| 0 <= k < items@.len() && (#[trigger] items@[k].0)@ == e),
            forall|a: int, k: int|
                0 <= a < out@.len() && 0 <= k < items@.len() ==> views_of(out@)[a]
                    != items@[k].0@,
            forall|a: int, b: int|
                0 <= a < b < out@.len() ==> ranks_before(hd, views_of(out@)[a], views_of(
                    out@,
                )[b]),
            forall|a: int, k: int|
                0 <= a < out@.len() && 0 <= k < items@.len() ==> ranks_before(
                    hd,
                    views_of(out@)[a],
                    items@[k].0@,
                ),
        decreases items@.len(),
    {
        let mut m: usize = 0;
        let mut t: usize = 1;
        while t < items.len()
            invariant
                0 <= m < t <= items@.len(),
                items@.len() > 0,
                forall|k: int|
                    0 <= k < t ==> ((#[trigger] items@[k].1) < items@[m as int].1
                        || (items@[k].1 == items@[m as int].1 && items@[k].2
                        <= items@[m as int].2)),
            decreases items@.len() - t,
        {
            let better = items[t].1 > items[m].1 || (items[t].1 == items[m].1 && items[t].2
                > items[m].2);
            if better {
                m = t;
            }
            t += 1;
        }
        let ghost old_items = items@;
        let ghost old_out = out@;
        let it = items.remove(m);
        out.push(it.0);
        proof {
            lemma_views_of_push(old_out, it.0);
            let best = it.0@;
            assert(best == old_items[m as int].0@);
            // the chosen entry ranks before every other remaining one
            assert forall|k: int|
                0 <= k < items@.len() implies ranks_before(hd, best, items@[k].0@) by {
                let ko = if k < m { k } else { k + 1 };
                assert(items@[k] == old_items[ko]);
                assert(old_items[ko].1 < old_items[m as int].1 || (old_items[ko].1
                    == old_items[m as int].1 && old_items[ko].2 <= old_items[m as int].2));
                lemma_last_occurrence_valid(hd, best);
                lemma_last_occurrence_valid(hd, old_items[ko].0@);
            }
            // every history entry is covered by the output or the remainder
            assert forall|e: Seq<char>| #[trigger] hd.contains(e) implies (views_of(
                out@,
            ).contains(e) || exists|k: int|
                0 <= k < items@.len() && (#[trigger] items@[k].0)@ == e) by {
                if views_of(old_out).contains(e) {
                    let a = choose|a: int|
                        0 <= a < views_of(old_out).len() && views_of(old_out)[a] == e;
                    assert(views_of(out@)[a] == e);
                } else {
                    let ko = choose|ko: int|
                        0 <= ko < old_items.len() && (#[trigger] old_items[ko].0)@ == e;
                    if ko == m {
                        assert(views_of(out@)[old_out.len() as int] == e);
                    } else {
                        let k = if ko < m { ko } else { ko - 1 };
                        assert(items@[k] == old_items[ko]);
                    }
                }
            }
            assert forall|a: int| 0 <= a < out@.len() implies hd.contains(
                #[trigger] views_of(out@)[a],
            ) by {
                if a < old_out.len() {
                    assert(views_of(out@)[a] == views_of(old_out)[a]);
                }
            }
        }
    }
    proof {
        assert forall|e: Seq<char>| #[trigger] views_of(out@).contains(e) implies hd.contains(
            e,
        ) by {
            let a = choose|a: int| 0 <= a < views_of(out@).len() && views_of(out@)[a] == e;
        }
    }
    out
}

/// Ranking is deterministic: any two sequences that [`is_ranking`] admits for
/// the same history are equal.
pub proof fn lemma_rank_deterministic(h: Seq<Seq<char>>, r1: Seq<Seq<char>>, r2: Seq<Seq<char>>)
    requires
        is_ranking(h, r1),
        is_ranking(h, r2),
    ensures
        r1 == r2,
    decreases r1.len(),
{
    lemma_sorted_distinct_unique(h, r1, r2);
}

/// Two duplicate-free sequences with the same members, both strictly sorted
/// by rank in `h`, are equal.
proof fn lemma_sorted_distinct_unique(h: Seq<Seq<char>>, r1: Seq<Seq<char>>, r2: Seq<Seq<char>>)
    requires
        forall|i: int, j: int| 0 <= i < j < r1.len() ==> r1[i] != r1[j],
        forall|i: int, j: int| 0 <= i < j < r2.len() ==> r2[i] != r2[j],
        forall|e: Seq<char>| #[trigger] r1.contains(e) <==> #[trigger] r2.contains(e),
        forall|i: int, j: int| 0 <= i < j < r1.len() ==> ranks_before(h, r1[i], r1[j]),
        forall|i: int, j: int| 0 <= i < j < r2.len() ==> ranks_before(h, r2[i], r2[j]),
    ensures
        r1 == r2,
    decreases r1.len(),
{
    if r1.len() == 0 {
        if r2.len() > 0 {
            assert(r2.contains(r2[0]));
            assert(r1.contains(r2[0]));
        }
        assert(r1 =~= r2);
    } else {
        assert(r1.contains(r1[0]));
        assert(r2.contains(r1[0]));
        let j = choose|j: int| 0 <= j < r2.len() && r2[j] == r1[0];
        if j > 0 {
            assert(r2.contains(r2[0]));
            assert(r1.contains(r2[0]));
            let i = choose|i: int| 0 <= i < r1.len() && r1[i] == r2[0];
            assert(i > 0);
            assert(ranks_before(h, r1[0], r1[i]));
            assert(ranks_before(h, r2[0], r2[j]));
            assert(false);
        }
        let t1 = r1.drop_first();
        let t2 = r2.drop_first();
        assert forall|e: Seq<char>| #[trigger] t1.contains(e) implies #[trigger] t2.contains(
            e,
        ) by {
            let a = choose|a: int| 0 <= a < t1.len() && t1[a] == e;
            assert(r1[a + 1] == e);
            assert(r1.contains(e));
            assert(r2.contains(e));
            let b = choose|b: int| 0 <= b < r2.len() && r2[b] == e;
            assert(e != r1[0]);
            assert(b > 0);
            assert(t2[b - 1] == e);
        }
        assert forall|e: Seq<char>| #[trigger] t2.contains(e) implies #[trigger] t1.contains(
            e,
        ) by {
            let a = choose|a: int| 0 <= a < t2.len() && t2[a] == e;
            assert(r2[a + 1] == e);
            assert(r2.contains(e));
            assert(r1.contains(e));
            let b = choose|b: int| 0 <= b < r1.len() && r1[b] == e;
            assert(e != r2[0]);
            assert(b > 0);
            assert(t1[b - 1] == e);
        }
        lemma_sorted_distinct_unique(h, t1, t2);
        assert forall|i: int| 0 <= i < r1.len() implies r1[i] == r2[i] by {
            if i > 0 {
                assert(t1[i - 1] == r1[i]);
                assert(t2[i - 1] == r2[i]);
            }
        }
        assert(r1 =~= r2);
    }
}

/// On a history whose entries are all the same line, ranking is idempotent:
/// the ranked list is a ranking of itself.
pub proof fn lemma_rank_idempotent_uniform(h: Seq<Seq<char>>, r: Seq<Seq<char>>)
    requires
        is_ranking(h, r),
        forall|i: int, j: int| 0 <= i < h.len() && 0 <= j < h.len() ==> h[i] == h[j],
    ensures
        is_ranking(r, r),
{
    if r.len() > 1 {
        assert(r.contains(r[0]));
        assert(r.contains(r[1]));
        assert(h.contains(r[0]));
        assert(h.contains(r[1]));
        let i = choose|i: int| 0 <= i < h.len() && h[i] == r[0];
        let j = choose|j: int| 0 <= j < h.len() && h[j] == r[1];
        assert(r[0] != r[1]);
        assert(false);
    }
}

} // verus!
