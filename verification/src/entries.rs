//! The mathematical model of entry lists: a history entry is one command line,
//! and a list of entries is modelled by the sequence of its character
//! sequences.

use vstd::prelude::*;

verus! {

/// The contents of a list of entries: each `String` as its character sequence.
pub open spec fn views_of(s: Seq<String>) -> Seq<Seq<char>> {
    s.map_values(|x: String| x@)
}

pub broadcast proof fn lemma_views_of_push(s: Seq<String>, x: String)
    ensures
        #[trigger] views_of(s.push(x)) == views_of(s).push(x@),
{
    assert(views_of(s.push(x)) =~= views_of(s).push(x@));
}

/// The predicate holding the entries that differ from `e`: what deleting
/// `e` filters by.
pub open spec fn differs_from(e: Seq<char>) -> spec_fn(Seq<char>) -> bool {
    |t: Seq<char>| t != e
}

/// One step of filtering: extending the filtered prefix of `s` by its next
/// element keeps it exactly when the predicate accepts it.
pub proof fn lemma_filter_take_step<A>(s: Seq<A>, pred: spec_fn(A) -> bool, i: int)
    requires
        0 <= i < s.len(),
    ensures
        pred(s[i]) ==> s.take(i + 1).filter(pred) == s.take(i).filter(pred).push(s[i]),
        !pred(s[i]) ==> s.take(i + 1).filter(pred) == s.take(i).filter(pred),
{
    reveal(Seq::filter);
    assert(s.take(i + 1).drop_last() =~= s.take(i));
    assert(s.take(i + 1).last() == s[i]);
}

/// Filtering with a predicate that accepts every element changes nothing.
pub proof fn lemma_filter_all<A>(s: Seq<A>, pred: spec_fn(A) -> bool)
    requires
        forall|k: int| 0 <= k < s.len() ==> pred(#[trigger] s[k]),
    ensures
        s.filter(pred) == s,
    decreases s.len(),
{
    reveal(Seq::filter);
    if s.len() > 0 {
        lemma_filter_all(s.drop_last(), pred);
        assert(s.drop_last().push(s.last()) =~= s);
    }
}

/// Two predicates that agree on every element filter a sequence alike.
pub proof fn lemma_filter_congruent<A>(s: Seq<A>, p1: spec_fn(A) -> bool, p2: spec_fn(A) -> bool)
    requires
        forall|k: int| 0 <= k < s.len() ==> p1(#[trigger] s[k]) == p2(s[k]),
    ensures
        s.filter(p1) == s.filter(p2),
    decreases s.len(),
{
    reveal(Seq::filter);
    if s.len() > 0 {
        lemma_filter_congruent(s.drop_last(), p1, p2);
    }
}

/// Whether some entry of `v` reads `x`, by content.
pub fn contains_entry(v: &Vec<String>, x: &String) -> (r: bool)
    ensures
        r == views_of(v@).contains(x@),
{
    let mut i: usize = 0;
    while i < v.len()
        invariant
            0 <= i <= v@.len(),
            forall|k: int| 0 <= k < i ==> v@[k]@ != x@,
        decreases v@.len() - i,
    {
        if v[i].eq(x) {
            proof {
                assert(views_of(v@)[i as int] == x@);
            }
            return true;
        }
        i += 1;
    }
    proof {
        assert forall|k: int| 0 <= k < views_of(v@).len() implies views_of(v@)[k] != x@ by {
            assert(views_of(v@)[k] == v@[k]@);
        }
    }
    false
}

/// `s` with every repeated entry dropped, keeping the first occurrence of
/// each and the order of first occurrences.
pub open spec fn dedup_first(s: Seq<Seq<char>>) -> Seq<Seq<char>>
    decreases s.len(),
{
    if s.len() == 0 {
        s
    } else {
        let t = dedup_first(s.drop_last());
        if t.contains(s.last()) {
            t
        } else {
            t.push(s.last())
        }
    }
}

/// Drop repeated entries from `v`, keeping the first occurrence of each.
pub fn dedup_keep_first(v: &Vec<String>) -> (r: Vec<String>)
    ensures
        views_of(r@) == dedup_first(views_of(v@)),
{
    let ghost vd = views_of(v@);
    let mut r: Vec<String> = Vec::new();
    let mut i: usize = 0;
    while i < v.len()
        invariant
            0 <= i <= v@.len(),
            vd == views_of(v@),
            views_of(r@) == dedup_first(vd.take(i as int)),
        decreases v@.len() - i,
    {
        let ghost old_r = r@;
        let present = contains_entry(&r, &v[i]);
        if !present {
            r.push(v[i].clone());
        }
        proof {
            assert(vd.take(i as int + 1).drop_last() =~= vd.take(i as int));
            assert(vd.take(i as int + 1).last() == vd[i as int]);
            assert(vd[i as int] == v@[i as int]@);
            if !present {
                lemma_views_of_push(old_r, v@[i as int]);
            }
        }
        i += 1;
    }
    proof {
        assert(vd.take(v@.len() as int) =~= vd);
    }
    r
}

/// `v` without the entries that read `x`, in order.
pub fn remove_entry(v: &Vec<String>, x: &String) -> (r: Vec<String>)
    ensures
        views_of(r@) == views_of(v@).filter(differs_from(x@)),
{
    let ghost vd = views_of(v@);
    let mut r: Vec<String> = Vec::new();
    let mut i: usize = 0;
    while i < v.len()
        invariant
            0 <= i <= v@.len(),
            vd == views_of(v@),
            views_of(r@) == vd.take(i as int).filter(differs_from(x@)),
        decreases v@.len() - i,
    {
        let ghost old_r = r@;
        let keep = !v[i].eq(x);
        if keep {
            r.push(v[i].clone());
        }
        proof {
            assert(vd[i as int] == v@[i as int]@);
            lemma_filter_take_step(vd, differs_from(x@), i as int);
            if keep {
                lemma_views_of_push(old_r, v@[i as int]);
            }
        }
        i += 1;
    }
    proof {
        assert(vd.take(v@.len() as int) =~= vd);
    }
    r
}

} // verus!
