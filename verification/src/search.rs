//! The search engine: a query is compiled into a literal or regex matcher,
//! and the active view keeps only the entries the matcher accepts.
//!
//! The matcher itself comes from the `regex` crate. Its verdict on a given
//! pattern, case flag and text is named by the uninterpreted function
//! [`pattern_match`]; for a case-sensitive literal query the verdict is
//! additionally pinned down as plain substring containment.

use vstd::prelude::*;
use crate::entries::{lemma_views_of_push, views_of};

verus! {

/// A character with significance in a regex, which escaping must prefix
/// with a backslash. The set is fixed by the regex crate and documented not
/// to change in a compatible release.
pub open spec fn is_meta_character(c: char) -> bool {
    ||| c == '\\'
    ||| c == '.'
    ||| c == '+'
    ||| c == '*'
    ||| c == '?'
    ||| c == '('
    ||| c == ')'
    ||| c == '|'
    ||| c == '['
    ||| c == ']'
    ||| c == '{'
    ||| c == '}'
    ||| c == '^'
    ||| c == '$'
    ||| c == '#'
    ||| c == '&'
    ||| c == '-'
    ||| c == '~'
}

/// What `regex::escape` returns for a query: the query with a backslash
/// put before every meta character.
pub open spec fn escaped(q: Seq<char>) -> Seq<char>
    decreases q.len(),
{
    if q.len() == 0 {
        Seq::empty()
    } else {
        (if is_meta_character(q[0]) {
            seq!['\\', q[0]]
        } else {
            seq![q[0]]
        }) + escaped(q.drop_first())
    }
}

/// Whether `regex::RegexBuilder::build` accepts a pattern under a case flag.
pub uninterp spec fn pattern_compiles(p: Seq<char>, case_insensitive: bool) -> bool;

/// Whether a compiled pattern matches somewhere in a text: the verdict of
/// `regex::Regex::is_match`, a function of the pattern, the case flag and
/// the text alone.
pub uninterp spec fn pattern_match(p: Seq<char>, case_insensitive: bool, text: Seq<char>) -> bool;

/// The query occurs in `text` starting at position `i`.
pub open spec fn contains_at(text: Seq<char>, q: Seq<char>, i: int) -> bool {
    0 <= i && i + q.len() <= text.len() && text.subrange(i, i + q.len()) == q
}

/// The query occurs somewhere in `text`.
pub open spec fn contains_query(text: Seq<char>, q: Seq<char>) -> bool {
    exists|i: int| contains_at(text, q, i)
}

/// The predicate holding the texts that contain `q`: what a case-sensitive
/// literal query filters by.
pub open spec fn literal_accepts(q: Seq<char>) -> spec_fn(Seq<char>) -> bool {
    |t: Seq<char>| contains_query(t, q)
}

#[verifier::external_type_specification]
#[verifier::external_body]
pub struct ExRegex(regex::Regex);

/// A compiled query: the regex is kept together with the pattern text and
/// case flag it was built from, which is what the contracts speak about.
/// Only [`build_matcher`] constructs one, so the regex always belongs to
/// the recorded pattern and flag.
pub struct Matcher {
    regex: regex::Regex,
    pattern: String,
    case_insensitive: bool,
}

impl Matcher {
    /// The pattern this matcher was compiled from.
    pub closed spec fn spec_pattern(self) -> Seq<char> {
        self.pattern@
    }

    /// Whether this matcher ignores case.
    pub closed spec fn spec_case_insensitive(self) -> bool {
        self.case_insensitive
    }

    /// The pattern this matcher was compiled from.
    pub fn pattern(&self) -> (r: &String)
        ensures
            r@ == self.spec_pattern(),
    {
        &self.pattern
    }

    /// Whether this matcher ignores case.
    pub fn case_insensitive(&self) -> (r: bool)
        ensures
            r == self.spec_case_insensitive(),
    {
        self.case_insensitive
    }
}

/// Relies on `regex::escape`: it prefixes a backslash to every meta
/// character, exactly as [`escaped`] writes it down, and the result "may be
/// safely used as a literal" (its documentation), so when it does compile,
/// as a case-sensitive pattern it matches exactly the texts that contain
/// the query verbatim. Whether it compiles is not claimed: the builder
/// enforces a compiled-size budget that an enormous literal can exceed.
#[verifier::external_body]
fn escape_query(q: &String) -> (r: String)
    ensures
        r@ == escaped(q@),
        forall|t: Seq<char>| #[trigger] pattern_match(r@, false, t) <==> contains_query(t, q@),
{
    regex::escape(q)
}

/// Relies on `regex::RegexBuilder`: whether `build` accepts a pattern is a
/// deterministic function of the pattern text and the case-insensitivity
/// flag, which [`pattern_compiles`] names, and the compiled regex is
/// determined by the two as well.
#[verifier::external_body]
fn build_matcher(pattern: &String, case_insensitive: bool) -> (r: Option<Matcher>)
    ensures
        r is Some <==> pattern_compiles(pattern@, case_insensitive),
        r is Some ==> r->Some_0.spec_pattern() == pattern@,
        r is Some ==> r->Some_0.spec_case_insensitive() == case_insensitive,
{
    match regex::RegexBuilder::new(pattern).case_insensitive(case_insensitive).build() {
        Ok(regex) => Some(Matcher { regex, pattern: pattern.clone(), case_insensitive }),
        Err(_) => None,
    }
}

impl Matcher {
    /// Compile a query. In literal mode the query is escaped first, so the
    /// compiled pattern is a plain literal; in regex mode the query itself
    /// is the pattern. Either way the result is present exactly when the
    /// builder accepts the pattern.
    pub fn compile(query: &String, regex_mode: bool, case_sensitive: bool) -> (r: Option<Matcher>)
        ensures
            ({
                let p = if regex_mode { query@ } else { escaped(query@) };
                &&& (r is Some <==> pattern_compiles(p, !case_sensitive))
                &&& (r is Some ==> r->Some_0.spec_pattern() == p)
                &&& (r is Some ==> r->Some_0.spec_case_insensitive() == !case_sensitive)
                &&& (!regex_mode && r is Some ==> forall|t: Seq<char>|
                    #[trigger] pattern_match(r->Some_0.spec_pattern(), false, t)
                        <==> contains_query(t, query@))
            }),
    {
        if regex_mode {
            build_matcher(query, !case_sensitive)
        } else {
            let escaped_query = escape_query(query);
            build_matcher(&escaped_query, !case_sensitive)
        }
    }

    /// Relies on `regex::Regex::is_match`: whether the regex matches anywhere
    /// in `text`, a deterministic function of pattern, case flag and text.
    #[verifier::external_body]
    fn is_match(&self, text: &String) -> (r: bool)
        ensures
            r == pattern_match(self.spec_pattern(), self.spec_case_insensitive(), text@),
    {
        self.regex.is_match(text)
    }

    /// The entries the matcher accepts under this pattern and case flag.
    pub open spec fn accepts(self) -> spec_fn(Seq<char>) -> bool {
        |t: Seq<char>| pattern_match(self.spec_pattern(), self.spec_case_insensitive(), t)
    }

    /// Keep, in order, the entries of `v` that this matcher accepts.
    pub fn filter_entries(&self, v: &Vec<String>) -> (r: Vec<String>)
        ensures
            views_of(r@) == views_of(v@).filter(self.accepts()),
    {
        broadcast use vstd::seq_lib::group_filter_ensures;

        let ghost vd = views_of(v@);
        let mut r: Vec<String> = Vec::new();
        let mut i: usize = 0;
        while i < v.len()
            invariant
                0 <= i <= v@.len(),
                vd == views_of(v@),
                views_of(r@) == vd.take(i as int).filter(self.accepts()),
            decreases v@.len() - i,
        {
            let ghost old_r = r@;
            let keep = self.is_match(&v[i]);
            if keep {
                r.push(v[i].clone());
            }
            proof {
                let pred = self.accepts();
                assert(vd.take(i as int + 1) =~= vd.take(i as int) + seq![vd[i as int]]);
                Seq::filter_distributes_over_add(vd.take(i as int), seq![vd[i as int]], pred);
                reveal_with_fuel(Seq::filter, 2);
                assert(seq![vd[i as int]].drop_last() =~= Seq::<Seq<char>>::empty());
                assert(vd[i as int] == v@[i as int]@);
                if keep {
                    lemma_views_of_push(old_r, v@[i as int]);
                    assert(views_of(r@) =~= vd.take(i as int + 1).filter(pred));
                } else {
                    assert(views_of(r@) =~= vd.take(i as int + 1).filter(pred));
                }
            }
            i += 1;
        }
        proof {
            assert(vd.take(v@.len() as int) =~= vd);
        }
        r
    }
}

/// A filtered list keeps only entries of the original: whatever the matcher,
/// every entry of the filtered list occurs in the list it was filtered from.
/// Narrowing a query therefore never brings an entry back: re-filtering an
/// already filtered view yields a subset of it, by content.
pub proof fn lemma_filter_subset(s: Seq<Seq<char>>, pred: spec_fn(Seq<char>) -> bool)
    ensures
        forall|e: Seq<char>| #[trigger] s.filter(pred).contains(e) ==> s.contains(e),
{
    broadcast use vstd::seq_lib::group_filter_ensures;

    assert forall|e: Seq<char>| #[trigger] s.filter(pred).contains(e) implies s.contains(e) by {
        let i = choose|i: int| 0 <= i < s.filter(pred).len() && s.filter(pred)[i] == e;
        assert(s.filter(pred).contains(s.filter(pred)[i]));
        lemma_filter_membership(s, pred, i);
    }
}

/// Each element of a filtered sequence occurs in the original sequence.
proof fn lemma_filter_membership(s: Seq<Seq<char>>, pred: spec_fn(Seq<char>) -> bool, i: int)
    requires
        0 <= i < s.filter(pred).len(),
    ensures
        s.contains(s.filter(pred)[i]),
    decreases s.len(),
{
    reveal(Seq::filter);
    if s.len() > 0 {
        let f = s.drop_last().filter(pred);
        if pred(s.last()) && i == s.filter(pred).len() - 1 {
            assert(s[s.len() - 1] == s.filter(pred)[i]);
        } else {
            lemma_filter_membership(s.drop_last(), pred, i);
            let j = choose|j: int| 0 <= j < s.drop_last().len() && s.drop_last()[j] == f[i];
            assert(s[j] == f[i]);
        }
    }
}

/// When one query is a prefix of another, any text containing the longer
/// query contains the shorter one at the same position.
pub proof fn lemma_prefix_contains(text: Seq<char>, q1: Seq<char>, q2: Seq<char>)
    requires
        q1 == q2.take(q1.len() as int),
        q1.len() <= q2.len(),
        contains_query(text, q2),
    ensures
        contains_query(text, q1),
{
    let i = choose|i: int| contains_at(text, q2, i);
    assert(text.subrange(i, i + q1.len()) =~= text.subrange(i, i + q2.len()).take(
        q1.len() as int,
    ));
    assert(contains_at(text, q1, i));
}

/// Literal filtering is monotonic in the query: an entry kept by a query is
/// kept by every prefix of it. Stated over plain substring containment,
/// which is what a case-sensitive literal query matches by.
pub proof fn lemma_literal_filter_monotonic(
    s: Seq<Seq<char>>,
    q1: Seq<char>,
    q2: Seq<char>,
    e: Seq<char>,
)
    requires
        q1 == q2.take(q1.len() as int),
        q1.len() <= q2.len(),
        s.filter(literal_accepts(q2)).contains(e),
    ensures
        s.filter(literal_accepts(q1)).contains(e),
{
    broadcast use vstd::seq_lib::group_filter_ensures;

    let p2 = literal_accepts(q2);
    let p1 = literal_accepts(q1);
    let i = choose|i: int| 0 <= i < s.filter(p2).len() && s.filter(p2)[i] == e;
    assert(s.filter(p2).contains(s.filter(p2)[i]));
    lemma_filter_membership(s, p2, i);
    assert(p2(e));
    lemma_prefix_contains(e, q1, q2);
    assert(p1(e));
    let j = choose|j: int| 0 <= j < s.len() && s[j] == e;
}

} // verus!
