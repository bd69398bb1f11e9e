//! Laws of the line filter: what the search returns, stated over the
//! specification functions and proved once and for all.

use vstd::prelude::*;

use crate::search::contains_seq;
use crate::search::fold_case;
use crate::search::line_matches;
use crate::search::lines_of;
use crate::search::lower_seq;
use crate::search::search_spec;

verus! {

/// The positions, in increasing order, of the corpus lines that match the
/// query: the indices into `lines` that survive the match predicate.
pub open spec fn matching_indices(
    lines: Seq<Seq<char>>,
    query: Seq<char>,
    case_sensitive: bool,
) -> Seq<int> {
    Seq::new(lines.len(), |i: int| i).filter(
        |i: int| line_matches(lines[i], query, case_sensitive),
    )
}

/// Filtering a prefix of `s` is the same as filtering the matching index
/// positions and reading the elements off at those positions.
proof fn lemma_filter_take_via_indices<A>(
    s: Seq<A>,
    pred: spec_fn(A) -> bool,
    ipred: spec_fn(int) -> bool,
    j: int,
)
    requires
        0 <= j <= s.len(),
        forall|i: int| 0 <= i < s.len() ==> #[trigger] ipred(i) == pred(s[i]),
    ensures
        s.take(j).filter(pred) == Seq::new(j as nat, |i: int| i).filter(ipred).map_values(
            |i: int| s[i],
        ),
    decreases j,
{
    reveal(Seq::filter);
    let idx = Seq::new(j as nat, |i: int| i);
    if j == 0 {
        assert(s.take(0) =~= Seq::<A>::empty());
        assert(idx =~= Seq::<int>::empty());
        assert(idx.filter(ipred).map_values(|i: int| s[i]) =~= Seq::<A>::empty());
    } else {
        lemma_filter_take_via_indices(s, pred, ipred, j - 1);
        let idx0 = Seq::new((j - 1) as nat, |i: int| i);
        assert(s.take(j).drop_last() =~= s.take(j - 1));
        assert(s.take(j).last() == s[j - 1]);
        assert(idx.drop_last() =~= idx0);
        assert(idx.last() == j - 1);
        if ipred(j - 1) {
            assert(idx.filter(ipred) == idx0.filter(ipred).push(j - 1));
            assert(idx0.filter(ipred).push(j - 1).map_values(|i: int| s[i]) =~= idx0.filter(
                ipred,
            ).map_values(|i: int| s[i]).push(s[j - 1]));
            assert(s.take(j).filter(pred) == s.take(j - 1).filter(pred).push(s[j - 1]));
        } else {
            assert(idx.filter(ipred) == idx0.filter(ipred));
            assert(s.take(j).filter(pred) == s.take(j - 1).filter(pred));
        }
    }
}

/// The surviving positions of an index filter lie in range and increase
/// strictly from one to the next.
proof fn lemma_index_filter_increasing(n: int, ipred: spec_fn(int) -> bool)
    requires
        0 <= n,
    ensures
        ({
            let ks = Seq::new(n as nat, |i: int| i).filter(ipred);
            &&& forall|k: int| 0 <= k < ks.len() ==> 0 <= #[trigger] ks[k] < n
            &&& forall|k1: int, k2: int| 0 <= k1 < k2 < ks.len() ==> ks[k1] < ks[k2]
        }),
    decreases n,
{
    reveal(Seq::filter);
    let idx = Seq::new(n as nat, |i: int| i);
    let ks = idx.filter(ipred);
    if n == 0 {
        assert(idx =~= Seq::<int>::empty());
    } else {
        lemma_index_filter_increasing(n - 1, ipred);
        let idx0 = Seq::new((n - 1) as nat, |i: int| i);
        let ks0 = idx0.filter(ipred);
        assert(idx.drop_last() =~= idx0);
        assert(idx.last() == n - 1);
        if ipred(n - 1) {
            assert(ks == ks0.push(n - 1));
            assert(forall|k: int| 0 <= k < ks0.len() ==> ks[k] == ks0[k]);
        } else {
            assert(ks == ks0);
        }
    }
}

/// A filter that keeps every element returns the sequence unchanged.
proof fn lemma_filter_all<A>(s: Seq<A>, pred: spec_fn(A) -> bool)
    requires
        forall|i: int| 0 <= i < s.len() ==> pred(#[trigger] s[i]),
    ensures
        s.filter(pred) == s,
    decreases s.len(),
{
    reveal(Seq::filter);
    if s.len() > 0 {
        assert forall|i: int| 0 <= i < s.drop_last().len() implies pred(
            #[trigger] s.drop_last()[i],
        ) by {
            assert(s.drop_last()[i] == s[i]);
        }
        lemma_filter_all(s.drop_last(), pred);
        assert(s.drop_last().filter(pred).push(s.last()) =~= s);
    }
}

/// Law: the search result is exactly the matching lines read off in corpus
/// order. The matching positions increase strictly, each points at a line
/// that matches, every matching line's position is among them, and the
/// result is those lines unchanged.
pub proof fn lemma_search_ordered(corpus: Seq<char>, query: Seq<char>, case_sensitive: bool)
    ensures
        ({
            let lines = lines_of(corpus);
            let ks = matching_indices(lines, query, case_sensitive);
            &&& search_spec(corpus, query, case_sensitive) == ks.map_values(|i: int| lines[i])
            &&& forall|k: int|
                0 <= k < ks.len() ==> 0 <= #[trigger] ks[k] < lines.len() && line_matches(
                    lines[ks[k]],
                    query,
                    case_sensitive,
                )
            &&& forall|k1: int, k2: int| 0 <= k1 < k2 < ks.len() ==> ks[k1] < ks[k2]
            &&& forall|i: int|
                0 <= i < lines.len() && line_matches(#[trigger] lines[i], query, case_sensitive)
                    ==> ks.contains(i)
        }),
{
    let lines = lines_of(corpus);
    let pred = |l: Seq<char>| line_matches(l, query, case_sensitive);
    let ipred = |i: int| line_matches(lines[i], query, case_sensitive);
    let ks = matching_indices(lines, query, case_sensitive);
    lemma_filter_take_via_indices(lines, pred, ipred, lines.len() as int);
    assert(lines.take(lines.len() as int) =~= lines);
    lemma_index_filter_increasing(lines.len() as int, ipred);
    assert forall|k: int| 0 <= k < ks.len() implies 0 <= #[trigger] ks[k] < lines.len()
        && line_matches(lines[ks[k]], query, case_sensitive) by {
        Seq::lemma_filter_pred(Seq::new(lines.len(), |i: int| i), ipred, k);
    }
    assert forall|i: int|
        0 <= i < lines.len() && line_matches(#[trigger] lines[i], query, case_sensitive) implies ks
        .contains(i) by {
        let idx = Seq::new(lines.len(), |i: int| i);
        assert(idx[i] == i);
        Seq::lemma_filter_contains(idx, ipred, i);
    }
}

/// Law (case-sensitive search): every returned line contains the query
/// verbatim, and every corpus line that contains it verbatim is returned.
pub proof fn lemma_search_case_sensitive(corpus: Seq<char>, query: Seq<char>)
    ensures
        ({
            let lines = lines_of(corpus);
            let result = search_spec(corpus, query, true);
            &&& forall|k: int|
                0 <= k < result.len() ==> contains_seq(#[trigger] result[k], query)
            &&& forall|i: int|
                0 <= i < lines.len() && contains_seq(#[trigger] lines[i], query)
                    ==> result.contains(lines[i])
        }),
{
    let lines = lines_of(corpus);
    let pred = |l: Seq<char>| line_matches(l, query, true);
    let result = search_spec(corpus, query, true);
    assert forall|k: int| 0 <= k < result.len() implies contains_seq(
        #[trigger] result[k],
        query,
    ) by {
        Seq::lemma_filter_pred(lines, pred, k);
    }
    assert forall|i: int|
        0 <= i < lines.len() && contains_seq(#[trigger] lines[i], query) implies result.contains(
        lines[i],
    ) by {
        Seq::lemma_filter_contains(lines, pred, i);
    }
}

/// Law (case-insensitive search): every returned line contains the query
/// up to lower-case folding, every corpus line that does is returned, and
/// the line text itself is returned with its casing untouched.
pub proof fn lemma_search_case_insensitive(corpus: Seq<char>, query: Seq<char>)
    ensures
        ({
            let lines = lines_of(corpus);
            let result = search_spec(corpus, query, false);
            &&& forall|k: int|
                0 <= k < result.len() ==> contains_seq(
                    lower_seq(#[trigger] result[k]),
                    lower_seq(query),
                )
            &&& forall|i: int|
                0 <= i < lines.len() && contains_seq(lower_seq(#[trigger] lines[i]), lower_seq(query))
                    ==> result.contains(lines[i])
        }),
{
    let lines = lines_of(corpus);
    let pred = |l: Seq<char>| line_matches(l, query, false);
    let result = search_spec(corpus, query, false);
    assert forall|k: int| 0 <= k < result.len() implies contains_seq(
        lower_seq(#[trigger] result[k]),
        lower_seq(query),
    ) by {
        Seq::lemma_filter_pred(lines, pred, k);
    }
    assert forall|i: int|
        0 <= i < lines.len() && contains_seq(lower_seq(#[trigger] lines[i]), lower_seq(query))
        implies result.contains(lines[i]) by {
        Seq::lemma_filter_contains(lines, pred, i);
    }
}

/// Law: the search is a function of the corpus and the configuration
/// alone, so two runs on the same inputs return identical results.
pub proof fn lemma_search_idempotent(
    first: Seq<Seq<char>>,
    second: Seq<Seq<char>>,
    corpus: Seq<char>,
    query: Seq<char>,
    case_sensitive: bool,
)
    requires
        first == search_spec(corpus, query, case_sensitive),
        second == search_spec(corpus, query, case_sensitive),
    ensures
        first == second,
{
}

/// Law: the empty query is contained in every line, so searching for it
/// returns every line of the corpus, in order.
pub proof fn lemma_search_empty_query(corpus: Seq<char>, case_sensitive: bool)
    ensures
        search_spec(corpus, Seq::<char>::empty(), case_sensitive) == lines_of(corpus),
{
    let lines = lines_of(corpus);
    let pred = |l: Seq<char>| line_matches(l, Seq::<char>::empty(), case_sensitive);
    assert forall|i: int| 0 <= i < lines.len() implies pred(#[trigger] lines[i]) by {
        let hay = fold_case(lines[i], case_sensitive);
        let needle = fold_case(Seq::<char>::empty(), case_sensitive);
        assert(needle =~= Seq::<char>::empty());
        assert(hay.subrange(0, 0) =~= needle);
        assert(crate::search::contains_at(hay, needle, 0));
    }
    lemma_filter_all(lines, pred);
}

/// Law: the empty corpus has no lines, so every search over it returns
/// the empty sequence.
pub proof fn lemma_search_empty_corpus(query: Seq<char>, case_sensitive: bool)
    ensures
        search_spec(Seq::<char>::empty(), query, case_sensitive) == Seq::<Seq<char>>::empty(),
{
    reveal(Seq::filter);
    assert(lines_of(Seq::<char>::empty()) =~= Seq::<Seq<char>>::empty());
}

} // verus!
