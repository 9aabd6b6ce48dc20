//! Ranked search: how well a description answers a query, and the order in
//! which the matching foods are returned.

use crate::food::{views, Food, FoodView};
use crate::text::{lowercase, lowercase_of};
use vstd::prelude::*;
use vstd::string::*;
use vstd::utf8::encode_utf8;

verus! {

/// The score of a description that starts with the query.
pub const PREFIX_SCORE: u64 = 20;

/// `needle` stands in `hay` at offset `at`.
pub open spec fn found_at(hay: Seq<u8>, needle: Seq<u8>, at: int) -> bool {
    &&& 0 <= at
    &&& at + needle.len() <= hay.len()
    &&& forall|k: int| 0 <= k < needle.len() ==> #[trigger] hay[at + k] == needle[k]
}

/// `at` is the offset of the first occurrence of `needle` in `hay`.
pub open spec fn first_found_at(hay: Seq<u8>, needle: Seq<u8>, at: int) -> bool {
    &&& found_at(hay, needle, at)
    &&& forall|q: int| 0 <= q < at ==> !found_at(hay, needle, q)
}

/// The offset of the first occurrence of `needle` in `hay`, if it occurs.
pub open spec fn first_occurrence(hay: Seq<u8>, needle: Seq<u8>) -> Option<int> {
    if exists|at: int| first_found_at(hay, needle, at) {
        Some(choose|at: int| first_found_at(hay, needle, at))
    } else {
        None
    }
}

/// The score of an occurrence at offset `at` in a description of `len`
/// bytes: ten times the share of the description that starts at the
/// occurrence, rounded down.
pub open spec fn position_score(len: int, at: int) -> int {
    (10 * (len - at)) / (if len > 1 {
        len
    } else {
        1
    })
}

/// How well a description answers a query, both in lowercase and as
/// UTF-8 bytes: 20 if the description starts with the query; the position
/// score of the first occurrence if the query occurs later; nothing if it
/// does not occur.
pub open spec fn score_of(description: Seq<u8>, query: Seq<u8>) -> Option<int> {
    if found_at(description, query, 0) {
        Some(PREFIX_SCORE as int)
    } else {
        match first_occurrence(description, query) {
            Some(at) => Some(position_score(description.len() as int, at)),
            None => None,
        }
    }
}

/// The first occurrence is unique, and it is what `first_occurrence`
/// names.
pub proof fn lemma_first_occurrence(hay: Seq<u8>, needle: Seq<u8>, at: int)
    requires
        first_found_at(hay, needle, at),
    ensures
        first_occurrence(hay, needle) == Some(at),
{
    let c = choose|c: int| first_found_at(hay, needle, c);
    if c < at {
        assert(!found_at(hay, needle, c));
    } else if at < c {
        assert(!found_at(hay, needle, at));
    }
}

/// Without an occurrence there is no first occurrence.
pub proof fn lemma_no_occurrence(hay: Seq<u8>, needle: Seq<u8>)
    requires
        forall|q: int| 0 <= q <= hay.len() ==> !found_at(hay, needle, q),
    ensures
        first_occurrence(hay, needle) is None,
{
    if exists|at: int| first_found_at(hay, needle, at) {
        let c = choose|c: int| first_found_at(hay, needle, c);
        assert(found_at(hay, needle, c));
        assert(0 <= c <= hay.len());
    }
}

/// Tells whether `needle` stands in `hay` at offset `at`.
pub fn stands_at(hay: &[u8], needle: &[u8], at: usize) -> (b: bool)
    ensures
        b == found_at(hay@, needle@, at as int),
{
    if needle.len() > hay.len() || at > hay.len() - needle.len() {
        return false;
    }
    let mut k: usize = 0;
    while k < needle.len()
        invariant
            k <= needle.len(),
            at + needle.len() <= hay.len(),
            forall|m: int| 0 <= m < k ==> #[trigger] hay[at + m] == needle[m],
        decreases needle.len() - k,
    {
        if hay[at + k] != needle[k] {
            return false;
        }
        k += 1;
    }
    true
}

/// The offset of the first occurrence of `needle` in `hay`.
pub fn find_first(hay: &[u8], needle: &[u8]) -> (r: Option<usize>)
    ensures
        match r {
            Some(at) => first_occurrence(hay@, needle@) == Some(at as int),
            None => first_occurrence(hay@, needle@) is None,
        },
{
    let mut at: usize = 0;
    while at < hay.len()
        invariant
            at <= hay.len(),
            forall|q: int| 0 <= q < at ==> !found_at(hay@, needle@, q),
        decreases hay.len() - at,
    {
        if stands_at(hay, needle, at) {
            proof {
                lemma_first_occurrence(hay@, needle@, at as int);
            }
            return Some(at);
        }
        at += 1;
    }
    if stands_at(hay, needle, at) {
        proof {
            lemma_first_occurrence(hay@, needle@, at as int);
        }
        Some(at)
    } else {
        proof {
            lemma_no_occurrence(hay@, needle@);
        }
        None
    }
}

/// Scores a description against a query; both are expected in lowercase.
pub fn relevance_score(description: &str, query: &str) -> (r: Option<u64>)
    ensures
        match r {
            Some(s) => score_of(description.spec_bytes(), query.spec_bytes()) == Some(s as int),
            None => score_of(description.spec_bytes(), query.spec_bytes()) is None,
        },
        r matches Some(s) ==> s <= PREFIX_SCORE,
{
    let hay = description.as_bytes();
    let needle = query.as_bytes();
    if stands_at(hay, needle, 0) {
        return Some(PREFIX_SCORE);
    }
    match find_first(hay, needle) {
        Some(at) => {
            let len = hay.len();
            assert(found_at(hay@, needle@, at as int));
            assert(1 <= at <= len);
            let part: u128 = 10 * ((len - at) as u128);
            let score = part / (len as u128);
            assert(score == position_score(len as int, at as int));
            assert(score < 10) by (nonlinear_arith)
                requires
                    score == (10 * (len - at)) / (len as int),
                    1 <= at <= len,
            ;
            Some(score as u64)
        },
        None => None,
    }
}

/// The positions that hold the score `level`, ascending.
pub open spec fn at_level(scores: Seq<Option<int>>, level: int) -> Seq<int>
    decreases scores.len(),
{
    if scores.len() == 0 {
        Seq::empty()
    } else if scores.last() == Some(level) {
        at_level(scores.drop_last(), level).push(scores.len() - 1)
    } else {
        at_level(scores.drop_last(), level)
    }
}

/// The positions that hold a score from `level` to the prefix score: those
/// with the higher score first, those with the same score in their
/// given order.
pub open spec fn ranking_from(scores: Seq<Option<int>>, level: int) -> Seq<int>
    decreases PREFIX_SCORE + 1 - level,
{
    if level > PREFIX_SCORE {
        Seq::empty()
    } else {
        ranking_from(scores, level + 1) + at_level(scores, level)
    }
}

/// The order in which scored candidates are returned: by score, highest
/// first; candidates with the same score keep the order they came in;
/// candidates without a score are left out.
pub open spec fn ranking(scores: Seq<Option<int>>) -> Seq<int> {
    ranking_from(scores, 0)
}

/// The members of `items` at the positions `order`, in that order.
pub open spec fn arranged(items: Seq<FoodView>, order: Seq<int>) -> Seq<FoodView> {
    Seq::new(order.len(), |k: int| items[order[k]])
}

/// The score of each food for a query, taken on the lowercase forms of
/// description and query as UTF-8 bytes.
pub open spec fn scores_of(foods: Seq<FoodView>, query: Seq<char>) -> Seq<Option<int>> {
    Seq::new(
        foods.len(),
        |i: int|
            score_of(
                encode_utf8(lowercase_of(foods[i].description)),
                encode_utf8(lowercase_of(query)),
            ),
    )
}

/// The foods that answer a query, ranked.
pub open spec fn ranked(foods: Seq<FoodView>, query: Seq<char>) -> Seq<FoodView> {
    arranged(foods, ranking(scores_of(foods, query)))
}

/// Scores as mathematical integers.
pub open spec fn score_values(scores: Seq<Option<u64>>) -> Seq<Option<int>> {
    Seq::new(
        scores.len(),
        |i: int|
            match scores[i] {
                Some(s) => Some(s as int),
                None => None,
            },
    )
}

/// Position `i` is returned before position `j`: it has the higher score,
/// or the same score and stood first.
pub open spec fn comes_before(scores: Seq<Option<int>>, i: int, j: int) -> bool {
    scores[i]->0 > scores[j]->0 || (scores[i]->0 == scores[j]->0 && i < j)
}

/// The positions at one level are exactly those that hold its score, in
/// ascending order.
pub proof fn lemma_at_level(scores: Seq<Option<int>>, level: int)
    ensures
        forall|k: int|
            0 <= k < at_level(scores, level).len() ==> {
                let i = #[trigger] at_level(scores, level)[k];
                0 <= i < scores.len() && scores[i] == Some(level)
            },
        forall|k: int, l: int|
            0 <= k < l < at_level(scores, level).len() ==> at_level(scores, level)[k] < at_level(
                scores,
                level,
            )[l],
        forall|i: int|
            0 <= i < scores.len() && #[trigger] scores[i] == Some(level) ==> at_level(
                scores,
                level,
            ).contains(i),
    decreases scores.len(),
{
    if scores.len() > 0 {
        let init = scores.drop_last();
        lemma_at_level(init, level);
        let a = at_level(scores, level);
        let b = at_level(init, level);
        assert forall|k: int| 0 <= k < a.len() implies {
            let i = #[trigger] a[k];
            0 <= i < scores.len() && scores[i] == Some(level)
        } by {
            if k < b.len() {
                assert(a[k] == b[k]);
                assert(init[b[k]] == scores[b[k]]);
            }
        }
        assert forall|k: int, l: int| 0 <= k < l < a.len() implies a[k] < a[l] by {
            assert(a[k] == b[k]);
            if l < b.len() {
                assert(a[l] == b[l]);
            }
        }
        assert forall|i: int| 0 <= i < scores.len() && #[trigger] scores[i] == Some(
            level,
        ) implies a.contains(i) by {
            if i < init.len() {
                assert(init[i] == scores[i]);
                assert(b.contains(i));
                let k = choose|k: int| 0 <= k < b.len() && b[k] == i;
                assert(a[k] == i);
            } else {
                assert(a[a.len() - 1] == i);
            }
        }
    }
}

/// What the ranking holds and how it is ordered, from `level` upwards:
/// exactly the positions whose score lies between `level` and the prefix
/// score; a higher score comes first, and of two equal scores the earlier
/// position.
pub proof fn lemma_ranking_from(scores: Seq<Option<int>>, level: int)
    requires
        0 <= level,
    ensures
        forall|k: int|
            0 <= k < ranking_from(scores, level).len() ==> {
                let i = #[trigger] ranking_from(scores, level)[k];
                &&& 0 <= i < scores.len()
                &&& scores[i] matches Some(s)
                &&& level <= s <= PREFIX_SCORE
            },
        forall|i: int|
            0 <= i < scores.len() && (#[trigger] scores[i] matches Some(s) && level <= s
                <= PREFIX_SCORE) ==> ranking_from(scores, level).contains(i),
        forall|k: int, l: int|
            0 <= k < l < ranking_from(scores, level).len() ==> comes_before(
                scores,
                #[trigger] ranking_from(scores, level)[k],
                #[trigger] ranking_from(scores, level)[l],
            ),
    decreases PREFIX_SCORE + 1 - level,
{
    if level <= PREFIX_SCORE {
        lemma_ranking_from(scores, level + 1);
        lemma_at_level(scores, level);
        let hi = ranking_from(scores, level + 1);
        let here = at_level(scores, level);
        let r = ranking_from(scores, level);
        assert(r == hi + here);
        assert forall|k: int| 0 <= k < r.len() implies {
            let i = #[trigger] r[k];
            &&& 0 <= i < scores.len()
            &&& scores[i] matches Some(s)
            &&& level <= s <= PREFIX_SCORE
        } by {
            if k < hi.len() {
                assert(r[k] == hi[k]);
            } else {
                assert(r[k] == here[k - hi.len()]);
            }
        }
        assert forall|i: int|
            0 <= i < scores.len() && (#[trigger] scores[i] matches Some(s) && level <= s
                <= PREFIX_SCORE) implies r.contains(i) by {
            if scores[i] == Some(level) {
                assert(here.contains(i));
                let k = choose|k: int| 0 <= k < here.len() && here[k] == i;
                assert(r[hi.len() + k] == i);
            } else {
                assert(hi.contains(i));
                let k = choose|k: int| 0 <= k < hi.len() && hi[k] == i;
                assert(r[k] == i);
            }
        }
        assert forall|k: int, l: int| 0 <= k < l < r.len() implies comes_before(
            scores,
            #[trigger] r[k],
            #[trigger] r[l],
        ) by {
            if l < hi.len() {
                assert(r[k] == hi[k] && r[l] == hi[l]);
            } else if k < hi.len() {
                assert(r[k] == hi[k]);
                assert(r[l] == here[l - hi.len()]);
            } else {
                assert(r[k] == here[k - hi.len()]);
                assert(r[l] == here[l - hi.len()]);
            }
        }
    }
}

/// The ranking is a stable sort by score, highest first: it holds each
/// position with a score from 0 to the prefix score once, and no position
/// without a score; of two positions the one with the higher score comes
/// first, and with equal scores the one that came first among the
/// candidates.
pub proof fn lemma_ranking(scores: Seq<Option<int>>)
    ensures
        forall|k: int|
            0 <= k < ranking(scores).len() ==> {
                let i = #[trigger] ranking(scores)[k];
                0 <= i < scores.len() && scores[i] is Some
            },
        forall|i: int|
            0 <= i < scores.len() && (#[trigger] scores[i] matches Some(s) && 0 <= s
                <= PREFIX_SCORE) ==> ranking(scores).contains(i),
        forall|k: int, l: int|
            0 <= k < l < ranking(scores).len() ==> comes_before(
                scores,
                #[trigger] ranking(scores)[k],
                #[trigger] ranking(scores)[l],
            ),
        forall|k: int, l: int|
            0 <= k < l < ranking(scores).len() ==> #[trigger] ranking(scores)[k]
                != #[trigger] ranking(scores)[l],
{
    lemma_ranking_from(scores, 0);
    assert forall|k: int, l: int| 0 <= k < l < ranking(scores).len() implies #[trigger] ranking(
        scores,
    )[k] != #[trigger] ranking(scores)[l] by {
        assert(comes_before(scores, ranking(scores)[k], ranking(scores)[l]));
    }
}

/// A score lies between 0 and the prefix score, and only a description
/// that starts with the query reaches the prefix score.
pub proof fn lemma_score_range(description: Seq<u8>, query: Seq<u8>)
    ensures
        score_of(description, query) matches Some(s) ==> 0 <= s <= PREFIX_SCORE,
        score_of(description, query) == Some(PREFIX_SCORE as int) <==> found_at(
            description,
            query,
            0,
        ),
        score_of(description, query) is Some <==> exists|at: int| found_at(description, query, at),
{
    let len = description.len() as int;
    if !found_at(description, query, 0) {
        if exists|at: int| first_found_at(description, query, at) {
            let at = choose|at: int| first_found_at(description, query, at);
            assert(found_at(description, query, at));
            assert(1 <= at <= len);
            lemma_score_order(len, at, at);
        }
    }
    if exists|at: int| found_at(description, query, at) {
        let at = choose|at: int| found_at(description, query, at);
        lemma_least_occurrence(description, query, at);
    }
    if score_of(description, query) is Some && !found_at(description, query, 0) {
        let at = choose|at: int| first_found_at(description, query, at);
        assert(found_at(description, query, at));
    }
}

/// Where the query occurs at all, it occurs for a first time.
pub proof fn lemma_least_occurrence(hay: Seq<u8>, needle: Seq<u8>, at: int)
    requires
        found_at(hay, needle, at),
    ensures
        exists|first: int| first_found_at(hay, needle, first),
    decreases at,
{
    if exists|q: int| 0 <= q < at && found_at(hay, needle, q) {
        let q = choose|q: int| 0 <= q < at && found_at(hay, needle, q);
        lemma_least_occurrence(hay, needle, q);
    } else {
        assert(first_found_at(hay, needle, at));
    }
}

/// The ranked foods are exactly the foods whose description holds the
/// query, each once; a food with a higher score comes first, and foods with
/// the same score stay in the given order.
pub proof fn lemma_ranked(foods: Seq<FoodView>, query: Seq<char>)
    ensures
        ranked(foods, query).len() == ranking(scores_of(foods, query)).len(),
        forall|k: int|
            0 <= k < ranked(foods, query).len() ==> {
                let i = #[trigger] ranking(scores_of(foods, query))[k];
                &&& 0 <= i < foods.len()
                &&& ranked(foods, query)[k] == foods[i]
                &&& scores_of(foods, query)[i] is Some
            },
        forall|i: int|
            0 <= i < foods.len() && (#[trigger] scores_of(foods, query)[i]) is Some ==> ranking(
                scores_of(foods, query),
            ).contains(i),
        forall|k: int, l: int|
            0 <= k < l < ranked(foods, query).len() ==> comes_before(
                scores_of(foods, query),
                #[trigger] ranking(scores_of(foods, query))[k],
                #[trigger] ranking(scores_of(foods, query))[l],
            ),
{
    let scores = scores_of(foods, query);
    lemma_ranking(scores);
    assert forall|i: int| 0 <= i < foods.len() && (#[trigger] scores[i]) is Some implies ranking(
        scores,
    ).contains(i) by {
        lemma_score_range(
            encode_utf8(lowercase_of(foods[i].description)),
            encode_utf8(lowercase_of(query)),
        );
    }
}

/// A description that starts with the query outranks every description
/// that only holds it further on, and of two occurrences in descriptions
/// of one length the one nearer to the start scores at least as high.
pub proof fn lemma_score_order(len: int, at: int, later: int)
    requires
        1 <= at <= later <= len,
    ensures
        0 <= position_score(len, later) <= position_score(len, at) < 10,
        position_score(len, at) < PREFIX_SCORE,
{
    assert(0 <= (10 * (len - later)) / len <= (10 * (len - at)) / len < 10) by (nonlinear_arith)
        requires
            1 <= at <= later <= len,
    ;
}

/// The foods in the order of their scores: highest score first, equal
/// scores in the given order, foods without a score left out.
pub fn rank_by_scores(foods: &Vec<Food>, scores: &Vec<Option<u64>>) -> (r: Vec<Food>)
    requires
        scores.len() == foods.len(),
    ensures
        views(r@) == arranged(views(foods@), ranking(score_values(scores@))),
{
    let ghost fv = views(foods@);
    let ghost sc = score_values(scores@);
    let mut out: Vec<Food> = Vec::new();
    let mut level: u64 = PREFIX_SCORE + 1;
    assert(views(out@) =~= arranged(fv, ranking_from(sc, level as int)));
    while level > 0
        invariant
            level <= PREFIX_SCORE + 1,
            scores.len() == foods.len(),
            fv == views(foods@),
            sc == score_values(scores@),
            views(out@) == arranged(fv, ranking_from(sc, level as int)),
        decreases level,
    {
        level -= 1;
        let ghost above = ranking_from(sc, level + 1);
        let mut i: usize = 0;
        assert(sc.take(0) =~= Seq::<Option<int>>::empty());
        assert(above + at_level(sc.take(0), level as int) =~= above);
        while i < foods.len()
            invariant
                i <= foods.len(),
                level <= PREFIX_SCORE,
                scores.len() == foods.len(),
                fv == views(foods@),
                sc == score_values(scores@),
                above == ranking_from(sc, level + 1),
                views(out@) == arranged(fv, above + at_level(sc.take(i as int), level as int)),
            decreases foods.len() - i,
        {
            proof {
                assert(sc.take(i + 1).drop_last() =~= sc.take(i as int));
                assert(sc.take(i + 1).last() == sc[i as int]);
            }
            let hit = match scores[i] {
                Some(s) => s == level,
                None => false,
            };
            if hit {
                let ghost before = out@;
                let ghost order = above + at_level(sc.take(i as int), level as int);
                out.push(foods[i].duplicate());
                assert(above + at_level(sc.take(i + 1), level as int) =~= order.push(i as int));
                assert(views(out@) =~= views(before).push(fv[i as int]));
                assert(arranged(fv, order.push(i as int)) =~= arranged(fv, order).push(
                    fv[i as int],
                ));
            }
            i += 1;
        }
        assert(sc.take(foods.len() as int) =~= sc);
    }
    out
}

/// The foods that answer `query`, ranked: a food whose description starts
/// with the query, case aside, comes before one that holds the query
/// further on; the nearer to the start the query occurs, the higher the
/// food ranks; foods that rank the same stay in the given order; a food
/// that does not hold the query is left out.
pub fn sort_foods_by_relevance(foods: &Vec<Food>, query: &str) -> (r: Vec<Food>)
    ensures
        views(r@) == ranked(views(foods@), query@),
{
    let lowered_query = lowercase(query);
    let mut scores: Vec<Option<u64>> = Vec::new();
    let mut i: usize = 0;
    while i < foods.len()
        invariant
            i <= foods.len(),
            scores.len() == i,
            lowered_query@ == lowercase_of(query@),
            forall|k: int|
                0 <= k < i ==> #[trigger] score_values(scores@)[k] == scores_of(
                    views(foods@),
                    query@,
                )[k],
        decreases foods.len() - i,
    {
        let lowered = lowercase(foods[i].description.as_str());
        let score = relevance_score(lowered.as_str(), lowered_query.as_str());
        let ghost before = scores@;
        scores.push(score);
        proof {
            assert forall|k: int| 0 <= k < i + 1 implies #[trigger] score_values(scores@)[k]
                == scores_of(views(foods@), query@)[k] by {
                if k < i {
                    assert(score_values(before)[k] == scores_of(views(foods@), query@)[k]);
                    assert(scores@[k] == before[k]);
                }
            }
        }
        i += 1;
    }
    assert(score_values(scores@) =~= scores_of(views(foods@), query@));
    rank_by_scores(foods, &scores)
}

} // verus!
