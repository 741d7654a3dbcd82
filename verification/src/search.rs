//! Search over a list of identifiers: without a query the list as it is,
//! with one the fuzzy matches, best first.

use fuzzy_matcher::skim::SkimMatcherV2;
use fuzzy_matcher::FuzzyMatcher;
use vstd::prelude::*;
use vstd::seq_lib::{to_multiset_build, to_multiset_insert};
use vstd::string::*;

use crate::utils::texts;

verus! {

/// The longest identifier and the longest query that are handed to the
/// matcher. The matcher keeps its scores in 32 bits; it adds at most 32 for
/// a character of the query and takes off at most 4 for a character of the
/// identifier, so within this length a score stays far inside 32 bits.
pub const MAX_SCORED_LEN: usize = 1_048_576;

/// The score that the skim matcher, as it is configured by default, gives to
/// `choice` for `pattern`; `None` where the matcher finds no match.
pub uninterp spec fn skim_score(choice: Seq<char>, pattern: Seq<char>) -> Option<i64>;

/// Calls `SkimMatcherV2::default().fuzzy_match(choice, pattern)` of the crate
/// `fuzzy-matcher`. The result depends on the two strings alone; the contract
/// gives it its name and says no more of it.
#[verifier::external_body]
fn skim_match(choice: &str, pattern: &str) -> (score: Option<i64>)
    requires
        choice@.len() <= MAX_SCORED_LEN,
        pattern@.len() <= MAX_SCORED_LEN,
    ensures
        score == skim_score(choice@, pattern@),
{
    SkimMatcherV2::default().fuzzy_match(choice, pattern)
}

/// The score of an identifier for a query: that of the matcher, and no match
/// where one of the two is longer than [`MAX_SCORED_LEN`].
pub open spec fn match_score(id: Seq<char>, query: Seq<char>) -> Option<i64> {
    if id.len() <= MAX_SCORED_LEN && query.len() <= MAX_SCORED_LEN {
        skim_score(id, query)
    } else {
        None
    }
}

/// Scores an identifier for a query.
pub fn score(id: &str, query: &str) -> (score: Option<i64>)
    ensures
        score == match_score(id@, query@),
{
    if id.unicode_len() <= MAX_SCORED_LEN && query.unicode_len() <= MAX_SCORED_LEN {
        skim_match(id, query)
    } else {
        None
    }
}

/// An identifier with its score; `None` where it does not match.
#[derive(Debug, Clone)]
pub struct Scored {
    pub id: String,
    pub score: Option<i64>,
}

impl View for Scored {
    type V = (Seq<char>, Option<i64>);

    open spec fn view(&self) -> (Seq<char>, Option<i64>) {
        (self.id@, self.score)
    }
}

/// The candidates of a list, each by its view.
pub open spec fn candidates(list: Seq<Scored>) -> Seq<(Seq<char>, Option<i64>)> {
    list.map_values(|c: Scored| c@)
}

/// Where a hit with `score` goes in a ranking: behind the leading hits whose
/// score is at least as high.
pub open spec fn place(ranking: Seq<(Seq<char>, i64)>, score: i64) -> int
    decreases ranking.len(),
{
    if ranking.len() == 0 || ranking[0].1 < score {
        0
    } else {
        1 + place(ranking.drop_first(), score)
    }
}

/// The matching candidates by descending score. Of two with the same score
/// the one that came first in the list stays first.
pub open spec fn ranked(list: Seq<(Seq<char>, Option<i64>)>) -> Seq<(Seq<char>, i64)>
    decreases list.len(),
{
    if list.len() == 0 {
        Seq::empty()
    } else {
        let rest = ranked(list.drop_last());
        match list.last().1 {
            None => rest,
            Some(score) => rest.insert(place(rest, score), (list.last().0, score)),
        }
    }
}

/// The identifiers of a ranking.
pub open spec fn hit_ids(ranking: Seq<(Seq<char>, i64)>) -> Seq<Seq<char>> {
    ranking.map_values(|hit: (Seq<char>, i64)| hit.0)
}

/// The place of a hit lies within the ranking. Every hit before it scores at
/// least as high, and the hit at it, if there is one, scores lower.
pub proof fn lemma_place(ranking: Seq<(Seq<char>, i64)>, score: i64)
    ensures
        0 <= place(ranking, score) <= ranking.len(),
        forall|i: int| 0 <= i < place(ranking, score) ==> (#[trigger] ranking[i]).1 >= score,
        place(ranking, score) < ranking.len() ==> ranking[place(ranking, score)].1 < score,
    decreases ranking.len(),
{
    if ranking.len() > 0 && ranking[0].1 >= score {
        let tail = ranking.drop_first();
        lemma_place(tail, score);
        assert forall|i: int| 0 <= i < place(ranking, score) implies (#[trigger] ranking[i]).1
            >= score by {
            if i > 0 {
                assert(ranking[i] == tail[i - 1]);
            }
        }
        if place(ranking, score) < ranking.len() {
            assert(ranking[place(ranking, score)] == tail[place(tail, score)]);
        }
    }
}

/// Whether the scores of a ranking never rise.
pub open spec fn descending(ranking: Seq<(Seq<char>, i64)>) -> bool {
    forall|i: int, j: int|
        #![trigger ranking[i], ranking[j]]
        0 <= i < j < ranking.len() ==> ranking[i].1 >= ranking[j].1
}

/// A ranking lists its hits by descending score.
pub proof fn lemma_ranked_descending(list: Seq<(Seq<char>, Option<i64>)>)
    ensures
        descending(ranked(list)),
    decreases list.len(),
{
    if list.len() > 0 {
        let rest = ranked(list.drop_last());
        lemma_ranked_descending(list.drop_last());
        match list.last().1 {
            None => {},
            Some(score) => {
                lemma_place(rest, score);
                let p = place(rest, score);
                let r = ranked(list);
                assert forall|i: int, j: int| 0 <= i < j < r.len() implies r[i].1 >= r[j].1 by {
                    if j < p {
                        assert(r[i] == rest[i] && r[j] == rest[j]);
                    } else if j == p {
                        assert(r[i] == rest[i]);
                    } else if i < p {
                        assert(r[i] == rest[i] && r[j] == rest[j - 1]);
                    } else if i == p {
                        assert(r[j] == rest[j - 1]);
                        assert(rest[p].1 < score);
                        if p < j - 1 {
                            assert(rest[p].1 >= rest[j - 1].1);
                        }
                    } else {
                        assert(r[i] == rest[i - 1] && r[j] == rest[j - 1]);
                    }
                }
            },
        }
    }
}

/// The candidates that match, each with its score, in the order of the list.
pub open spec fn hits(list: Seq<(Seq<char>, Option<i64>)>) -> Seq<(Seq<char>, i64)>
    decreases list.len(),
{
    if list.len() == 0 {
        Seq::empty()
    } else {
        let rest = hits(list.drop_last());
        match list.last().1 {
            None => rest,
            Some(score) => rest.push((list.last().0, score)),
        }
    }
}

/// A ranking rearranges the candidates that match: it holds each of them as
/// often as the list does, and nothing else.
pub proof fn lemma_ranked_permutes(list: Seq<(Seq<char>, Option<i64>)>)
    ensures
        ranked(list).to_multiset() == hits(list).to_multiset(),
        ranked(list).len() == hits(list).len(),
    decreases list.len(),
{
    if list.len() > 0 {
        let rest = ranked(list.drop_last());
        lemma_ranked_permutes(list.drop_last());
        match list.last().1 {
            None => {},
            Some(score) => {
                lemma_place(rest, score);
                let hit = (list.last().0, score);
                to_multiset_insert(rest, place(rest, score), hit);
                to_multiset_build(hits(list.drop_last()), hit);
            },
        }
    }
}

/// The hits of a sequence that have the given score, in their order.
pub open spec fn with_score(ranking: Seq<(Seq<char>, i64)>, score: i64) -> Seq<(Seq<char>, i64)>
    decreases ranking.len(),
{
    if ranking.len() == 0 {
        Seq::empty()
    } else if ranking.last().1 == score {
        with_score(ranking.drop_last(), score).push(ranking.last())
    } else {
        with_score(ranking.drop_last(), score)
    }
}

/// The hits with a score in two sequences put together are those of the
/// first followed by those of the second.
proof fn lemma_with_score_joined(a: Seq<(Seq<char>, i64)>, b: Seq<(Seq<char>, i64)>, score: i64)
    ensures
        with_score(a + b, score) == with_score(a, score) + with_score(b, score),
    decreases b.len(),
{
    if b.len() == 0 {
        assert(a + b =~= a);
        assert(with_score(a, score) + with_score(b, score) =~= with_score(a, score));
    } else {
        assert((a + b).drop_last() =~= a + b.drop_last());
        assert((a + b).last() == b.last());
        lemma_with_score_joined(a, b.drop_last(), score);
        if b.last().1 == score {
            assert(with_score(a, score) + with_score(b.drop_last(), score).push(b.last())
                =~= (with_score(a, score) + with_score(b.drop_last(), score)).push(b.last()));
        }
    }
}

/// A sequence in which no hit has the score has no hits with that score.
proof fn lemma_with_score_absent(ranking: Seq<(Seq<char>, i64)>, score: i64)
    requires
        forall|i: int| 0 <= i < ranking.len() ==> (#[trigger] ranking[i]).1 != score,
    ensures
        with_score(ranking, score) == Seq::<(Seq<char>, i64)>::empty(),
    decreases ranking.len(),
{
    if ranking.len() > 0 {
        assert forall|i: int| 0 <= i < ranking.drop_last().len() implies (
        #[trigger] ranking.drop_last()[i]).1 != score by {
            assert(ranking.drop_last()[i] == ranking[i]);
        }
        lemma_with_score_absent(ranking.drop_last(), score);
        assert(ranking.last() == ranking[ranking.len() - 1]);
    }
}

/// A ranking keeps candidates with the same score in the order of the list.
pub proof fn lemma_ranked_stable(list: Seq<(Seq<char>, Option<i64>)>, score: i64)
    ensures
        with_score(ranked(list), score) == with_score(hits(list), score),
    decreases list.len(),
{
    if list.len() > 0 {
        let front = list.drop_last();
        let rest = ranked(front);
        lemma_ranked_stable(front, score);
        match list.last().1 {
            None => {},
            Some(s) => {
                let hit = (list.last().0, s);
                let p = place(rest, s);
                lemma_place(rest, s);
                lemma_ranked_descending(front);
                let before = rest.take(p);
                let behind = rest.skip(p);
                assert(rest =~= before + behind);
                assert(ranked(list) =~= (before + seq![hit]) + behind);
                lemma_with_score_joined(before, behind, score);
                lemma_with_score_joined(before + seq![hit], behind, score);
                lemma_with_score_joined(before, seq![hit], score);
                assert(seq![hit].drop_last() =~= Seq::<(Seq<char>, i64)>::empty());
                assert(seq![hit].last() == hit);
                assert(with_score(Seq::<(Seq<char>, i64)>::empty(), score).len() == 0);
                assert(hits(list) == hits(front).push(hit));
                assert(hits(list).drop_last() =~= hits(front));
                if s == score {
                    assert forall|i: int| 0 <= i < behind.len() implies (#[trigger] behind[i]).1
                        != score by {
                        assert(behind[i] == rest[p + i]);
                        assert(rest[p].1 < s);
                        if i > 0 {
                            assert(rest[p].1 >= rest[p + i].1);
                        }
                    }
                    lemma_with_score_absent(behind, score);
                    assert(with_score(seq![hit], score) =~= seq![hit]);
                    assert(with_score(ranked(list), score) =~= with_score(rest, score).push(hit));
                } else {
                    assert(with_score(seq![hit], score) =~= Seq::<(Seq<char>, i64)>::empty());
                    assert(with_score(ranked(list), score) =~= with_score(rest, score));
                }
            },
        }
    }
}

/// A ranking holds exactly the candidates that match, each with its score.
pub proof fn lemma_ranked_hits(list: Seq<(Seq<char>, Option<i64>)>, id: Seq<char>, score: i64)
    ensures
        ranked(list).contains((id, score)) <==> list.contains((id, Some(score))),
    decreases list.len(),
{
    if list.len() > 0 {
        let front = list.drop_last();
        let rest = ranked(front);
        let r = ranked(list);
        lemma_ranked_hits(front, id, score);
        if list.contains((id, Some(score))) {
            let k = choose|k: int| 0 <= k < list.len() && list[k] == (id, Some(score));
            if k < front.len() {
                assert(front[k] == list[k]);
                assert(rest.contains((id, score)));
            }
        }
        if front.contains((id, Some(score))) {
            let k = choose|k: int| 0 <= k < front.len() && front[k] == (id, Some(score));
            assert(list[k] == front[k]);
        }
        match list.last().1 {
            None => {},
            Some(s) => {
                lemma_place(rest, s);
                let p = place(rest, s);
                let hit = (list.last().0, s);
                assert(r == rest.insert(p, hit));
                assert(r[p] == hit);
                assert(list[list.len() - 1] == list.last());
                if rest.contains((id, score)) {
                    let i = choose|i: int| 0 <= i < rest.len() && rest[i] == (id, score);
                    if i < p {
                        assert(r[i] == rest[i]);
                    } else {
                        assert(r[i + 1] == rest[i]);
                    }
                }
                if r.contains((id, score)) {
                    let i = choose|i: int| 0 <= i < r.len() && r[i] == (id, score);
                    if i < p {
                        assert(r[i] == rest[i]);
                    } else if i > p {
                        assert(r[i] == rest[i - 1]);
                    }
                }
            },
        }
    }
}

/// Ranks scored candidates: those without a score are dropped, the others
/// come out by descending score, equal scores in the order of the list.
pub fn rank(list: &Vec<Scored>) -> (hits: Vec<String>)
    ensures
        texts(hits@) == hit_ids(ranked(candidates(list@))),
{
    let mut hits: Vec<String> = Vec::new();
    let mut scores: Vec<i64> = Vec::new();
    let mut k: usize = 0;
    let ghost all = candidates(list@);
    while k < list.len()
        invariant
            k <= list.len(),
            all == candidates(list@),
            hits@.len() == scores@.len(),
            hits@.len() == ranked(all.take(k as int)).len(),
            forall|i: int|
                0 <= i < hits@.len() ==> (#[trigger] ranked(all.take(k as int))[i]) == (
                    hits@[i]@,
                    scores@[i],
                ),
        decreases list.len() - k,
    {
        let ghost rest = ranked(all.take(k as int));
        proof {
            assert(all.take(k + 1).drop_last() =~= all.take(k as int));
            assert(all.take(k + 1).last() == all[k as int]);
        }
        match list[k].score {
            None => {},
            Some(score) => {
                let n = scores.len();
                let mut p: usize = 0;
                proof {
                    assert(rest.skip(0) =~= rest);
                }
                while p < n && scores[p] >= score
                    invariant
                        n == scores@.len(),
                        n == rest.len(),
                        p <= n,
                        forall|i: int| 0 <= i < n ==> (#[trigger] rest[i]).1 == scores@[i],
                        place(rest, score) == p + place(rest.skip(p as int), score),
                    decreases n - p,
                {
                    proof {
                        assert(rest.skip(p as int)[0] == rest[p as int]);
                        assert(rest.skip(p as int).drop_first() =~= rest.skip(p + 1));
                    }
                    p = p + 1;
                }
                proof {
                    if p < n {
                        assert(rest.skip(p as int)[0] == rest[p as int]);
                    }
                    assert(place(rest, score) == p);
                }
                let ghost old_hits = hits@;
                let ghost old_scores = scores@;
                hits.insert(p, list[k].id.clone());
                scores.insert(p, score);
                proof {
                    let next = ranked(all.take(k + 1));
                    assert(next == rest.insert(p as int, (all[k as int].0, score)));
                    assert forall|i: int| 0 <= i < hits@.len() implies (#[trigger] next[i]) == (
                        hits@[i]@,
                        scores@[i],
                    ) by {
                        if i < p {
                            assert(next[i] == rest[i]);
                        } else if i > p {
                            assert(next[i] == rest[i - 1]);
                        }
                    }
                }
            },
        }
        k = k + 1;
    }
    proof {
        assert(all.take(list@.len() as int) =~= all);
        assert(texts(hits@) =~= hit_ids(ranked(all)));
    }
    hits
}

/// What a search shows of a list: with an empty query the list as it is,
/// otherwise its fuzzy matches by descending score.
pub open spec fn search(ids: Seq<Seq<char>>, query: Seq<char>) -> Seq<Seq<char>> {
    if query.len() == 0 {
        ids
    } else {
        hit_ids(ranked(ids.map_values(|id: Seq<char>| (id, match_score(id, query)))))
    }
}

/// Searches a list of identifiers.
pub fn search_list(ids: Vec<String>, query: &str) -> (hits: Vec<String>)
    ensures
        texts(hits@) == search(texts(ids@), query@),
{
    if query.is_empty() {
        return ids;
    }
    let mut scored: Vec<Scored> = Vec::new();
    let mut k: usize = 0;
    while k < ids.len()
        invariant
            k <= ids.len(),
            scored@.len() == k,
            forall|i: int|
                0 <= i < k ==> (#[trigger] scored@[i])@ == (
                    ids@[i]@,
                    match_score(ids@[i]@, query@),
                ),
        decreases ids.len() - k,
    {
        let s = score(ids[k].as_str(), query);
        scored.push(Scored { id: ids[k].clone(), score: s });
        k = k + 1;
    }
    proof {
        assert(candidates(scored@) =~= texts(ids@).map_values(
            |id: Seq<char>| (id, match_score(id, query@)),
        ));
    }
    rank(&scored)
}

/// With a query a search shows exactly the identifiers of the list that
/// match it, and without one the whole list; it never shows an identifier
/// that the list does not name.
pub proof fn lemma_search_hits(ids: Seq<Seq<char>>, query: Seq<char>, id: Seq<char>)
    ensures
        search(ids, query).contains(id) ==> ids.contains(id),
        query.len() > 0 ==> (search(ids, query).contains(id) <==> ids.contains(id) && match_score(
            id,
            query,
        ) is Some),
{
    if query.len() > 0 {
        let scored = ids.map_values(|id: Seq<char>| (id, match_score(id, query)));
        let ranking = ranked(scored);
        let shown = search(ids, query);
        if shown.contains(id) {
            let i = choose|i: int| 0 <= i < shown.len() && shown[i] == id;
            let hit = ranking[i];
            assert(hit.0 == id);
            assert(ranking.contains(hit));
            lemma_ranked_hits(scored, hit.0, hit.1);
            let k = choose|k: int| 0 <= k < scored.len() && scored[k] == (hit.0, Some(hit.1));
            assert(ids[k] == id);
        }
        if ids.contains(id) && match_score(id, query) is Some {
            let k = choose|k: int| 0 <= k < ids.len() && ids[k] == id;
            let score = match_score(id, query)->0;
            assert(scored[k] == (id, Some(score)));
            lemma_ranked_hits(scored, id, score);
            let i = choose|i: int| 0 <= i < ranking.len() && ranking[i] == (id, score);
            assert(shown[i] == id);
        }
    }
}

/// With a query a search shows its hits by descending score.
pub proof fn lemma_search_descending(ids: Seq<Seq<char>>, query: Seq<char>, i: int, j: int)
    requires
        query.len() > 0,
        0 <= i < j < search(ids, query).len(),
    ensures
        match_score(search(ids, query)[i], query) is Some,
        match_score(search(ids, query)[j], query) is Some,
        match_score(search(ids, query)[i], query)->0 >= match_score(search(ids, query)[j], query)->0,
{
    let scored = ids.map_values(|id: Seq<char>| (id, match_score(id, query)));
    let ranking = ranked(scored);
    lemma_ranked_descending(scored);
    assert(ranking[i].1 >= ranking[j].1);
    assert(ranking.contains(ranking[i]));
    assert(ranking.contains(ranking[j]));
    lemma_ranked_hits(scored, ranking[i].0, ranking[i].1);
    lemma_ranked_hits(scored, ranking[j].0, ranking[j].1);
    let a = choose|k: int| 0 <= k < scored.len() && scored[k] == (ranking[i].0, Some(ranking[i].1));
    let b = choose|k: int| 0 <= k < scored.len() && scored[k] == (ranking[j].0, Some(ranking[j].1));
    assert(scored[a].1 == match_score(ids[a], query));
    assert(scored[b].1 == match_score(ids[b], query));
}

} // verus!
