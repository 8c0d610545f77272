//! The scorer: how well a review answers a query, and which reviews answer
//! it best.
//!
//! A score is a sum of tenths and of one term in `1 / words`, so it is kept
//! as an exact fraction over `10 * words`. All reviews scored against one
//! query share that denominator, and are ordered by their numerators.

use crate::models::{
    ReviewMetadata, ReviewMetadataView, SearchResult, SearchResultView, Similarity,
};
use crate::text::{chars_of, contains, contains_chars, lowercase, push_all, split_words, words_of};
use vstd::prelude::*;

verus! {

// ---------------------------------------------------------------------------
// The score of one review
// ---------------------------------------------------------------------------

/// The text of a review that a query is held against: title and body, both
/// in lower case, with a space between.
pub open spec fn searched_text(title_lower: Seq<char>, body_lower: Seq<char>) -> Seq<char> {
    title_lower + seq![' '] + body_lower
}

/// What one word of the query adds, in tenths: 8 where the title holds it, 5
/// where only the rest of the text does, nothing where it is not found.
pub open spec fn word_weight(word: Seq<char>, title_lower: Seq<char>, body_lower: Seq<char>) -> int {
    if !contains(searched_text(title_lower, body_lower), word) {
        0
    } else if contains(title_lower, word) {
        8
    } else {
        5
    }
}

/// The sum of the weights of `words`.
pub open spec fn weight_sum(
    words: Seq<Seq<char>>,
    title_lower: Seq<char>,
    body_lower: Seq<char>,
) -> int
    decreases words.len(),
{
    if words.len() == 0 {
        0
    } else {
        weight_sum(words.drop_last(), title_lower, body_lower) + word_weight(
            words.last(),
            title_lower,
            body_lower,
        )
    }
}

/// The number of `words` that the review's text holds.
pub open spec fn match_count(
    words: Seq<Seq<char>>,
    title_lower: Seq<char>,
    body_lower: Seq<char>,
) -> int
    decreases words.len(),
{
    if words.len() == 0 {
        0
    } else {
        match_count(words.drop_last(), title_lower, body_lower) + if contains(
            searched_text(title_lower, body_lower),
            words.last(),
        ) {
            1int
        } else {
            0int
        }
    }
}

/// The score before it is cut to the range from 0 to 1, as a multiple of
/// `1 / (10 * words.len())`: 1 for the whole query found in the text, the
/// words' weights in tenths, half the share of the words found, and a tenth
/// for each point of the rating above 3.
pub open spec fn raw_score(
    query_lower: Seq<char>,
    words: Seq<Seq<char>>,
    title_lower: Seq<char>,
    body_lower: Seq<char>,
    rating: u8,
) -> int {
    let phrase: int = if contains(searched_text(title_lower, body_lower), query_lower) {
        1
    } else {
        0
    };
    10 * words.len() * phrase + words.len() * weight_sum(words, title_lower, body_lower) + 5
        * match_count(words, title_lower, body_lower) + (rating - 3) * words.len()
}

/// The numerator of the score over `10 * words.len()`.
pub open spec fn score_numerator(
    query_lower: Seq<char>,
    words: Seq<Seq<char>>,
    title_lower: Seq<char>,
    body_lower: Seq<char>,
    rating: u8,
) -> int {
    let raw = raw_score(query_lower, words, title_lower, body_lower, rating);
    if raw < 0 {
        0
    } else if raw > 10 * words.len() {
        10 * words.len() as int
    } else {
        raw
    }
}

/// The score of a review, given by its title and body in lower case and its
/// rating, against a query in lower case and its words.
pub open spec fn lowered_score(
    query_lower: Seq<char>,
    words: Seq<Seq<char>>,
    title_lower: Seq<char>,
    body_lower: Seq<char>,
    rating: u8,
) -> Similarity {
    Similarity {
        numerator: score_numerator(query_lower, words, title_lower, body_lower, rating) as u128,
        denominator: (10 * words.len()) as u128,
    }
}

/// The score of `review` against a query in lower case and its words.
pub open spec fn similarity(
    query_lower: Seq<char>,
    words: Seq<Seq<char>>,
    review: ReviewMetadataView,
) -> Similarity {
    lowered_score(
        query_lower,
        words,
        lowercase(review.title),
        lowercase(review.body),
        review.rating,
    )
}

/// The weights and the number of the words found are bounded by the number of words.
proof fn lemma_tally_bounds(words: Seq<Seq<char>>, title_lower: Seq<char>, body_lower: Seq<char>)
    ensures
        0 <= weight_sum(words, title_lower, body_lower) <= 8 * words.len(),
        0 <= match_count(words, title_lower, body_lower) <= words.len(),
    decreases words.len(),
{
    if words.len() > 0 {
        lemma_tally_bounds(words.drop_last(), title_lower, body_lower);
    }
}

/// The score of a review against a query, all texts given in lower case:
/// the query with its words, the review by its title, its body and its
/// rating.
pub fn score_lowered(
    query_lower: &Vec<char>,
    query_words: &Vec<Vec<char>>,
    title_lower: &Vec<char>,
    body_lower: &Vec<char>,
    rating: u8,
) -> (score: Similarity)
    requires
        query_words.len() > 0,
    ensures
        score == lowered_score(
            query_lower@,
            query_words.deep_view(),
            title_lower@,
            body_lower@,
            rating,
        ),
        score.numerator <= score.denominator,
        score.denominator == 10 * query_words.len(),
{
    let mut text: Vec<char> = Vec::new();
    push_all(&mut text, title_lower);
    text.push(' ');
    push_all(&mut text, body_lower);
    assert(text@ =~= searched_text(title_lower@, body_lower@));

    let ghost words = query_words.deep_view();
    let total = query_words.len();
    let mut weights: u128 = 0;
    let mut matches: u128 = 0;
    let mut i: usize = 0;
    while i < total
        invariant
            i <= total == query_words.len(),
            words == query_words.deep_view(),
            text@ == searched_text(title_lower@, body_lower@),
            weights == weight_sum(words.take(i as int), title_lower@, body_lower@),
            matches == match_count(words.take(i as int), title_lower@, body_lower@),
            weights <= 8 * i,
            matches <= i,
        decreases total - i,
    {
        proof {
            assert(words.take(i + 1).drop_last() =~= words.take(i as int));
            assert(words.take(i + 1).last() == query_words[i as int]@);
        }
        if contains_chars(&text, &query_words[i]) {
            matches += 1;
            if contains_chars(title_lower, &query_words[i]) {
                weights += 8;
            } else {
                weights += 5;
            }
        }
        i += 1;
    }
    assert(words.take(total as int) =~= words);

    let phrase: u128 = if contains_chars(&text, query_lower) {
        1
    } else {
        0
    };
    let count: u128 = total as u128;
    let full: u128 = 10 * count;
    // In tenths per word, and moved up by 3 so that it cannot be negative.
    let level: u128 = 10 * phrase + weights + rating as u128;
    let ghost raw = raw_score(query_lower@, words, title_lower@, body_lower@, rating);
    assert(raw == count * (level - 3) + 5 * matches) by (nonlinear_arith)
        requires
            raw == 10 * count * phrase + count * weights + 5 * matches + (rating - 3) * count,
            level == 10 * phrase + weights + rating,
    ;
    let numerator: u128 = if level >= 13 {
        assert(raw >= 10 * count) by (nonlinear_arith)
            requires
                raw == count * (level - 3) + 5 * matches,
                level >= 13,
                count >= 0,
                matches >= 0,
        ;
        full
    } else {
        assert(count * level <= count * 12) by (nonlinear_arith)
            requires
                level <= 12,
                count >= 0,
        ;
        assert(raw == count * level + 5 * matches - 3 * count) by (nonlinear_arith)
            requires
                raw == count * (level - 3) + 5 * matches,
        ;
        let up: u128 = count * level + 5 * matches;
        let down: u128 = 3 * count;
        if up <= down {
            0
        } else if up - down > full {
            full
        } else {
            up - down
        }
    };
    Similarity { numerator, denominator: full }
}

/// The score of `review` against a query, given in lower case and with its
/// words: the score of its title and body in lower case.
pub fn calculate_text_similarity(
    query_lower: &Vec<char>,
    query_words: &Vec<Vec<char>>,
    review: &ReviewMetadata,
) -> (score: Similarity)
    requires
        query_words.len() > 0,
    ensures
        score == similarity(query_lower@, query_words.deep_view(), review@),
        score.numerator <= score.denominator,
        score.denominator == 10 * query_words.len(),
{
    let title_lower = chars_of(review.title.as_str().to_lowercase().as_str());
    let body_lower = chars_of(review.body.as_str().to_lowercase().as_str());
    score_lowered(query_lower, query_words, &title_lower, &body_lower, review.rating)
}

// ---------------------------------------------------------------------------
// The order of the results
// ---------------------------------------------------------------------------

/// Whether the review at `a` goes before the one at `b`: the higher score
/// first, and of two equal scores the one that stands first in the corpus.
pub open spec fn goes_before(scores: Seq<int>, a: int, b: int) -> bool {
    scores[a] > scores[b] || (scores[a] == scores[b] && a < b)
}

/// The first place at or after `p` in `order` whose review scores less than
/// `score`, or the length of `order` where there is none.
pub open spec fn insert_point(order: Seq<int>, scores: Seq<int>, score: int, p: int) -> int
    decreases order.len() - p,
{
    if 0 <= p < order.len() && scores[order[p]] >= score {
        insert_point(order, scores, score, p + 1)
    } else {
        p
    }
}

/// The reviews that score above 0, by their indices, best first. The order
/// is built review by review: each one that scores goes in behind all that
/// score as much or more.
pub open spec fn ranking(scores: Seq<int>) -> Seq<int>
    decreases scores.len(),
{
    if scores.len() == 0 {
        Seq::empty()
    } else {
        let before = ranking(scores.drop_last());
        let k = scores.len() - 1;
        if scores[k] > 0 {
            before.insert(insert_point(before, scores, scores[k], 0), k)
        } else {
            before
        }
    }
}

/// The first `limit` entries of `order`, or all of it where it is shorter.
pub open spec fn top(order: Seq<int>, limit: int) -> Seq<int> {
    if 0 <= limit < order.len() {
        order.take(limit)
    } else if limit < 0 {
        Seq::empty()
    } else {
        order
    }
}

/// What `insert_point` finds: all before it score at least as much, and the one at it less.
pub proof fn lemma_insert_point(order: Seq<int>, scores: Seq<int>, score: int, p: int)
    requires
        0 <= p <= order.len(),
    ensures
        p <= insert_point(order, scores, score, p) <= order.len(),
        forall|j: int|
            p <= j < insert_point(order, scores, score, p) ==> scores[#[trigger] order[j]]
                >= score,
        insert_point(order, scores, score, p) < order.len() ==> scores[order[insert_point(
            order,
            scores,
            score,
            p,
        )]] < score,
    decreases order.len() - p,
{
    if p < order.len() && scores[order[p]] >= score {
        lemma_insert_point(order, scores, score, p + 1);
    }
}

/// Scores that are left out of a prefix do not change its ranking.
proof fn lemma_insert_point_scores(
    order: Seq<int>,
    scores: Seq<int>,
    longer: Seq<int>,
    score: int,
    p: int,
)
    requires
        0 <= p <= order.len(),
        scores.len() <= longer.len(),
        forall|j: int| 0 <= j < scores.len() ==> scores[j] == longer[j],
        forall|j: int| 0 <= j < order.len() ==> 0 <= #[trigger] order[j] < scores.len(),
    ensures
        insert_point(order, scores, score, p) == insert_point(order, longer, score, p),
    decreases order.len() - p,
{
    if p < order.len() {
        assert(0 <= order[p] < scores.len());
        if scores[order[p]] >= score {
            lemma_insert_point_scores(order, scores, longer, score, p + 1);
        }
    }
}

/// What holds of a ranking: it lists exactly the reviews that score above 0,
/// each once, and each entry goes before all that follow it.
pub proof fn lemma_ranking(scores: Seq<int>)
    ensures
        forall|j: int|
            0 <= j < ranking(scores).len() ==> 0 <= #[trigger] ranking(scores)[j] < scores.len()
                && scores[ranking(scores)[j]] > 0,
        forall|k: int|
            0 <= k < scores.len() && scores[k] > 0 ==> ranking(scores).contains(k),
        forall|i: int, j: int|
            0 <= i < j < ranking(scores).len() ==> goes_before(
                scores,
                #[trigger] ranking(scores)[i],
                #[trigger] ranking(scores)[j],
            ),
        ranking(scores).len() <= scores.len(),
    decreases scores.len(),
{
    if scores.len() > 0 {
        let shorter = scores.drop_last();
        let before = ranking(shorter);
        let k = scores.len() - 1;
        lemma_ranking(shorter);
        assert forall|j: int| 0 <= j < before.len() implies scores[#[trigger] before[j]]
            == shorter[before[j]] by {}
        if scores[k] > 0 {
            let p = insert_point(before, scores, scores[k], 0);
            lemma_insert_point(before, scores, scores[k], 0);
            let after = before.insert(p, k);
            assert(ranking(scores) == after);
            assert forall|j: int| 0 <= j < after.len() implies 0 <= #[trigger] after[j]
                < scores.len() && scores[after[j]] > 0 by {
                if j < p {
                    assert(after[j] == before[j]);
                } else if j > p {
                    assert(after[j] == before[j - 1]);
                }
            }
            assert forall|m: int| 0 <= m < scores.len() && scores[m] > 0 implies after.contains(
                m,
            ) by {
                if m == k {
                    assert(after[p] == k);
                } else {
                    assert(shorter[m] > 0);
                    assert(before.contains(m));
                    let j = choose|j: int| 0 <= j < before.len() && before[j] == m;
                    if j < p {
                        assert(after[j] == m);
                    } else {
                        assert(after[j + 1] == m);
                    }
                }
            }
            assert forall|i: int, j: int| 0 <= i < j < after.len() implies goes_before(
                scores,
                #[trigger] after[i],
                #[trigger] after[j],
            ) by {
                if j < p {
                    assert(after[i] == before[i] && after[j] == before[j]);
                    assert(goes_before(shorter, before[i], before[j]));
                } else if j == p {
                    assert(after[i] == before[i]);
                    assert(scores[before[i]] >= scores[k]);
                } else if i < p {
                    assert(after[i] == before[i] && after[j] == before[j - 1]);
                    if i < j - 1 {
                        assert(goes_before(shorter, before[i], before[j - 1]));
                    }
                } else if i == p {
                    assert(after[j] == before[j - 1]);
                    assert(scores[before[p]] < scores[k]);
                    if p < j - 1 {
                        assert(goes_before(shorter, before[p], before[j - 1]));
                    }
                } else {
                    assert(after[i] == before[i - 1] && after[j] == before[j - 1]);
                    assert(goes_before(shorter, before[i - 1], before[j - 1]));
                }
            }
        } else {
            assert forall|m: int| 0 <= m < scores.len() && scores[m] > 0 implies before.contains(
                m,
            ) by {
                assert(shorter[m] > 0);
            }
            assert forall|i: int, j: int| 0 <= i < j < before.len() implies goes_before(
                scores,
                #[trigger] before[i],
                #[trigger] before[j],
            ) by {
                assert(goes_before(shorter, before[i], before[j]));
            }
        }
    }
}

/// Whether `order` lists exactly the indices in `among`, each entry going
/// before all that follow it.
pub open spec fn lists_in_order(scores: Seq<int>, order: Seq<int>, among: Set<int>) -> bool {
    &&& forall|j: int| 0 <= j < order.len() ==> among.contains(#[trigger] order[j])
    &&& forall|k: int| among.contains(k) ==> order.contains(k)
    &&& forall|i: int, j: int|
        0 <= i < j < order.len() ==> goes_before(scores, #[trigger] order[i], #[trigger] order[j])
}

/// The indices of the reviews that score above 0.
pub open spec fn scoring(scores: Seq<int>) -> Set<int> {
    Set::new(|k: int| 0 <= k < scores.len() && scores[k] > 0)
}

/// There is one order only in which each entry goes before all that follow
/// it.
proof fn lemma_one_order(scores: Seq<int>, a: Seq<int>, b: Seq<int>, among: Set<int>)
    requires
        lists_in_order(scores, a, among),
        lists_in_order(scores, b, among),
    ensures
        a == b,
    decreases a.len(),
{
    if a.len() == 0 {
        if b.len() > 0 {
            assert(among.contains(b[0]));
            assert(a.contains(b[0]));
        }
        assert(a =~= b);
    } else {
        assert(among.contains(a[0]));
        assert(b.contains(a[0]));
        let j = choose|j: int| 0 <= j < b.len() && b[j] == a[0];
        assert(among.contains(b[0]));
        assert(a.contains(b[0]));
        let i = choose|i: int| 0 <= i < a.len() && a[i] == b[0];
        if j > 0 {
            assert(goes_before(scores, b[0], b[j]));
            if i > 0 {
                assert(goes_before(scores, a[0], a[i]));
            }
        }
        assert(a[0] == b[0]);
        let rest = among.remove(a[0]);
        let a1 = a.drop_first();
        let b1 = b.drop_first();
        assert(lists_in_order(scores, a1, rest)) by {
            assert forall|m: int| 0 <= m < a1.len() implies rest.contains(#[trigger] a1[m]) by {
                assert(a1[m] == a[m + 1]);
                assert(goes_before(scores, a[0], a[m + 1]));
            }
            assert forall|k: int| rest.contains(k) implies a1.contains(k) by {
                assert(a.contains(k));
                let m = choose|m: int| 0 <= m < a.len() && a[m] == k;
                assert(a1[m - 1] == k);
            }
            assert forall|m: int, n: int| 0 <= m < n < a1.len() implies goes_before(
                scores,
                #[trigger] a1[m],
                #[trigger] a1[n],
            ) by {
                assert(a1[m] == a[m + 1] && a1[n] == a[n + 1]);
            }
        }
        assert(lists_in_order(scores, b1, rest)) by {
            assert forall|m: int| 0 <= m < b1.len() implies rest.contains(#[trigger] b1[m]) by {
                assert(b1[m] == b[m + 1]);
                assert(goes_before(scores, b[0], b[m + 1]));
            }
            assert forall|k: int| rest.contains(k) implies b1.contains(k) by {
                assert(b.contains(k));
                let m = choose|m: int| 0 <= m < b.len() && b[m] == k;
                assert(b1[m - 1] == k);
            }
            assert forall|m: int, n: int| 0 <= m < n < b1.len() implies goes_before(
                scores,
                #[trigger] b1[m],
                #[trigger] b1[n],
            ) by {
                assert(b1[m] == b[m + 1] && b1[n] == b[n + 1]);
            }
        }
        lemma_one_order(scores, a1, b1, rest);
        assert(a =~= seq![a[0]] + a1);
        assert(b =~= seq![b[0]] + b1);
    }
}

/// The ranking is the one order of the reviews that score above 0 in which
/// the higher score comes first and, of two equal scores, the review that
/// stands first in the corpus: any order of which that holds is the ranking.
pub proof fn lemma_ranking_is_the_stable_order(scores: Seq<int>, order: Seq<int>)
    requires
        lists_in_order(scores, order, scoring(scores)),
    ensures
        order == ranking(scores),
{
    lemma_ranking(scores);
    lemma_one_order(scores, order, ranking(scores), scoring(scores));
}

/// The best `limit` of a ranking after one more review: the review goes into
/// the best `limit` so far, at its place, where that place is among the first
/// `limit`; and the rest is cut off.
proof fn lemma_top_step(scores: Seq<int>, limit: int)
    requires
        scores.len() > 0,
        limit >= 0,
    ensures
        ({
            let k = scores.len() - 1;
            let kept = top(ranking(scores.drop_last()), limit);
            let p = insert_point(kept, scores, scores[k], 0);
            top(ranking(scores), limit) == if scores[k] > 0 && p < limit {
                top(kept.insert(p, k), limit)
            } else {
                kept
            }
        }),
{
    let k = scores.len() - 1;
    let shorter = scores.drop_last();
    let full = ranking(shorter);
    let kept = top(full, limit);
    let p = insert_point(kept, scores, scores[k], 0);
    let q = insert_point(full, scores, scores[k], 0);
    lemma_ranking(shorter);
    lemma_insert_point(kept, scores, scores[k], 0);
    lemma_insert_point(full, scores, scores[k], 0);
    // The place among the kept is the place among all, or the end of the kept.
    assert(p == if q < kept.len() { q } else { kept.len() as int }) by {
        if p < q {
            if p < kept.len() {
                assert(kept[p] == full[p]);
                assert(scores[full[p]] >= scores[k]);
            }
        } else if q < p {
            assert(kept[q] == full[q]);
            assert(scores[kept[q]] >= scores[k]);
        }
    }
    if scores[k] > 0 {
        let after = full.insert(q, k);
        assert(ranking(scores) == after);
        if p < limit {
            assert(top(after, limit) =~= top(kept.insert(p, k), limit));
        } else {
            assert(top(after, limit) =~= kept);
        }
    }
}

/// The numerators of the scores of the corpus against `query`, review by
/// review.
pub open spec fn corpus_scores(query: Seq<char>, corpus: Seq<ReviewMetadataView>) -> Seq<int> {
    Seq::new(
        corpus.len(),
        |i: int|
            score_numerator(
                lowercase(query),
                words_of(lowercase(query)),
                lowercase(corpus[i].title),
                lowercase(corpus[i].body),
                corpus[i].rating,
            ),
    )
}

/// The results of a search: nothing for a query without words; else the
/// best `limit` reviews of the ranking, each with its score.
pub open spec fn search_hits(
    query: Seq<char>,
    corpus: Seq<ReviewMetadataView>,
    limit: usize,
) -> Seq<SearchResultView> {
    let query_lower = lowercase(query);
    let words = words_of(query_lower);
    if words.len() == 0 {
        Seq::empty()
    } else {
        let order = top(ranking(corpus_scores(query, corpus)), limit as int);
        Seq::new(
            order.len(),
            |j: int|
                SearchResultView {
                    review: corpus[order[j]],
                    similarity_score: similarity(query_lower, words, corpus[order[j]]),
                },
        )
    }
}

/// The scores as integers.
pub open spec fn as_scores(numerators: Seq<u128>) -> Seq<int> {
    Seq::new(numerators.len(), |i: int| numerators[i] as int)
}

/// The places as integers.
pub open spec fn as_places(order: Seq<usize>) -> Seq<int> {
    Seq::new(order.len(), |j: int| order[j] as int)
}

/// One review that is held among the best so far.
struct Candidate {
    index: usize,
    numerator: u128,
}

/// The indices of the candidates, in order.
spec fn candidate_indices(best: Seq<Candidate>) -> Seq<int> {
    Seq::new(best.len(), |j: int| best[j].index as int)
}

/// The place at which a review with the score `numerator` goes into `best`.
fn find_place(best: &Vec<Candidate>, numerator: u128, Ghost(scores): Ghost<Seq<int>>) -> (p: usize)
    requires
        forall|j: int|
            0 <= j < best.len() ==> 0 <= (#[trigger] best[j]).index < scores.len()
                && best[j].numerator == scores[best[j].index as int],
    ensures
        p <= best.len(),
        p == insert_point(candidate_indices(best@), scores, numerator as int, 0),
{
    let ghost order = candidate_indices(best@);
    let mut p: usize = 0;
    while p < best.len() && best[p].numerator >= numerator
        invariant
            p <= best.len(),
            order == candidate_indices(best@),
            forall|j: int|
                0 <= j < best.len() ==> 0 <= (#[trigger] best[j]).index < scores.len()
                    && best[j].numerator == scores[best[j].index as int],
            insert_point(order, scores, numerator as int, 0) == insert_point(
                order,
                scores,
                numerator as int,
                p as int,
            ),
        decreases best.len() - p,
    {
        assert(order[p as int] == best[p as int].index);
        p += 1;
    }
    proof {
        if p < best.len() {
            assert(order[p as int] == best[p as int].index);
        }
    }
    p
}

/// The places of the best `limit` of the given scores, the best first: the
/// first `limit` entries of the ranking. A score of 0 gets no place.
pub fn rank_scores(numerators: &Vec<u128>, limit: usize) -> (order: Vec<usize>)
    ensures
        as_places(order@) == top(ranking(as_scores(numerators@)), limit as int),
        forall|j: int| 0 <= j < order.len() ==> (#[trigger] order[j]) < numerators.len(),
{
    let ghost scores = as_scores(numerators@);
    let mut best: Vec<Candidate> = Vec::new();
    let mut i: usize = 0;
    assert(scores.take(0) =~= Seq::<int>::empty());
    assert(candidate_indices(best@) =~= top(ranking(scores.take(0)), limit as int));
    while i < numerators.len()
        invariant
            i <= numerators.len(),
            scores == as_scores(numerators@),
            candidate_indices(best@) == top(ranking(scores.take(i as int)), limit as int),
            best.len() <= limit,
            best.len() <= i,
            forall|j: int|
                0 <= j < best.len() ==> 0 <= (#[trigger] best[j]).index < i && best[j].numerator
                    == scores[best[j].index as int],
        decreases numerators.len() - i,
    {
        let numerator = numerators[i];
        let ghost so_far = scores.take(i + 1);
        let ghost kept = candidate_indices(best@);
        proof {
            assert(numerator == scores[i as int]);
            assert(so_far.drop_last() =~= scores.take(i as int));
            assert(so_far[i as int] == scores[i as int]);
            lemma_top_step(so_far, limit as int);
            lemma_ranking(scores.take(i as int));
            lemma_insert_point_scores(kept, so_far, scores, numerator as int, 0);
        }
        if numerator > 0 {
            let p = find_place(&best, numerator, Ghost(scores));
            if p < limit {
                best.insert(p, Candidate { index: i, numerator });
                assert(candidate_indices(best@) =~= kept.insert(p as int, i as int));
                if best.len() > limit {
                    best.truncate(limit);
                    assert(candidate_indices(best@) =~= top(
                        kept.insert(p as int, i as int),
                        limit as int,
                    ));
                }
            }
        }
        i += 1;
    }
    assert(scores.take(numerators.len() as int) =~= scores);
    let mut order: Vec<usize> = Vec::new();
    let mut j: usize = 0;
    while j < best.len()
        invariant
            j <= best.len(),
            order.len() == j,
            forall|m: int| 0 <= m < best.len() ==> 0 <= (#[trigger] best[m]).index < numerators.len(),
            forall|m: int| 0 <= m < j ==> (#[trigger] order[m]) == best[m].index,
        decreases best.len() - j,
    {
        order.push(best[j].index);
        j += 1;
    }
    assert(as_places(order@) =~= candidate_indices(best@));
    order
}

/// The reviews that answer `query` best: at most `limit` of them, the best
/// first, each with its score. A review that scores 0 is no answer.
pub fn perform_text_search(query: &str, reviews: &[ReviewMetadata], limit: usize) -> (out: Vec<
    SearchResult,
>)
    ensures
        out.deep_view() == search_hits(query@, reviews.deep_view(), limit),
{
    let lowered = query.to_lowercase();
    let query_lower = chars_of(lowered.as_str());
    let query_words = split_words(&query_lower);
    let mut out: Vec<SearchResult> = Vec::new();
    if query_words.len() == 0 {
        assert(out.deep_view() =~= search_hits(query@, reviews.deep_view(), limit));
        return out;
    }
    let ghost corpus = reviews.deep_view();
    let ghost words = words_of(lowercase(query@));
    let ghost scores = corpus_scores(query@, corpus);

    let mut numerators: Vec<u128> = Vec::new();
    let mut hits: Vec<Similarity> = Vec::new();
    let mut i: usize = 0;
    while i < reviews.len()
        invariant
            i <= reviews.len(),
            corpus == reviews.deep_view(),
            query_lower@ == lowercase(query@),
            words == words_of(lowercase(query@)),
            query_words.deep_view() == words,
            query_words.len() > 0,
            scores == corpus_scores(query@, corpus),
            numerators.len() == i,
            hits.len() == i,
            forall|k: int| 0 <= k < i ==> (#[trigger] numerators[k]) as int == scores[k],
            forall|k: int|
                0 <= k < i ==> (#[trigger] hits[k]) == similarity(
                    lowercase(query@),
                    words,
                    corpus[k],
                ),
        decreases reviews.len() - i,
    {
        let score = calculate_text_similarity(&query_lower, &query_words, &reviews[i]);
        proof {
            assert(corpus[i as int] == reviews[i as int]@);
            assert(score.numerator == scores[i as int]);
        }
        numerators.push(score.numerator);
        hits.push(score);
        i += 1;
    }
    assert(as_scores(numerators@) =~= scores);
    let order = rank_scores(&numerators, limit);
    let ghost places = as_places(order@);
    let mut j: usize = 0;
    while j < order.len()
        invariant
            j <= order.len(),
            corpus == reviews.deep_view(),
            hits.len() == reviews.len(),
            places == as_places(order@),
            forall|m: int| 0 <= m < order.len() ==> (#[trigger] order[m]) < reviews.len(),
            forall|k: int|
                0 <= k < hits.len() ==> (#[trigger] hits[k]) == similarity(
                    lowercase(query@),
                    words,
                    corpus[k],
                ),
            out.len() == j,
            forall|m: int|
                0 <= m < j ==> (#[trigger] out[m])@ == (SearchResultView {
                    review: corpus[places[m]],
                    similarity_score: similarity(lowercase(query@), words, corpus[places[m]]),
                }),
        decreases order.len() - j,
    {
        let at = order[j];
        proof {
            assert(places[j as int] == at);
            assert(corpus[at as int] == reviews[at as int]@);
        }
        out.push(SearchResult { review: reviews[at].clone(), similarity_score: hits[at] });
        j += 1;
    }
    assert(out.deep_view() =~= search_hits(query@, reviews.deep_view(), limit));
    out
}

} // verus!
