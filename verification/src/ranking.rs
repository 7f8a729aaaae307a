//! Ranking by score: higher scores first, and among equal scores what came
//! first stays first.

use vstd::prelude::*;

verus! {

/// The candidate at `a` stands before the candidate at `b` in the ranking:
/// its score is higher, or the scores are equal and it came earlier.
pub open spec fn ranks_before(scores: Seq<Option<i64>>, a: int, b: int) -> bool {
    scores[a]->0 > scores[b]->0 || (scores[a]->0 == scores[b]->0 && a < b)
}

/// `order` ranks the candidates among the first `upto` that have a score:
/// it holds positions of such candidates only, each one of them, and each
/// stands before all that follow it.
pub open spec fn ranks_upto(scores: Seq<Option<i64>>, order: Seq<int>, upto: int) -> bool {
    &&& forall|k: int|
        0 <= k < order.len() ==> 0 <= #[trigger] order[k] < upto && scores[order[k]] is Some
    &&& forall|k: int, l: int|
        0 <= k < l < order.len() ==> ranks_before(scores, #[trigger] order[k], #[trigger] order[l])
    &&& forall|i: int| 0 <= i < upto && #[trigger] scores[i] is Some ==> order.contains(i)
}

/// `order` ranks all candidates that have a score.
pub open spec fn is_ranking(scores: Seq<Option<i64>>, order: Seq<int>) -> bool {
    ranks_upto(scores, order, scores.len() as int)
}

/// The ranking of the candidates that have a score.
pub open spec fn ranking(scores: Seq<Option<i64>>) -> Seq<int> {
    choose|order: Seq<int>| is_ranking(scores, order)
}

/// Positions as mathematical integers.
pub open spec fn positions(order: Seq<usize>) -> Seq<int> {
    order.map_values(|at: usize| at as int)
}

/// Two rankings of the same scores agree on their first `k` places.
proof fn lemma_rankings_agree_upto(scores: Seq<Option<i64>>, a: Seq<int>, b: Seq<int>, k: int)
    requires
        is_ranking(scores, a),
        is_ranking(scores, b),
        0 <= k <= a.len(),
    ensures
        k <= b.len(),
        forall|i: int| 0 <= i < k ==> a[i] == b[i],
    decreases k,
{
    if k > 0 {
        lemma_rankings_agree_upto(scores, a, b, k - 1);
        let x = a[k - 1];
        assert(scores[x] is Some);
        assert(b.contains(x));
        let j = choose|j: int| 0 <= j < b.len() && b[j] == x;
        if j < k - 1 {
            assert(a[j] == b[j]);
            assert(ranks_before(scores, a[j], a[k - 1]));
        }
        let y = b[k - 1];
        assert(scores[y] is Some);
        assert(a.contains(y));
        let m = choose|m: int| 0 <= m < a.len() && a[m] == y;
        if m < k - 1 {
            assert(a[m] == b[m]);
            assert(ranks_before(scores, b[m], b[k - 1]));
        }
        if x != y {
            assert(ranks_before(scores, b[k - 1], b[j]));
            assert(ranks_before(scores, a[k - 1], a[m]));
        }
    }
}

/// The same scores have one ranking only: `is_ranking` leaves no choice, not
/// even among candidates of equal score.
pub proof fn lemma_ranking_unique(scores: Seq<Option<i64>>, a: Seq<int>, b: Seq<int>)
    requires
        is_ranking(scores, a),
        is_ranking(scores, b),
    ensures
        a == b,
{
    lemma_rankings_agree_upto(scores, a, b, a.len() as int);
    lemma_rankings_agree_upto(scores, b, a, b.len() as int);
    assert(a =~= b);
}

/// A ranking holds no candidate twice, so it is no longer than the row of
/// scores.
pub proof fn lemma_ranking_length(scores: Seq<Option<i64>>, order: Seq<int>)
    requires
        is_ranking(scores, order),
    ensures
        order.no_duplicates(),
        order.len() <= scores.len(),
{
    assert forall|i: int, j: int|
        0 <= i < order.len() && 0 <= j < order.len() && i != j implies order[i] != order[j] by {
        if i < j {
            assert(ranks_before(scores, order[i], order[j]));
        } else {
            assert(ranks_before(scores, order[j], order[i]));
        }
    }
    order.unique_seq_to_set();
    let range = vstd::set_lib::set_int_range(0, scores.len() as int);
    vstd::set_lib::lemma_int_range(0, scores.len() as int);
    assert forall|x: int| order.to_set().contains(x) implies range.contains(x) by {
        let k = choose|k: int| 0 <= k < order.len() && order[k] == x;
        assert(0 <= order[k] < scores.len());
    }
    vstd::set_lib::lemma_len_subset(order.to_set(), range);
}

/// In a ranking the scores never rise from one place to the next.
pub proof fn lemma_ranking_descends(scores: Seq<Option<i64>>, order: Seq<int>, k: int, l: int)
    requires
        is_ranking(scores, order),
        0 <= k <= l < order.len(),
    ensures
        scores[order[k]]->0 >= scores[order[l]]->0,
{
    if k < l {
        assert(ranks_before(scores, order[k], order[l]));
    }
}

/// Where every candidate has the same score, the ranking is the order they
/// came in.
pub proof fn lemma_ranking_of_equals(scores: Seq<Option<i64>>, score: i64)
    requires
        forall|i: int| 0 <= i < scores.len() ==> scores[i] == Some(score),
    ensures
        is_ranking(scores, Seq::new(scores.len(), |i: int| i)),
        ranking(scores) == Seq::new(scores.len(), |i: int| i),
{
    let order = Seq::new(scores.len(), |i: int| i);
    assert forall|i: int| 0 <= i < scores.len() && #[trigger] scores[i] is Some implies order.contains(
        i,
    ) by {
        assert(order[i] == i);
    }
    assert(is_ranking(scores, order));
    lemma_ranking_unique(scores, order, ranking(scores));
}

/// Where a new candidate goes: a ranking of the first `i` candidates, with
/// the candidate at `i` put in at `at`, ranks the first `i + 1`, provided
/// that the scores from `at` on are lower than the newcomer's and the one
/// before `at`, if there is one, is not.
proof fn lemma_insert_keeps_ranking(scores: Seq<Option<i64>>, before: Seq<int>, at: int, i: int)
    requires
        0 <= i < scores.len(),
        scores[i] is Some,
        ranks_upto(scores, before, i),
        0 <= at <= before.len(),
        forall|k: int| at <= k < before.len() ==> scores[before[k]]->0 < scores[i]->0,
        at > 0 ==> scores[before[at - 1]]->0 >= scores[i]->0,
    ensures
        ranks_upto(scores, before.insert(at, i), i + 1),
{
    let after = before.insert(at, i);
    assert forall|k: int| 0 <= k < after.len() implies 0 <= #[trigger] after[k] < i + 1
        && scores[after[k]] is Some by {
        if k < at {
            assert(after[k] == before[k]);
        } else if k > at {
            assert(after[k] == before[k - 1]);
        }
    }
    assert forall|k: int, l: int| 0 <= k < l < after.len() implies ranks_before(
        scores,
        #[trigger] after[k],
        #[trigger] after[l],
    ) by {
        let x = if k < at {
            before[k]
        } else if k == at {
            i
        } else {
            before[k - 1]
        };
        let y = if l < at {
            before[l]
        } else if l == at {
            i
        } else {
            before[l - 1]
        };
        assert(after[k] == x && after[l] == y);
        if l == at {
            assert(0 <= before[k] < i);
            if k < at - 1 {
                assert(ranks_before(scores, before[k], before[at - 1]));
            }
        } else if k == at {
        } else if k < at && l > at {
            assert(ranks_before(scores, before[k], before[l - 1]));
        } else if k < at {
            assert(ranks_before(scores, before[k], before[l]));
        } else {
            assert(ranks_before(scores, before[k - 1], before[l - 1]));
        }
    }
    assert forall|j: int| 0 <= j < i + 1 && #[trigger] scores[j] is Some implies after.contains(
        j,
    ) by {
        if j == i {
            assert(after[at] == j);
        } else {
            assert(before.contains(j));
            let k = choose|k: int| 0 <= k < before.len() && before[k] == j;
            if k < at {
                assert(after[k] == j);
            } else {
                assert(after[k + 1] == j);
            }
        }
    }
}

/// The place in `order` behind the last candidate that scores `score` or
/// more.
spec fn insert_point(scores: Seq<Option<i64>>, order: Seq<int>, score: i64) -> int
    decreases order.len(),
{
    if order.len() == 0 {
        0
    } else if scores[order.last()]->0 >= score {
        order.len() as int
    } else {
        insert_point(scores, order.drop_last(), score)
    }
}

/// From `insert_point` on, all candidates in `order` score less than
/// `score`; the one before it, if there is one, does not.
proof fn lemma_insert_point(scores: Seq<Option<i64>>, order: Seq<int>, score: i64)
    ensures
        0 <= insert_point(scores, order, score) <= order.len(),
        forall|k: int|
            insert_point(scores, order, score) <= k < order.len() ==> scores[order[k]]->0 < score,
        insert_point(scores, order, score) > 0 ==> scores[order[insert_point(
            scores,
            order,
            score,
        ) - 1]]->0 >= score,
    decreases order.len(),
{
    if order.len() > 0 && scores[order.last()]->0 < score {
        let shorter = order.drop_last();
        lemma_insert_point(scores, shorter, score);
        let at = insert_point(scores, order, score);
        assert forall|k: int| at <= k < order.len() implies scores[order[k]]->0 < score by {
            if k < shorter.len() {
                assert(shorter[k] == order[k]);
            }
        }
        if at > 0 {
            assert(shorter[at - 1] == order[at - 1]);
        }
    }
}

/// Every row of scores has a ranking, and `ranking` is it.
pub proof fn lemma_ranking_exists(scores: Seq<Option<i64>>)
    ensures
        is_ranking(scores, ranking(scores)),
    decreases scores.len(),
{
    if scores.len() == 0 {
        assert(is_ranking(scores, Seq::<int>::empty()));
    } else {
        let i = scores.len() - 1;
        let earlier = scores.drop_last();
        lemma_ranking_exists(earlier);
        let before = ranking(earlier);
        assert(ranks_upto(scores, before, i)) by {
            assert forall|k: int| 0 <= k < before.len() implies 0 <= #[trigger] before[k] < i
                && scores[before[k]] is Some by {
                assert(earlier[before[k]] == scores[before[k]]);
            }
            assert forall|k: int, l: int| 0 <= k < l < before.len() implies ranks_before(
                scores,
                #[trigger] before[k],
                #[trigger] before[l],
            ) by {
                assert(ranks_before(earlier, before[k], before[l]));
            }
            assert forall|j: int| 0 <= j < i && #[trigger] scores[j] is Some implies before.contains(
                j,
            ) by {
                assert(earlier[j] is Some);
            }
        }
        match scores[i] {
            None => {
                assert(is_ranking(scores, before));
            },
            Some(score) => {
                lemma_insert_point(scores, before, score);
                let at = insert_point(scores, before, score);
                lemma_insert_keeps_ranking(scores, before, at, i);
                assert(is_ranking(scores, before.insert(at, i)));
            },
        }
    }
}

/// The score at `at`.
fn score_at(scores: &Vec<Option<i64>>, at: usize) -> (score: i64)
    requires
        at < scores.len(),
        scores[at as int] is Some,
    ensures
        Some(score) == scores[at as int],
{
    match scores[at] {
        Some(score) => score,
        None => 0,
    }
}

/// Ranks the candidates that have a score: the positions of all of them, the
/// highest score first, candidates of equal score in the order they came in.
pub fn rank_matches(scores: &Vec<Option<i64>>) -> (order: Vec<usize>)
    ensures
        is_ranking(scores@, positions(order@)),
        positions(order@) == ranking(scores@),
        order.len() <= scores.len(),
{
    let mut order: Vec<usize> = Vec::new();
    let mut i: usize = 0;
    while i < scores.len()
        invariant
            i <= scores.len(),
            order.len() <= i,
            ranks_upto(scores@, positions(order@), i as int),
        decreases scores.len() - i,
    {
        match scores[i] {
            None => {
                assert(ranks_upto(scores@, positions(order@), i + 1));
            },
            Some(score) => {
                let ghost before = positions(order@);
                assert forall|k: int| 0 <= k < order.len() implies (#[trigger] order@[k])
                    < scores.len() && scores@[order@[k] as int] is Some by {
                    assert(before[k] == order@[k] as int);
                }
                let mut at: usize = order.len();
                while at > 0 && score_at(scores, order[at - 1]) < score
                    invariant
                        at <= order.len(),
                        i < scores.len(),
                        scores@[i as int] == Some(score),
                        before == positions(order@),
                        ranks_upto(scores@, before, i as int),
                        forall|k: int|
                            0 <= k < order.len() ==> (#[trigger] order@[k]) < scores.len()
                                && scores@[order@[k] as int] is Some,
                        forall|k: int| at <= k < order.len() ==> scores@[before[k]]->0 < score,
                    decreases at,
                {
                    assert(before[at - 1] == order@[at - 1] as int);
                    at -= 1;
                }
                proof {
                    if at > 0 {
                        assert(before[at - 1] == order@[at - 1] as int);
                    }
                }
                order.insert(at, i);
                proof {
                    assert(positions(order@) =~= before.insert(at as int, i as int));
                    lemma_insert_keeps_ranking(scores@, before, at as int, i as int);
                }
            },
        }
        i += 1;
    }
    proof {
        lemma_ranking_unique(scores@, positions(order@), ranking(scores@));
    }
    order
}

} // verus!
