//! Ranking of candidates against a target.
//!
//! The candidates whose score is strictly above the confidence threshold
//! are kept and ordered by score, lowest first, so that the best match comes
//! last. Candidates of equal score keep their relative input order.
use vstd::prelude::*;

use crate::score::{score, similarity, CONFIDENCE_THRESHOLD_BITS};

verus! {

/// The strings held by `v`, as character sequences.
pub open spec fn views(v: Seq<String>) -> Seq<Seq<char>> {
    v.map_values(|s: String| s@)
}

/// Whether candidate `c` scores strictly above the confidence threshold
/// against target `t`.
pub open spec fn survives(t: Seq<char>, c: Seq<char>) -> bool {
    score(t, c) > CONFIDENCE_THRESHOLD_BITS
}

/// Where `c` goes in `r`: just after the last entry, counted from the back,
/// whose score does not exceed the score of `c`.
pub open spec fn insert_pos(t: Seq<char>, r: Seq<Seq<char>>, c: Seq<char>) -> int
    decreases r.len(),
{
    if r.len() == 0 {
        0
    } else if score(t, r.last()) <= score(t, c) {
        r.len() as int
    } else {
        insert_pos(t, r.drop_last(), c)
    }
}

/// The ranked suggestions for target `t` among candidates `cs`: the
/// surviving candidates, stably sorted by ascending score.
pub open spec fn ranked(t: Seq<char>, cs: Seq<Seq<char>>) -> Seq<Seq<char>>
    decreases cs.len(),
{
    if cs.len() == 0 {
        Seq::empty()
    } else {
        let r = ranked(t, cs.drop_last());
        let c = cs.last();
        if survives(t, c) {
            r.insert(insert_pos(t, r, c), c)
        } else {
            r
        }
    }
}

/// The best suggestion for target `t` among candidates `cs`: the surviving
/// candidate of highest score, the latest in input order among equals; none
/// when nothing survives.
pub open spec fn best(t: Seq<char>, cs: Seq<Seq<char>>) -> Option<Seq<char>>
    decreases cs.len(),
{
    if cs.len() == 0 {
        None
    } else {
        let b = best(t, cs.drop_last());
        let c = cs.last();
        if survives(t, c) && (b is None || score(t, b->0) <= score(t, c)) {
            Some(c)
        } else {
            b
        }
    }
}

/// Whether the scores along `s` never decrease.
pub open spec fn ascending(t: Seq<char>, s: Seq<Seq<char>>) -> bool {
    forall|i: int, j: int| 0 <= i < j < s.len() ==> score(t, s[i]) <= score(t, s[j])
}

proof fn lemma_insert_pos_bounds(t: Seq<char>, r: Seq<Seq<char>>, c: Seq<char>)
    ensures
        0 <= insert_pos(t, r, c) <= r.len(),
        forall|j: int|
            insert_pos(t, r, c) <= j < r.len() ==> score(t, #[trigger] r[j]) > score(t, c),
        insert_pos(t, r, c) > 0 ==> score(t, r[insert_pos(t, r, c) - 1]) <= score(t, c),
    decreases r.len(),
{
    if r.len() > 0 && score(t, r.last()) > score(t, c) {
        let d = r.drop_last();
        lemma_insert_pos_bounds(t, d, c);
        assert forall|j: int| insert_pos(t, r, c) <= j < r.len() implies score(t, #[trigger] r[j]) > score(t, c) by {
            if j < d.len() {
                assert(r[j] == d[j]);
            }
        }
        if insert_pos(t, d, c) > 0 {
            assert(r[insert_pos(t, d, c) - 1] == d[insert_pos(t, d, c) - 1]);
        }
    }
}

proof fn lemma_insert_pos_at(t: Seq<char>, r: Seq<Seq<char>>, c: Seq<char>, p: int)
    requires
        0 <= p <= r.len(),
        forall|j: int| p <= j < r.len() ==> score(t, #[trigger] r[j]) > score(t, c),
        p > 0 ==> score(t, r[p - 1]) <= score(t, c),
    ensures
        insert_pos(t, r, c) == p,
    decreases r.len(),
{
    if r.len() > 0 && p < r.len() {
        assert(score(t, r[r.len() - 1]) > score(t, c));
        let d = r.drop_last();
        assert forall|j: int| p <= j < d.len() implies score(t, #[trigger] d[j]) > score(t, c) by {
            assert(d[j] == r[j]);
        }
        if p > 0 {
            assert(d[p - 1] == r[p - 1]);
        }
        lemma_insert_pos_at(t, d, c, p);
    }
}

/// Every ranked suggestion scores strictly above the confidence threshold.
pub proof fn lemma_ranked_survive(t: Seq<char>, cs: Seq<Seq<char>>)
    ensures
        forall|i: int| 0 <= i < ranked(t, cs).len() ==> survives(t, #[trigger] ranked(t, cs)[i]),
    decreases cs.len(),
{
    if cs.len() > 0 {
        lemma_ranked_survive(t, cs.drop_last());
        let r = ranked(t, cs.drop_last());
        if survives(t, cs.last()) {
            lemma_insert_pos_bounds(t, r, cs.last());
            let q = r.insert(insert_pos(t, r, cs.last()), cs.last());
            assert forall|i: int| 0 <= i < q.len() implies survives(t, #[trigger] q[i]) by {
                let p = insert_pos(t, r, cs.last());
                if i < p {
                    assert(q[i] == r[i]);
                } else if i > p {
                    assert(q[i] == r[i - 1]);
                }
            }
        }
    }
}

/// A candidate that does not score strictly above the confidence threshold
/// never appears among the ranked suggestions.
pub proof fn lemma_excluded_never_ranked(t: Seq<char>, cs: Seq<Seq<char>>, c: Seq<char>)
    requires
        score(t, c) <= CONFIDENCE_THRESHOLD_BITS,
    ensures
        !ranked(t, cs).contains(c),
{
    lemma_ranked_survive(t, cs);
}

/// The ranked suggestions are the surviving candidates, each as often as
/// it occurs among the candidates, in some order.
pub proof fn lemma_ranked_permutes_survivors(t: Seq<char>, cs: Seq<Seq<char>>)
    ensures
        ranked(t, cs).to_multiset() == cs.filter(|c: Seq<char>| survives(t, c)).to_multiset(),
    decreases cs.len(),
{
    reveal(Seq::filter);
    if cs.len() == 0 {
        assert(ranked(t, cs) =~= cs.filter(|c: Seq<char>| survives(t, c)));
    } else {
        lemma_ranked_permutes_survivors(t, cs.drop_last());
        let r = ranked(t, cs.drop_last());
        let c = cs.last();
        let f = cs.drop_last().filter(|c: Seq<char>| survives(t, c));
        if survives(t, c) {
            lemma_insert_pos_bounds(t, r, c);
            vstd::seq_lib::to_multiset_insert(r, insert_pos(t, r, c), c);
            f.to_multiset_ensures();
        }
    }
}

/// The scores of the ranked suggestions never decrease along the sequence.
pub proof fn lemma_ranked_ascending(t: Seq<char>, cs: Seq<Seq<char>>)
    ensures
        ascending(t, ranked(t, cs)),
    decreases cs.len(),
{
    if cs.len() > 0 {
        lemma_ranked_ascending(t, cs.drop_last());
        let r = ranked(t, cs.drop_last());
        let c = cs.last();
        if survives(t, c) {
            lemma_insert_pos_bounds(t, r, c);
            let p = insert_pos(t, r, c);
            let q = r.insert(p, c);
            assert forall|i: int, j: int| 0 <= i < j < q.len() implies score(t, q[i]) <= score(t, q[j]) by {
                if j < p {
                    assert(q[i] == r[i] && q[j] == r[j]);
                } else if j == p {
                    assert(q[i] == r[i]);
                    assert(score(t, r[i]) <= score(t, r[p - 1]));
                } else if i < p {
                    assert(q[i] == r[i] && q[j] == r[j - 1]);
                } else if i == p {
                    assert(q[j] == r[j - 1]);
                } else {
                    assert(q[i] == r[i - 1] && q[j] == r[j - 1]);
                }
            }
        }
    }
}

/// The best suggestion is the last of the ranked suggestions, and there is
/// none exactly when the ranking is empty.
pub proof fn lemma_best_is_last_ranked(t: Seq<char>, cs: Seq<Seq<char>>)
    ensures
        best(t, cs) == (if ranked(t, cs).len() == 0 {
            None
        } else {
            Some(ranked(t, cs).last())
        }),
    decreases cs.len(),
{
    if cs.len() > 0 {
        lemma_best_is_last_ranked(t, cs.drop_last());
        let r = ranked(t, cs.drop_last());
        let c = cs.last();
        if survives(t, c) {
            lemma_insert_pos_bounds(t, r, c);
            let p = insert_pos(t, r, c);
            let q = r.insert(p, c);
            if p < r.len() {
                assert(q.last() == r.last());
            } else {
                assert(q.last() == c);
            }
        }
    }
}

/// Suggest the candidates of `possible_values` that resemble `target`,
/// ordered from the weakest to the best match.
pub fn provide_suggestions(target: &str, possible_values: &[String]) -> (r: Vec<String>)
    ensures
        views(r@) == ranked(target@, views(possible_values@)),
        ascending(target@, views(r@)),
        forall|i: int| 0 <= i < r@.len() ==> survives(target@, #[trigger] r@[i]@),
        views(r@).to_multiset() == views(possible_values@).filter(
            |c: Seq<char>| survives(target@, c),
        ).to_multiset(),
{
    let mut out: Vec<String> = Vec::new();
    let mut keys: Vec<u64> = Vec::new();
    let mut i: usize = 0;
    while i < possible_values.len()
        invariant
            i <= possible_values@.len(),
            views(out@) == ranked(target@, views(possible_values@).take(i as int)),
            keys@.len() == out@.len(),
            forall|j: int| 0 <= j < keys@.len() ==> keys@[j] == score(target@, #[trigger] out@[j]@),
        decreases possible_values@.len() - i,
    {
        let c = &possible_values[i];
        let k = similarity(target, c.as_str());
        assert(views(possible_values@).take(i + 1).drop_last() =~= views(possible_values@).take(i as int));
        if k > CONFIDENCE_THRESHOLD_BITS {
            let mut p: usize = out.len();
            while p > 0 && keys[p - 1] > k
                invariant
                    p <= keys@.len(),
                    keys@.len() == out@.len(),
                    forall|j: int| 0 <= j < keys@.len() ==> keys@[j] == score(target@, #[trigger] out@[j]@),
                    forall|j: int| p <= j < keys@.len() ==> #[trigger] keys@[j] > k,
                decreases p,
            {
                p = p - 1;
            }
            proof {
                assert forall|j: int| p <= j < views(out@).len() implies score(target@, #[trigger] views(out@)[j]) > score(target@, c@) by {
                    assert(keys@[j] > k);
                }
                if p > 0 {
                    assert(keys@[p - 1] <= k);
                }
                lemma_insert_pos_at(target@, views(out@), c@, p as int);
            }
            let ghost before = out@;
            out.insert(p, c.clone());
            keys.insert(p, k);
            assert(views(out@) =~= views(before).insert(p as int, c@));
        }
        i = i + 1;
    }
    assert(views(possible_values@).take(i as int) =~= views(possible_values@));
    proof {
        lemma_ranked_ascending(target@, views(possible_values@));
        lemma_ranked_survive(target@, views(possible_values@));
        lemma_ranked_permutes_survivors(target@, views(possible_values@));
        assert forall|i: int| 0 <= i < out@.len() implies survives(target@, #[trigger] out@[i]@) by {
            assert(views(out@)[i] == out@[i]@);
        }
    }
    out
}

/// Suggest the single candidate of `possible_values` that best resembles
/// `target`: the highest-scoring survivor, the latest in input order among
/// equals, or `None` when no candidate is similar enough.
pub fn provide_a_suggestion(target: &str, possible_values: &[String]) -> (r: Option<String>)
    ensures
        match r {
            None => best(target@, views(possible_values@)) is None,
            Some(s) => best(target@, views(possible_values@)) == Some(s@),
        },
{
    let mut ranking = provide_suggestions(target, possible_values);
    proof {
        lemma_best_is_last_ranked(target@, views(possible_values@));
        if ranking@.len() > 0 {
            assert(views(ranking@).last() == ranking@.last()@);
        }
    }
    ranking.pop()
}

} // verus!
