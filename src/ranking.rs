//! Fuzzy ranking of windows against a query.
use vstd::prelude::*;
use fuzzy_matcher::skim::SkimMatcherV2;
use fuzzy_matcher::FuzzyMatcher;
use crate::window::{views_of, WindowInfo, WindowView};

verus! {

/// The score that the skim fuzzy matcher, with its default settings, gives to
/// `choice` for `pattern`; `None` when the pattern does not match.
pub uninterp spec fn skim_score(choice: Seq<char>, pattern: Seq<char>) -> Option<i64>;

/// Relies on `fuzzy_matcher::skim::SkimMatcherV2::fuzzy_match` with the default
/// matcher: the score is a function of the two strings alone (the matcher's
/// caches are scratch space), and an empty pattern scores `Some(0)`.
#[verifier::external_body]
fn fuzzy_score(choice: &str, pattern: &str) -> (r: Option<i64>)
    ensures
        r == skim_score(choice@, pattern@),
        pattern@.len() == 0 ==> r == Some(0i64),
{
    SkimMatcherV2::default().fuzzy_match(choice, pattern)
}

/// The score of a window for a query: the better of its name's and its info's
/// scores, the one that matches if only one does, `None` if neither does.
pub open spec fn window_score(w: WindowView, q: Seq<char>) -> Option<i64> {
    best_score(skim_score(w.name, q), skim_score(w.info, q))
}

/// The better of two optional scores; `None` only when both are.
pub open spec fn best_score(a: Option<i64>, b: Option<i64>) -> Option<i64> {
    match (a, b) {
        (Some(x), Some(y)) => Some(if x >= y { x } else { y }),
        (Some(x), None) => Some(x),
        (None, Some(y)) => Some(y),
        (None, None) => None,
    }
}

/// The scores of the windows `ws` for the query `q`, by index.
pub open spec fn scores_of(ws: Seq<WindowView>, q: Seq<char>) -> Seq<Option<i64>> {
    Seq::new(ws.len(), |i: int| window_score(ws[i], q))
}

/// The order of the ranking: the higher score first, and on equal scores the
/// lower index.
pub open spec fn ranks_before(sc: Seq<Option<i64>>, i: int, j: int) -> bool {
    let a = sc[i]->0;
    let b = sc[j]->0;
    a > b || (a == b && i < j)
}

/// `r` holds exactly the indices whose score in `sc` is not `None`, each once,
/// by descending score, equal scores by ascending index.
pub open spec fn is_score_order(sc: Seq<Option<i64>>, r: Seq<usize>) -> bool {
    &&& forall|k: int| 0 <= k < r.len() ==> r[k] < sc.len() && (#[trigger] sc[r[k] as int]) is Some
    &&& forall|j: int| 0 <= j < sc.len() && (#[trigger] sc[j]) is Some ==> exists|k: int| 0 <= k < r.len() && r[k] == j
    &&& forall|a: int, b: int| 0 <= a < b < r.len() ==> ranks_before(sc, r[a] as int, r[b] as int)
}

/// `r` ranks the windows `ws` for the query `q`. For the empty query it is every
/// index in listing order. Otherwise it holds exactly the indices of the windows
/// that match, each once, ordered by descending score, ties in listing order.
pub open spec fn is_ranking(ws: Seq<WindowView>, q: Seq<char>, r: Seq<usize>) -> bool {
    if q.len() == 0 {
        r == Seq::new(ws.len(), |i: int| i as usize)
    } else {
        is_score_order(scores_of(ws, q), r)
    }
}

/// The better of two optional scores, as [`best_score`] defines it.
pub fn combine_scores(name_score: Option<i64>, info_score: Option<i64>) -> (r: Option<i64>)
    ensures
        r == best_score(name_score, info_score),
{
    match (name_score, info_score) {
        (Some(a), Some(b)) => Some(if a >= b { a } else { b }),
        (Some(a), None) => Some(a),
        (None, Some(b)) => Some(b),
        (None, None) => None,
    }
}

/// The score of `w` for `query`, as [`window_score`] defines it.
pub fn score_window(w: &WindowInfo, query: &str) -> (r: Option<i64>)
    ensures
        r == window_score(w@, query@),
{
    let name_score = fuzzy_score(w.name.as_str(), query);
    let info_score = fuzzy_score(w.info.as_str(), query);
    combine_scores(name_score, info_score)
}

/// The indices of the scored entries of `scores`, by descending score, equal
/// scores by ascending index; entries without a score are left out.
pub fn rank_by_score(scores: &Vec<Option<i64>>) -> (r: Vec<usize>)
    ensures
        is_score_order(scores@, r@),
{
    let ghost sc = scores@;
    let n = scores.len();
    // Scored entries with their scores, kept in ranking order.
    let mut scored: Vec<(usize, i64)> = Vec::new();
    let mut i: usize = 0;
    while i < n
        invariant
            i <= n == sc.len(),
            sc == scores@,
            forall|k: int| 0 <= k < scored@.len() ==> (#[trigger] scored@[k]).0 < i && sc[scored@[k].0 as int] == Some(scored@[k].1),
            forall|j: int| 0 <= j < i && (#[trigger] sc[j]) is Some ==> exists|k: int| 0 <= k < scored@.len() && scored@[k].0 == j,
            forall|a: int, b: int| 0 <= a < b < scored@.len() ==> ranks_before(sc, scored@[a].0 as int, scored@[b].0 as int),
        decreases n - i,
    {
        let entry: Option<i64> = scores[i];
        match entry {
            None => {},
            Some(s) => {
                let mut p: usize = 0;
                while p < scored.len() && scored[p].1 >= s
                    invariant
                        p <= scored@.len(),
                        forall|k: int| 0 <= k < p ==> scored@[k].1 >= s,
                    decreases scored@.len() - p,
                {
                    p = p + 1;
                }
                let ghost old_scored = scored@;
                proof {
                    assert forall|k: int| p <= k < old_scored.len() implies old_scored[k].1 < s by {
                        if p < k {
                            assert(ranks_before(sc, old_scored[p as int].0 as int, old_scored[k].0 as int));
                            assert(sc[old_scored[p as int].0 as int] == Some(old_scored[p as int].1));
                            assert(sc[old_scored[k].0 as int] == Some(old_scored[k].1));
                        }
                    }
                }
                scored.insert(p, (i, s));
                proof {
                    assert(scored@ =~= old_scored.insert(p as int, (i, s)));
                    assert forall|k: int| 0 <= k < scored@.len() implies (#[trigger] scored@[k]).0 <= i && sc[scored@[k].0 as int] == Some(scored@[k].1) by {
                        if k < p {
                            assert(scored@[k] == old_scored[k]);
                            assert(sc[old_scored[k].0 as int] == Some(old_scored[k].1));
                        } else if k == p {
                            assert(scored@[k] == (i, s));
                        } else {
                            assert(scored@[k] == old_scored[k - 1]);
                            assert(sc[old_scored[k - 1].0 as int] == Some(old_scored[k - 1].1));
                        }
                    }
                    assert forall|j: int| 0 <= j < i + 1 && (#[trigger] sc[j]) is Some implies exists|k: int| 0 <= k < scored@.len() && scored@[k].0 == j by {
                        if j == i {
                            assert(scored@[p as int].0 == j);
                        } else {
                            let k0 = choose|k: int| 0 <= k < old_scored.len() && old_scored[k].0 == j;
                            if k0 < p {
                                assert(scored@[k0].0 == j);
                            } else {
                                assert(scored@[k0 + 1].0 == j);
                            }
                        }
                    }
                    assert forall|a: int, b: int| 0 <= a < b < scored@.len() implies ranks_before(sc, scored@[a].0 as int, scored@[b].0 as int) by {
                        let oa = if a < p { a } else { a - 1 };
                        let ob = if b <= p { b } else { b - 1 };
                        if a != p && b != p {
                            assert(scored@[a] == old_scored[oa]);
                            assert(scored@[b] == old_scored[ob]);
                            assert(ranks_before(sc, old_scored[oa].0 as int, old_scored[ob].0 as int));
                        } else if a == p {
                            assert(scored@[b] == old_scored[b - 1]);
                            assert(sc[old_scored[b - 1].0 as int] == Some(old_scored[b - 1].1));
                        } else {
                            assert(scored@[a] == old_scored[a]);
                            assert(sc[old_scored[a].0 as int] == Some(old_scored[a].1));
                        }
                    }
                }
            },
        }
        i = i + 1;
    }
    let mut out: Vec<usize> = Vec::new();
    let mut k: usize = 0;
    while k < scored.len()
        invariant
            k <= scored@.len(),
            out@ == Seq::new(k as nat, |m: int| scored@[m].0),
        decreases scored@.len() - k,
    {
        out.push(scored[k].0);
        k = k + 1;
        assert(out@ =~= Seq::new(k as nat, |m: int| scored@[m].0));
    }
    proof {
        assert forall|j: int| 0 <= j < sc.len() && (#[trigger] sc[j]) is Some implies exists|m: int| 0 <= m < out@.len() && out@[m] == j by {
            let k0 = choose|m: int| 0 <= m < scored@.len() && scored@[m].0 == j;
            assert(out@[k0] == j);
        }
        assert forall|m: int| 0 <= m < out@.len() implies out@[m] < sc.len() && (#[trigger] sc[out@[m] as int]) is Some by {
            assert(sc[scored@[m].0 as int] == Some(scored@[m].1));
        }
    }
    out
}

/// Ranks `windows` for `query`: every index in order for the empty query,
/// otherwise the matching windows by descending score, ties in listing order.
pub fn rank_windows(windows: &Vec<WindowInfo>, query: &str) -> (r: Vec<usize>)
    ensures
        is_ranking(views_of(windows@), query@, r@),
{
    let ghost ws = views_of(windows@);
    let n = windows.len();
    if query.is_empty() {
        let mut out: Vec<usize> = Vec::new();
        let mut i: usize = 0;
        while i < n
            invariant
                i <= n == windows@.len(),
                out@ == Seq::new(i as nat, |k: int| k as usize),
            decreases n - i,
        {
            out.push(i);
            i = i + 1;
            assert(out@ =~= Seq::new(i as nat, |k: int| k as usize));
        }
        assert(out@ =~= Seq::new(ws.len(), |k: int| k as usize));
        return out;
    }
    let mut scores: Vec<Option<i64>> = Vec::new();
    let mut i: usize = 0;
    while i < n
        invariant
            i <= n == windows@.len(),
            ws == views_of(windows@),
            scores@ == scores_of(ws, query@).subrange(0, i as int),
        decreases n - i,
    {
        let s = score_window(&windows[i], query);
        scores.push(s);
        i = i + 1;
        assert(scores@ =~= scores_of(ws, query@).subrange(0, i as int));
    }
    assert(scores@ =~= scores_of(ws, query@));
    rank_by_score(&scores)
}

proof fn lemma_orders_agree_up_to(sc: Seq<Option<i64>>, r1: Seq<usize>, r2: Seq<usize>, n: int)
    requires
        is_score_order(sc, r1),
        is_score_order(sc, r2),
        0 <= n <= r1.len(),
        n <= r2.len(),
    ensures
        forall|k: int| 0 <= k < n ==> r1[k] == r2[k],
    decreases n,
{
    if n > 0 {
        lemma_orders_agree_up_to(sc, r1, r2, n - 1);
        let m = n - 1;
        let x = r1[m];
        let y = r2[m];
        assert(sc[x as int] is Some);
        assert(sc[y as int] is Some);
        let j = choose|k: int| 0 <= k < r2.len() && r2[k] == x;
        let i = choose|k: int| 0 <= k < r1.len() && r1[k] == y;
        if j < m {
            assert(ranks_before(sc, r1[j] as int, r1[m] as int));
        }
        if i < m {
            assert(ranks_before(sc, r2[i] as int, r2[m] as int));
        }
        if x != y {
            assert(ranks_before(sc, r2[m] as int, r2[j] as int));
            assert(ranks_before(sc, r1[m] as int, r1[i] as int));
        }
    }
}

/// The order by score is determined by the scores: two sequences that both
/// order the same scores are the same sequence.
pub proof fn lemma_score_order_unique(sc: Seq<Option<i64>>, r1: Seq<usize>, r2: Seq<usize>)
    requires
        is_score_order(sc, r1),
        is_score_order(sc, r2),
    ensures
        r1 == r2,
{
    let n = if r1.len() <= r2.len() { r1.len() as int } else { r2.len() as int };
    lemma_orders_agree_up_to(sc, r1, r2, n);
    if r1.len() > r2.len() {
        let x = r1[n];
        assert(sc[x as int] is Some);
        let j = choose|k: int| 0 <= k < r2.len() && r2[k] == x;
        assert(ranks_before(sc, r1[j] as int, r1[n] as int));
    }
    if r2.len() > r1.len() {
        let x = r2[n];
        assert(sc[x as int] is Some);
        let j = choose|k: int| 0 <= k < r1.len() && r1[k] == x;
        assert(ranks_before(sc, r2[j] as int, r2[n] as int));
    }
    assert(r1 =~= r2);
}

/// Ranking is deterministic: two rankings of the same windows for the same
/// query are the same sequence, so ranking again gives the same order.
pub proof fn lemma_ranking_unique(
    ws: Seq<WindowView>,
    q: Seq<char>,
    r1: Seq<usize>,
    r2: Seq<usize>,
)
    requires
        is_ranking(ws, q, r1),
        is_ranking(ws, q, r2),
    ensures
        r1 == r2,
{
    if q.len() > 0 {
        lemma_score_order_unique(scores_of(ws, q), r1, r2);
    }
}

} // verus!
