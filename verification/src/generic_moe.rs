//! Mixture-of-experts routing: expert selection and the dispatch plan of a prefill.

use vstd::multiset::Multiset;
use vstd::prelude::*;

use crate::float_order::{exceeds, order_key};
use crate::generic_mlp::GenericMLP;

verus! {

/// The largest number of experts that a router ranks.
pub const MAX_EXPERTS: usize = 256;

/// The largest number of experts that one token is routed to.
pub const MAX_EXPERTS_PER_TOKEN: usize = 8;

/// The key that orders the score of expert `i`.
pub open spec fn score_key(values: Seq<u32>, i: int) -> int {
    crate::float_order::order_key_spec(values[i])
}

/// `picked` lists the best `picked.len()` experts of `values`, best first: each
/// with its score, none twice, and none left out that scores higher than one listed.
pub open spec fn is_top_k(values: Seq<u32>, picked: Seq<(usize, u32)>) -> bool {
    &&& forall|i: int| 0 <= i < picked.len() ==> (#[trigger] picked[i]).0 < values.len()
        && picked[i].1 == values[picked[i].0 as int]
    &&& forall|i: int, j: int| 0 <= i < j < picked.len() ==> (#[trigger] picked[i]).0 != (
        #[trigger] picked[j]).0
    &&& forall|i: int, j: int| 0 <= i < j < picked.len() ==> score_key(
        values,
        (#[trigger] picked[i]).0 as int,
    ) >= score_key(values, (#[trigger] picked[j]).0 as int)
    &&& forall|i: int, e: int|
        0 <= i < picked.len() && 0 <= e < values.len() && !is_picked(picked, e)
            ==> score_key(values, (#[trigger] picked[i]).0 as int) >= #[trigger] score_key(values, e)
}

/// Whether expert `e` is among `picked`.
pub open spec fn is_picked(picked: Seq<(usize, u32)>, e: int) -> bool {
    exists|i: int| 0 <= i < picked.len() && (#[trigger] picked[i]).0 == e
}

/// Writes the `k` best experts of `values` to the front of `out`, best first, and
/// returns how many there are: `k`, or every expert where there are fewer.
pub fn top_k_indices(values: &[u32], k: usize, out: &mut [(usize, u32)]) -> (n: usize)
    requires
        values@.len() <= MAX_EXPERTS,
        old(out)@.len() >= (if k <= values@.len() { k as int } else { values@.len() as int }),
    ensures
        n == (if k <= values@.len() { k as int } else { values@.len() as int }),
        final(out)@.len() == old(out)@.len(),
        is_top_k(values@, final(out)@.take(n as int)),
        final(out)@.skip(n as int) == old(out)@.skip(n as int),
{
    let len: usize = values.len();
    let n: usize = if k <= len { k } else { len };
    let ghost before = out@;
    let mut taken: Vec<bool> = vec![false; len];
    let mut m: usize = 0;
    while m < n
        invariant
            m <= n <= len,
            len == values@.len(),
            n <= out@.len(),
            before == old(out)@,
            out@.len() == before.len(),
            taken@.len() == len,
            is_top_k(values@, out@.take(m as int)),
            forall|e: int| 0 <= e < len ==> #[trigger] taken@[e] == is_picked(out@.take(m as int), e),
            forall|i: int| n <= i < out@.len() ==> out@[i] == before[i],
        decreases n - m,
    {
        let ghost picked = out@.take(m as int);
        proof {
            assert(picked.len() < values@.len());
            lemma_some_expert_left(picked, values@.len());
        }
        let mut best: usize = len;
        let mut e: usize = 0;
        while e < len
            invariant
                e <= len,
                len == values@.len(),
                taken@.len() == len,
                best <= len,
                best < len ==> best < e && !taken@[best as int],
                best < len ==> forall|j: int|
                    0 <= j < e && !taken@[j] ==> #[trigger] score_key(values@, j) <= score_key(
                        values@,
                        best as int,
                    ),
                best == len ==> forall|j: int| 0 <= j < e ==> taken@[j],
            decreases len - e,
        {
            if !taken[e] && (best == len || order_key(values[e]) > order_key(values[best])) {
                best = e;
            }
            e = e + 1;
        }
        proof {
            let e = choose|e: int| 0 <= e < len && !is_picked(picked, e);
            assert(!taken@[e]);
        }
        out[m] = (best, values[best]);
        taken.set(best, true);
        proof {
            let next = out@.take(m + 1);
            assert(next =~= picked.push((best, values@[best as int])));
            assert forall|e: int| 0 <= e < len implies #[trigger] taken@[e] == is_picked(next, e) by {
                if e == best {
                    assert(next[m as int].0 == e);
                } else if is_picked(picked, e) {
                    let i = choose|i: int| 0 <= i < picked.len() && (#[trigger] picked[i]).0 == e;
                    assert(next[i].0 == e);
                } else if is_picked(next, e) {
                    let i = choose|i: int| 0 <= i < next.len() && (#[trigger] next[i]).0 == e;
                    assert(picked[i].0 == e);
                }
            }
            assert(!is_picked(picked, best as int));
            assert forall|i: int, j: int| 0 <= i < j < next.len() implies (#[trigger] next[i]).0 != (
            #[trigger] next[j]).0 by {
                if j == m {
                    assert(picked[i].0 == next[i].0);
                }
            }
            assert forall|i: int, e: int|
                0 <= i < next.len() && 0 <= e < values@.len() && !is_picked(next, e) implies score_key(
                values@,
                (#[trigger] next[i]).0 as int,
            ) >= #[trigger] score_key(values@, e) by {
                assert(!taken@[e]);
                if is_picked(picked, e) {
                    let w = choose|w: int| 0 <= w < picked.len() && (#[trigger] picked[w]).0 == e;
                    assert(next[w].0 == e);
                }
                if i < m {
                    assert(picked[i] == next[i]);
                }
            }
        }
        m = m + 1;
    }
    proof {
        assert(out@.skip(n as int) =~= before.skip(n as int));
    }
    n
}

/// Fewer picks than experts leave some expert unpicked.
proof fn lemma_some_expert_left(picked: Seq<(usize, u32)>, len: nat)
    requires
        picked.len() < len,
    ensures
        exists|e: int| 0 <= e < len && !is_picked(picked, e),
    decreases len,
{
    if is_picked(picked, len - 1) {
        let i = choose|i: int| 0 <= i < picked.len() && (#[trigger] picked[i]).0 == len - 1;
        let rest = picked.remove(i);
        lemma_some_expert_left(rest, (len - 1) as nat);
        let e = choose|e: int| 0 <= e < len - 1 && !is_picked(rest, e);
        if is_picked(picked, e) {
            let j = choose|j: int| 0 <= j < picked.len() && (#[trigger] picked[j]).0 == e;
            if j < i {
                assert(rest[j].0 == e);
            } else {
                assert(rest[j - 1].0 == e);
            }
        }
        assert(!is_picked(picked, e));
    }
}

/// The largest number of experts that can carry a selection bias.
pub const MAX_BIASED_EXPERTS: usize = 128;

/// Routes one token: writes its experts to the front of `out` and returns how many
/// there are.
///
/// `scores` holds the router's activations. Where the layer has a selection bias,
/// `biased` holds the activations with the bias added: the experts are then chosen
/// by `biased`, and carry their weight from `scores`.
pub fn route_token(
    scores: &[u32],
    biased: Option<&[u32]>,
    experts_per_token: usize,
    out: &mut [(usize, u32)],
) -> (n: usize)
    requires
        scores@.len() <= MAX_EXPERTS,
        biased matches Some(b) ==> b@.len() == scores@.len() && b@.len() <= MAX_BIASED_EXPERTS,
        old(out)@.len() >= (if experts_per_token <= scores@.len() {
            experts_per_token as int
        } else {
            scores@.len() as int
        }),
    ensures
        n == (if experts_per_token <= scores@.len() {
            experts_per_token as int
        } else {
            scores@.len() as int
        }),
        final(out)@.len() == old(out)@.len(),
        final(out)@.skip(n as int) == old(out)@.skip(n as int),
        biased is None ==> is_top_k(scores@, final(out)@.take(n as int)),
        biased matches Some(b) ==> {
            &&& is_top_k(b@, reweighted(final(out)@.take(n as int), b@))
            &&& forall|i: int|
                0 <= i < n ==> (#[trigger] final(out)@[i]).0 < scores@.len() && final(out)@[i].1
                    == scores@[final(out)@[i].0 as int]
        },
{
    match biased {
        None => top_k_indices(scores, experts_per_token, out),
        Some(b) => {
            let n: usize = top_k_indices(b, experts_per_token, out);
            let ghost chosen = out@;
            let mut i: usize = 0;
            while i < n
                invariant
                    i <= n <= out@.len(),
                    out@.len() == chosen.len(),
                    b@.len() == scores@.len(),
                    is_top_k(b@, chosen.take(n as int)),
                    forall|j: int| i <= j < chosen.len() ==> out@[j] == chosen[j],
                    forall|j: int| 0 <= j < i ==> (#[trigger] out@[j]).0 == chosen[j].0,
                    forall|j: int|
                        0 <= j < i ==> (#[trigger] out@[j]).0 < scores@.len() && out@[j].1
                            == scores@[out@[j].0 as int],
                decreases n - i,
            {
                proof {
                    assert(chosen.take(n as int)[i as int].0 < b@.len());
                }
                let expert: usize = out[i].0;
                out[i] = (expert, scores[expert]);
                i = i + 1;
            }
            proof {
                assert(out@.skip(n as int) =~= chosen.skip(n as int));
                let front = reweighted(out@.take(n as int), b@);
                assert forall|j: int| 0 <= j < n implies front[j] == chosen.take(n as int)[j] by {
                    assert(out@[j].0 == chosen[j].0);
                    assert(chosen.take(n as int)[j].1 == b@[chosen[j].0 as int]);
                }
                assert(front =~= chosen.take(n as int));
            }
            n
        },
    }
}

/// The same experts with their weights read from `values`.
pub open spec fn reweighted(picked: Seq<(usize, u32)>, values: Seq<u32>) -> Seq<(usize, u32)> {
    Seq::new(picked.len(), |i: int| (picked[i].0, values[picked[i].0 as int]))
}

// ---------------------------------------------------------------------------
// Expert assignments
// ---------------------------------------------------------------------------

/// The entries that one token adds to expert `e`: one for each time that the
/// token's picks name it, in the order of the picks.
pub open spec fn picks_of<W>(picks: Seq<(usize, W)>, token: usize, e: int) -> Seq<(usize, W)>
    decreases picks.len(),
{
    if picks.len() == 0 {
        Seq::empty()
    } else {
        let rest = picks_of(picks.drop_last(), token, e);
        if picks.last().0 == e {
            rest.push((token, picks.last().1))
        } else {
            rest
        }
    }
}

/// The (token, weight) pairs that go to expert `e`, in token order, when token
/// `t` is routed as `routed[t]` says.
pub open spec fn assigned<W>(routed: Seq<Vec<(usize, W)>>, e: int) -> Seq<(usize, W)>
    decreases routed.len(),
{
    if routed.len() == 0 {
        Seq::empty()
    } else {
        assigned(routed.drop_last(), e) + picks_of(
            routed.last()@,
            (routed.len() - 1) as usize,
            e,
        )
    }
}

/// Whether every pick names one of the `num_experts` experts.
pub open spec fn picks_in_range<W>(routed: Seq<Vec<(usize, W)>>, num_experts: int) -> bool {
    forall|t: int, i: int|
        0 <= t < routed.len() && 0 <= i < routed[t]@.len() ==> (#[trigger] routed[t]@[i]).0
            < num_experts
}

/// Turns each token's picks around into each expert's list of tokens.
pub fn build_expert_assignments<W: Copy>(routed: &[Vec<(usize, W)>], num_experts: usize) -> (lists: Vec<
    Vec<(usize, W)>,
>)
    requires
        picks_in_range(routed@, num_experts as int),
    ensures
        lists@.len() == num_experts,
        forall|e: int| 0 <= e < num_experts ==> (#[trigger] lists@[e])@ == assigned(routed@, e),
{
    let mut lists: Vec<Vec<(usize, W)>> = Vec::new();
    let mut made: usize = 0;
    while made < num_experts
        invariant
            made <= num_experts,
            lists@.len() == made,
            forall|e: int| 0 <= e < made ==> (#[trigger] lists@[e])@ == Seq::<(usize, W)>::empty(),
        decreases num_experts - made,
    {
        lists.push(Vec::new());
        made = made + 1;
    }
    let mut t: usize = 0;
    while t < routed.len()
        invariant
            t <= routed@.len(),
            picks_in_range(routed@, num_experts as int),
            lists@.len() == num_experts,
            forall|e: int|
                0 <= e < num_experts ==> (#[trigger] lists@[e])@ == assigned(
                    routed@.take(t as int),
                    e,
                ),
        decreases routed@.len() - t,
    {
        let ghost start = lists@;
        let mut i: usize = 0;
        while i < routed[t].len()
            invariant
                t < routed@.len(),
                i <= routed@[t as int]@.len(),
                picks_in_range(routed@, num_experts as int),
                lists@.len() == num_experts,
                start.len() == num_experts,
                forall|e: int|
                    0 <= e < num_experts ==> (#[trigger] lists@[e])@ == start[e]@ + picks_of(
                        routed@[t as int]@.take(i as int),
                        t,
                        e,
                    ),
            decreases routed@[t as int]@.len() - i,
        {
            let pick = routed[t][i];
            let ghost before = lists@;
            lists[pick.0].push((t, pick.1));
            proof {
                let picks = routed@[t as int]@;
                assert(picks.take(i + 1).drop_last() =~= picks.take(i as int));
                assert forall|e: int| 0 <= e < num_experts implies (#[trigger] lists@[e])@ == start[e]@
                    + picks_of(picks.take(i + 1), t, e) by {
                    assert(before[e]@ == start[e]@ + picks_of(picks.take(i as int), t, e));
                }
            }
            i = i + 1;
        }
        proof {
            assert(routed@.take(t + 1).drop_last() =~= routed@.take(t as int));
            assert(routed@[t as int]@.take(i as int) =~= routed@[t as int]@);
        }
        t = t + 1;
    }
    proof {
        assert(routed@.take(t as int) =~= routed@);
    }
    lists
}

// ---------------------------------------------------------------------------
// Flattening
// ---------------------------------------------------------------------------

/// One expert that has work: where its tokens stand in the flat arrays, how many
/// there are, and the row at which its outputs start.
#[derive(Clone, Copy, Debug, PartialEq, Eq, Structural)]
pub struct ActiveExpert {
    pub expert_id: usize,
    pub flat_offset: usize,
    pub count: usize,
    pub out_offset: usize,
}

/// The lists of all experts, one after the other.
pub struct FlatAssignments<W> {
    pub token_indices: Vec<usize>,
    pub weights: Vec<W>,
    pub active: Vec<ActiveExpert>,
}

/// The parts, one after the other.
pub open spec fn joined<A>(parts: Seq<Seq<A>>) -> Seq<A>
    decreases parts.len(),
{
    if parts.len() == 0 {
        Seq::empty()
    } else {
        joined(parts.drop_last()) + parts.last()
    }
}

/// The contents of each vector.
pub open spec fn contents<A>(vecs: Seq<Vec<A>>) -> Seq<Seq<A>> {
    Seq::new(vecs.len(), |i: int| vecs[i]@)
}

/// One entry for each list that is not empty, in expert order.
pub open spec fn active_of<W>(lists: Seq<Seq<(usize, W)>>) -> Seq<ActiveExpert>
    decreases lists.len(),
{
    if lists.len() == 0 {
        Seq::empty()
    } else {
        let rest = active_of(lists.drop_last());
        if lists.last().len() == 0 {
            rest
        } else {
            let offset = joined(lists.drop_last()).len() as usize;
            rest.push(
                ActiveExpert {
                    expert_id: (lists.len() - 1) as usize,
                    flat_offset: offset,
                    count: lists.last().len() as usize,
                    out_offset: offset,
                },
            )
        }
    }
}

/// Joins the experts' lists into contiguous arrays and records where each
/// expert's part stands.
pub fn flatten_assignments<W: Copy>(lists: &[Vec<(usize, W)>]) -> (flat: FlatAssignments<W>)
    ensures
        flat.token_indices@ == joined(contents(lists@)).map_values(|p: (usize, W)| p.0),
        flat.weights@ == joined(contents(lists@)).map_values(|p: (usize, W)| p.1),
        flat.active@ == active_of(contents(lists@)),
{
    let ghost all = contents(lists@);
    let mut token_indices: Vec<usize> = Vec::new();
    let mut weights: Vec<W> = Vec::new();
    let mut active: Vec<ActiveExpert> = Vec::new();
    let mut e: usize = 0;
    while e < lists.len()
        invariant
            e <= lists@.len(),
            all == contents(lists@),
            token_indices@ == joined(all.take(e as int)).map_values(|p: (usize, W)| p.0),
            weights@ == joined(all.take(e as int)).map_values(|p: (usize, W)| p.1),
            active@ == active_of(all.take(e as int)),
        decreases lists@.len() - e,
    {
        let ghost done = joined(all.take(e as int));
        let ghost list = lists@[e as int]@;
        proof {
            assert(all.take(e + 1).drop_last() =~= all.take(e as int));
        }
        let count: usize = lists[e].len();
        if count > 0 {
            let offset: usize = token_indices.len();
            let mut i: usize = 0;
            while i < count
                invariant
                    e < lists@.len(),
                    list == lists@[e as int]@,
                    i <= count == list.len(),
                    token_indices@ == (done + list.take(i as int)).map_values(
                        |p: (usize, W)| p.0,
                    ),
                    weights@ == (done + list.take(i as int)).map_values(|p: (usize, W)| p.1),
                decreases count - i,
            {
                let pair = lists[e][i];
                token_indices.push(pair.0);
                weights.push(pair.1);
                proof {
                    assert(done + list.take(i + 1) =~= (done + list.take(i as int)).push(pair));
                    assert(token_indices@ =~= (done + list.take(i + 1)).map_values(
                        |p: (usize, W)| p.0,
                    ));
                    assert(weights@ =~= (done + list.take(i + 1)).map_values(
                        |p: (usize, W)| p.1,
                    ));
                }
                i = i + 1;
            }
            active.push(
                ActiveExpert { expert_id: e, flat_offset: offset, count, out_offset: offset },
            );
            proof {
                assert(list.take(count as int) =~= list);
            }
        } else {
            proof {
                assert(done + list =~= done);
            }
        }
        e = e + 1;
    }
    proof {
        assert(all.take(e as int) =~= all);
    }
    FlatAssignments { token_indices, weights, active }
}

// ---------------------------------------------------------------------------
// Load-balanced scheduling
// ---------------------------------------------------------------------------

/// Whether the entries stand in order of falling token count.
pub open spec fn counts_descend(active: Seq<ActiveExpert>) -> bool {
    forall|i: int, j: int|
        0 <= i < j < active.len() ==> (#[trigger] active[i]).count >= (#[trigger] active[j]).count
}

/// Orders the entries by falling token count, keeping each of them.
pub fn sort_by_count(active: &mut Vec<ActiveExpert>)
    ensures
        final(active)@.to_multiset() == old(active)@.to_multiset(),
        counts_descend(final(active)@),
        total(counts_of(final(active)@)) == total(counts_of(old(active)@)),
{
    broadcast use vstd::seq_lib::group_to_multiset_ensures;

    let ghost first = active@;
    let mut i: usize = 0;
    while i < active.len()
        invariant
            i <= active@.len(),
            active@.len() == first.len(),
            active@.to_multiset() == first.to_multiset(),
            total(counts_of(active@)) == total(counts_of(first)),
            counts_descend(active@.take(i as int)),
        decreases active@.len() - i,
    {
        let mut j: usize = i;
        proof {
            let sorted = active@.take(i as int);
            assert forall|a: int, b: int| 0 <= a < b <= i && b != i implies (
            #[trigger] active@[a]).count >= (#[trigger] active@[b]).count by {
                assert(sorted[a].count >= sorted[b].count);
            }
        }
        while j > 0 && active[j - 1].count < active[j].count
            invariant
                j <= i < active@.len(),
                active@.len() == first.len(),
                active@.to_multiset() == first.to_multiset(),
                total(counts_of(active@)) == total(counts_of(first)),
                forall|a: int, b: int|
                    0 <= a < b <= i && b != j ==> (#[trigger] active@[a]).count >= (
                    #[trigger] active@[b]).count,
            decreases j,
        {
            let ghost before = active@;
            let low = active[j - 1];
            let high = active[j];
            active.set(j - 1, high);
            active.set(j, low);
            proof {
                lemma_swap_keeps_multiset(before, j - 1, j as int);
                assert(active@ =~= before.update(j - 1, before[j as int]).update(
                    j as int,
                    before[j - 1],
                ));
                let counts = counts_of(before);
                let mid = counts.update(j - 1, counts[j as int]);
                lemma_total_update(counts, j - 1, counts[j as int]);
                lemma_total_update(mid, j as int, counts[j - 1]);
                assert(counts_of(active@) =~= mid.update(j as int, counts[j - 1]));
            }
            j = j - 1;
        }
        i = i + 1;
    }
    proof {
        assert(active@.take(i as int) =~= active@);
    }
}

/// Exchanging two elements keeps the multiset.
proof fn lemma_swap_keeps_multiset<A>(s: Seq<A>, i: int, j: int)
    requires
        0 <= i < j < s.len(),
    ensures
        s.update(i, s[j]).update(j, s[i]).to_multiset() == s.to_multiset(),
{
    broadcast use vstd::seq_lib::group_to_multiset_ensures;

    let mid = s.update(i, s[j]);
    assert(mid.to_multiset() =~= s.to_multiset().insert(s[j]).remove(s[i]));
    let end = mid.update(j, s[i]);
    assert(mid[j] == s[j]);
    assert(end.to_multiset() =~= mid.to_multiset().insert(s[i]).remove(s[j]));
    assert(end.to_multiset() =~= s.to_multiset());
}

/// The token counts of the entries.
pub open spec fn counts_of(active: Seq<ActiveExpert>) -> Seq<int> {
    active.map_values(|a: ActiveExpert| a.count as int)
}

/// The sum of a sequence of loads.
pub open spec fn total(loads: Seq<int>) -> int
    decreases loads.len(),
{
    if loads.len() == 0 {
        0
    } else {
        total(loads.drop_last()) + loads.last()
    }
}

/// The first position that holds the smallest load.
pub open spec fn least_loaded(loads: Seq<int>) -> int
    decreases loads.len(),
{
    if loads.len() <= 1 {
        0
    } else {
        let rest = least_loaded(loads.drop_last());
        if loads.last() < loads[rest] {
            loads.len() - 1
        } else {
            rest
        }
    }
}

/// What each of `workers` workers has to do once every job of `counts` was given,
/// in order, to the worker that had the least to do.
pub open spec fn schedule_loads(counts: Seq<int>, workers: int) -> Seq<int>
    decreases counts.len(),
{
    if counts.len() == 0 {
        Seq::new(workers as nat, |w: int| 0int)
    } else {
        let rest = schedule_loads(counts.drop_last(), workers);
        let w = least_loaded(rest);
        rest.update(w, rest[w] + counts.last())
    }
}

/// The jobs of each worker, in the order in which they were given.
pub open spec fn schedule_lists(counts: Seq<int>, workers: int) -> Seq<Seq<usize>>
    decreases counts.len(),
{
    if counts.len() == 0 {
        Seq::new(workers as nat, |w: int| Seq::<usize>::empty())
    } else {
        let rest = schedule_lists(counts.drop_last(), workers);
        let w = least_loaded(schedule_loads(counts.drop_last(), workers));
        rest.update(w, rest[w].push((counts.len() - 1) as usize))
    }
}

/// The part of the joined lists that belongs to one worker.
#[derive(Clone, Copy, Debug, PartialEq, Eq, Structural)]
pub struct WorkerRange {
    pub offset: usize,
    pub len: usize,
}

/// A schedule: the workers' jobs one after the other, and each worker's part.
pub struct ExpertSchedule {
    pub assigns: Vec<usize>,
    pub worker_ranges: Vec<WorkerRange>,
}

proof fn lemma_schedule_shape(counts: Seq<int>, workers: int)
    requires
        workers > 0,
        forall|i: int| 0 <= i < counts.len() ==> #[trigger] counts[i] >= 0,
    ensures
        schedule_loads(counts, workers).len() == workers,
        schedule_lists(counts, workers).len() == workers,
        total(schedule_loads(counts, workers)) == total(counts),
        forall|w: int| 0 <= w < workers ==> #[trigger] schedule_loads(counts, workers)[w] >= 0,
    decreases counts.len(),
{
    let loads = schedule_loads(counts, workers);
    if counts.len() == 0 {
        lemma_total_zeros(loads);
    } else {
        let rest = schedule_loads(counts.drop_last(), workers);
        lemma_schedule_shape(counts.drop_last(), workers);
        lemma_least_loaded(rest);
        let w = least_loaded(rest);
        lemma_total_update(rest, w, rest[w] + counts.last());
    }
}

proof fn lemma_total_zeros(loads: Seq<int>)
    requires
        forall|w: int| 0 <= w < loads.len() ==> loads[w] == 0,
    ensures
        total(loads) == 0,
    decreases loads.len(),
{
    if loads.len() > 0 {
        lemma_total_zeros(loads.drop_last());
    }
}

proof fn lemma_total_update(loads: Seq<int>, w: int, load: int)
    requires
        0 <= w < loads.len(),
    ensures
        total(loads.update(w, load)) == total(loads) - loads[w] + load,
    decreases loads.len(),
{
    let last = loads.len() - 1;
    if w == last {
        assert(loads.update(w, load).drop_last() =~= loads.drop_last());
    } else {
        assert(loads.update(w, load).drop_last() =~= loads.drop_last().update(w, load));
        lemma_total_update(loads.drop_last(), w, load);
    }
}

/// No load exceeds the sum of loads that are not negative.
proof fn lemma_load_within_total(loads: Seq<int>, w: int)
    requires
        0 <= w < loads.len(),
        forall|i: int| 0 <= i < loads.len() ==> #[trigger] loads[i] >= 0,
    ensures
        loads[w] <= total(loads),
        total(loads) >= 0,
    decreases loads.len(),
{
    assert(loads[loads.len() - 1] >= 0);
    if loads.len() > 1 {
        if w < loads.len() - 1 {
            lemma_load_within_total(loads.drop_last(), w);
        } else {
            lemma_load_within_total(loads.drop_last(), 0);
        }
    } else {
        assert(total(loads.drop_last()) == 0);
    }
}

/// A prefix of counts that are not negative sums to no more than the whole.
proof fn lemma_total_prefix(counts: Seq<int>, n: int)
    requires
        0 <= n <= counts.len(),
        forall|i: int| 0 <= i < counts.len() ==> #[trigger] counts[i] >= 0,
    ensures
        total(counts.take(n)) <= total(counts),
    decreases counts.len(),
{
    if n == counts.len() {
        assert(counts.take(n) =~= counts);
    } else {
        lemma_total_prefix(counts.drop_last(), n);
        assert(counts.drop_last().take(n) =~= counts.take(n));
    }
}

/// The least loaded worker exists and has no more to do than any other.
pub proof fn lemma_least_loaded(loads: Seq<int>)
    requires
        loads.len() > 0,
    ensures
        0 <= least_loaded(loads) < loads.len(),
        forall|w: int| 0 <= w < loads.len() ==> loads[least_loaded(loads)] <= #[trigger] loads[w],
        forall|w: int|
            0 <= w < least_loaded(loads) ==> loads[least_loaded(loads)] < #[trigger] loads[w],
    decreases loads.len(),
{
    if loads.len() > 1 {
        lemma_least_loaded(loads.drop_last());
        let rest = least_loaded(loads.drop_last());
        assert(loads.drop_last()[rest] == loads[rest]);
        assert forall|w: int| 0 <= w < loads.len() implies loads[least_loaded(loads)]
            <= #[trigger] loads[w] by {
            if w < loads.len() - 1 {
                assert(loads.drop_last()[w] == loads[w]);
            }
        }
        assert forall|w: int| 0 <= w < least_loaded(loads) implies loads[least_loaded(loads)]
            < #[trigger] loads[w] by {
            assert(loads.drop_last()[w] == loads[w]);
        }
    }
}

/// Gives every active expert, in order, to the worker that has the fewest tokens
/// so far (the first such worker where several have), and lays the workers' lists
/// out one after the other.
pub fn schedule_experts(active: &[ActiveExpert], workers: usize) -> (schedule: ExpertSchedule)
    requires
        workers > 0,
        total(counts_of(active@)) <= usize::MAX,
    ensures
        schedule.worker_ranges@.len() == workers,
        schedule.assigns@ == joined(schedule_lists(counts_of(active@), workers as int)),
        forall|w: int|
            #![trigger schedule.worker_ranges@[w]]
            0 <= w < workers ==> {
                let lists = schedule_lists(counts_of(active@), workers as int);
                &&& schedule.worker_ranges@[w].offset == joined(lists.take(w)).len()
                &&& schedule.worker_ranges@[w].len == lists[w].len()
            },
{
    let ghost counts = counts_of(active@);
    let mut loads: Vec<usize> = Vec::new();
    let mut lists: Vec<Vec<usize>> = Vec::new();
    while loads.len() < workers
        invariant
            loads@.len() == lists@.len() <= workers,
            forall|w: int| 0 <= w < loads@.len() ==> loads@[w] == 0,
            forall|w: int| 0 <= w < lists@.len() ==> (#[trigger] lists@[w])@ == Seq::<usize>::empty(),
        decreases workers - loads@.len(),
    {
        loads.push(0);
        lists.push(Vec::new());
    }
    proof {
        assert(counts.take(0) =~= Seq::<int>::empty());
    }
    let mut idx: usize = 0;
    while idx < active.len()
        invariant
            workers > 0,
            idx <= active@.len(),
            counts == counts_of(active@),
            total(counts) <= usize::MAX,
            loads@.len() == workers,
            lists@.len() == workers,
            schedule_loads(counts.take(idx as int), workers as int).len() == workers,
            schedule_lists(counts.take(idx as int), workers as int).len() == workers,
            forall|w: int|
                0 <= w < workers ==> #[trigger] loads@[w] == schedule_loads(
                    counts.take(idx as int),
                    workers as int,
                )[w],
            forall|w: int|
                0 <= w < workers ==> (#[trigger] lists@[w])@ == schedule_lists(
                    counts.take(idx as int),
                    workers as int,
                )[w],
        decreases active@.len() - idx,
    {
        let ghost rest = schedule_loads(counts.take(idx as int), workers as int);
        let ghost rest_lists = schedule_lists(counts.take(idx as int), workers as int);
        let mut min_w: usize = 0;
        let mut w: usize = 1;
        proof {
            assert(least_loaded(rest.take(1)) == 0);
        }
        while w < workers
            invariant
                1 <= w <= workers,
                loads@.len() == workers,
                rest.len() == workers,
                min_w < w,
                min_w == least_loaded(rest.take(w as int)),
                forall|v: int| 0 <= v < workers ==> #[trigger] loads@[v] == rest[v],
            decreases workers - w,
        {
            proof {
                assert(rest.take(w + 1).drop_last() =~= rest.take(w as int));
            }
            if loads[w] < loads[min_w] {
                min_w = w;
            }
            w = w + 1;
        }
        let count: usize = active[idx].count;
        let ghost before = loads@;
        let ghost before_lists = lists@;
        proof {
            assert(rest.take(w as int) =~= rest);
            assert(counts.take(idx + 1).drop_last() =~= counts.take(idx as int));
            assert(counts.take(idx + 1).last() == count);
            lemma_schedule_shape(counts.take(idx as int), workers as int);
            lemma_schedule_shape(counts.take(idx + 1), workers as int);
            lemma_total_prefix(counts, idx + 1);
            lemma_load_within_total(
                schedule_loads(counts.take(idx + 1), workers as int),
                min_w as int,
            );
        }
        lists[min_w].push(idx);
        let load: usize = loads[min_w] + count;
        loads.set(min_w, load);
        idx = idx + 1;
    }
    proof {
        assert(counts.take(idx as int) =~= counts);
    }
    let ghost all = schedule_lists(counts, workers as int);
    let mut assigns: Vec<usize> = Vec::new();
    let mut worker_ranges: Vec<WorkerRange> = Vec::new();
    let mut w: usize = 0;
    while w < workers
        invariant
            w <= workers,
            lists@.len() == workers,
            all.len() == workers,
            forall|v: int| 0 <= v < workers ==> (#[trigger] lists@[v])@ == all[v],
            assigns@ == joined(all.take(w as int)),
            worker_ranges@.len() == w,
            forall|v: int|
                #![trigger worker_ranges@[v]]
                0 <= v < w ==> worker_ranges@[v].offset == joined(all.take(v)).len()
                    && worker_ranges@[v].len == all[v].len(),
        decreases workers - w,
    {
        let offset: usize = assigns.len();
        let len: usize = lists[w].len();
        let ghost done = assigns@;
        let mut i: usize = 0;
        while i < len
            invariant
                w < workers == lists@.len(),
                i <= len == lists@[w as int]@.len(),
                assigns@ == done + lists@[w as int]@.take(i as int),
            decreases len - i,
        {
            assigns.push(lists[w][i]);
            i = i + 1;
        }
        worker_ranges.push(WorkerRange { offset, len });
        proof {
            assert(lists@[w as int]@.take(len as int) =~= all[w as int]);
            assert(all.take(w + 1).drop_last() =~= all.take(w as int));
        }
        w = w + 1;
    }
    proof {
        assert(all.take(w as int) =~= all);
    }
    ExpertSchedule { assigns, worker_ranges }
}

// ---------------------------------------------------------------------------
// The dispatch plan
// ---------------------------------------------------------------------------

/// The list of every expert.
pub open spec fn expert_lists<W>(routed: Seq<Vec<(usize, W)>>, num_experts: int) -> Seq<
    Seq<(usize, W)>,
> {
    Seq::new(num_experts as nat, |e: int| assigned(routed, e))
}

/// Everything that the workers of a parallel prefill need to know: which tokens
/// each expert gets, where its outputs go, and which worker runs it.
pub struct DispatchPlan<W> {
    pub flat: FlatAssignments<W>,
    pub schedule: ExpertSchedule,
}

/// Plans a prefill: lists each expert's tokens, orders the experts by how many
/// they have, and spreads them over at most `num_workers` workers (no more than
/// there are experts with work).
pub fn plan_dispatch<W: Copy>(
    routed: &[Vec<(usize, W)>],
    num_experts: usize,
    num_workers: usize,
) -> (plan: DispatchPlan<W>)
    requires
        num_workers > 0,
        picks_in_range(routed@, num_experts as int),
    ensures
        ({
            let lists = expert_lists(routed@, num_experts as int);
            let workers = plan.schedule.worker_ranges@.len();
            let parts = schedule_lists(counts_of(plan.flat.active@), workers as int);
            &&& plan.flat.token_indices@ == joined(lists).map_values(|p: (usize, W)| p.0)
            &&& plan.flat.weights@ == joined(lists).map_values(|p: (usize, W)| p.1)
            &&& plan.flat.active@.to_multiset() == active_of(lists).to_multiset()
            &&& plan.flat.active@.len() == active_of(lists).len()
            &&& counts_descend(plan.flat.active@)
            &&& workers == (if num_workers as int <= active_of(lists).len() {
                num_workers as int
            } else {
                active_of(lists).len() as int
            })
            &&& plan.schedule.assigns@ == joined(parts)
            &&& forall|w: int|
                #![trigger plan.schedule.worker_ranges@[w]]
                0 <= w < workers ==> plan.schedule.worker_ranges@[w].offset == joined(
                    parts.take(w),
                ).len() && plan.schedule.worker_ranges@[w].len == parts[w].len()
        }),
{
    broadcast use vstd::seq_lib::group_to_multiset_ensures;

    let lists = build_expert_assignments(routed, num_experts);
    let mut flat = flatten_assignments(lists.as_slice());
    proof {
        assert(contents(lists@) =~= expert_lists(routed@, num_experts as int));
        assert(flat.token_indices.len() == joined(contents(lists@)).len());
        lemma_counts_sum(contents(lists@));
    }
    let ghost unsorted = flat.active@;
    sort_by_count(&mut flat.active);
    proof {
        assert(flat.active@.len() == flat.active@.to_multiset().len());
        assert(unsorted.len() == unsorted.to_multiset().len());
    }
    let num_active: usize = flat.active.len();
    if num_active == 0 {
        let schedule = ExpertSchedule { assigns: Vec::new(), worker_ranges: Vec::new() };
        proof {
            assert(counts_of(flat.active@) =~= Seq::<int>::empty());
            assert(schedule_lists(Seq::<int>::empty(), 0) =~= Seq::<Seq<usize>>::empty());
        }
        return DispatchPlan { flat, schedule };
    }
    let workers: usize = if num_workers <= num_active { num_workers } else { num_active };
    let schedule = schedule_experts(flat.active.as_slice(), workers);
    DispatchPlan { flat, schedule }
}

/// The counts of the active experts add up to the length of the joined lists.
proof fn lemma_counts_sum<W>(lists: Seq<Seq<(usize, W)>>)
    requires
        joined(lists).len() <= usize::MAX,
    ensures
        total(counts_of(active_of(lists))) == joined(lists).len(),
    decreases lists.len(),
{
    if lists.len() == 0 {
        assert(counts_of(active_of(lists)) =~= Seq::<int>::empty());
    } else {
        lemma_counts_sum(lists.drop_last());
        let rest = counts_of(active_of(lists.drop_last()));
        if lists.last().len() > 0 {
            let all = counts_of(active_of(lists));
            assert(all.drop_last() =~= rest);
            assert(all.last() == lists.last().len());
        }
    }
}

/// The rows of `x` (each `width` wide) that `rows` names, in that order.
pub open spec fn gathered<T>(x: Seq<T>, width: int, rows: Seq<usize>) -> Seq<T> {
    Seq::new(
        (rows.len() * width) as nat,
        |i: int| x[rows[i / width] * width + i % width],
    )
}

/// Copies the named rows of a row-major matrix next to each other, as the batch
/// that one expert runs on.
pub fn gather_rows<T: Copy>(x: &[T], width: usize, rows: &[usize]) -> (batch: Vec<T>)
    requires
        forall|i: int|
            0 <= i < rows@.len() ==> (#[trigger] rows@[i] + 1) * width <= x@.len(),
    ensures
        batch@ == gathered(x@, width as int, rows@),
{
    if width == 0 {
        let batch: Vec<T> = Vec::new();
        proof {
            assert(rows@.len() * width == 0) by (nonlinear_arith)
                requires
                    width == 0,
            ;
            assert(batch@ =~= gathered(x@, width as int, rows@));
        }
        return batch;
    }
    let x_len: usize = x.len();
    let mut batch: Vec<T> = Vec::new();
    let mut r: usize = 0;
    proof {
        assert(0 * width == 0) by (nonlinear_arith);
        assert(rows@.take(0).len() == 0);
        assert(batch@ =~= gathered(x@, width as int, rows@.take(0)));
    }
    while r < rows.len()
        invariant
            r <= rows@.len(),
            width > 0,
            x_len == x@.len(),
            forall|i: int|
                0 <= i < rows@.len() ==> (#[trigger] rows@[i] + 1) * width <= x@.len(),
            batch@ == gathered(x@, width as int, rows@.take(r as int)),
        decreases rows@.len() - r,
    {
        let row: usize = rows[r];
        proof {
            assert((rows@[r as int] + 1) * width <= x@.len());
            assert(row * width + width <= x@.len()) by (nonlinear_arith)
                requires
                    (row + 1) * width <= x@.len(),
            ;
            assert(row * width >= 0) by (nonlinear_arith);
            assert forall|i: int| 0 <= i < r * width implies #[trigger] batch@[i] == x@[rows@[i
                / width as int] * width + i % width as int] by {
                assert(width * r == r * width) by (nonlinear_arith);
                vstd::arithmetic::div_mod::lemma_multiply_divide_lt(i, width as int, r as int);
            }
        }
        let start: usize = row * width;
        let mut d: usize = 0;
        while d < width
            invariant
                r < rows@.len(),
                width > 0,
                d <= width,
                row == rows@[r as int],
                start == row * width,
                start + width <= x_len == x@.len(),
                batch@.len() == r * width + d,
                forall|i: int|
                    0 <= i < r * width + d ==> #[trigger] batch@[i] == x@[rows@[i / width as int]
                        * width + i % width as int],
            decreases width - d,
        {
            batch.push(x[start + d]);
            proof {
                vstd::arithmetic::div_mod::lemma_fundamental_div_mod_converse(
                    r * width + d,
                    width as int,
                    r as int,
                    d as int,
                );
            }
            d = d + 1;
        }
        proof {
            assert(r * width + width == (r + 1) * width) by (nonlinear_arith);
            let next = gathered(x@, width as int, rows@.take(r + 1));
            assert forall|i: int| 0 <= i < (r + 1) * width implies #[trigger] batch@[i] == next[i] by {
                assert(width * (r + 1) == (r + 1) * width) by (nonlinear_arith);
                vstd::arithmetic::div_mod::lemma_multiply_divide_lt(i, width as int, r + 1);
                assert(rows@.take(r + 1)[i / width as int] == rows@[i / width as int]);
            }
            assert(batch@ =~= next);
        }
        r = r + 1;
    }
    proof {
        assert(rows@.take(r as int) =~= rows@);
    }
    batch
}

// ---------------------------------------------------------------------------
// Laws
// ---------------------------------------------------------------------------

/// How many picks the tokens make together.
pub open spec fn pick_count<W>(routed: Seq<Vec<(usize, W)>>) -> int
    decreases routed.len(),
{
    if routed.len() == 0 {
        0
    } else {
        pick_count(routed.drop_last()) + routed.last()@.len()
    }
}

/// Every pick of every token ends up in exactly one expert's list: the lists
/// together are as long as the tokens have picks.
pub proof fn law_every_pick_is_dispatched<W>(routed: Seq<Vec<(usize, W)>>, num_experts: int)
    requires
        num_experts >= 0,
        picks_in_range(routed, num_experts),
    ensures
        joined(expert_lists(routed, num_experts)).len() == pick_count(routed),
    decreases routed.len(),
{
    let lists = expert_lists(routed, num_experts);
    if routed.len() == 0 {
        lemma_joined_empties(lists);
    } else {
        let rest = routed.drop_last();
        assert(picks_in_range(rest, num_experts)) by {
            assert forall|t: int, i: int|
                0 <= t < rest.len() && 0 <= i < rest[t]@.len() implies (#[trigger] rest[t]@[i]).0
                < num_experts by {
                assert(routed[t]@[i].0 < num_experts);
            }
        }
        law_every_pick_is_dispatched(rest, num_experts);
        let token = (routed.len() - 1) as usize;
        let picks = routed.last()@;
        assert forall|i: int| 0 <= i < picks.len() implies (#[trigger] picks[i]).0 < num_experts by {
            assert(routed[routed.len() - 1]@[i].0 < num_experts);
        }
        let added = Seq::new(num_experts as nat, |e: int| picks_of(picks, token, e));
        lemma_picks_split(picks, token, num_experts);
        assert(lists =~= Seq::new(
            num_experts as nat,
            |e: int| expert_lists(rest, num_experts)[e] + added[e],
        ));
        lemma_joined_sums(expert_lists(rest, num_experts), added, lists);
    }
}

proof fn lemma_joined_empties<A>(parts: Seq<Seq<A>>)
    requires
        forall|i: int| 0 <= i < parts.len() ==> (#[trigger] parts[i]).len() == 0,
    ensures
        joined(parts).len() == 0,
    decreases parts.len(),
{
    if parts.len() > 0 {
        lemma_joined_empties(parts.drop_last());
    }
}

/// Lengths add up part by part.
proof fn lemma_joined_sums<A>(a: Seq<Seq<A>>, b: Seq<Seq<A>>, c: Seq<Seq<A>>)
    requires
        a.len() == b.len() == c.len(),
        forall|i: int| 0 <= i < a.len() ==> (#[trigger] c[i]).len() == a[i].len() + b[i].len(),
    ensures
        joined(c).len() == joined(a).len() + joined(b).len(),
    decreases a.len(),
{
    if a.len() > 0 {
        lemma_joined_sums(a.drop_last(), b.drop_last(), c.drop_last());
    }
}

/// The picks of one token, split by expert, are as many as before.
proof fn lemma_picks_split<W>(picks: Seq<(usize, W)>, token: usize, num_experts: int)
    requires
        num_experts >= 0,
        forall|i: int| 0 <= i < picks.len() ==> (#[trigger] picks[i]).0 < num_experts,
    ensures
        joined(Seq::new(num_experts as nat, |e: int| picks_of(picks, token, e))).len()
            == picks.len(),
    decreases picks.len(),
{
    let parts = Seq::new(num_experts as nat, |e: int| picks_of(picks, token, e));
    if picks.len() == 0 {
        lemma_joined_empties(parts);
    } else {
        let rest = picks.drop_last();
        lemma_picks_split(rest, token, num_experts);
        let before = Seq::new(num_experts as nat, |e: int| picks_of(rest, token, e));
        let target = picks.last().0 as int;
        assert(picks[picks.len() - 1].0 < num_experts);
        assert(parts =~= before.update(target, before[target].push((token, picks.last().1))));
        lemma_joined_update(before, target, (token, picks.last().1));
    }
}

/// Adding an element to one part adds it to the join.
proof fn lemma_joined_update<A>(parts: Seq<Seq<A>>, i: int, x: A)
    requires
        0 <= i < parts.len(),
    ensures
        joined(parts.update(i, parts[i].push(x))).len() == joined(parts).len() + 1,
        joined(parts.update(i, parts[i].push(x))).to_multiset() == joined(
            parts,
        ).to_multiset().insert(x),
    decreases parts.len(),
{
    broadcast use vstd::seq_lib::group_to_multiset_ensures;

    let more = parts.update(i, parts[i].push(x));
    if i == parts.len() - 1 {
        assert(more.drop_last() =~= parts.drop_last());
        assert(joined(more) =~= joined(parts).push(x));
    } else {
        assert(more.drop_last() =~= parts.drop_last().update(i, parts[i].push(x)));
        lemma_joined_update(parts.drop_last(), i, x);
        vstd::seq_lib::lemma_multiset_commutative(joined(parts.drop_last()), parts.last());
        vstd::seq_lib::lemma_multiset_commutative(joined(more.drop_last()), parts.last());
        assert(joined(more).to_multiset() =~= joined(parts).to_multiset().insert(x));
    }
}

/// Each active expert's stretch of the flat arrays holds exactly that expert's
/// list, its outputs start at the same offset, and the stretches of two experts
/// never overlap: workers that fill them write to disjoint rows.
pub proof fn law_stretches_hold_the_lists<W>(lists: Seq<Seq<(usize, W)>>, i: int)
    requires
        lists.len() <= usize::MAX,
        joined(lists).len() <= usize::MAX,
        0 <= i < active_of(lists).len(),
    ensures
        ({
            let a = active_of(lists)[i];
            &&& a.expert_id < lists.len()
            &&& a.count == lists[a.expert_id as int].len()
            &&& a.count > 0
            &&& a.out_offset == a.flat_offset
            &&& a.flat_offset + a.count <= joined(lists).len()
            &&& joined(lists).subrange(a.flat_offset as int, a.flat_offset + a.count)
                == lists[a.expert_id as int]
            &&& forall|j: int|
                0 <= j < i ==> (#[trigger] active_of(lists)[j]).expert_id < a.expert_id
                    && active_of(lists)[j].flat_offset + active_of(lists)[j].count
                    <= a.flat_offset
        }),
    decreases lists.len(),
{
    let rest = lists.drop_last();
    let all = active_of(lists);
    let before = active_of(rest);
    if i < before.len() {
        law_stretches_hold_the_lists(rest, i);
        let a = all[i];
        assert(a == before[i]);
        assert(joined(lists).subrange(a.flat_offset as int, a.flat_offset + a.count)
            =~= joined(rest).subrange(a.flat_offset as int, a.flat_offset + a.count));
        assert forall|j: int| 0 <= j < i implies (#[trigger] all[j]).expert_id < a.expert_id
            && all[j].flat_offset + all[j].count <= a.flat_offset by {
            assert(all[j] == before[j]);
        }
    } else {
        let a = all[i];
        assert(joined(lists).subrange(a.flat_offset as int, a.flat_offset + a.count)
            =~= lists.last());
        assert forall|j: int| 0 <= j < i implies (#[trigger] all[j]).expert_id < a.expert_id
            && all[j].flat_offset + all[j].count <= a.flat_offset by {
            law_stretches_hold_the_lists(rest, j);
            assert(all[j] == before[j]);
        }
    }
}

/// Every expert that has tokens is among the active ones.
pub proof fn law_every_busy_expert_is_active<W>(lists: Seq<Seq<(usize, W)>>, e: int)
    requires
        lists.len() <= usize::MAX,
        0 <= e < lists.len(),
        lists[e].len() > 0,
    ensures
        exists|i: int|
            0 <= i < active_of(lists).len() && (#[trigger] active_of(lists)[i]).expert_id == e,
    decreases lists.len(),
{
    let rest = lists.drop_last();
    let all = active_of(lists);
    if e == lists.len() - 1 {
        assert(all[all.len() - 1].expert_id == e);
    } else {
        law_every_busy_expert_is_active(rest, e);
        let i = choose|i: int|
            0 <= i < active_of(rest).len() && (#[trigger] active_of(rest)[i]).expert_id == e;
        assert(all[i].expert_id == e);
    }
}

/// The numbers 0, 1, ... below `n`.
pub open spec fn indices(n: int) -> Seq<usize> {
    Seq::new(n as nat, |i: int| i as usize)
}

/// A schedule gives each job to exactly one worker: the workers' lists together
/// hold every job number once.
pub proof fn law_schedule_covers_every_job(counts: Seq<int>, workers: int)
    requires
        workers > 0,
        counts.len() <= usize::MAX,
        forall|i: int| 0 <= i < counts.len() ==> #[trigger] counts[i] >= 0,
    ensures
        joined(schedule_lists(counts, workers)).to_multiset() == indices(
            counts.len() as int,
        ).to_multiset(),
        joined(schedule_lists(counts, workers)).len() == counts.len(),
    decreases counts.len(),
{
    broadcast use vstd::seq_lib::group_to_multiset_ensures;

    let lists = schedule_lists(counts, workers);
    if counts.len() == 0 {
        lemma_joined_empties(lists);
        assert(joined(lists) =~= Seq::<usize>::empty());
        assert(indices(0) =~= Seq::<usize>::empty());
    } else {
        let rest = counts.drop_last();
        law_schedule_covers_every_job(rest, workers);
        lemma_schedule_shape(rest, workers);
        lemma_least_loaded(schedule_loads(rest, workers));
        let w = least_loaded(schedule_loads(rest, workers));
        let job = (counts.len() - 1) as usize;
        lemma_joined_update(schedule_lists(rest, workers), w, job);
        assert(indices(counts.len() as int) =~= indices(rest.len() as int).push(job));
    }
}

/// A schedule is balanced: no worker has more to do than any other has plus the
/// largest single job.
pub proof fn law_schedule_is_balanced(counts: Seq<int>, workers: int, largest: int, v: int, w: int)
    requires
        workers > 0,
        largest >= 0,
        forall|i: int| 0 <= i < counts.len() ==> 0 <= #[trigger] counts[i] <= largest,
        0 <= v < workers,
        0 <= w < workers,
    ensures
        schedule_loads(counts, workers)[v] <= schedule_loads(counts, workers)[w] + largest,
    decreases counts.len(),
{
    if counts.len() > 0 {
        let rest = counts.drop_last();
        let loads = schedule_loads(rest, workers);
        law_schedule_is_balanced(rest, workers, largest, v, w);
        lemma_schedule_shape(rest, workers);
        lemma_least_loaded(loads);
        assert(loads[least_loaded(loads)] <= loads[w]);
        assert(counts[counts.len() - 1] <= largest);
    }
}

/// A worker's stretch of the joined lists is that worker's list.
pub proof fn law_worker_stretch_is_its_list(lists: Seq<Seq<usize>>, w: int)
    requires
        0 <= w < lists.len(),
    ensures
        joined(lists.take(w)).len() + lists[w].len() <= joined(lists).len(),
        joined(lists).subrange(
            joined(lists.take(w)).len() as int,
            (joined(lists.take(w)).len() + lists[w].len()) as int,
        ) == lists[w],
    decreases lists.len(),
{
    let rest = lists.drop_last();
    let start = joined(lists.take(w)).len() as int;
    if w == lists.len() - 1 {
        assert(lists.take(w) =~= rest);
        assert(joined(lists).subrange(start, start + lists[w].len()) =~= lists[w]);
    } else {
        law_worker_stretch_is_its_list(rest, w);
        assert(rest.take(w) =~= lists.take(w));
        assert(joined(lists).subrange(start, start + lists[w].len()) =~= joined(rest).subrange(
            start,
            start + lists[w].len(),
        ));
    }
}

/// One row of a row-major matrix.
pub open spec fn matrix_row<T>(x: Seq<T>, width: int, row: int) -> Seq<T> {
    x.subrange(row * width, (row + 1) * width)
}

/// The tokens of an expert's list.
pub open spec fn tokens_of<W>(list: Seq<(usize, W)>) -> Seq<usize> {
    list.map_values(|entry: (usize, W)| entry.0)
}

/// What the first `n` entries of an expert's list add to the output of one token: the
/// expert, the weight, and the row of the expert's batch that it runs on.
pub open spec fn shares_in_list<T, W>(
    list: Seq<(usize, W)>,
    n: int,
    expert: int,
    batch: Seq<T>,
    width: int,
    token: int,
) -> Multiset<(int, W, Seq<T>)>
    decreases n,
{
    if n <= 0 {
        Multiset::empty()
    } else {
        let rest = shares_in_list(list, n - 1, expert, batch, width, token);
        if list[n - 1].0 == token {
            rest.insert((expert, list[n - 1].1, matrix_row(batch, width, n - 1)))
        } else {
            rest
        }
    }
}

/// What the first `experts` experts add to the output of one token, when each runs once
/// on the batch of all its tokens.
pub open spec fn batched_shares<T, W>(
    lists: Seq<Seq<(usize, W)>>,
    experts: int,
    x: Seq<T>,
    width: int,
    token: int,
) -> Multiset<(int, W, Seq<T>)>
    decreases experts,
{
    if experts <= 0 {
        Multiset::empty()
    } else {
        let list = lists[experts - 1];
        batched_shares(lists, experts - 1, x, width, token).add(
            shares_in_list(
                list,
                list.len() as int,
                experts - 1,
                gathered(x, width, tokens_of(list)),
                width,
                token,
            ),
        )
    }
}

/// What the picks of one token add to its output, when the token runs alone.
pub open spec fn own_shares<T, W>(picks: Seq<(usize, W)>, row: Seq<T>) -> Multiset<
    (int, W, Seq<T>),
>
    decreases picks.len(),
{
    if picks.len() == 0 {
        Multiset::empty()
    } else {
        own_shares(picks.drop_last(), row).insert((picks.last().0 as int, picks.last().1, row))
    }
}

/// Running each expert once on all of its tokens adds to the output of every token what
/// running that token alone through its own experts adds: the same experts, each as
/// often, with the same weights, and on the row of that token. No other token's row has
/// a part in it. The order in which the parts are added may differ.
pub proof fn law_batching_keeps_tokens_apart<T, W>(
    routed: Seq<Vec<(usize, W)>>,
    num_experts: int,
    x: Seq<T>,
    width: int,
    token: int,
)
    requires
        picks_in_range(routed, num_experts),
        num_experts >= 0,
        width >= 0,
        routed.len() <= usize::MAX,
        routed.len() * width <= x.len(),
        0 <= token < routed.len(),
    ensures
        batched_shares(expert_lists(routed, num_experts), num_experts, x, width, token)
            == own_shares(routed[token]@, matrix_row(x, width, token)),
{
    let row = matrix_row(x, width, token);
    lemma_batches_hold_rows(routed, num_experts, num_experts, x, width, token);
    lemma_lists_by_token(routed, num_experts, token, row);
}

/// What the entries of an expert's list for one token add, each on a given row.
spec fn row_shares<T, W>(list: Seq<(usize, W)>, expert: int, token: int, row: Seq<T>) -> Multiset<
    (int, W, Seq<T>),
>
    decreases list.len(),
{
    if list.len() == 0 {
        Multiset::empty()
    } else {
        let rest = row_shares(list.drop_last(), expert, token, row);
        if list.last().0 == token {
            rest.insert((expert, list.last().1, row))
        } else {
            rest
        }
    }
}

/// What the first `experts` lists add for one token, each on a given row.
spec fn all_row_shares<T, W>(
    lists: Seq<Seq<(usize, W)>>,
    experts: int,
    token: int,
    row: Seq<T>,
) -> Multiset<(int, W, Seq<T>)>
    decreases experts,
{
    if experts <= 0 {
        Multiset::empty()
    } else {
        all_row_shares(lists, experts - 1, token, row).add(
            row_shares(lists[experts - 1], experts - 1, token, row),
        )
    }
}

/// A row of a batch is the row of its token.
proof fn lemma_gathered_row<T>(x: Seq<T>, width: int, rows: Seq<usize>, i: int)
    requires
        width >= 0,
        0 <= i < rows.len(),
        (rows[i] + 1) * width <= x.len(),
    ensures
        matrix_row(gathered(x, width, rows), width, i) == matrix_row(x, width, rows[i] as int),
{
    let batch = gathered(x, width, rows);
    assert((i + 1) * width == i * width + width && 0 <= i * width && (i + 1) * width <= rows.len()
        * width) by (nonlinear_arith)
        requires
            0 <= i < rows.len(),
            width >= 0,
    ;
    let r = rows[i] as int;
    assert((r + 1) * width == r * width + width && 0 <= r * width) by (nonlinear_arith)
        requires
            0 <= r,
            width >= 0,
    ;
    let own = matrix_row(x, width, r);
    assert forall|d: int| 0 <= d < width implies #[trigger] own[d] == matrix_row(
        batch,
        width,
        i,
    )[d] by {
        vstd::arithmetic::div_mod::lemma_fundamental_div_mod_converse(i * width + d, width, i, d);
    }
    assert(matrix_row(batch, width, i) =~= own);
}

/// Every entry of an expert's list names a token of the run.
proof fn lemma_entries_name_tokens<W>(routed: Seq<Vec<(usize, W)>>, e: int)
    requires
        routed.len() <= usize::MAX,
    ensures
        forall|i: int|
            0 <= i < assigned(routed, e).len() ==> (#[trigger] assigned(routed, e)[i]).0
                < routed.len(),
    decreases routed.len(),
{
    if routed.len() > 0 {
        lemma_entries_name_tokens(routed.drop_last(), e);
        lemma_picks_name_their_token(routed.last()@, (routed.len() - 1) as usize, e);
        let before = assigned(routed.drop_last(), e);
        let added = picks_of(routed.last()@, (routed.len() - 1) as usize, e);
        assert forall|i: int| 0 <= i < assigned(routed, e).len() implies (#[trigger] assigned(
            routed,
            e,
        )[i]).0 < routed.len() by {
            if i < before.len() {
                assert(before[i].0 < routed.len() - 1);
            } else {
                assert(added[i - before.len()].0 == routed.len() - 1);
            }
        }
    }
}

proof fn lemma_picks_name_their_token<W>(picks: Seq<(usize, W)>, token: usize, e: int)
    ensures
        forall|i: int|
            0 <= i < picks_of(picks, token, e).len() ==> (#[trigger] picks_of(picks, token, e)[i]).0
                == token,
    decreases picks.len(),
{
    if picks.len() > 0 {
        lemma_picks_name_their_token(picks.drop_last(), token, e);
        let rest = picks_of(picks.drop_last(), token, e);
        assert forall|i: int| 0 <= i < picks_of(picks, token, e).len() implies (
        #[trigger] picks_of(picks, token, e)[i]).0 == token by {
            if i < rest.len() {
                assert(rest[i].0 == token);
            }
        }
    }
}

/// In an expert's batch, the entries of a token stand on the token's own row.
proof fn lemma_list_on_rows<T, W>(
    list: Seq<(usize, W)>,
    n: int,
    expert: int,
    x: Seq<T>,
    width: int,
    token: int,
)
    requires
        0 <= n <= list.len(),
        width >= 0,
        (token + 1) * width <= x.len(),
        0 <= token,
    ensures
        shares_in_list(list, n, expert, gathered(x, width, tokens_of(list)), width, token)
            == row_shares(list.take(n), expert, token, matrix_row(x, width, token)),
    decreases n,
{
    if n > 0 {
        lemma_list_on_rows(list, n - 1, expert, x, width, token);
        assert(list.take(n).drop_last() =~= list.take(n - 1));
        assert(list.take(n).last() == list[n - 1]);
        if list[n - 1].0 == token {
            assert(tokens_of(list)[n - 1] == token);
            lemma_gathered_row(x, width, tokens_of(list), n - 1);
        }
    }
}

proof fn lemma_batches_hold_rows<T, W>(
    routed: Seq<Vec<(usize, W)>>,
    num_experts: int,
    experts: int,
    x: Seq<T>,
    width: int,
    token: int,
)
    requires
        0 <= experts <= num_experts,
        width >= 0,
        routed.len() * width <= x.len(),
        0 <= token < routed.len(),
    ensures
        batched_shares(expert_lists(routed, num_experts), experts, x, width, token)
            == all_row_shares(
            expert_lists(routed, num_experts),
            experts,
            token,
            matrix_row(x, width, token),
        ),
    decreases experts,
{
    if experts > 0 {
        lemma_batches_hold_rows(routed, num_experts, experts - 1, x, width, token);
        let list = expert_lists(routed, num_experts)[experts - 1];
        assert((token + 1) * width <= routed.len() * width) by (nonlinear_arith)
            requires
                token + 1 <= routed.len(),
                width >= 0,
        ;
        lemma_list_on_rows(list, list.len() as int, experts - 1, x, width, token);
        assert(list.take(list.len() as int) =~= list);
    }
}

proof fn lemma_row_shares_join<T, W>(
    a: Seq<(usize, W)>,
    b: Seq<(usize, W)>,
    expert: int,
    token: int,
    row: Seq<T>,
)
    ensures
        row_shares(a + b, expert, token, row) == row_shares(a, expert, token, row).add(
            row_shares(b, expert, token, row),
        ),
    decreases b.len(),
{
    if b.len() == 0 {
        assert(a + b =~= a);
        assert(row_shares(a, expert, token, row).add(Multiset::empty()) =~= row_shares(
            a,
            expert,
            token,
            row,
        ));
    } else {
        assert((a + b).drop_last() =~= a + b.drop_last());
        lemma_row_shares_join(a, b.drop_last(), expert, token, row);
        let share = (expert, b.last().1, row);
        let left = row_shares(a, expert, token, row);
        let right = row_shares(b.drop_last(), expert, token, row);
        assert(left.add(right).insert(share) =~= left.add(right.insert(share)));
    }
}

/// Entries of other tokens add nothing.
proof fn lemma_no_shares<T, W>(list: Seq<(usize, W)>, expert: int, token: int, row: Seq<T>)
    requires
        forall|i: int| 0 <= i < list.len() ==> (#[trigger] list[i]).0 != token,
    ensures
        row_shares(list, expert, token, row) == Multiset::<(int, W, Seq<T>)>::empty(),
    decreases list.len(),
{
    if list.len() > 0 {
        let rest = list.drop_last();
        assert forall|i: int| 0 <= i < rest.len() implies (#[trigger] rest[i]).0 != token by {
            assert(rest[i] == list[i]);
        }
        lemma_no_shares(rest, expert, token, row);
        assert(list[list.len() - 1].0 != token);
    }
}

/// The lists of one token's picks, expert by expert.
spec fn split_picks<W>(picks: Seq<(usize, W)>, token: usize, num_experts: int) -> Seq<
    Seq<(usize, W)>,
> {
    Seq::new(num_experts as nat, |e: int| picks_of(picks, token, e))
}

/// One more entry in one list adds one more share.
proof fn lemma_one_more_share<T, W>(
    lists: Seq<Seq<(usize, W)>>,
    e: int,
    entry: (usize, W),
    experts: int,
    token: int,
    row: Seq<T>,
)
    requires
        0 <= e < lists.len(),
        0 <= experts <= lists.len(),
        entry.0 == token,
    ensures
        all_row_shares(lists.update(e, lists[e].push(entry)), experts, token, row) == (if e
            < experts {
            all_row_shares(lists, experts, token, row).insert((e, entry.1, row))
        } else {
            all_row_shares(lists, experts, token, row)
        }),
    decreases experts,
{
    if experts > 0 {
        let more = lists.update(e, lists[e].push(entry));
        lemma_one_more_share(lists, e, entry, experts - 1, token, row);
        let share = (e, entry.1, row);
        let before = all_row_shares(lists, experts - 1, token, row);
        let last = row_shares(lists[experts - 1], experts - 1, token, row);
        if e == experts - 1 {
            assert(more[e].drop_last() =~= lists[e]);
            assert(before.add(last.insert(share)) =~= before.add(last).insert(share));
        } else if e < experts {
            assert(before.insert(share).add(last) =~= before.add(last).insert(share));
        }
    }
}

/// The picks of one token, split by expert, add what they add unsplit.
proof fn lemma_split_shares<T, W>(
    picks: Seq<(usize, W)>,
    token: usize,
    num_experts: int,
    row: Seq<T>,
)
    requires
        num_experts >= 0,
        forall|i: int| 0 <= i < picks.len() ==> (#[trigger] picks[i]).0 < num_experts,
    ensures
        all_row_shares(split_picks(picks, token, num_experts), num_experts, token as int, row)
            == own_shares(picks, row),
    decreases picks.len(),
{
    let lists = split_picks(picks, token, num_experts);
    if picks.len() == 0 {
        lemma_empty_lists(lists, num_experts, token as int, row);
    } else {
        let rest = picks.drop_last();
        assert forall|i: int| 0 <= i < rest.len() implies (#[trigger] rest[i]).0 < num_experts by {
            assert(rest[i] == picks[i]);
        }
        lemma_split_shares(rest, token, num_experts, row);
        let before = split_picks(rest, token, num_experts);
        let e = picks.last().0 as int;
        assert(picks[picks.len() - 1].0 < num_experts);
        assert(lists =~= before.update(e, before[e].push((token, picks.last().1))));
        lemma_one_more_share(
            before,
            e,
            (token, picks.last().1),
            num_experts,
            token as int,
            row,
        );
    }
}

proof fn lemma_empty_lists<T, W>(
    lists: Seq<Seq<(usize, W)>>,
    experts: int,
    token: int,
    row: Seq<T>,
)
    requires
        0 <= experts <= lists.len(),
        forall|e: int, i: int|
            0 <= e < lists.len() && 0 <= i < lists[e].len() ==> (#[trigger] lists[e][i]).0 != token,
    ensures
        all_row_shares(lists, experts, token, row) == Multiset::<(int, W, Seq<T>)>::empty(),
    decreases experts,
{
    if experts > 0 {
        lemma_empty_lists(lists, experts - 1, token, row);
        lemma_no_shares(lists[experts - 1], experts - 1, token, row);
        assert(Multiset::<(int, W, Seq<T>)>::empty().add(Multiset::empty()) =~= Multiset::<
            (int, W, Seq<T>),
        >::empty());
    }
}

/// Lists that go on add what both parts add.
proof fn lemma_shares_join<T, W>(
    a: Seq<Seq<(usize, W)>>,
    b: Seq<Seq<(usize, W)>>,
    c: Seq<Seq<(usize, W)>>,
    experts: int,
    token: int,
    row: Seq<T>,
)
    requires
        a.len() == b.len() == c.len(),
        0 <= experts <= a.len(),
        forall|e: int| 0 <= e < a.len() ==> #[trigger] c[e] == a[e] + b[e],
    ensures
        all_row_shares(c, experts, token, row) == all_row_shares(a, experts, token, row).add(
            all_row_shares(b, experts, token, row),
        ),
    decreases experts,
{
    if experts > 0 {
        lemma_shares_join(a, b, c, experts - 1, token, row);
        let e = experts - 1;
        assert(c[e] == a[e] + b[e]);
        lemma_row_shares_join(a[e], b[e], e, token, row);
        let a0 = all_row_shares(a, e, token, row);
        let b0 = all_row_shares(b, e, token, row);
        let a1 = row_shares(a[e], e, token, row);
        let b1 = row_shares(b[e], e, token, row);
        assert(a0.add(b0).add(a1.add(b1)) =~= a0.add(a1).add(b0.add(b1)));
    } else {
        assert(Multiset::<(int, W, Seq<T>)>::empty().add(Multiset::empty()) =~= Multiset::<
            (int, W, Seq<T>),
        >::empty());
    }
}

/// The lists of all experts hold, of each token, the token's own picks.
proof fn lemma_lists_by_token<T, W>(
    routed: Seq<Vec<(usize, W)>>,
    num_experts: int,
    token: int,
    row: Seq<T>,
)
    requires
        picks_in_range(routed, num_experts),
        num_experts >= 0,
        routed.len() <= usize::MAX,
        0 <= token < routed.len(),
    ensures
        all_row_shares(expert_lists(routed, num_experts), num_experts, token, row) == own_shares(
            routed[token]@,
            row,
        ),
    decreases routed.len(),
{
    let rest = routed.drop_last();
    let last = (routed.len() - 1) as usize;
    let picks = routed.last()@;
    let before = expert_lists(rest, num_experts);
    let added = split_picks(picks, last, num_experts);
    let lists = expert_lists(routed, num_experts);
    assert forall|e: int| 0 <= e < num_experts implies #[trigger] lists[e] == before[e]
        + added[e] by {}
    lemma_shares_join(before, added, lists, num_experts, token, row);
    if token == last {
        assert forall|i: int| 0 <= i < picks.len() implies (#[trigger] picks[i]).0 < num_experts by {
            assert(routed[last as int]@[i].0 < num_experts);
        }
        lemma_split_shares(picks, last, num_experts, row);
        assert forall|e: int, i: int|
            0 <= e < before.len() && 0 <= i < before[e].len() implies (#[trigger] before[e][i]).0
            != token by {
            lemma_entries_name_tokens(rest, e);
            assert(assigned(rest, e)[i].0 < rest.len());
        }
        lemma_empty_lists(before, num_experts, token, row);
        assert(Multiset::empty().add(own_shares(picks, row)) =~= own_shares(picks, row));
    } else {
        assert forall|t: int, i: int|
            0 <= t < rest.len() && 0 <= i < rest[t]@.len() implies (#[trigger] rest[t]@[i]).0
            < num_experts by {
            assert(routed[t]@[i].0 < num_experts);
        }
        lemma_lists_by_token(rest, num_experts, token, row);
        assert forall|e: int, i: int|
            0 <= e < added.len() && 0 <= i < added[e].len() implies (#[trigger] added[e][i]).0
            != token by {
            lemma_picks_name_their_token(picks, last, e);
            assert(picks_of(picks, last, e)[i].0 == last);
        }
        lemma_empty_lists(added, num_experts, token, row);
        let own = own_shares(routed[token]@, row);
        assert(own.add(Multiset::empty()) =~= own);
    }
}

// ---------------------------------------------------------------------------
// Feed-forward parts
// ---------------------------------------------------------------------------

/// A feed-forward part with a router and experts. The weights, and the pool that the
/// experts live in, are the caller's.
pub struct GenericMoE<F, W, P> {
    /// The router's weights.
    pub gate: W,
    pub expert_pool: P,
    pub num_experts: usize,
    pub num_experts_per_tok: usize,
    pub hidden_size: usize,
    pub moe_intermediate_size: usize,
    /// Whether the weights of a token's experts are made to add up to one.
    pub norm_topk_prob: bool,
    pub layer_id: usize,
    /// Added to the router's activations where experts are chosen.
    pub expert_bias: Option<Vec<F>>,
    /// An expert that every token has, whatever its router picks.
    pub shared_expert: Option<GenericMLP<W>>,
    pub shared_expert_gate: Option<Vec<F>>,
}

/// A feed-forward part: one block for all tokens, or experts.
pub enum GenericFFN<F, W, P> {
    Dense(GenericMLP<W>),
    MoE(GenericMoE<F, W, P>),
}

impl<F, W, P> GenericFFN<F, W, P> {
    /// Whether the part has experts.
    pub fn is_moe(&self) -> (b: bool)
        ensures
            b == (self is MoE),
    {
        match self {
            GenericFFN::Dense(_) => false,
            GenericFFN::MoE(_) => true,
        }
    }

    /// The part with experts.
    pub fn as_moe(&self) -> (moe: &GenericMoE<F, W, P>)
        requires
            self is MoE,
        ensures
            *moe == self->MoE_0,
    {
        match self {
            GenericFFN::MoE(moe) => moe,
            GenericFFN::Dense(_) => {
                proof {
                    assert(false);
                }
                vstd::pervasive::unreached()
            },
        }
    }

    /// The inner size of the part, or of each of its experts.
    pub fn intermediate_size(&self) -> (n: usize)
        ensures
            n == match *self {
                GenericFFN::Dense(mlp) => mlp.intermediate_size,
                GenericFFN::MoE(moe) => moe.moe_intermediate_size,
            },
    {
        match self {
            GenericFFN::Dense(mlp) => mlp.intermediate_size,
            GenericFFN::MoE(moe) => moe.moe_intermediate_size,
        }
    }
}

/// Whether the experts of one token are divided among workers: there are several, and
/// the backend can run them side by side.
pub fn divides_experts(parallel_experts: bool, selected: usize) -> (b: bool)
    ensures
        b == (parallel_experts && selected > 1),
{
    parallel_experts && selected > 1
}

/// How a run of tokens goes through its experts.
#[derive(Clone, Copy, Debug, PartialEq, Eq, Structural)]
pub enum MoePrefill {
    /// Each token through its own experts.
    TokenByToken,
    /// Each expert on all of its tokens, one expert after the other.
    ExpertByExpert,
    /// Each expert on all of its tokens, the experts divided among the workers.
    Divided,
}

/// How a run of tokens goes through its experts: grouped by expert where that is wanted,
/// and then side by side where the backend can do that.
pub fn moe_prefill(grouped: bool, parallel_experts: bool) -> (mode: MoePrefill)
    ensures
        mode == (if !grouped {
            MoePrefill::TokenByToken
        } else if parallel_experts {
            MoePrefill::Divided
        } else {
            MoePrefill::ExpertByExpert
        }),
{
    if !grouped {
        MoePrefill::TokenByToken
    } else if parallel_experts {
        MoePrefill::Divided
    } else {
        MoePrefill::ExpertByExpert
    }
}

// ---------------------------------------------------------------------------
// Element by element
// ---------------------------------------------------------------------------

/// The picks are a token's best experts: each comes with its own value, none comes twice,
/// a later pick is not greater than an earlier one, and no expert that was left out is
/// greater than a pick.
pub proof fn law_picks_are_the_greatest(
    values: Seq<u32>,
    picked: Seq<(usize, u32)>,
    i: int,
    j: int,
    e: int,
)
    requires
        is_top_k(values, picked),
        0 <= i < j < picked.len(),
        0 <= e < values.len(),
        forall|k: int| 0 <= k < picked.len() ==> (#[trigger] picked[k]).0 != e,
    ensures
        picked[i].0 < values.len(),
        picked[i].1 == values[picked[i].0 as int],
        picked[i].0 != picked[j].0,
        !exceeds(picked[j].1, picked[i].1),
        !exceeds(values[e], picked[i].1),
        !exceeds(values[e], picked[j].1),
{
    assert(!is_picked(picked, e));
    assert(score_key(values, picked[i].0 as int) >= score_key(values, picked[j].0 as int));
    assert(score_key(values, picked[i].0 as int) >= score_key(values, e));
    assert(score_key(values, picked[j].0 as int) >= score_key(values, e));
}

/// Later picks are not greater than earlier ones, and none comes twice.
pub proof fn law_picks_descend(values: Seq<u32>, picked: Seq<(usize, u32)>, i: int, j: int)
    requires
        is_top_k(values, picked),
        0 <= i < j < picked.len(),
    ensures
        picked[i].0 < values.len() && picked[i].1 == values[picked[i].0 as int],
        picked[j].0 < values.len() && picked[j].1 == values[picked[j].0 as int],
        picked[i].0 != picked[j].0,
        !exceeds(picked[j].1, picked[i].1),
{
    assert(score_key(values, picked[i].0 as int) >= score_key(values, picked[j].0 as int));
}

/// A single pick is a greatest value.
pub proof fn law_single_pick_is_the_greatest(values: Seq<u32>, picked: Seq<(usize, u32)>, e: int)
    requires
        is_top_k(values, picked),
        picked.len() == 1,
        0 <= e < values.len(),
    ensures
        picked[0].0 < values.len(),
        picked[0].1 == values[picked[0].0 as int],
        !exceeds(values[e], picked[0].1),
{
    if picked[0].0 != e {
        assert(!is_picked(picked, e));
        assert(score_key(values, picked[0].0 as int) >= score_key(values, e));
    }
}

/// Giving picks other values changes no expert: each gets its own number in the other
/// sequence.
pub proof fn law_reweighting_keeps_the_experts(
    picked: Seq<(usize, u32)>,
    values: Seq<u32>,
    i: int,
)
    requires
        0 <= i < picked.len(),
    ensures
        reweighted(picked, values).len() == picked.len(),
        reweighted(picked, values)[i].0 == picked[i].0,
        reweighted(picked, values)[i].1 == values[picked[i].0 as int],
{
}

proof fn lemma_picks_of_entry<W>(picks: Seq<(usize, W)>, token: usize, e: int, k: int)
    requires
        0 <= k < picks_of(picks, token, e).len(),
    ensures
        picks_of(picks, token, e)[k].0 == token,
        exists|i: int|
            0 <= i < picks.len() && (#[trigger] picks[i]).0 == e && picks[i].1 == picks_of(
                picks,
                token,
                e,
            )[k].1,
    decreases picks.len(),
{
    let rest = picks.drop_last();
    let before = picks_of(rest, token, e);
    if k < before.len() {
        lemma_picks_of_entry(rest, token, e, k);
        let i = choose|i: int|
            0 <= i < rest.len() && (#[trigger] rest[i]).0 == e && rest[i].1 == before[k].1;
        assert(picks[i] == rest[i]);
    } else {
        assert(picks[picks.len() - 1].0 == e);
    }
}

proof fn lemma_pick_is_kept<W>(picks: Seq<(usize, W)>, token: usize, e: int, i: int)
    requires
        0 <= i < picks.len(),
        picks[i].0 == e,
    ensures
        picks_of(picks, token, e).contains((token, picks[i].1)),
    decreases picks.len(),
{
    let rest = picks.drop_last();
    let before = picks_of(rest, token, e);
    let after = picks_of(picks, token, e);
    if i < rest.len() {
        lemma_pick_is_kept(rest, token, e, i);
        let k = choose|k: int| 0 <= k < before.len() && before[k] == (token, rest[i].1);
        assert(after[k] == (token, picks[i].1));
    } else {
        assert(after[before.len() as int] == (token, picks[i].1));
    }
}

/// Whatever stands in an expert's list, a token picked the expert with that weight.
pub proof fn law_listed_tokens_picked_the_expert<W>(
    routed: Seq<Vec<(usize, W)>>,
    e: int,
    k: int,
)
    requires
        routed.len() <= usize::MAX,
        0 <= k < assigned(routed, e).len(),
    ensures
        assigned(routed, e)[k].0 < routed.len(),
        exists|i: int|
            0 <= i < routed[assigned(routed, e)[k].0 as int]@.len() && (
            #[trigger] routed[assigned(routed, e)[k].0 as int]@[i]).0 == e
                && routed[assigned(routed, e)[k].0 as int]@[i].1 == assigned(routed, e)[k].1,
    decreases routed.len(),
{
    let rest = routed.drop_last();
    let before = assigned(rest, e);
    let token = (routed.len() - 1) as usize;
    if k < before.len() {
        law_listed_tokens_picked_the_expert(rest, e, k);
        let t = before[k].0 as int;
        let i = choose|i: int|
            0 <= i < rest[t]@.len() && (#[trigger] rest[t]@[i]).0 == e && rest[t]@[i].1
                == before[k].1;
        assert(routed[t] == rest[t]);
        assert(assigned(routed, e)[k] == before[k]);
        assert(routed[t]@[i].0 == e);
    } else {
        let own = picks_of(routed.last()@, token, e);
        lemma_picks_of_entry(routed.last()@, token, e, k - before.len());
        assert(assigned(routed, e)[k] == own[k - before.len()]);
        let i = choose|i: int|
            0 <= i < routed.last()@.len() && (#[trigger] routed.last()@[i]).0 == e
                && routed.last()@[i].1 == own[k - before.len()].1;
        assert(routed[token as int]@[i].0 == e);
    }
}

/// Whatever expert a token picked, the expert's list has the token with that weight.
pub proof fn law_picks_are_listed<W>(routed: Seq<Vec<(usize, W)>>, t: int, i: int)
    requires
        routed.len() <= usize::MAX,
        0 <= t < routed.len(),
        0 <= i < routed[t]@.len(),
    ensures
        assigned(routed, routed[t]@[i].0 as int).contains((t as usize, routed[t]@[i].1)),
    decreases routed.len(),
{
    let e = routed[t]@[i].0 as int;
    let rest = routed.drop_last();
    let before = assigned(rest, e);
    let after = assigned(routed, e);
    let token = (routed.len() - 1) as usize;
    let own = picks_of(routed.last()@, token, e);
    let entry = (t as usize, routed[t]@[i].1);
    if t < rest.len() {
        assert(rest[t] == routed[t]);
        law_picks_are_listed(rest, t, i);
        let k = choose|k: int| 0 <= k < before.len() && before[k] == entry;
        assert(after[k] == entry);
    } else {
        lemma_pick_is_kept(routed.last()@, token, e, i);
        let k = choose|k: int| 0 <= k < own.len() && own[k] == entry;
        assert(after[before.len() + k] == entry);
    }
}

/// An expert's list has the tokens in their order.
pub proof fn law_lists_are_in_token_order<W>(
    routed: Seq<Vec<(usize, W)>>,
    e: int,
    k: int,
    l: int,
)
    requires
        routed.len() <= usize::MAX,
        0 <= k < l < assigned(routed, e).len(),
    ensures
        assigned(routed, e)[k].0 <= assigned(routed, e)[l].0,
    decreases routed.len(),
{
    let rest = routed.drop_last();
    let before = assigned(rest, e);
    let token = (routed.len() - 1) as usize;
    let own = picks_of(routed.last()@, token, e);
    if l < before.len() {
        law_lists_are_in_token_order(rest, e, k, l);
    } else {
        lemma_picks_of_entry(routed.last()@, token, e, l - before.len());
        assert(assigned(routed, e)[l] == own[l - before.len()]);
        if k < before.len() {
            law_listed_tokens_picked_the_expert(rest, e, k);
            assert(assigned(routed, e)[k] == before[k]);
        } else {
            lemma_picks_of_entry(routed.last()@, token, e, k - before.len());
            assert(assigned(routed, e)[k] == own[k - before.len()]);
        }
    }
}

/// What vectors hold is what each of them holds.
pub proof fn law_contents_are_the_vectors<A>(vecs: Seq<Vec<A>>, i: int)
    requires
        0 <= i < vecs.len(),
    ensures
        contents(vecs).len() == vecs.len(),
        contents(vecs)[i] == vecs[i]@,
{
}

/// Each expert has its own list.
pub proof fn law_every_expert_has_its_list<W>(
    routed: Seq<Vec<(usize, W)>>,
    num_experts: int,
    e: int,
)
    requires
        0 <= e < num_experts,
    ensures
        expert_lists(routed, num_experts).len() == num_experts,
        expert_lists(routed, num_experts)[e] == assigned(routed, e),
{
}

/// Row `r` of the gathered rows is the row asked for at place `r`.
pub proof fn law_gathered_rows_are_those_asked_for<T>(
    x: Seq<T>,
    width: int,
    rows: Seq<usize>,
    r: int,
    d: int,
)
    requires
        0 <= r < rows.len(),
        0 <= d < width,
    ensures
        gathered(x, width, rows).len() == rows.len() * width,
        gathered(x, width, rows)[r * width + d] == x[rows[r] * width + d],
{
    assert(0 <= r * width && r * width + width <= rows.len() * width) by (nonlinear_arith)
        requires
            0 <= r < rows.len(),
            width > 0,
    ;
    vstd::arithmetic::div_mod::lemma_fundamental_div_mod_converse(r * width + d, width, r, d);
}

/// Joining puts the parts behind each other, and sums add up.
pub proof fn law_joining_and_adding<A>(parts: Seq<Seq<A>>, part: Seq<A>, loads: Seq<int>, load: int)
    ensures
        joined(Seq::<Seq<A>>::empty()).len() == 0,
        joined(parts.push(part)) == joined(parts) + part,
        total(Seq::<int>::empty()) == 0,
        total(loads.push(load)) == total(loads) + load,
{
    assert(parts.push(part).drop_last() =~= parts);
    assert(loads.push(load).drop_last() =~= loads);
}

/// Experts are counted by their rows, and in descending order none has more rows than an
/// earlier one.
pub proof fn law_counts_are_the_rows(active: Seq<ActiveExpert>, i: int, j: int)
    requires
        0 <= i < j < active.len(),
    ensures
        counts_of(active).len() == active.len(),
        counts_of(active)[i] == active[i].count,
        counts_descend(active) ==> active[i].count >= active[j].count,
{
}

/// The least loaded worker has no more work than any other, and less than every one
/// before it.
pub proof fn law_least_loaded_is_the_first_least(loads: Seq<int>, w: int)
    requires
        0 <= w < loads.len(),
    ensures
        0 <= least_loaded(loads) < loads.len(),
        loads[least_loaded(loads)] <= loads[w],
        w < least_loaded(loads) ==> loads[least_loaded(loads)] < loads[w],
    decreases loads.len(),
{
    if loads.len() > 1 {
        let rest = loads.drop_last();
        let v = if w < rest.len() {
            w
        } else {
            0
        };
        law_least_loaded_is_the_first_least(rest, v);
        assert(rest[v] == loads[v]);
        assert(rest[least_loaded(rest)] == loads[least_loaded(rest)]);
    }
}

proof fn lemma_schedule_sizes(counts: Seq<int>, workers: int)
    requires
        workers > 0,
    ensures
        schedule_loads(counts, workers).len() == workers,
        schedule_lists(counts, workers).len() == workers,
    decreases counts.len(),
{
    if counts.len() > 0 {
        let rest = counts.drop_last();
        lemma_schedule_sizes(rest, workers);
        law_least_loaded_is_the_first_least(schedule_loads(rest, workers), 0);
    }
}

/// Another job goes to the worker that had the least work, the first of those: it gets
/// the job behind its others and as much more work, and no other worker's changes.
/// Without jobs no worker has any.
pub proof fn law_next_job_goes_to_the_least_loaded(
    counts: Seq<int>,
    count: int,
    workers: int,
    first: int,
    w: int,
)
    requires
        workers > 0,
        0 <= first < workers,
        0 <= w < workers,
        forall|v: int|
            0 <= v < workers ==> schedule_loads(counts, workers)[first]
                <= #[trigger] schedule_loads(counts, workers)[v],
        forall|v: int|
            0 <= v < first ==> schedule_loads(counts, workers)[first]
                < #[trigger] schedule_loads(counts, workers)[v],
    ensures
        schedule_lists(counts.push(count), workers)[w] == (if w == first {
            schedule_lists(counts, workers)[w].push(counts.len() as usize)
        } else {
            schedule_lists(counts, workers)[w]
        }),
        schedule_loads(counts.push(count), workers)[w] == (if w == first {
            schedule_loads(counts, workers)[w] + count
        } else {
            schedule_loads(counts, workers)[w]
        }),
        schedule_lists(Seq::<int>::empty(), workers)[w].len() == 0,
        schedule_loads(Seq::<int>::empty(), workers)[w] == 0,
{
    let more = counts.push(count);
    assert(more.drop_last() =~= counts);
    lemma_schedule_sizes(counts, workers);
    let loads = schedule_loads(counts, workers);
    let least = least_loaded(loads);
    law_least_loaded_is_the_first_least(loads, first);
    assert(loads[first] <= loads[least]);
    if least < first {
        assert(loads[first] < loads[least]);
    }
    assert(least == first);
}

/// A row of a matrix is a stretch of its width.
pub proof fn law_rows_are_stretches<T>(x: Seq<T>, width: int, row: int, d: int)
    requires
        0 <= row,
        0 <= d < width,
        (row + 1) * width <= x.len(),
    ensures
        matrix_row(x, width, row).len() == width,
        matrix_row(x, width, row)[d] == x[row * width + d],
{
    assert((row + 1) * width == row * width + width && 0 <= row * width) by (nonlinear_arith)
        requires
            row >= 0,
            width > 0,
    ;
}

} // verus!
