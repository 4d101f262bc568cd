//! The experts of one layer, and how often each was used.

use vstd::prelude::*;

verus! {

/// The experts of a layer, all in memory, with a count of their uses.
pub struct ExpertPool<E> {
    experts: Vec<Option<E>>,
    layer_id: usize,
    usage_counts: Vec<u32>,
}

/// The count after one more use; it starts again at 0 behind the largest number.
pub open spec fn used_once(count: u32) -> u32 {
    if count == u32::MAX {
        0
    } else {
        (count + 1) as u32
    }
}

/// The counts after each of `picks` was used, in turn.
pub open spec fn counts_after<W>(counts: Seq<u32>, picks: Seq<(usize, W)>) -> Seq<u32>
    decreases picks.len(),
{
    if picks.len() == 0 {
        counts
    } else {
        let rest = counts_after(counts, picks.drop_last());
        let e = picks.last().0 as int;
        rest.update(e, used_once(rest[e]))
    }
}

/// `order` lists every position below its length once.
pub open spec fn is_reordering(order: Seq<int>) -> bool {
    &&& forall|i: int| 0 <= i < order.len() ==> 0 <= #[trigger] order[i] < order.len()
    &&& forall|i: int, j: int|
        0 <= i < j < order.len() ==> #[trigger] order[i] != #[trigger] order[j]
}

/// Whether the pick at position `a` goes before the pick at position `b`: its expert
/// was used more often, or as often and it stood first.
pub open spec fn goes_before<W>(counts: Seq<u32>, picks: Seq<(usize, W)>, a: int, b: int) -> bool {
    let ca = counts[picks[a].0 as int];
    let cb = counts[picks[b].0 as int];
    ca > cb || (ca == cb && a < b)
}

/// `sorted` holds the picks of `picks` by falling use of their experts; picks of
/// experts that were used as often keep their order. `order` says where each came from.
pub open spec fn sorted_by_use<W>(
    counts: Seq<u32>,
    picks: Seq<(usize, W)>,
    sorted: Seq<(usize, W)>,
    order: Seq<int>,
) -> bool {
    &&& order.len() == picks.len()
    &&& sorted.len() == picks.len()
    &&& is_reordering(order)
    &&& forall|i: int| 0 <= i < order.len() ==> #[trigger] sorted[i] == picks[order[i]]
    &&& forall|i: int, j: int|
        0 <= i < j < order.len() ==> goes_before(
            counts,
            picks,
            #[trigger] order[i],
            #[trigger] order[j],
        )
}

impl<E> ExpertPool<E> {
    /// The experts, in order of their numbers.
    pub closed spec fn experts_view(self) -> Seq<E> {
        Seq::new(self.experts@.len(), |i: int| self.experts@[i]->0)
    }

    /// How often each expert was used.
    pub closed spec fn counts(self) -> Seq<u32> {
        self.usage_counts@
    }

    /// The layer's number.
    pub closed spec fn layer(self) -> usize {
        self.layer_id
    }

    /// Every expert is there and has a count.
    pub closed spec fn wf(self) -> bool {
        &&& self.usage_counts@.len() == self.experts@.len()
        &&& forall|i: int| 0 <= i < self.experts@.len() ==> #[trigger] self.experts@[i] is Some
    }

    /// A pool of experts that were never used.
    pub fn new_all_loaded(experts: Vec<E>, layer_id: usize) -> (pool: Self)
        ensures
            pool.wf(),
            pool.experts_view() == experts@,
            pool.layer() == layer_id,
            pool.counts() == Seq::new(experts@.len(), |i: int| 0u32),
    {
        let n: usize = experts.len();
        let ghost given = experts@;
        let mut loaded: Vec<Option<E>> = Vec::new();
        let mut counts: Vec<u32> = Vec::new();
        for e in it: experts
            invariant
                it.seq() == given,
                loaded@.len() == it.index(),
                counts@.len() == it.index(),
                forall|i: int| 0 <= i < loaded@.len() ==> #[trigger] loaded@[i] == Some(given[i]),
                forall|i: int| 0 <= i < counts@.len() ==> counts@[i] == 0,
        {
            loaded.push(Some(e));
            counts.push(0);
        }
        let pool = ExpertPool { experts: loaded, layer_id, usage_counts: counts };
        proof {
            assert(pool.experts_view() =~= given);
            assert(pool.counts() =~= Seq::new(given.len(), |i: int| 0u32));
        }
        pool
    }

    /// The number of experts.
    pub fn num_experts(&self) -> (n: usize)
        ensures
            n == self.experts_view().len(),
    {
        self.experts.len()
    }

    /// The layer's number.
    pub fn layer_id(&self) -> (id: usize)
        ensures
            id == self.layer(),
    {
        self.layer_id
    }

    /// The expert with a number.
    pub fn get(&self, expert_id: usize) -> (expert: &E)
        requires
            self.wf(),
            expert_id < self.experts_view().len(),
        ensures
            *expert == self.experts_view()[expert_id as int],
    {
        match &self.experts[expert_id] {
            Some(expert) => expert,
            None => {
                proof {
                    assert(self.experts@[expert_id as int] is Some);
                }
                vstd::pervasive::unreached()
            },
        }
    }

    /// Every expert, in order.
    pub fn experts(&self) -> (all: Vec<&E>)
        requires
            self.wf(),
        ensures
            all@.len() == self.experts_view().len(),
            forall|i: int|
                0 <= i < all@.len() ==> *(#[trigger] all@[i]) == self.experts_view()[i],
    {
        let mut all: Vec<&E> = Vec::new();
        let mut i: usize = 0;
        while i < self.experts.len()
            invariant
                self.wf(),
                i <= self.experts_view().len() == self.experts@.len(),
                all@.len() == i,
                forall|j: int| 0 <= j < i ==> *(#[trigger] all@[j]) == self.experts_view()[j],
            decreases self.experts@.len() - i,
        {
            all.push(self.get(i));
            i = i + 1;
        }
        all
    }

    /// Every expert with its number, in order.
    pub fn iter_loaded(&self) -> (all: Vec<(usize, &E)>)
        requires
            self.wf(),
        ensures
            all@.len() == self.experts_view().len(),
            forall|i: int|
                0 <= i < all@.len() ==> (#[trigger] all@[i]).0 == i && *all@[i].1
                    == self.experts_view()[i],
    {
        let mut all: Vec<(usize, &E)> = Vec::new();
        let mut i: usize = 0;
        while i < self.experts.len()
            invariant
                self.wf(),
                i <= self.experts_view().len() == self.experts@.len(),
                all@.len() == i,
                forall|j: int|
                    0 <= j < i ==> (#[trigger] all@[j]).0 == j && *all@[j].1
                        == self.experts_view()[j],
            decreases self.experts@.len() - i,
        {
            all.push((i, self.get(i)));
            i = i + 1;
        }
        all
    }

    /// The experts' places, all of them taken.
    pub fn all_experts(&self) -> (places: &[Option<E>])
        requires
            self.wf(),
        ensures
            places@ == self.experts_view().map_values(|e: E| Some(e)),
    {
        proof {
            assert(self.experts@ =~= self.experts_view().map_values(|e: E| Some(e)));
        }
        self.experts.as_slice()
    }

    /// Counts a use of each of the first `n_sel` picks and then orders them by falling
    /// use of their experts, so that the experts most likely still in the processor's
    /// cache run first.
    pub fn record_and_sort_by_frequency<W: Copy>(
        &mut self,
        selected: &mut [(usize, W)],
        n_sel: usize,
    )
        requires
            old(self).wf(),
            n_sel <= old(selected)@.len(),
            forall|i: int|
                0 <= i < n_sel ==> (#[trigger] old(selected)@[i]).0
                    < old(self).experts_view().len(),
        ensures
            final(self).wf(),
            final(self).experts_view() == old(self).experts_view(),
            final(self).layer() == old(self).layer(),
            final(self).counts() == counts_after(
                old(self).counts(),
                old(selected)@.take(n_sel as int),
            ),
            final(selected)@.len() == old(selected)@.len(),
            final(selected)@.skip(n_sel as int) == old(selected)@.skip(n_sel as int),
            exists|order: Seq<int>|
                #[trigger] sorted_by_use(
                    final(self).counts(),
                    old(selected)@.take(n_sel as int),
                    final(selected)@.take(n_sel as int),
                    order,
                ),
    {
        let ghost picks = selected@.take(n_sel as int);
        let ghost given = selected@;
        let ghost start = self.usage_counts@;
        let ghost experts = self.experts@;
        let mut i: usize = 0;
        proof {
            assert(given.take(0) =~= Seq::<(usize, W)>::empty());
        }
        while i < n_sel
            invariant
                i <= n_sel <= selected@.len(),
                selected@ == given,
                self.experts@ == experts,
                self.layer_id == old(self).layer_id,
                self.usage_counts@.len() == experts.len(),
                self.usage_counts@ == counts_after(start, given.take(i as int)),
                forall|j: int| 0 <= j < n_sel ==> (#[trigger] given[j]).0 < experts.len(),
            decreases n_sel - i,
        {
            let e: usize = selected[i].0;
            proof {
                assert(given.take(i + 1).drop_last() =~= given.take(i as int));
                assert(given[i as int].0 < experts.len());
            }
            let count: u32 = self.usage_counts[e];
            self.usage_counts.set(e, count.wrapping_add(1));
            i = i + 1;
        }
        let ghost counts = self.usage_counts@;
        let ghost mut order: Seq<int> = Seq::new(n_sel as nat, |j: int| j);
        let mut k: usize = 0;
        while k < n_sel
            invariant
                k <= n_sel <= selected@.len(),
                selected@.len() == given.len(),
                picks == given.take(n_sel as int),
                counts == self.usage_counts@,
                counts.len() == experts.len(),
                self.experts@ == experts,
                self.layer_id == old(self).layer_id,
                forall|j: int| 0 <= j < n_sel ==> (#[trigger] given[j]).0 < experts.len(),
                order.len() == n_sel,
                is_reordering(order),
                forall|j: int| 0 <= j < n_sel ==> #[trigger] selected@[j] == picks[order[j]],
                forall|j: int| n_sel <= j < given.len() ==> selected@[j] == given[j],
                forall|a: int, b: int|
                    0 <= a < b < k ==> goes_before(
                        counts,
                        picks,
                        #[trigger] order[a],
                        #[trigger] order[b],
                    ),
                forall|j: int| k <= j < n_sel ==> #[trigger] order[j] == j,
                forall|j: int| 0 <= j < k ==> #[trigger] order[j] < k,
            decreases n_sel - k,
        {
            let mut j: usize = k;
            proof {
                assert(order[k as int] == k);
                assert(picks[order[k as int]].0 == given[k as int].0);
            }
            while j > 0
                invariant
                    j <= k < n_sel <= selected@.len(),
                    selected@.len() == given.len(),
                    picks == given.take(n_sel as int),
                    counts == self.usage_counts@,
                    counts.len() == experts.len(),
                    self.experts@ == experts,
                    self.layer_id == old(self).layer_id,
                    forall|i: int| 0 <= i < n_sel ==> (#[trigger] given[i]).0 < experts.len(),
                    order.len() == n_sel,
                    is_reordering(order),
                    forall|i: int| 0 <= i < n_sel ==> #[trigger] selected@[i] == picks[order[i]],
                    forall|i: int| n_sel <= i < given.len() ==> selected@[i] == given[i],
                    order[j as int] == k,
                    forall|a: int, b: int|
                        0 <= a < b <= k && a != j && b != j ==> goes_before(
                            counts,
                            picks,
                            #[trigger] order[a],
                            #[trigger] order[b],
                        ),
                    forall|b: int|
                        j < b <= k ==> goes_before(counts, picks, k as int, #[trigger] order[b]),
                    forall|i: int| k < i < n_sel ==> #[trigger] order[i] == i,
                    forall|i: int| 0 <= i <= k && i != j ==> #[trigger] order[i] < k,
                ensures
                    j > 0 ==> goes_before(counts, picks, order[j - 1], k as int),
                decreases j,
            {
                let this: usize = selected[j].0;
                let prev: usize = selected[j - 1].0;
                proof {
                    assert(selected@[j as int] == picks[order[j as int]]);
                    assert(selected@[j - 1] == picks[order[j - 1]]);
                    assert(0 <= order[j - 1] < n_sel);
                    assert(given[order[j - 1]].0 < experts.len());
                    assert(given[order[j as int]].0 < experts.len());
                    assert(order[j - 1] < k);
                }
                if self.usage_counts[prev] >= self.usage_counts[this] {
                    break;
                }
                let a = selected[j - 1];
                let b = selected[j];
                let ghost before = order;
                selected[j - 1] = b;
                selected[j] = a;
                proof {
                    order = before.update(j - 1, before[j as int]).update(j as int, before[j - 1]);
                    assert forall|x: int, y: int| 0 <= x < y < order.len() implies #[trigger] order[x]
                        != #[trigger] order[y] by {
                        let bx = if x == j - 1 { j as int } else if x == j { j - 1 } else { x };
                        let by = if y == j - 1 { j as int } else if y == j { j - 1 } else { y };
                        assert(order[x] == before[bx]);
                        assert(order[y] == before[by]);
                        assert(bx != by);
                    }
                }
                j = j - 1;
            }
            proof {
                assert forall|a: int, b: int| 0 <= a < b < k + 1 implies goes_before(
                    counts,
                    picks,
                    #[trigger] order[a],
                    #[trigger] order[b],
                ) by {
                    if b == j {
                        if a < j - 1 {
                            assert(goes_before(counts, picks, order[a], order[j - 1]));
                        }
                    }
                }
            }
            k = k + 1;
        }
        proof {
            assert(selected@.skip(n_sel as int) =~= given.skip(n_sel as int));
            assert(sorted_by_use(self.counts(), picks, selected@.take(n_sel as int), order));
            assert(self.experts_view() =~= old(self).experts_view());
        }
    }
}

/// A pool that records picks never loses one: the ordered picks are those that were
/// given, each once.
pub proof fn law_ordering_keeps_picks<W>(
    counts: Seq<u32>,
    picks: Seq<(usize, W)>,
    sorted: Seq<(usize, W)>,
    order: Seq<int>,
    i: int,
)
    requires
        sorted_by_use(counts, picks, sorted, order),
        0 <= i < picks.len(),
    ensures
        exists|j: int| 0 <= j < sorted.len() && #[trigger] order[j] == i && sorted[j] == picks[i],
{
    lemma_every_position_listed(order, i);
    let j = choose|j: int| 0 <= j < order.len() && #[trigger] order[j] == i;
    assert(order[j] == i && sorted[j] == picks[order[j]]);
}

/// A reordering lists every position.
proof fn lemma_every_position_listed(order: Seq<int>, v: int)
    requires
        is_reordering(order),
        0 <= v < order.len(),
    ensures
        exists|j: int| 0 <= j < order.len() && #[trigger] order[j] == v,
{
    if forall|j: int| 0 <= j < order.len() ==> #[trigger] order[j] != v {
        let n = order.len() as int;
        let all = vstd::set_lib::set_int_range(0, n);
        vstd::set_lib::lemma_int_range(0, n);
        assert(order.no_duplicates()) by {
            assert forall|i: int, j: int|
                0 <= i < order.len() && 0 <= j < order.len() && i != j implies order[i]
                != order[j] by {
                if i < j {
                    assert(order[i] != order[j]);
                } else {
                    assert(order[j] != order[i]);
                }
            }
        }
        order.unique_seq_to_set();
        assert(order.to_set().subset_of(all.remove(v)));
        vstd::set_lib::lemma_len_subset(order.to_set(), all.remove(v));
    }
}

/// Every pick counts one use of its expert, which starts again at 0 behind the largest
/// count, and no use of another; no picks change no count.
pub proof fn law_picks_are_counted<W>(
    counts: Seq<u32>,
    picks: Seq<(usize, W)>,
    pick: (usize, W),
    e: int,
)
    requires
        pick.0 < counts.len(),
        0 <= e < counts.len(),
        forall|i: int| 0 <= i < picks.len() ==> (#[trigger] picks[i]).0 < counts.len(),
    ensures
        counts_after(counts, Seq::<(usize, W)>::empty()) == counts,
        counts_after(counts, picks).len() == counts.len(),
        e != pick.0 ==> counts_after(counts, picks.push(pick))[e] == counts_after(counts, picks)[e],
        e == pick.0 && counts_after(counts, picks)[e] < 0xffff_ffff ==> counts_after(
            counts,
            picks.push(pick),
        )[e] == counts_after(counts, picks)[e] + 1,
        e == pick.0 && counts_after(counts, picks)[e] == 0xffff_ffff ==> counts_after(
            counts,
            picks.push(pick),
        )[e] == 0,
{
    lemma_counts_len(counts, picks);
    assert(picks.push(pick).drop_last() =~= picks);
}

proof fn lemma_counts_len<W>(counts: Seq<u32>, picks: Seq<(usize, W)>)
    requires
        forall|i: int| 0 <= i < picks.len() ==> (#[trigger] picks[i]).0 < counts.len(),
    ensures
        counts_after(counts, picks).len() == counts.len(),
    decreases picks.len(),
{
    if picks.len() > 0 {
        let rest = picks.drop_last();
        assert forall|i: int| 0 <= i < rest.len() implies (#[trigger] rest[i]).0 < counts.len() by {
            assert(rest[i] == picks[i]);
        }
        lemma_counts_len(counts, rest);
        assert(picks[picks.len() - 1].0 < counts.len());
    }
}

/// Sorted picks go from the experts that are used most to those used least; picks of
/// equally used experts stay in their order, and no pick is lost or comes twice.
pub proof fn law_most_used_experts_come_first<W>(
    counts: Seq<u32>,
    picks: Seq<(usize, W)>,
    sorted: Seq<(usize, W)>,
    order: Seq<int>,
    i: int,
    j: int,
)
    requires
        sorted_by_use(counts, picks, sorted, order),
        0 <= i < j < sorted.len(),
    ensures
        sorted.len() == picks.len(),
        counts[sorted[i].0 as int] >= counts[sorted[j].0 as int],
        counts[sorted[i].0 as int] == counts[sorted[j].0 as int] ==> order[i] < order[j],
        0 <= order[i] < picks.len() && 0 <= order[j] < picks.len(),
        order[i] != order[j],
        sorted[i] == picks[order[i]],
        sorted[j] == picks[order[j]],
{
    assert(goes_before(counts, picks, order[i], order[j]));
}

} // verus!
