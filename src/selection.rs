use vstd::prelude::*;
use std::collections::BTreeMap;
use vstd::std_specs::btree::increasing_seq;
use vstd::std_specs::iter::IteratorSpec;
use vstd::std_specs::cmp::OrdSpec;
use crate::colors::{Color, ColorCount, key_of, distance};
use crate::histogram::{Tally, color_key, in_key_order};

verus! {

broadcast use vstd::std_specs::btree::group_btree_axioms, vstd::laws_cmp::group_laws_cmp;

/// A color with its count.
pub type Sample = (Color, nat);

pub open spec fn samples_of(v: Seq<ColorCount>) -> Seq<Sample> {
    v.map_values(|s: ColorCount| (s.rgba, s.count as nat))
}

/// `a` comes before `b` in a ranking: it was seen more often, or as often
/// and its key is smaller.
pub open spec fn ranks_before(a: Sample, b: Sample) -> bool {
    a.1 > b.1 || (a.1 == b.1 && key_of(a.0) < key_of(b.0))
}

/// No sample of `s` comes before an earlier one.
pub open spec fn ranked(s: Seq<Sample>) -> bool {
    forall|i: int, j: int| 0 <= i < j < s.len() ==> !ranks_before(s[j], s[i])
}

/// Any two samples of `s` are at least `t` apart.
pub open spec fn spread(s: Seq<Sample>, t: int) -> bool {
    forall|i: int, j: int| 0 <= i < s.len() && 0 <= j < s.len() && i != j ==> distance(s[i].0, s[j].0) >= t
}

/// Some kept sample is closer than `t` to `c`.
pub open spec fn too_close(kept: Seq<Sample>, c: Color, t: int) -> bool {
    exists|i: int| 0 <= i < kept.len() && distance(kept[i].0, c) < t
}

/// Where `c` goes in a ranking: before the first sample that it ranks before.
pub open spec fn rank_pos(kept: Seq<Sample>, c: Sample) -> int
    decreases kept.len(),
{
    if kept.len() == 0 {
        0
    } else if ranks_before(c, kept[0]) {
        0
    } else {
        1 + rank_pos(kept.drop_first(), c)
    }
}

/// One candidate offered to the kept samples: skipped when it is too close to
/// one of them, else put in its place, and the last one dropped past `n`.
pub open spec fn select_step(kept: Seq<Sample>, c: Sample, n: nat, t: int) -> Seq<Sample> {
    if too_close(kept, c.0, t) {
        kept
    } else {
        let grown = kept.insert(rank_pos(kept, c), c);
        if grown.len() > n {
            grown.take(n as int)
        } else {
            grown
        }
    }
}

/// The samples kept after offering each candidate in turn.
pub open spec fn select(cands: Seq<Sample>, n: nat, t: int) -> Seq<Sample>
    decreases cands.len(),
{
    if cands.len() == 0 {
        seq![]
    } else {
        select_step(select(cands.drop_last(), n, t), cands.last(), n, t)
    }
}

/// The number of candidates that were far enough from the kept samples when
/// they were offered.
pub open spec fn accepted(cands: Seq<Sample>, n: nat, t: int) -> nat
    decreases cands.len(),
{
    if cands.len() == 0 {
        0
    } else {
        accepted(cands.drop_last(), n, t) + if too_close(select(cands.drop_last(), n, t), cands.last().0, t) {
            0nat
        } else {
            1nat
        }
    }
}

pub open spec fn min_nat(a: nat, b: nat) -> nat {
    if a <= b {
        a
    } else {
        b
    }
}

proof fn lemma_distance_symmetric(p: Color, q: Color)
    ensures
        distance(p, q) == distance(q, p),
{
    assert forall|x: int, y: int| #[trigger] crate::colors::sq(x - y) == crate::colors::sq(y - x) by {
        assert((x - y) * (x - y) == (y - x) * (y - x)) by (nonlinear_arith);
    }
}

proof fn lemma_rank_pos(kept: Seq<Sample>, c: Sample)
    ensures
        0 <= rank_pos(kept, c) <= kept.len(),
        forall|i: int| 0 <= i < rank_pos(kept, c) ==> !ranks_before(c, #[trigger] kept[i]),
        rank_pos(kept, c) < kept.len() ==> ranks_before(c, kept[rank_pos(kept, c)]),
    decreases kept.len(),
{
    if kept.len() > 0 && !ranks_before(c, kept[0]) {
        lemma_rank_pos(kept.drop_first(), c);
        assert forall|i: int| 0 <= i < rank_pos(kept, c) implies !ranks_before(c, #[trigger] kept[i]) by {
            if i > 0 {
                assert(kept[i] == kept.drop_first()[i - 1]);
            }
        }
    }
}

proof fn lemma_step(kept: Seq<Sample>, c: Sample, n: nat, t: int)
    requires
        ranked(kept),
        spread(kept, t),
        kept.len() <= n,
    ensures
        ranked(select_step(kept, c, n, t)),
        spread(select_step(kept, c, n, t), t),
        select_step(kept, c, n, t).len() == if too_close(kept, c.0, t) {
            kept.len()
        } else {
            min_nat(kept.len() + 1, n)
        },
{
    if !too_close(kept, c.0, t) {
        let p = rank_pos(kept, c);
        lemma_rank_pos(kept, c);
        let g = kept.insert(p, c);
        assert forall|i: int, j: int| 0 <= i < j < g.len() implies !ranks_before(g[j], g[i]) by {
            if j == p {
                assert(!ranks_before(c, kept[i]));
            } else if i == p {
                assert(ranks_before(c, kept[p]));
                assert(g[j] == kept[j - 1]);
                if j - 1 > p {
                    assert(!ranks_before(kept[j - 1], kept[p]));
                }
            } else {
                let a = if i < p { i } else { i - 1 };
                let b = if j < p { j } else { j - 1 };
                assert(g[i] == kept[a]);
                assert(g[j] == kept[b]);
            }
        }
        assert forall|i: int, j: int| 0 <= i < g.len() && 0 <= j < g.len() && i != j implies distance(g[i].0, g[j].0) >= t by {
            if i == p {
                let b = if j < p { j } else { j - 1 };
                assert(g[j] == kept[b]);
                lemma_distance_symmetric(kept[b].0, c.0);
            } else if j == p {
                let a = if i < p { i } else { i - 1 };
                assert(g[i] == kept[a]);
            } else {
                let a = if i < p { i } else { i - 1 };
                let b = if j < p { j } else { j - 1 };
                assert(g[i] == kept[a]);
                assert(g[j] == kept[b]);
            }
        }
    }
}

/// What selection promises of every input: the kept samples are ranked, so their
/// counts never increase, any two are at least `t` apart, and there are as many
/// as were accepted, up to `n`.
pub proof fn lemma_select_properties(cands: Seq<Sample>, n: nat, t: int)
    ensures
        ranked(select(cands, n, t)),
        forall|i: int, j: int|
            0 <= i < j < select(cands, n, t).len() ==> select(cands, n, t)[i].1 >= select(cands, n, t)[j].1,
        spread(select(cands, n, t), t),
        select(cands, n, t).len() == min_nat(n, accepted(cands, n, t)),
    decreases cands.len(),
{
    if cands.len() > 0 {
        lemma_select_properties(cands.drop_last(), n, t);
        lemma_step(select(cands.drop_last(), n, t), cands.last(), n, t);
    }
    let s = select(cands, n, t);
    assert forall|i: int, j: int| 0 <= i < j < s.len() implies s[i].1 >= s[j].1 by {
        assert(!ranks_before(s[j], s[i]));
    }
}

/// A single candidate is always kept when at least one sample is asked for.
pub proof fn lemma_select_single(c: Sample, n: nat, t: int)
    requires
        n >= 1,
    ensures
        select(seq![c], n, t) == seq![c],
{
    let s = seq![c];
    assert(s.drop_last() =~= Seq::<Sample>::empty());
    assert(select(s.drop_last(), n, t) =~= Seq::<Sample>::empty());
    assert(s.last() == c);
    assert(!too_close(Seq::<Sample>::empty(), c.0, t));
    assert(rank_pos(Seq::<Sample>::empty(), c) == 0);
    assert(Seq::<Sample>::empty().insert(0, c) =~= seq![c]);
}

fn ranks_before_exec(a: &ColorCount, b: &ColorCount) -> (r: bool)
    ensures
        r == ranks_before((a.rgba, a.count as nat), (b.rgba, b.count as nat)),
{
    a.count > b.count || (a.count == b.count && color_key(a.rgba) < color_key(b.rgba))
}

/// Picks up to `n` of the most frequent samples that are mutually at least
/// `threshold` apart, offering the samples in the order given; the result is
/// ranked by count, ties by key.
pub fn select_top(samples: &Vec<ColorCount>, n: usize, threshold: i32) -> (r: Vec<ColorCount>)
    requires
        forall|i: int| 0 <= i < samples.len() ==> (#[trigger] samples[i]).wf(),
    ensures
        forall|i: int| 0 <= i < r.len() ==> (#[trigger] r[i]).wf(),
        samples_of(r@) == select(samples_of(samples@), n as nat, threshold as int),
{
    let ghost cands = samples_of(samples@);
    let mut kept: Vec<ColorCount> = Vec::new();
    let mut i: usize = 0;
    while i < samples.len()
        invariant
            i <= samples.len(),
            cands == samples_of(samples@),
            forall|j: int| 0 <= j < samples.len() ==> (#[trigger] samples[j]).wf(),
            forall|j: int| 0 <= j < kept.len() ==> (#[trigger] kept[j]).wf(),
            kept.len() <= n,
            samples_of(kept@) == select(cands.take(i as int), n as nat, threshold as int),
        decreases samples.len() - i,
    {
        let c = &samples[i];
        let ghost before = samples_of(kept@);
        let mut close = false;
        let mut j: usize = 0;
        while j < kept.len() && !close
            invariant
                j <= kept.len(),
                before == samples_of(kept@),
                close <==> too_close(before.take(j as int), c.rgba, threshold as int),
            decreases kept.len() - j,
        {
            if kept[j].measure_distance(c) < threshold {
                close = true;
            }
            proof {
                if !close {
                    assert forall|q: int| 0 <= q < j + 1 implies !(distance(#[trigger] before.take(j + 1)[q].0, c.rgba) < threshold) by {
                        if q < j {
                            assert(before.take(j + 1)[q] == before.take(j as int)[q]);
                        }
                    }
                } else {
                    assert(before.take(j + 1)[j as int] == before[j as int]);
                }
            }
            j = j + 1;
        }
        proof {
            if close {
                let q = choose|q: int| 0 <= q < before.take(j as int).len() && distance(before.take(j as int)[q].0, c.rgba) < threshold;
                assert(before[q] == before.take(j as int)[q]);
            } else {
                assert(before.take(j as int) =~= before);
            }
        }
        if !close {
            let mut p: usize = 0;
            while p < kept.len() && !ranks_before_exec(c, &kept[p])
                invariant
                    p <= kept.len(),
                    before == samples_of(kept@),
                    forall|q: int| 0 <= q < p ==> !ranks_before((c.rgba, c.count as nat), #[trigger] before[q]),
                decreases kept.len() - p,
            {
                p = p + 1;
            }
            proof {
                lemma_rank_pos(before, (c.rgba, c.count as nat));
                let rp = rank_pos(before, (c.rgba, c.count as nat));
                if rp < p {
                    assert(!ranks_before((c.rgba, c.count as nat), before[rp]));
                }
                if p < rp {
                    assert(!ranks_before((c.rgba, c.count as nat), before[p as int]));
                }
            }
            kept.insert(p, c.duplicate());
            if kept.len() > n {
                kept.pop();
            }
        }
        proof {
            let t = cands.take(i + 1);
            assert(t.drop_last() =~= cands.take(i as int));
            assert(t.last() == (c.rgba, c.count as nat));
            if !close {
                let g = before.insert(rank_pos(before, (c.rgba, c.count as nat)), (c.rgba, c.count as nat));
                if g.len() > n {
                    assert(samples_of(kept@) =~= g.take(n as int));
                } else {
                    assert(samples_of(kept@) =~= g);
                }
            }
        }
        i = i + 1;
    }
    proof {
        assert(cands.take(samples.len() as int) =~= cands);
    }
    kept
}

/// `s` lists the entries of `m` once each, best ranked first.
pub open spec fn in_rank_order(s: Seq<Sample>, m: Tally) -> bool {
    &&& forall|i: int, j: int| 0 <= i < j < s.len() ==> ranks_before(s[i], s[j])
    &&& forall|i: int| 0 <= i < s.len() ==> #[trigger] m.contains_key(key_of(s[i].0)) && m[key_of(s[i].0)] == s[i]
    &&& forall|k: u32| #[trigger] m.contains_key(k) ==> exists|i: int| 0 <= i < s.len() && key_of(s[i].0) == k
}

/// The entries of a histogram, most frequent first, ties by increasing key.
pub open spec fn ranked_entries(m: Tally) -> Seq<Sample> {
    choose|s: Seq<Sample>| in_rank_order(s, m)
}

proof fn lemma_rank_order_unique_prefix(s1: Seq<Sample>, s2: Seq<Sample>, m: Tally, i: int)
    requires
        in_rank_order(s1, m),
        in_rank_order(s2, m),
        0 <= i <= s1.len(),
        0 <= i <= s2.len(),
    ensures
        forall|j: int| 0 <= j < i ==> s1[j] == s2[j],
    decreases i,
{
    if i > 0 {
        let n = i - 1;
        lemma_rank_order_unique_prefix(s1, s2, m, n);
        let k1 = key_of(s1[n].0);
        let k2 = key_of(s2[n].0);
        assert(m.contains_key(k1));
        assert(m.contains_key(k2));
        let j2 = choose|j: int| 0 <= j < s2.len() && key_of(s2[j].0) == k1;
        let j1 = choose|j: int| 0 <= j < s1.len() && key_of(s1[j].0) == k2;
        assert(s2[j2] == s1[n]);
        assert(s1[j1] == s2[n]);
        assert(m[k1] == s1[n] && m[k1] == s2[j2]);
        assert(m[k2] == s2[n] && m[k2] == s1[j1]);
        if j2 < n {
            assert(s1[j2] == s2[j2]);
            assert(ranks_before(s1[j2], s1[n]));
        }
        if j1 < n {
            assert(s1[j1] == s2[j1]);
            assert(ranks_before(s2[j1], s2[n]));
        }
        if j2 > n {
            assert(ranks_before(s2[n], s2[j2]));
        }
        if j1 > n {
            assert(ranks_before(s1[n], s1[j1]));
        }
        assert(k1 == k2);
    }
}

/// A histogram has one listing in rank order.
pub proof fn lemma_rank_order_unique(s1: Seq<Sample>, s2: Seq<Sample>, m: Tally)
    requires
        in_rank_order(s1, m),
        in_rank_order(s2, m),
    ensures
        s1 == s2,
{
    if s1.len() < s2.len() {
        let l = s1.len() as int;
        lemma_rank_order_unique_prefix(s1, s2, m, l);
        let k = key_of(s2[l].0);
        assert(m.contains_key(k));
        let j = choose|j: int| 0 <= j < s1.len() && key_of(s1[j].0) == k;
        assert(s1[j] == s2[j]);
        assert(m[k] == s1[j] && m[k] == s2[l]);
        assert(ranks_before(s2[j], s2[l]));
    } else if s2.len() < s1.len() {
        let l = s2.len() as int;
        lemma_rank_order_unique_prefix(s1, s2, m, l);
        let k = key_of(s1[l].0);
        assert(m.contains_key(k));
        let j = choose|j: int| 0 <= j < s2.len() && key_of(s2[j].0) == k;
        assert(s1[j] == s2[j]);
        assert(m[k] == s2[j] && m[k] == s1[l]);
        assert(ranks_before(s1[j], s1[l]));
    } else {
        lemma_rank_order_unique_prefix(s1, s2, m, s1.len() as int);
        assert(s1 =~= s2);
    }
}

/// A number whose order is the ranking: fewer sightings give a larger number,
/// and the key breaks ties.
pub open spec fn rank_key(s: Sample) -> int {
    (u32::MAX - s.1) * 0x1_0000_0000 + key_of(s.0)
}

fn rank_key_of(s: &ColorCount) -> (r: u64)
    ensures
        r == rank_key((s.rgba, s.count as nat)),
{
    (u32::MAX - s.count) as u64 * 0x1_0000_0000 + color_key(s.rgba) as u64
}

/// Each sample's rank key, mapped to its index.
fn index_by_rank(samples: &Vec<ColorCount>, m: Ghost<Tally>) -> (r: BTreeMap<u64, usize>)
    requires
        in_key_order(samples_of(samples@), m@),
    ensures
        forall|k: u64| #[trigger] r@.contains_key(k) ==> r@[k] < samples.len() && rank_key(samples_of(samples@)[r@[k] as int]) == k,
        forall|j: int| 0 <= j < samples.len() ==> #[trigger] r@.contains_key(rank_key(samples_of(samples@)[j]) as u64),
{
    let ghost sv = samples_of(samples@);
    let mut by_rank: BTreeMap<u64, usize> = BTreeMap::new();
    let mut i: usize = 0;
    while i < samples.len()
        invariant
            i <= samples.len(),
            sv == samples_of(samples@),
            in_key_order(sv, m@),
            forall|k: u64| #[trigger] by_rank@.contains_key(k) ==> by_rank@[k] < i && rank_key(sv[by_rank@[k] as int]) == k,
            forall|j: int| 0 <= j < i ==> #[trigger] by_rank@.contains_key(rank_key(sv[j]) as u64),
        decreases samples.len() - i,
    {
        let k = rank_key_of(&samples[i]);
        proof {
            assert(sv[i as int] == (samples[i as int].rgba, samples[i as int].count as nat));
            if by_rank@.contains_key(k) {
                let j = by_rank@[k] as int;
                assert(key_of(sv[j].0) < key_of(sv[i as int].0));
            }
        }
        by_rank.insert(k, i);
        i = i + 1;
    }
    by_rank
}

/// The keys of a map, increasing.
fn increasing_keys(by_rank: &BTreeMap<u64, usize>) -> (r: Vec<u64>)
    ensures
        forall|a: int, b: int| 0 <= a < b < r.len() ==> r[a] < r[b],
        r@.to_set() == by_rank@.dom(),
{
    let ghost all = by_rank.keys().remaining();
    let mut order: Vec<u64> = Vec::new();
    for k in it: by_rank.keys()
        invariant
            it.seq() == all,
            order@ == all.unref().take(it.index() as int),
    {
        order.push(*k);
    }
    assert(order@ == all.unref());
    assert forall|a: int, b: int| 0 <= a < b < all.len() implies *all[a] < *all[b] by {
        assert(vstd::laws_cmp::obeys_cmp::<&u64>());
        assert(increasing_seq(all));
        assert(<&u64 as OrdSpec>::cmp_spec(&all[a], &all[b]) is Less);
    }
    order
}

proof fn lemma_gathered_in_rank_order(
    sv: Seq<Sample>,
    so: Seq<Sample>,
    order: Seq<u64>,
    idx: Map<u64, usize>,
    m: Tally,
)
    requires
        in_key_order(sv, m),
        forall|j: int| 0 <= j < sv.len() ==> #[trigger] sv[j].1 <= u32::MAX,
        forall|a: int, b: int| 0 <= a < b < order.len() ==> order[a] < order[b],
        order.to_set() == idx.dom(),
        forall|k: u64| #[trigger] idx.contains_key(k) ==> idx[k] < sv.len() && rank_key(sv[idx[k] as int]) == k,
        forall|j: int| 0 <= j < sv.len() ==> #[trigger] idx.contains_key(rank_key(sv[j]) as u64),
        so.len() == order.len(),
        forall|j: int| 0 <= j < so.len() ==> #[trigger] so[j] == sv[idx[order[j]] as int],
    ensures
        in_rank_order(so, m),
{
    assert forall|a: int, b: int| 0 <= a < b < so.len() implies ranks_before(so[a], so[b]) by {
        assert(order.to_set().contains(order[a]));
        assert(order.to_set().contains(order[b]));
        assert(so[a] == sv[idx[order[a]] as int]);
        assert(so[b] == sv[idx[order[b]] as int]);
        assert(so[a].1 <= u32::MAX);
        assert(so[b].1 <= u32::MAX);
    }
    assert forall|a: int| 0 <= a < so.len() implies #[trigger] m.contains_key(key_of(so[a].0)) && m[key_of(so[a].0)] == so[a] by {
        assert(order.to_set().contains(order[a]));
        let j = idx[order[a]] as int;
        assert(so[a] == sv[j]);
        assert(m.contains_key(key_of(sv[j].0)));
    }
    assert forall|k: u32| #[trigger] m.contains_key(k) implies exists|a: int| 0 <= a < so.len() && key_of(so[a].0) == k by {
        let j = choose|j: int| 0 <= j < sv.len() && key_of(sv[j].0) == k;
        let rk = rank_key(sv[j]) as u64;
        assert(idx.contains_key(rk));
        assert(order.to_set().contains(rk));
        let a = order.index_of(rk);
        let j2 = idx[rk] as int;
        assert(sv[j2].1 <= u32::MAX);
        assert(sv[j].1 <= u32::MAX);
        assert(rank_key(sv[j2]) == rank_key(sv[j]));
        assert(key_of(sv[j2].0) == key_of(sv[j].0));
        assert(so[a] == sv[j2]);
    }
}

/// The samples of a histogram in rank order.
pub(crate) fn rank_sort(samples: &Vec<ColorCount>, m: Ghost<Tally>) -> (r: Vec<ColorCount>)
    requires
        forall|i: int| 0 <= i < samples.len() ==> (#[trigger] samples[i]).wf(),
        in_key_order(samples_of(samples@), m@),
    ensures
        forall|i: int| 0 <= i < r.len() ==> (#[trigger] r[i]).wf(),
        in_rank_order(ranked_entries(m@), m@),
        samples_of(r@) == ranked_entries(m@),
{
    let ghost sv = samples_of(samples@);
    let by_rank = index_by_rank(samples, m);
    let order = increasing_keys(&by_rank);
    let mut out: Vec<ColorCount> = Vec::new();
    let mut q: usize = 0;
    while q < order.len()
        invariant
            q <= order.len(),
            sv == samples_of(samples@),
            forall|j: int| 0 <= j < samples.len() ==> (#[trigger] samples[j]).wf(),
            order@.to_set() == by_rank@.dom(),
            forall|k: u64| #[trigger] by_rank@.contains_key(k) ==> by_rank@[k] < samples.len(),
            out.len() == q,
            forall|j: int| 0 <= j < q ==> (#[trigger] out[j]).wf() && samples_of(out@)[j] == sv[by_rank@[order[j]] as int],
        decreases order.len() - q,
    {
        let k = order[q];
        assert(order@.to_set().contains(k));
        match by_rank.get(&k) {
            Some(idx) => {
                out.push(samples[*idx].duplicate());
            },
            None => {
                assert(false);
            },
        }
        q = q + 1;
    }
    proof {
        lemma_gathered_in_rank_order(sv, samples_of(out@), order@, by_rank@, m@);
        lemma_rank_order_unique(samples_of(out@), ranked_entries(m@), m@);
    }
    out
}

} // verus!
