use vstd::prelude::*;
use std::collections::BTreeMap;
use vstd::std_specs::btree::increasing_seq;
use vstd::std_specs::iter::IteratorSpec;
use vstd::std_specs::cmp::OrdSpec;
use crate::colors::{Color, ColorCount, key_of};
use crate::selection::samples_of;

verus! {

broadcast use vstd::std_specs::btree::group_btree_axioms, vstd::laws_cmp::group_laws_cmp;

/// What a histogram holds: for each color key, the color that stands for it and
/// the number of times it was seen.
pub type Tally = Map<u32, (Color, nat)>;

pub open spec fn max_u8(x: u8, y: u8) -> u8 {
    if x >= y {
        x
    } else {
        y
    }
}

/// `c` after its key was also seen with alpha `a`: the more opaque sighting wins,
/// so the result does not depend on the order of the sightings.
pub open spec fn with_alpha_max(c: Color, a: u8) -> Color {
    Color { r: c.r, g: c.g, b: c.b, a: max_u8(c.a, a) }
}

/// `m` after `n` more sightings of `c`.
pub open spec fn absorb(m: Tally, c: Color, n: nat) -> Tally {
    let k = key_of(c);
    if m.contains_key(k) {
        m.insert(k, (with_alpha_max(m[k].0, c.a), m[k].1 + n))
    } else {
        m.insert(k, (c, n))
    }
}

/// The histogram of a sequence of pixels.
pub open spec fn tally(s: Seq<Color>) -> Tally
    decreases s.len(),
{
    if s.len() == 0 {
        Map::empty()
    } else {
        absorb(tally(s.drop_last()), s.last(), 1)
    }
}

/// Two histograms summed key by key.
pub open spec fn merge(m1: Tally, m2: Tally) -> Tally {
    Map::new(
        |k: u32| m1.contains_key(k) || m2.contains_key(k),
        |k: u32|
            if m1.contains_key(k) && m2.contains_key(k) {
                (with_alpha_max(m1[k].0, m2[k].0.a), m1[k].1 + m2[k].1)
            } else if m1.contains_key(k) {
                m1[k]
            } else {
                m2[k]
            },
    )
}

/// The sum of the counts of a finite histogram.
pub open spec fn total(m: Tally) -> nat
    decreases m.dom().len(),
{
    if m.dom().finite() && exists|k: u32| m.contains_key(k) {
        let k = choose|k: u32| m.contains_key(k);
        m[k].1 + total(m.remove(k))
    } else {
        0
    }
}

/// Each entry is filed under the key of its color.
pub open spec fn keys_match(m: Tally) -> bool {
    forall|k: u32| #[trigger] m.contains_key(k) ==> key_of(m[k].0) == k
}

/// `s` lists the entries of `m` once each, by increasing key.
pub open spec fn in_key_order(s: Seq<(Color, nat)>, m: Tally) -> bool {
    &&& forall|i: int, j: int| 0 <= i < j < s.len() ==> key_of(s[i].0) < key_of(s[j].0)
    &&& forall|i: int| 0 <= i < s.len() ==> #[trigger] m.contains_key(key_of(s[i].0)) && m[key_of(s[i].0)] == s[i]
    &&& forall|k: u32| #[trigger] m.contains_key(k) ==> exists|i: int| 0 <= i < s.len() && key_of(s[i].0) == k
}

/// The entries of a histogram by increasing key.
pub open spec fn ordered_entries(m: Tally) -> Seq<(Color, nat)> {
    choose|s: Seq<(Color, nat)>| in_key_order(s, m)
}

proof fn lemma_total_remove(m: Tally, k: u32)
    requires
        m.dom().finite(),
        m.contains_key(k),
    ensures
        total(m) == m[k].1 + total(m.remove(k)),
    decreases m.dom().len(),
{
    let j = choose|j: u32| m.contains_key(j);
    if j != k {
        let mj = m.remove(j);
        let mk = m.remove(k);
        lemma_total_remove(mj, k);
        lemma_total_remove(mk, j);
        assert(mj.remove(k) =~= mk.remove(j));
    }
}

proof fn lemma_total_absorb(m: Tally, c: Color, n: nat)
    requires
        m.dom().finite(),
    ensures
        absorb(m, c, n).dom().finite(),
        total(absorb(m, c, n)) == total(m) + n,
{
    let k = key_of(c);
    let a = absorb(m, c, n);
    lemma_total_remove(a, k);
    if m.contains_key(k) {
        lemma_total_remove(m, k);
        assert(a.remove(k) =~= m.remove(k));
    } else {
        assert(a.remove(k) =~= m);
    }
}

/// Counting pixels loses none: the counts of the histogram of `s` add up to the
/// number of pixels in `s`, and no count exceeds it.
pub proof fn lemma_tally_total(s: Seq<Color>)
    ensures
        tally(s).dom().finite(),
        total(tally(s)) == s.len(),
        keys_match(tally(s)),
        forall|k: u32| #[trigger] tally(s).contains_key(k) ==> tally(s)[k].1 <= s.len(),
    decreases s.len(),
{
    if s.len() > 0 {
        lemma_tally_total(s.drop_last());
        lemma_total_absorb(tally(s.drop_last()), s.last(), 1);
    }
}

/// Counting a sequence in two parts and merging the two histograms gives the
/// histogram of the whole sequence: the result does not depend on how the pixels
/// were split up.
pub proof fn lemma_tally_split(front: Seq<Color>, back: Seq<Color>)
    ensures
        tally(front + back) == merge(tally(front), tally(back)),
    decreases back.len(),
{
    if back.len() == 0 {
        assert(front + back =~= front);
        assert(merge(tally(front), tally(back)) =~= tally(front));
    } else {
        let q = back.drop_last();
        let c = back.last();
        lemma_tally_split(front, q);
        assert((front + back).drop_last() =~= front + q);
        assert((front + back).last() == c);
        assert(tally(front + back) =~= merge(tally(front), tally(back)));
    }
}

proof fn lemma_key_injective(a: Color, b: Color)
    requires
        key_of(a) == key_of(b),
    ensures
        a.r == b.r && a.g == b.g && a.b == b.b,
{
}

proof fn lemma_absorb_commute(m: Tally, a: Color, b: Color)
    requires
        keys_match(m),
    ensures
        absorb(absorb(m, a, 1), b, 1) == absorb(absorb(m, b, 1), a, 1),
{
    if key_of(a) == key_of(b) {
        lemma_key_injective(a, b);
        if m.contains_key(key_of(a)) {
            lemma_key_injective(m[key_of(a)].0, a);
        }
    }
    assert(absorb(absorb(m, a, 1), b, 1) =~= absorb(absorb(m, b, 1), a, 1));
}

/// Taking out any one pixel and counting it last gives the same histogram.
proof fn lemma_tally_remove(s: Seq<Color>, j: int)
    requires
        0 <= j < s.len(),
    ensures
        tally(s) == absorb(tally(s.remove(j)), s[j], 1),
    decreases s.len(),
{
    if j == s.len() - 1 {
        assert(s.remove(j) =~= s.drop_last());
    } else {
        let d = s.drop_last();
        lemma_tally_remove(d, j);
        assert(d[j] == s[j]);
        lemma_tally_total(d.remove(j));
        lemma_absorb_commute(tally(d.remove(j)), s[j], s.last());
        assert(s.remove(j).drop_last() =~= d.remove(j));
        assert(s.remove(j).last() == s.last());
    }
}

/// The histogram does not depend on the order of the pixels: two sequences
/// holding the same pixels, as many times each, have one histogram.
pub proof fn lemma_tally_permutation(s1: Seq<Color>, s2: Seq<Color>)
    requires
        s1.to_multiset() == s2.to_multiset(),
    ensures
        tally(s1) == tally(s2),
    decreases s1.len(),
{
    broadcast use vstd::seq_lib::group_to_multiset_ensures;

    if s1.len() == 0 {
        assert(s2.len() == s2.to_multiset().len());
        assert(s1.len() == s1.to_multiset().len());
    } else {
        let x = s1.last();
        let d1 = s1.drop_last();
        assert(s1 =~= d1.push(x));
        assert(s1.to_multiset().count(x) > 0);
        assert(s2.contains(x));
        let j = s2.index_of(x);
        let d2 = s2.remove(j);
        assert(d1.to_multiset() =~= s1.to_multiset().remove(x));
        assert(d2.to_multiset() == s2.to_multiset().remove(s2[j]));
        lemma_tally_permutation(d1, d2);
        lemma_tally_remove(s2, j);
    }
}

proof fn lemma_key_order_unique_prefix(s1: Seq<(Color, nat)>, s2: Seq<(Color, nat)>, m: Tally, i: int)
    requires
        in_key_order(s1, m),
        in_key_order(s2, m),
        0 <= i <= s1.len(),
        0 <= i <= s2.len(),
    ensures
        forall|j: int| 0 <= j < i ==> s1[j] == s2[j],
    decreases i,
{
    if i > 0 {
        let n = i - 1;
        lemma_key_order_unique_prefix(s1, s2, m, n);
        let k1 = key_of(s1[n].0);
        let k2 = key_of(s2[n].0);
        assert(m.contains_key(k1));
        assert(m.contains_key(k2));
        let j2 = choose|j: int| 0 <= j < s2.len() && key_of(s2[j].0) == k1;
        let j1 = choose|j: int| 0 <= j < s1.len() && key_of(s1[j].0) == k2;
        if j2 < n {
            assert(s1[j2] == s2[j2]);
        }
        if j1 < n {
            assert(s1[j1] == s2[j1]);
        }
        assert(k1 == k2);
    }
}

/// A histogram has one listing by increasing key.
pub proof fn lemma_key_order_unique(s1: Seq<(Color, nat)>, s2: Seq<(Color, nat)>, m: Tally)
    requires
        in_key_order(s1, m),
        in_key_order(s2, m),
    ensures
        s1 == s2,
{
    if s1.len() < s2.len() {
        lemma_key_order_unique_prefix(s1, s2, m, s1.len() as int);
        let k = key_of(s2[s1.len() as int].0);
        assert(m.contains_key(k));
        let j = choose|j: int| 0 <= j < s1.len() && key_of(s1[j].0) == k;
        assert(s1[j] == s2[j]);
    } else if s2.len() < s1.len() {
        lemma_key_order_unique_prefix(s1, s2, m, s2.len() as int);
        let k = key_of(s1[s2.len() as int].0);
        assert(m.contains_key(k));
        let j = choose|j: int| 0 <= j < s2.len() && key_of(s2[j].0) == k;
        assert(s1[j] == s2[j]);
    } else {
        lemma_key_order_unique_prefix(s1, s2, m, s1.len() as int);
        assert(s1 =~= s2);
    }
}

/// The key of a color, as `key_of` states it.
pub fn color_key(c: Color) -> (k: u32)
    ensures
        k == key_of(c),
{
    (c.r as u32) * 65536 + (c.g as u32) * 256 + (c.b as u32)
}

/// Counts of the colors seen in an image, keyed by their RGB channels.
pub struct ColorHistogram {
    buckets: BTreeMap<u32, (Color, u32)>,
}

impl View for ColorHistogram {
    type V = Tally;

    closed spec fn view(&self) -> Tally {
        self.buckets@.map_values(|v: (Color, u32)| (v.0, v.1 as nat))
    }
}

impl ColorHistogram {
    pub closed spec fn wf(&self) -> bool {
        keys_match(self@)
    }

    /// A histogram of no pixels.
    pub fn new() -> (h: ColorHistogram)
        ensures
            h.wf(),
            h@ == Map::<u32, (Color, nat)>::empty(),
    {
        let h = ColorHistogram { buckets: BTreeMap::new() };
        assert(h@ =~= Map::<u32, (Color, nat)>::empty());
        h
    }

    /// The number of distinct colors.
    pub fn len(&self) -> (n: usize)
        ensures
            n == self@.dom().len(),
    {
        assert(self@.dom() =~= self.buckets@.dom());
        self.buckets.len()
    }

    /// The count of a color's key, if it was seen.
    pub fn count_of(&self, c: Color) -> (r: Option<u32>)
        ensures
            r == (if self@.contains_key(key_of(c)) {
                Some(self@[key_of(c)].1 as u32)
            } else {
                None::<u32>
            }),
    {
        let k = color_key(c);
        match self.buckets.get(&k) {
            Some(v) => Some(v.1),
            None => None,
        }
    }

    /// Counts `n` more sightings of `c`.
    pub fn add_count(&mut self, c: Color, n: u32)
        requires
            old(self).wf(),
            old(self)@.contains_key(key_of(c)) ==> old(self)@[key_of(c)].1 + n <= u32::MAX,
        ensures
            final(self).wf(),
            final(self)@ == absorb(old(self)@, c, n as nat),
    {
        let k = color_key(c);
        let ghost before = self@;
        match self.buckets.get(&k) {
            Some(v) => {
                let (seen, m) = *v;
                let a = if seen.a >= c.a {
                    seen.a
                } else {
                    c.a
                };
                self.buckets.insert(k, (Color { r: seen.r, g: seen.g, b: seen.b, a }, m + n));
            },
            None => {
                self.buckets.insert(k, (c, n));
            },
        }
        assert(self@ =~= absorb(before, c, n as nat));
    }

    /// Counts one sighting of `c`.
    pub fn ingest(&mut self, c: Color)
        requires
            old(self).wf(),
            old(self)@.contains_key(key_of(c)) ==> old(self)@[key_of(c)].1 < u32::MAX,
        ensures
            final(self).wf(),
            final(self)@ == absorb(old(self)@, c, 1),
    {
        self.add_count(c, 1);
    }

    /// Counts the sightings that `sample` stands for.
    pub fn add(&mut self, sample: &ColorCount)
        requires
            old(self).wf(),
            old(self)@.contains_key(key_of(sample.rgba)) ==> old(self)@[key_of(sample.rgba)].1
                + sample.count <= u32::MAX,
        ensures
            final(self).wf(),
            final(self)@ == absorb(old(self)@, sample.rgba, sample.count as nat),
    {
        self.add_count(sample.rgba, sample.count);
    }

    /// The keys of the histogram, increasing.
    fn ordered_keys(&self) -> (r: Vec<u32>)
        ensures
            forall|i: int, j: int| 0 <= i < j < r.len() ==> r[i] < r[j],
            forall|i: int| 0 <= i < r.len() ==> #[trigger] self@.contains_key(r[i]),
            forall|k: u32| #[trigger] self@.contains_key(k) ==> r@.contains(k),
    {
        let ghost all = self.buckets.keys().remaining();
        let mut out: Vec<u32> = Vec::new();
        for k in it: self.buckets.keys()
            invariant
                it.seq() == all,
                out@ == all.unref().take(it.index() as int),
        {
            out.push(*k);
        }
        assert(out@ == all.unref());
        assert forall|i: int, j: int| 0 <= i < j < all.len() implies *all[i] < *all[j] by {
            assert(vstd::laws_cmp::obeys_cmp::<&u32>());
            assert(increasing_seq(all));
            assert(<&u32 as OrdSpec>::cmp_spec(&all[i], &all[j]) is Less);
        }
        assert(out@.to_set() == self.buckets@.dom());
        assert forall|k: u32| #[trigger] self@.contains_key(k) implies out@.contains(k) by {
            assert(out@.to_set().contains(k));
        }
        assert forall|i: int| 0 <= i < out.len() implies #[trigger] self@.contains_key(out[i]) by {
            assert(out@.to_set().contains(out@[i]));
        }
        out
    }

    /// The samples of the histogram by increasing key.
    pub fn finalize(&self) -> (r: Vec<ColorCount>)
        requires
            self.wf(),
        ensures
            forall|i: int| 0 <= i < r.len() ==> (#[trigger] r[i]).wf(),
            in_key_order(samples_of(r@), self@),
            samples_of(r@) == ordered_entries(self@),
    {
        let keys = self.ordered_keys();
        let mut out: Vec<ColorCount> = Vec::new();
        let mut i: usize = 0;
        while i < keys.len()
            invariant
                self.wf(),
                i <= keys.len(),
                out.len() == i,
                forall|j: int| 0 <= j < keys.len() ==> #[trigger] self@.contains_key(keys[j]),
                forall|j: int|
                    0 <= j < i ==> (#[trigger] out[j]).wf() && key_of(out[j].rgba) == keys[j]
                        && self@[keys[j]] == (out[j].rgba, out[j].count as nat),
            decreases keys.len() - i,
        {
            let k = keys[i];
            assert(self@.contains_key(k));
            match self.buckets.get(&k) {
                Some(v) => {
                    out.push(ColorCount::with_count(v.0, v.1));
                },
                None => {
                    assert(false);
                },
            }
            i = i + 1;
        }
        let ghost s = samples_of(out@);
        assert forall|k: u32| #[trigger] self@.contains_key(k) implies exists|i: int|
            0 <= i < s.len() && key_of(s[i].0) == k by {
            let i = keys@.index_of(k);
            assert(key_of(s[i].0) == k);
        }
        assert(in_key_order(s, self@));
        proof {
            lemma_key_order_unique(s, ordered_entries(self@), self@);
        }
        out
    }

    /// Adds the counts of `other` to this histogram.
    pub fn merge(&mut self, other: &ColorHistogram)
        requires
            old(self).wf(),
            other.wf(),
            forall|k: u32|
                old(self)@.contains_key(k) && other@.contains_key(k) ==> old(self)@[k].1 + other@[k].1
                    <= u32::MAX,
        ensures
            final(self).wf(),
            final(self)@ == merge(old(self)@, other@),
    {
        let keys = other.ordered_keys();
        let ghost start = self@;
        let mut i: usize = 0;
        while i < keys.len()
            invariant
                self.wf(),
                other.wf(),
                i <= keys.len(),
                forall|a: int, b: int| 0 <= a < b < keys.len() ==> keys[a] < keys[b],
                forall|j: int| 0 <= j < keys.len() ==> #[trigger] other@.contains_key(keys[j]),
                forall|k: u32|
                    start.contains_key(k) && other@.contains_key(k) ==> start[k].1 + other@[k].1 <= u32::MAX,
                self@ == merge(start, other@.restrict(keys@.take(i as int).to_set())),
            decreases keys.len() - i,
        {
            let k = keys[i];
            let ghost done = other@.restrict(keys@.take(i as int).to_set());
            assert(!done.contains_key(k)) by {
                if keys@.take(i as int).contains(k) {
                    let j = keys@.take(i as int).index_of(k);
                    assert(keys[j] < keys[i as int]);
                }
            }
            assert(other@.contains_key(k));
            match other.buckets.get(&k) {
                Some(v) => {
                    assert(key_of(v.0) == k);
                    assert(self@.contains_key(k) ==> self@[k] == start[k]);
                    self.add_count(v.0, v.1);
                },
                None => {
                    assert(false);
                },
            }
            let ghost next = other@.restrict(keys@.take(i + 1).to_set());
            assert(keys@.take(i + 1) =~= keys@.take(i as int).push(k));
            assert(keys@.take(i + 1).to_set() =~= keys@.take(i as int).to_set().insert(k)) by {
                keys@.take(i as int).lemma_push_to_set_commute(k);
            }
            assert(next =~= done.insert(k, other@[k]));
            assert(self@ =~= merge(start, next));
            i = i + 1;
        }
        assert forall|k: u32| #[trigger] other@.contains_key(k) implies keys@.take(keys.len() as int).to_set().contains(k) by {
            assert(keys@.take(keys.len() as int) =~= keys@);
        }
        assert(other@.restrict(keys@.take(keys.len() as int).to_set()) =~= other@);
    }
}

} // verus!
