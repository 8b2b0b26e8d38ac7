//! Adaptive symbol histograms, and the context-switching probability model
//! that the entropy coder is driven by.
//!
//! A histogram counts how often each symbol of an alphabet was seen, with
//! one more slot for the end-of-sequence mark. The counts are kept in a
//! Fenwick tree, so that the cumulative count below a symbol, the symbol
//! that a cumulative value falls on, and an increment all take logarithmic
//! time. A model holds one histogram per context; the caller selects the
//! context before each symbol, so that unlike kinds of symbols do not spoil
//! one another's statistics.

use std::ops::Range;
use vstd::prelude::*;

verus! {

/// The largest denominator a model may be given: with 64-bit coder state it
/// leaves the coder the precision it needs.
pub const MAX_DENOMINATOR_LIMIT: u64 = 0x4000_0000;

/// The lowest set bit of `k`.
pub open spec fn spec_lowbit(k: u64) -> u64 {
    k & ((!k + 1) as u64)
}

/// The lowest set bit of a positive number is positive and at most the
/// number.
pub proof fn lemma_lowbit_range(k: u64)
    requires
        0 < k,
    ensures
        0 < spec_lowbit(k) <= k,
{
    assert(0 < k ==> 0 < (k & ((!k + 1) as u64)) <= k) by (bit_vector);
}

/// Adding its lowest set bit to `k` gives a node whose span reaches back at
/// least as far as the span of `k`.
pub proof fn lemma_lowbit_step(k: u64)
    requires
        0 < k < 0x1_0000_0000,
    ensures
        (k + spec_lowbit(k)) - spec_lowbit((k + spec_lowbit(k)) as u64) <= k - spec_lowbit(k),
{
    lemma_lowbit_range(k);
    assert(0 < k < 0x1_0000_0000 ==> ({
        let lb = k & ((!k + 1) as u64);
        let k2 = (k + lb) as u64;
        let lb2 = k2 & ((!k2 + 1) as u64);
        k2 - lb2 <= k - lb
    })) by (bit_vector);
}

/// The span of a node strictly between `k` and `k` plus its lowest set bit
/// starts at or after `k`.
pub proof fn lemma_lowbit_between(k: u64, m: u64)
    requires
        0 < k < 0x1_0000_0000,
        k < m < k + spec_lowbit(k),
    ensures
        m - spec_lowbit(m) >= k,
{
    assert(0 < k < 0x1_0000_0000 && k < m && m < k + (k & ((!k + 1) as u64)) ==> m - (m & ((!m
        + 1) as u64)) >= k) by (bit_vector);
}

/// The lowest set bit of `k`.
pub fn lowbit(k: u64) -> (r: u64)
    requires
        0 < k,
    ensures
        r == spec_lowbit(k),
    no_unwind
{
    assert(0 < k ==> !k < 0xffff_ffff_ffff_ffff) by (bit_vector);
    k & (!k + 1)
}

/// The sum of `counts[lo..hi]`.
pub open spec fn spec_sum(counts: Seq<u64>, lo: int, hi: int) -> int
    decreases hi - lo,
{
    if hi <= lo {
        0
    } else {
        spec_sum(counts, lo, hi - 1) + counts[hi - 1]
    }
}

/// A sum splits at any point of its range.
pub proof fn lemma_sum_split(counts: Seq<u64>, lo: int, mid: int, hi: int)
    requires
        lo <= mid <= hi,
    ensures
        spec_sum(counts, lo, hi) == spec_sum(counts, lo, mid) + spec_sum(counts, mid, hi),
    decreases hi - mid,
{
    if mid < hi {
        lemma_sum_split(counts, lo, mid, hi - 1);
    }
}

/// A sum is not negative.
pub proof fn lemma_sum_nonnegative(counts: Seq<u64>, lo: int, hi: int)
    ensures
        0 <= spec_sum(counts, lo, hi),
    decreases hi - lo,
{
    if lo < hi {
        lemma_sum_nonnegative(counts, lo, hi - 1);
    }
}

/// A part of a range sums to at most what the range sums to.
pub proof fn lemma_sum_part(counts: Seq<u64>, lo: int, a: int, b: int, hi: int)
    requires
        lo <= a <= b <= hi,
    ensures
        spec_sum(counts, a, b) <= spec_sum(counts, lo, hi),
{
    lemma_sum_split(counts, lo, a, hi);
    lemma_sum_split(counts, a, b, hi);
    lemma_sum_nonnegative(counts, lo, a);
    lemma_sum_nonnegative(counts, b, hi);
}

/// Raising one count by one raises the sums over the ranges that hold it by
/// one, and no other.
pub proof fn lemma_sum_update(counts: Seq<u64>, i: int, lo: int, hi: int)
    requires
        0 <= i < counts.len(),
        counts[i] < u64::MAX,
        0 <= lo <= hi <= counts.len(),
    ensures
        spec_sum(counts.update(i, (counts[i] + 1) as u64), lo, hi) == spec_sum(counts, lo, hi) + (
        if lo <= i < hi {
            1int
        } else {
            0int
        }),
    decreases hi - lo,
{
    if lo < hi {
        lemma_sum_update(counts, i, lo, hi - 1);
    }
}

/// Where every count is at least one, a sum is at least the length of its
/// range.
pub proof fn lemma_sum_at_least_length(counts: Seq<u64>, lo: int, hi: int)
    requires
        0 <= lo <= hi <= counts.len(),
        forall|i: int| 0 <= i < counts.len() ==> counts[i] >= 1,
    ensures
        spec_sum(counts, lo, hi) >= hi - lo,
    decreases hi - lo,
{
    if lo < hi {
        lemma_sum_at_least_length(counts, lo, hi - 1);
    }
}

/// A sequence of ones sums to the length of the range.
pub proof fn lemma_sum_of_ones(counts: Seq<u64>, lo: int, hi: int)
    requires
        0 <= lo <= hi <= counts.len(),
        forall|i: int| 0 <= i < counts.len() ==> counts[i] == 1,
    ensures
        spec_sum(counts, lo, hi) == hi - lo,
    decreases hi - lo,
{
    if lo < hi {
        lemma_sum_of_ones(counts, lo, hi - 1);
    }
}

/// Counts of the symbols of one context, with cumulative sums in
/// logarithmic time.
pub struct Histogram {
    /// How often each slot was counted; the last slot is the
    /// end-of-sequence mark.
    pub counts: Vec<u64>,
    /// Node `k` (from 1) holds the sum of the counts of the `lowbit(k)`
    /// slots that end before slot `k`.
    pub tree: Vec<u64>,
    /// The sum of all counts.
    pub total: u64,
}

impl View for Histogram {
    type V = Seq<u64>;

    /// The count of every slot.
    open spec fn view(&self) -> Seq<u64> {
        self.counts@
    }
}

impl Histogram {
    /// The tree and the total agree with the counts, every slot can be
    /// coded, and the sizes stay within what index arithmetic can hold.
    pub open spec fn wf(&self) -> bool {
        &&& 1 <= self.counts.len() < 0x1_0000_0000
        &&& self.tree.len() == self.counts.len() + 1
        &&& self.total == spec_sum(self.counts@, 0, self.counts.len() as int)
        &&& forall|i: int| 0 <= i < self.counts.len() ==> #[trigger] self.counts[i] >= 1
        &&& forall|k: int|
            1 <= k <= self.counts.len() ==> #[trigger] self.tree[k] == spec_sum(
                self.counts@,
                k - spec_lowbit(k as u64),
                k,
            )
    }

    /// The number of symbols of the alphabet (the end-of-sequence mark not
    /// counted).
    pub open spec fn spec_symbols(&self) -> nat {
        (self.counts.len() - 1) as nat
    }

    /// The cumulative count below slot `i`.
    pub open spec fn spec_prefix(&self, i: int) -> int {
        spec_sum(self.counts@, 0, i)
    }

    /// A histogram over `symbols` symbols and the end-of-sequence mark, each
    /// counted once.
    pub fn new(symbols: usize) -> (r: Self)
        requires
            symbols < 0x4000_0000,
        ensures
            r.wf(),
            r.spec_symbols() == symbols,
            r.total == symbols + 1,
            forall|i: int| 0 <= i <= symbols ==> r@[i] == 1,
    {
        let n: usize = symbols + 1;
        let mut counts: Vec<u64> = Vec::new();
        let mut tree: Vec<u64> = Vec::new();
        tree.push(0);
        let mut k: usize = 0;
        while k < n
            invariant
                k <= n,
                n == symbols + 1,
                symbols < 0x4000_0000,
                counts.len() == k,
                tree.len() == k + 1,
                forall|i: int| 0 <= i < k ==> #[trigger] counts[i] == 1,
                forall|j: int| 1 <= j <= k ==> #[trigger] tree[j] == spec_lowbit(j as u64),
            decreases n - k,
        {
            counts.push(1);
            let lb: u64 = lowbit((k + 1) as u64);
            tree.push(lb);
            k = k + 1;
        }
        proof {
            lemma_sum_of_ones(counts@, 0, n as int);
            assert forall|j: int| 1 <= j <= n implies #[trigger] tree[j] == spec_sum(
                counts@,
                j - spec_lowbit(j as u64),
                j,
            ) by {
                lemma_lowbit_range(j as u64);
                lemma_sum_of_ones(counts@, j - spec_lowbit(j as u64), j);
            }
        }
        Histogram { counts, tree, total: n as u64 }
    }

    /// The number of symbols of the alphabet.
    pub fn symbols(&self) -> (r: usize)
        requires
            self.wf(),
        ensures
            r == self.spec_symbols(),
        no_unwind
    {
        self.counts.len() - 1
    }

    /// The cumulative count below slot `i`.
    pub fn prefix(&self, i: usize) -> (r: u64)
        requires
            self.wf(),
            i <= self.counts.len(),
        ensures
            r == self.spec_prefix(i as int),
            r <= self.total,
    {
        let mut acc: u64 = 0;
        let mut k: usize = i;
        proof {
            lemma_sum_part(self.counts@, 0, 0, i as int, self.counts.len() as int);
        }
        while k > 0
            invariant
                self.wf(),
                k <= i <= self.counts.len(),
                acc + spec_sum(self.counts@, 0, k as int) == spec_sum(self.counts@, 0, i as int),
                spec_sum(self.counts@, 0, i as int) <= self.total,
            decreases k,
        {
            let lb: u64 = lowbit(k as u64);
            proof {
                lemma_lowbit_range(k as u64);
                lemma_sum_split(self.counts@, 0, k - lb, k as int);
                lemma_sum_nonnegative(self.counts@, 0, k - lb);
                assert(self.tree[k as int] == spec_sum(self.counts@, k - spec_lowbit(k as u64), k as int));
            }
            acc = acc + self.tree[k];
            k = k - lb as usize;
        }
        acc
    }

    /// Counts slot `i` once more.
    pub fn increment(&mut self, i: usize)
        requires
            old(self).wf(),
            i < old(self).counts.len(),
            old(self).total < u64::MAX,
        ensures
            final(self).wf(),
            final(self)@ == old(self)@.update(i as int, (old(self)@[i as int] + 1) as u64),
            final(self).total == old(self).total + 1,
        no_unwind
    {
        let n: usize = self.counts.len();
        let ghost old_counts = self.counts@;
        proof {
            lemma_sum_part(old_counts, 0, i as int, i + 1, n as int);
            assert(spec_sum(old_counts, i as int, i + 1) == old_counts[i as int]) by {
                assert(spec_sum(old_counts, i as int, i as int) == 0);
            }
        }
        let c: u64 = self.counts[i];
        self.counts[i] = c + 1;
        let ghost new_counts = self.counts@;
        proof {
            lemma_sum_update(old_counts, i as int, 0, n as int);
        }
        self.total = self.total + 1;
        let mut k: usize = i + 1;
        proof {
            lemma_lowbit_range(k as u64);
            assert forall|j: int| 1 <= j <= n && j < k implies #[trigger] self.tree[j] == spec_sum(
                new_counts,
                j - spec_lowbit(j as u64),
                j,
            ) by {
                lemma_lowbit_range(j as u64);
                lemma_sum_update(old_counts, i as int, j - spec_lowbit(j as u64), j);
                assert(old(self).tree[j] == spec_sum(old_counts, j - spec_lowbit(j as u64), j));
            }
        }
        while k <= n
            invariant
                n == self.counts.len(),
                n < 0x1_0000_0000,
                self.tree.len() == n + 1,
                self.counts@ == new_counts,
                new_counts == old_counts.update(i as int, (old_counts[i as int] + 1) as u64),
                old_counts.len() == n,
                old_counts[i as int] < u64::MAX,
                i < n,
                i < k,
                k <= n ==> k - spec_lowbit(k as u64) <= i,
                self.total == old(self).total + 1,
                old(self).total == spec_sum(old_counts, 0, n as int),
                old(self).total < u64::MAX,
                forall|j: int|
                    1 <= j <= n && j < k ==> #[trigger] self.tree[j] == spec_sum(
                        new_counts,
                        j - spec_lowbit(j as u64),
                        j,
                    ),
                forall|j: int|
                    1 <= j <= n && j >= k ==> #[trigger] self.tree[j] == spec_sum(
                        old_counts,
                        j - spec_lowbit(j as u64),
                        j,
                    ),
            decreases n + 1 - k,
        {
            let lb: u64 = lowbit(k as u64);
            let ghost tree_before = self.tree@;
            proof {
                lemma_lowbit_range(k as u64);
                lemma_lowbit_step(k as u64);
                lemma_sum_part(old_counts, 0, k - lb, k as int, n as int);
                lemma_sum_update(old_counts, i as int, k - lb, k as int);
            }
            let t: u64 = self.tree[k];
            self.tree[k] = t + 1;
            let next: u64 = k as u64 + lb;
            proof {
                assert forall|j: int| 1 <= j <= n && j < next implies #[trigger] self.tree[j]
                    == spec_sum(new_counts, j - spec_lowbit(j as u64), j) by {
                    if j > k {
                        lemma_lowbit_between(k as u64, j as u64);
                        lemma_lowbit_range(j as u64);
                        lemma_sum_update(old_counts, i as int, j - spec_lowbit(j as u64), j);
                        assert(self.tree[j] == tree_before[j]);
                    } else if j < k {
                        assert(self.tree[j] == tree_before[j]);
                    }
                }
                if next <= n {
                    lemma_lowbit_range(next);
                }
            }
            if next > n as u64 {
                k = n + 1;
            } else {
                k = next as usize;
            }
        }
        proof {
            assert forall|j: int| 0 <= j < n implies #[trigger] self.counts[j] >= 1 by {
                assert(old(self).counts[j] >= 1);
            }
        }
    }

    /// The slot that the cumulative value `value` falls on: the one whose
    /// counts cover it.
    pub fn find(&self, value: u64) -> (r: usize)
        requires
            self.wf(),
            value < self.total,
        ensures
            r < self.counts.len(),
            self.spec_prefix(r as int) <= value < self.spec_prefix(r + 1),
    {
        let mut lo: usize = 0;
        let mut hi: usize = self.counts.len();
        while hi - lo > 1
            invariant
                self.wf(),
                lo < hi <= self.counts.len(),
                self.spec_prefix(lo as int) <= value < self.spec_prefix(hi as int),
            decreases hi - lo,
        {
            let mid: usize = lo + (hi - lo) / 2;
            let p: u64 = self.prefix(mid);
            if p <= value {
                lo = mid;
            } else {
                hi = mid;
            }
        }
        lo
    }
}

/// In a well-formed histogram the cumulative counts rise strictly, so a
/// cumulative value falls on exactly one slot.
pub proof fn lemma_slot_is_unique(h: Histogram, value: int, a: int, b: int)
    requires
        h.wf(),
        0 <= a < h.counts.len(),
        0 <= b < h.counts.len(),
        h.spec_prefix(a) <= value < h.spec_prefix(a + 1),
        h.spec_prefix(b) <= value < h.spec_prefix(b + 1),
    ensures
        a == b,
{
    if a < b {
        lemma_sum_split(h.counts@, 0, a + 1, b);
        lemma_sum_nonnegative(h.counts@, a + 1, b);
    } else if b < a {
        lemma_sum_split(h.counts@, 0, b + 1, a);
        lemma_sum_nonnegative(h.counts@, b + 1, a);
    }
}


/// A symbol outside the alphabet of the context it was offered to.
#[derive(Clone, Copy, Debug, PartialEq, Eq, Structural)]
pub struct ValueError(pub usize);

/// One histogram per context, and the context that is currently selected.
pub struct FenwickModel {
    pub contexts: Vec<Histogram>,
    pub current_context: usize,
    pub max_denominator: u64,
}

impl FenwickModel {
    /// Every histogram is well formed and within the denominator bound, and
    /// the selected context exists.
    pub open spec fn wf(&self) -> bool {
        &&& self.current_context < self.contexts.len()
        &&& self.max_denominator <= MAX_DENOMINATOR_LIMIT
        &&& forall|c: int|
            0 <= c < self.contexts.len() ==> (#[trigger] self.contexts[c]).wf()
                && self.contexts[c].total <= self.max_denominator
    }

    /// The histogram of the selected context.
    pub open spec fn current(&self) -> Histogram {
        self.contexts[self.current_context as int]
    }

    /// The range of cumulative counts that stands for `symbol` in the
    /// selected context, `None` being the end-of-sequence mark.
    pub open spec fn spec_probability(&self, symbol: Option<usize>) -> Range<u64> {
        let h = self.current();
        match symbol {
            Some(s) => Range { start: h.spec_prefix(s as int) as u64, end: h.spec_prefix(s + 1) as u64 },
            None => Range { start: h.spec_prefix(h.spec_symbols() as int) as u64, end: h.total },
        }
    }

    /// The slot of the selected context that `symbol` is counted in.
    pub open spec fn spec_slot(&self, symbol: Option<usize>) -> int {
        match symbol {
            Some(s) => s as int,
            None => self.current().spec_symbols() as int,
        }
    }

    /// `symbol` belongs to the alphabet of the selected context.
    pub open spec fn spec_is_valid(&self, symbol: Option<usize>) -> bool {
        match symbol {
            Some(s) => s < self.current().spec_symbols(),
            None => true,
        }
    }

    /// A model with a single context of `symbols` symbols.
    pub fn with_symbols(symbols: usize, max_denominator: u64) -> (r: Self)
        requires
            symbols < max_denominator <= MAX_DENOMINATOR_LIMIT,
        ensures
            r.wf(),
            r.contexts.len() == 1,
            r.current_context == 0,
            r.max_denominator == max_denominator,
            r.current().spec_symbols() == symbols,
            forall|i: int| 0 <= i <= symbols ==> r.current()@[i] == 1,
    {
        let mut contexts: Vec<Histogram> = Vec::new();
        contexts.push(Histogram::new(symbols));
        FenwickModel { contexts, current_context: 0, max_denominator }
    }

    /// Adds a context of `symbols` symbols, every one counted once, and
    /// returns its id. The selected context stays selected.
    pub fn push_context(&mut self, symbols: usize) -> (id: usize)
        requires
            old(self).wf(),
            symbols < old(self).max_denominator,
        ensures
            final(self).wf(),
            id == old(self).contexts.len(),
            final(self).contexts.len() == old(self).contexts.len() + 1,
            final(self).current_context == old(self).current_context,
            final(self).max_denominator == old(self).max_denominator,
            forall|c: int|
                0 <= c < old(self).contexts.len() ==> final(self).contexts[c] == old(self).contexts[c],
            final(self).contexts[id as int].spec_symbols() == symbols,
            forall|i: int| 0 <= i <= symbols ==> final(self).contexts[id as int]@[i] == 1,
    {
        let id: usize = self.contexts.len();
        self.contexts.push(Histogram::new(symbols));
        id
    }

    /// Selects the context that serves every call from now on.
    pub fn set_context(&mut self, context: usize)
        requires
            old(self).wf(),
            context < old(self).contexts.len(),
        ensures
            final(self).wf(),
            final(self).current_context == context,
            final(self).contexts == old(self).contexts,
            final(self).max_denominator == old(self).max_denominator,
        no_unwind
    {
        self.current_context = context;
    }

    /// The number of contexts.
    pub fn num_contexts(&self) -> (r: usize)
        ensures
            r == self.contexts.len(),
    {
        self.contexts.len()
    }

    /// The number of symbols in the alphabet of the selected context.
    pub fn symbols(&self) -> (r: usize)
        requires
            self.wf(),
        ensures
            r == self.current().spec_symbols(),
    {
        self.contexts[self.current_context].symbols()
    }

    /// The range of cumulative counts that stands for `symbol` in the
    /// selected context: not empty, and within the denominator. A symbol
    /// outside the alphabet is refused.
    pub fn probability(&self, symbol: Option<&usize>) -> (r: Result<Range<u64>, ValueError>)
        requires
            self.wf(),
        ensures
            match symbol {
                Some(s) => if *s < self.current().spec_symbols() {
                    r == Ok::<Range<u64>, ValueError>(self.spec_probability(Some(*s)))
                } else {
                    r == Err::<Range<u64>, ValueError>(ValueError(*s))
                },
                None => r == Ok::<Range<u64>, ValueError>(self.spec_probability(None)),
            },
            r matches Ok(p) ==> p.start < p.end <= self.current().total,
    {
        let h = &self.contexts[self.current_context];
        let n: usize = h.symbols();
        let slot: usize = match symbol {
            Some(s) => {
                if *s >= n {
                    return Err(ValueError(*s));
                }
                *s
            },
            None => n,
        };
        let start: u64 = h.prefix(slot);
        let end: u64 = h.prefix(slot + 1);
        proof {
            assert(h.counts[slot as int] >= 1);
            assert(spec_sum(h.counts@, 0, n + 1) == h.total);
        }
        Ok(start..end)
    }

    /// The sum of all counts of the selected context.
    pub fn denominator(&self) -> (r: u64)
        requires
            self.wf(),
        ensures
            r == self.current().total,
            0 < r <= self.max_denominator,
    {
        proof {
            lemma_sum_at_least_length(
                self.current().counts@,
                0,
                self.current().counts.len() as int,
            );
        }
        self.contexts[self.current_context].total
    }

    /// The bound that no context's denominator exceeds.
    pub fn max_denominator(&self) -> (r: u64)
        ensures
            r == self.max_denominator,
    {
        self.max_denominator
    }

    /// The symbol whose range holds the cumulative value `value`: `None`
    /// for the end-of-sequence mark, and for a value that no range holds.
    pub fn symbol(&self, value: u64) -> (r: Option<usize>)
        requires
            self.wf(),
        ensures
            value >= self.current().total ==> r is None,
            value < self.current().total ==> self.spec_is_valid(r) && self.spec_probability(
                r,
            ).start <= value < self.spec_probability(r).end,
    {
        let h = &self.contexts[self.current_context];
        if value >= h.total {
            return None;
        }
        let slot: usize = h.find(value);
        proof {
            lemma_sum_part(h.counts@, 0, 0, slot as int, h.counts.len() as int);
            lemma_sum_part(h.counts@, 0, 0, slot + 1, h.counts.len() as int);
            lemma_sum_nonnegative(h.counts@, 0, slot as int);
            lemma_sum_nonnegative(h.counts@, 0, slot + 1);
            assert(h.spec_prefix(h.counts.len() as int) == h.total);
            assert(h == self.current());
        }
        if slot == h.symbols() {
            None
        } else {
            Some(slot)
        }
    }

    /// Counts `symbol` once more in the selected context, unless the
    /// context's denominator has reached the bound or the symbol is outside
    /// the alphabet.
    pub fn update(&mut self, symbol: Option<&usize>)
        requires
            old(self).wf(),
        ensures
            final(self).wf(),
            final(self).current_context == old(self).current_context,
            final(self).max_denominator == old(self).max_denominator,
            final(self).contexts.len() == old(self).contexts.len(),
            forall|c: int|
                0 <= c < old(self).contexts.len() && c != old(self).current_context ==> final(self).contexts[c] == old(self).contexts[c],
            final(self).current()@ == (if old(self).current().total < old(self).max_denominator
                && old(self).spec_is_valid(spec_copied(symbol)) {
                old(self).current()@.update(
                    old(self).spec_slot(spec_copied(symbol)),
                    (old(self).current()@[old(self).spec_slot(spec_copied(symbol))] + 1) as u64,
                )
            } else {
                old(self).current()@
            }),
        no_unwind
    {
        let c: usize = self.current_context;
        let n: usize = self.contexts[c].symbols();
        let slot: usize = match symbol {
            Some(s) => {
                if *s >= n {
                    return ;
                }
                *s
            },
            None => n,
        };
        if self.contexts[c].total < self.max_denominator {
            self.contexts[c].increment(slot);
        }
    }
}

/// The symbol behind an optional reference.
pub open spec fn spec_copied(symbol: Option<&usize>) -> Option<usize> {
    match symbol {
        Some(s) => Some(*s),
        None => None,
    }
}

/// In every context, the symbol found for a cumulative value is the one
/// whose range holds the value: `symbol` inverts `probability`.
pub proof fn lemma_symbol_inverts_probability(
    m: FenwickModel,
    value: u64,
    a: Option<usize>,
    b: Option<usize>,
)
    requires
        m.wf(),
        m.spec_is_valid(a),
        m.spec_is_valid(b),
        m.spec_probability(a).start <= value < m.spec_probability(a).end,
        m.spec_probability(b).start <= value < m.spec_probability(b).end,
    ensures
        a == b,
{
    let h = m.current();
    let n = h.counts.len() as int;
    assert(h.wf());
    assert(spec_sum(h.counts@, 0, n) == h.total);
    lemma_sum_part(h.counts@, 0, 0, m.spec_slot(a), n);
    lemma_sum_part(h.counts@, 0, 0, m.spec_slot(a) + 1, n);
    lemma_sum_part(h.counts@, 0, 0, m.spec_slot(b), n);
    lemma_sum_part(h.counts@, 0, 0, m.spec_slot(b) + 1, n);
    lemma_sum_nonnegative(h.counts@, 0, m.spec_slot(a));
    lemma_sum_nonnegative(h.counts@, 0, m.spec_slot(a) + 1);
    lemma_sum_nonnegative(h.counts@, 0, m.spec_slot(b));
    lemma_sum_nonnegative(h.counts@, 0, m.spec_slot(b) + 1);
    assert(h.spec_prefix(n) == h.total);
    assert(h.spec_symbols() + 1 == n);
    lemma_slot_is_unique(h, value as int, m.spec_slot(a), m.spec_slot(b));
}


impl Clone for Histogram {
    /// A histogram with the same counts.
    fn clone(&self) -> (r: Self)
        ensures
            r.counts@ == self.counts@,
            r.tree@ == self.tree@,
            r.total == self.total,
            self.wf() ==> r.wf(),
    {
        let counts = self.counts.clone();
        let tree = self.tree.clone();
        assert(counts@ =~= self.counts@);
        assert(tree@ =~= self.tree@);
        Histogram { counts, tree, total: self.total }
    }
}

/// The counts of every context of a model.
pub open spec fn spec_context_counts(contexts: Seq<Histogram>) -> Seq<Seq<u64>> {
    Seq::new(contexts.len(), |c: int| contexts[c]@)
}

impl Clone for FenwickModel {
    /// A model with the same counts in every context, the same context
    /// selected, and the same bound.
    fn clone(&self) -> (r: Self)
        ensures
            spec_context_counts(r.contexts@) == spec_context_counts(self.contexts@),
            r.current_context == self.current_context,
            r.max_denominator == self.max_denominator,
            self.wf() ==> r.wf(),
    {
        let mut contexts: Vec<Histogram> = Vec::new();
        let mut c: usize = 0;
        while c < self.contexts.len()
            invariant
                c <= self.contexts.len(),
                contexts.len() == c,
                forall|j: int| 0 <= j < c ==> (#[trigger] contexts[j])@ == self.contexts[j]@,
                forall|j: int| 0 <= j < c ==> (#[trigger] contexts[j]).total == self.contexts[j].total,
                forall|j: int| 0 <= j < c && self.contexts[j].wf() ==> (#[trigger] contexts[j]).wf(),
            decreases self.contexts.len() - c,
        {
            let h = self.contexts[c].clone();
            contexts.push(h);
            c += 1;
        }
        assert(spec_context_counts(contexts@) =~= spec_context_counts(self.contexts@));
        FenwickModel {
            contexts,
            current_context: self.current_context,
            max_denominator: self.max_denominator,
        }
    }
}

} // verus!
