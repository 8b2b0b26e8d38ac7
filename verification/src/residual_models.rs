//! Adaptive models of single residual streams, and the coding of a block
//! of events as two such streams: the changes in decimation from event to
//! event, and the errors of a tick-count prediction that follows the
//! change in decimation.

use crate::arith::{bit_length, lemma_bit_length, pow2_u64, spec_bit_length};
use crate::coder::{
    decode_symbols,
    encode_symbols,
    lemma_plain_accepts,
    spec_arithmetic_decoding,
    spec_arithmetic_encoding,
    CoderModel,
    MAX_DENOMINATOR,
};
use crate::fenwick::{spec_context_counts, spec_sum, FenwickModel};
use crate::types::{CodecError, DeltaT, EventCoordless, TimeMode, D};
use arithmetic_coding::Model;
use std::ops::Range;
use vstd::arithmetic::power2::{lemma2_to64, lemma_pow2_pos, lemma_pow2_strictly_increases, pow2};
use vstd::prelude::*;

verus! {

/// Difference of two decimations.
pub type DResidual = i16;

/// Difference of two tick counts.
pub type DeltaTResidual = i64;

/// The decimation residual that marks a position without an event.
pub const D_RESIDUAL_NO_EVENT: DResidual = DResidual::MAX;

/// The tick residual that marks a position without an event.
pub const DELTA_T_RESIDUAL_NO_EVENT: DeltaTResidual = DeltaTResidual::MAX;

/// Number of symbols in the alphabet of decimation residuals: `-255..=255`
/// and the no-event mark.
pub const D_RESIDUAL_SYMBOLS: usize = 512;

/// The largest tick bound a model of tick residuals can be made for.
pub const DELTA_T_MAX_LIMIT: DeltaT = 524_286;

/// A decimation that no event can have.
#[derive(Clone, Copy, Debug, PartialEq, Eq, Structural)]
pub struct Error(pub D);

/// The place of a decimation residual in its alphabet, or `None` for a
/// value outside it.
pub open spec fn spec_d_index(symbol: DResidual) -> Option<usize> {
    if -255 <= symbol <= 255 {
        Some((symbol + 255) as usize)
    } else if symbol == D_RESIDUAL_NO_EVENT {
        Some(511usize)
    } else {
        None
    }
}

/// The decimation residual at a place of the alphabet.
pub open spec fn spec_d_symbol_at(index: usize) -> DResidual {
    if index <= 510 {
        (index - 255) as i16
    } else {
        D_RESIDUAL_NO_EVENT
    }
}

/// The place of a decimation residual in its alphabet.
pub fn d_index(symbol: DResidual) -> (r: Option<usize>)
    ensures
        r == spec_d_index(symbol),
        r matches Some(i) ==> i < D_RESIDUAL_SYMBOLS && spec_d_symbol_at(i) == symbol,
{
    if symbol >= -255 && symbol <= 255 {
        Some((symbol as i32 + 255) as usize)
    } else if symbol == D_RESIDUAL_NO_EVENT {
        Some(511)
    } else {
        None
    }
}

/// The decimation residual at a place of the alphabet.
pub fn d_symbol_at(index: usize) -> (r: DResidual)
    requires
        index < D_RESIDUAL_SYMBOLS,
    ensures
        r == spec_d_symbol_at(index),
        spec_d_index(r) == Some(index),
{
    if index <= 510 {
        (index as i32 - 255) as i16
    } else {
        D_RESIDUAL_NO_EVENT
    }
}

/// The place of a tick residual in the alphabet of a model with the bound
/// `delta_t_max`: `-delta_t_max..=delta_t_max` in order, then the no-event
/// mark.
pub open spec fn spec_dt_index(symbol: DeltaTResidual, delta_t_max: i64) -> Option<usize> {
    if -delta_t_max <= symbol <= delta_t_max {
        Some((symbol + delta_t_max) as usize)
    } else if symbol == DELTA_T_RESIDUAL_NO_EVENT {
        Some((2 * delta_t_max + 1) as usize)
    } else {
        None
    }
}

/// The tick residual at a place of the alphabet.
pub open spec fn spec_dt_symbol_at(index: usize, delta_t_max: i64) -> DeltaTResidual {
    if index <= 2 * delta_t_max {
        (index - delta_t_max) as i64
    } else {
        DELTA_T_RESIDUAL_NO_EVENT
    }
}

/// The place of a tick residual in the alphabet.
pub fn dt_index(symbol: DeltaTResidual, delta_t_max: i64) -> (r: Option<usize>)
    requires
        0 <= delta_t_max <= DELTA_T_MAX_LIMIT,
    ensures
        r == spec_dt_index(symbol, delta_t_max),
        r matches Some(i) ==> i < 2 * delta_t_max + 2 && spec_dt_symbol_at(i, delta_t_max)
            == symbol,
{
    if symbol >= -delta_t_max && symbol <= delta_t_max {
        Some((symbol + delta_t_max) as usize)
    } else if symbol == DELTA_T_RESIDUAL_NO_EVENT {
        Some((2 * delta_t_max + 1) as usize)
    } else {
        None
    }
}

/// The tick residual at a place of the alphabet.
pub fn dt_symbol_at(index: usize, delta_t_max: i64) -> (r: DeltaTResidual)
    requires
        0 <= delta_t_max <= DELTA_T_MAX_LIMIT,
        index < 2 * delta_t_max + 2,
    ensures
        r == spec_dt_symbol_at(index, delta_t_max),
        spec_dt_index(r, delta_t_max) == Some(index),
{
    if index as i64 <= 2 * delta_t_max {
        index as i64 - delta_t_max
    } else {
        DELTA_T_RESIDUAL_NO_EVENT
    }
}

/// The range of cumulative counts that stands for a slot of a histogram;
/// `None` where there is no slot.
pub open spec fn spec_slot_range(counts: Seq<u64>, slot: Option<int>) -> Option<Range<u64>> {
    match slot {
        Some(k) => Some(
            Range { start: spec_sum(counts, 0, k) as u64, end: spec_sum(counts, 0, k + 1) as u64 },
        ),
        None => None,
    }
}

/// The counts after one more observation in a slot: where there is no
/// slot, and where the counts have reached the largest sum the coder
/// allows, nothing changes.
pub open spec fn spec_slot_counted(counts: Seq<u64>, slot: Option<int>) -> Seq<u64> {
    match slot {
        Some(k) => if spec_sum(counts, 0, counts.len() as int) < MAX_DENOMINATOR {
            counts.update(k, (counts[k] + 1) as u64)
        } else {
            counts
        },
        None => counts,
    }
}

/// The slot in which a model of decimation residuals counts a residual,
/// `None` being the end-of-sequence mark: a residual outside the alphabet
/// is counted as the end-of-sequence mark.
pub open spec fn spec_d_slot(symbol: Option<DResidual>) -> Option<int> {
    match symbol {
        Some(s) => match spec_d_index(s) {
            Some(i) => Some(i as int),
            None => Some(D_RESIDUAL_SYMBOLS as int),
        },
        None => Some(D_RESIDUAL_SYMBOLS as int),
    }
}

/// The slot in which a model of tick residuals with the bound
/// `delta_t_max` counts a residual, `None` being the end-of-sequence mark:
/// a residual outside the alphabet is counted as the end-of-sequence mark.
pub open spec fn spec_dt_slot(symbol: Option<DeltaTResidual>, delta_t_max: i64) -> Option<int> {
    match symbol {
        Some(s) => match spec_dt_index(s, delta_t_max) {
            Some(i) => Some(i as int),
            None => Some(2 * delta_t_max + 2),
        },
        None => Some(2 * delta_t_max + 2),
    }
}

/// What a reference to a residual refers to.
pub open spec fn spec_d_copied(symbol: Option<&DResidual>) -> Option<DResidual> {
    match symbol {
        Some(s) => Some(*s),
        None => None,
    }
}

/// What a reference to a residual refers to.
pub open spec fn spec_dt_copied(symbol: Option<&DeltaTResidual>) -> Option<DeltaTResidual> {
    match symbol {
        Some(s) => Some(*s),
        None => None,
    }
}

/// An adaptive model of decimation residuals.
pub struct BlockDResidualModel {
    fenwick_model: FenwickModel,
}

impl View for BlockDResidualModel {
    type V = Seq<u64>;

    /// How often each residual of the alphabet, and behind them the
    /// end-of-sequence mark, was counted.
    closed spec fn view(&self) -> Seq<u64> {
        self.fenwick_model.current()@
    }
}

impl BlockDResidualModel {
    #[verifier::type_invariant]
    closed spec fn inv(&self) -> bool {
        &&& self.fenwick_model.wf()
        &&& self.fenwick_model.contexts.len() == 1
        &&& self.fenwick_model.max_denominator == MAX_DENOMINATOR
        &&& self.fenwick_model.current().spec_symbols() == D_RESIDUAL_SYMBOLS
    }

    /// A model that has counted every residual once.
    pub fn new() -> (r: Self)
        ensures
            r@ == Seq::new((D_RESIDUAL_SYMBOLS + 1) as nat, |i: int| 1u64),
    {
        let fenwick_model = FenwickModel::with_symbols(D_RESIDUAL_SYMBOLS, MAX_DENOMINATOR);
        let r = BlockDResidualModel { fenwick_model };
        assert(r@ =~= Seq::new((D_RESIDUAL_SYMBOLS + 1) as nat, |i: int| 1u64));
        r
    }

    /// The model for the arithmetic coder over places of the alphabet, for
    /// a sequence of at most `budget` residuals.
    pub fn coder_model(&self, budget: usize) -> (r: CoderModel)
        ensures
            r@ == CoderModel::spec_plain(seq![self@], 0, MAX_DENOMINATOR, budget),
            self@.len() == D_RESIDUAL_SYMBOLS + 1,
    {
        proof {
            use_type_invariant(self);
        }
        let model = self.fenwick_model.clone();
        assert(spec_context_counts(model.contexts@) =~= seq![self@]);
        CoderModel::plain(model, budget)
    }

    /// The range of cumulative counts that stands for a residual, the
    /// end-of-sequence mark being `None`. A residual outside the alphabet
    /// has the range of the end-of-sequence mark.
    pub fn range_of(&self, symbol: Option<&DResidual>) -> (r: Option<Range<u64>>)
        ensures
            r == spec_slot_range(self@, spec_d_slot(spec_d_copied(symbol))),
            r matches Some(p) && p.start < p.end <= spec_sum(self@, 0, self@.len() as int),
    {
        proof {
            use_type_invariant(self);
        }
        let index: Option<usize> = match symbol {
            Some(s) => d_index(*s),
            None => None,
        };
        match self.fenwick_model.probability(index.as_ref()) {
            Ok(p) => Some(p),
            Err(_) => None,
        }
    }

    /// The residual whose range holds a cumulative value; `None` for the
    /// end-of-sequence mark.
    pub fn symbol_at(&self, value: u64) -> (r: Option<DResidual>)
        ensures
            value >= spec_sum(self@, 0, self@.len() as int) ==> r is None,
            value < spec_sum(self@, 0, self@.len() as int) ==> (spec_slot_range(
                self@,
                spec_d_slot(r),
            ) matches Some(p) && p.start <= value < p.end),
    {
        proof {
            use_type_invariant(self);
        }
        match self.fenwick_model.symbol(value) {
            Some(i) => Some(d_symbol_at(i)),
            None => None,
        }
    }

    /// Counts a residual, or the end-of-sequence mark, once more. A
    /// residual outside the alphabet is counted as the end-of-sequence
    /// mark.
    pub fn observe(&mut self, symbol: Option<&DResidual>)
        ensures
            final(self)@ == spec_slot_counted(old(self)@, spec_d_slot(spec_d_copied(symbol))),
    {
        proof {
            use_type_invariant(&*self);
        }
        let index: Option<usize> = match symbol {
            Some(s) => d_index(*s),
            None => None,
        };
        self.fenwick_model.update(index.as_ref());
    }

    /// The sum of all counts: one count for each residual of the alphabet
    /// and one for the end-of-sequence mark, none of them zero.
    pub fn total(&self) -> (r: u64)
        ensures
            r == spec_sum(self@, 0, self@.len() as int),
            0 < r <= MAX_DENOMINATOR,
            self@.len() == D_RESIDUAL_SYMBOLS + 1,
            forall|i: int| 0 <= i < self@.len() ==> self@[i] >= 1,
    {
        proof {
            use_type_invariant(self);
        }
        self.fenwick_model.denominator()
    }
}

impl Clone for BlockDResidualModel {
    fn clone(&self) -> (r: Self)
        ensures
            r@ == self@,
    {
        proof {
            use_type_invariant(self);
        }
        let fenwick_model = self.fenwick_model.clone();
        proof {
            assert(spec_context_counts(fenwick_model.contexts@).len()
                == fenwick_model.contexts@.len());
            assert(spec_context_counts(self.fenwick_model.contexts@).len()
                == self.fenwick_model.contexts@.len());
            assert(spec_context_counts(fenwick_model.contexts@)[0] == fenwick_model.contexts[0]@);
            assert(spec_context_counts(self.fenwick_model.contexts@)[0]
                == self.fenwick_model.contexts[0]@);
        }
        BlockDResidualModel { fenwick_model }
    }
}

impl Model for BlockDResidualModel {
    type Symbol = DResidual;

    type ValueError = std::io::Error;

    type B = u64;

    /// The range that stands for a residual; that of the end-of-sequence
    /// mark for a residual outside the alphabet. It fails on no residual.
    fn probability(&self, symbol: Option<&DResidual>) -> (r: Result<Range<u64>, std::io::Error>)
        ensures
            r is Ok,
            r matches Ok(p) ==> spec_slot_range(self@, spec_d_slot(spec_d_copied(symbol)))
                == Some(p) && p.start < p.end <= spec_sum(self@, 0, self@.len() as int),
    {
        match self.range_of(symbol) {
            Some(p) => Ok(p),
            None => Err(crate::coder::invalid_symbol_error()),
        }
    }

    fn denominator(&self) -> (r: u64)
        ensures
            r == spec_sum(self@, 0, self@.len() as int),
            0 < r <= MAX_DENOMINATOR,
    {
        self.total()
    }

    fn max_denominator(&self) -> (r: u64)
        ensures
            r == MAX_DENOMINATOR,
    {
        MAX_DENOMINATOR
    }

    fn symbol(&self, value: u64) -> (r: Option<DResidual>)
        ensures
            value >= spec_sum(self@, 0, self@.len() as int) ==> r is None,
            value < spec_sum(self@, 0, self@.len() as int) ==> (spec_slot_range(
                self@,
                spec_d_slot(r),
            ) matches Some(p) && p.start <= value < p.end),
    {
        self.symbol_at(value)
    }

    fn update(&mut self, symbol: Option<&DResidual>)
        ensures
            final(self)@ == spec_slot_counted(old(self)@, spec_d_slot(spec_d_copied(symbol))),
    {
        self.observe(symbol)
    }
}

/// An adaptive model of tick residuals of magnitude up to a bound.
pub struct BlockDeltaTResidualModel {
    fenwick_model: FenwickModel,
    delta_t_max: i64,
}

impl View for BlockDeltaTResidualModel {
    type V = Seq<u64>;

    /// How often each residual of the alphabet, and behind them the
    /// end-of-sequence mark, was counted.
    closed spec fn view(&self) -> Seq<u64> {
        self.fenwick_model.current()@
    }
}

impl BlockDeltaTResidualModel {
    #[verifier::type_invariant]
    closed spec fn inv(&self) -> bool {
        &&& self.fenwick_model.wf()
        &&& self.fenwick_model.contexts.len() == 1
        &&& self.fenwick_model.max_denominator == MAX_DENOMINATOR
        &&& 0 <= self.delta_t_max <= DELTA_T_MAX_LIMIT
        &&& self.fenwick_model.current().spec_symbols() == 2 * self.delta_t_max + 2
    }

    /// The bound on the magnitude of the residuals.
    pub closed spec fn spec_delta_t_max(&self) -> i64 {
        self.delta_t_max
    }

    /// A model that has counted every residual of magnitude up to
    /// `delta_t_max` once.
    pub fn new(delta_t_max: DeltaT) -> (r: Self)
        requires
            delta_t_max <= DELTA_T_MAX_LIMIT,
        ensures
            r.spec_delta_t_max() == delta_t_max,
            r@ == Seq::new((2 * delta_t_max + 3) as nat, |i: int| 1u64),
    {
        let symbols: usize = delta_t_max as usize * 2 + 2;
        let fenwick_model = FenwickModel::with_symbols(symbols, MAX_DENOMINATOR);
        let r = BlockDeltaTResidualModel { fenwick_model, delta_t_max: delta_t_max as i64 };
        assert(r@ =~= Seq::new((2 * delta_t_max + 3) as nat, |i: int| 1u64));
        r
    }

    /// The bound on the magnitude of the residuals.
    pub fn delta_t_max(&self) -> (r: i64)
        ensures
            r == self.spec_delta_t_max(),
            0 <= r <= DELTA_T_MAX_LIMIT,
    {
        proof {
            use_type_invariant(self);
        }
        self.delta_t_max
    }

    /// The model for the arithmetic coder over places of the alphabet, for
    /// a sequence of at most `budget` residuals.
    pub fn coder_model(&self, budget: usize) -> (r: CoderModel)
        ensures
            r@ == CoderModel::spec_plain(seq![self@], 0, MAX_DENOMINATOR, budget),
            self@.len() == 2 * self.spec_delta_t_max() + 3,
    {
        proof {
            use_type_invariant(self);
        }
        let model = self.fenwick_model.clone();
        assert(spec_context_counts(model.contexts@) =~= seq![self@]);
        CoderModel::plain(model, budget)
    }

    /// The range of cumulative counts that stands for a residual, the
    /// end-of-sequence mark being `None`. A residual outside the alphabet
    /// has the range of the end-of-sequence mark.
    pub fn range_of(&self, symbol: Option<&DeltaTResidual>) -> (r: Option<Range<u64>>)
        ensures
            r == spec_slot_range(
                self@,
                spec_dt_slot(spec_dt_copied(symbol), self.spec_delta_t_max()),
            ),
            r matches Some(p) && p.start < p.end <= spec_sum(self@, 0, self@.len() as int),
    {
        proof {
            use_type_invariant(self);
        }
        let index: Option<usize> = match symbol {
            Some(s) => dt_index(*s, self.delta_t_max),
            None => None,
        };
        match self.fenwick_model.probability(index.as_ref()) {
            Ok(p) => Some(p),
            Err(_) => None,
        }
    }

    /// The residual whose range holds a cumulative value; `None` for the
    /// end-of-sequence mark.
    pub fn symbol_at(&self, value: u64) -> (r: Option<DeltaTResidual>)
        ensures
            value >= spec_sum(self@, 0, self@.len() as int) ==> r is None,
            value < spec_sum(self@, 0, self@.len() as int) ==> (spec_slot_range(
                self@,
                spec_dt_slot(r, self.spec_delta_t_max()),
            ) matches Some(p) && p.start <= value < p.end),
    {
        proof {
            use_type_invariant(self);
        }
        match self.fenwick_model.symbol(value) {
            Some(i) => Some(dt_symbol_at(i, self.delta_t_max)),
            None => None,
        }
    }

    /// Counts a residual, or the end-of-sequence mark, once more. A
    /// residual outside the alphabet is counted as the end-of-sequence
    /// mark.
    pub fn observe(&mut self, symbol: Option<&DeltaTResidual>)
        ensures
            final(self).spec_delta_t_max() == old(self).spec_delta_t_max(),
            final(self)@ == spec_slot_counted(
                old(self)@,
                spec_dt_slot(spec_dt_copied(symbol), old(self).spec_delta_t_max()),
            ),
    {
        proof {
            use_type_invariant(&*self);
        }
        let index: Option<usize> = match symbol {
            Some(s) => dt_index(*s, self.delta_t_max),
            None => None,
        };
        self.fenwick_model.update(index.as_ref());
    }

    /// The sum of all counts: one count for each residual of the alphabet
    /// and one for the end-of-sequence mark, none of them zero.
    pub fn total(&self) -> (r: u64)
        ensures
            r == spec_sum(self@, 0, self@.len() as int),
            0 < r <= MAX_DENOMINATOR,
            self@.len() == 2 * self.spec_delta_t_max() + 3,
            forall|i: int| 0 <= i < self@.len() ==> self@[i] >= 1,
    {
        proof {
            use_type_invariant(self);
        }
        self.fenwick_model.denominator()
    }
}

impl Clone for BlockDeltaTResidualModel {
    fn clone(&self) -> (r: Self)
        ensures
            r@ == self@,
            r.spec_delta_t_max() == self.spec_delta_t_max(),
    {
        proof {
            use_type_invariant(self);
        }
        let fenwick_model = self.fenwick_model.clone();
        proof {
            assert(spec_context_counts(fenwick_model.contexts@).len()
                == fenwick_model.contexts@.len());
            assert(spec_context_counts(self.fenwick_model.contexts@).len()
                == self.fenwick_model.contexts@.len());
            assert(spec_context_counts(fenwick_model.contexts@)[0] == fenwick_model.contexts[0]@);
            assert(spec_context_counts(self.fenwick_model.contexts@)[0]
                == self.fenwick_model.contexts[0]@);
        }
        BlockDeltaTResidualModel { fenwick_model, delta_t_max: self.delta_t_max }
    }
}

impl Model for BlockDeltaTResidualModel {
    type Symbol = DeltaTResidual;

    type ValueError = std::io::Error;

    type B = u64;

    /// The range that stands for a residual; that of the end-of-sequence
    /// mark for a residual outside the alphabet. It fails on no residual.
    fn probability(&self, symbol: Option<&DeltaTResidual>) -> (r: Result<
        Range<u64>,
        std::io::Error,
    >)
        ensures
            r is Ok,
            r matches Ok(p) ==> spec_slot_range(
                self@,
                spec_dt_slot(spec_dt_copied(symbol), self.spec_delta_t_max()),
            ) == Some(p) && p.start < p.end <= spec_sum(self@, 0, self@.len() as int),
    {
        match self.range_of(symbol) {
            Some(p) => Ok(p),
            None => Err(crate::coder::invalid_symbol_error()),
        }
    }

    fn denominator(&self) -> (r: u64)
        ensures
            r == spec_sum(self@, 0, self@.len() as int),
            0 < r <= MAX_DENOMINATOR,
    {
        self.total()
    }

    fn max_denominator(&self) -> (r: u64)
        ensures
            r == MAX_DENOMINATOR,
    {
        MAX_DENOMINATOR
    }

    fn symbol(&self, value: u64) -> (r: Option<DeltaTResidual>)
        ensures
            value >= spec_sum(self@, 0, self@.len() as int) ==> r is None,
            value < spec_sum(self@, 0, self@.len() as int) ==> (spec_slot_range(
                self@,
                spec_dt_slot(r, self.spec_delta_t_max()),
            ) matches Some(p) && p.start <= value < p.end),
    {
        self.symbol_at(value)
    }

    fn update(&mut self, symbol: Option<&DeltaTResidual>)
        ensures
            final(self).spec_delta_t_max() == old(self).spec_delta_t_max(),
            final(self)@ == spec_slot_counted(
                old(self)@,
                spec_dt_slot(spec_dt_copied(symbol), old(self).spec_delta_t_max()),
            ),
    {
        self.observe(symbol)
    }
}


/// The tick count predicted for an event from the event coded before it:
/// the previous count, doubled per step where the decimation rose by no
/// more steps than half the count's leading zero bits, and capped at the
/// bound.
pub open spec fn spec_predicted_delta_t(
    prev_delta_t: DeltaT,
    d_resid: DResidual,
    delta_t_max: i64,
) -> int {
    if 0 < d_resid <= (32 - spec_bit_length(prev_delta_t as nat)) / 2 {
        let scaled = prev_delta_t * pow2(d_resid as nat);
        if scaled < delta_t_max {
            scaled as int
        } else {
            delta_t_max as int
        }
    } else {
        prev_delta_t as int
    }
}

/// The tick count predicted for an event from the event coded before it.
pub fn predicted_delta_t(prev_delta_t: DeltaT, d_resid: DResidual, delta_t_max: i64) -> (r: i64)
    ensures
        r == spec_predicted_delta_t(prev_delta_t, d_resid, delta_t_max),
{
    let bl: u32 = bit_length(prev_delta_t as u64);
    proof {
        lemma2_to64();
        crate::arith::lemma_bit_length_bound(prev_delta_t as nat, 32);
        lemma_bit_length(prev_delta_t as nat);
    }
    let half: u32 = (32 - bl) / 2;
    if d_resid > 0 && d_resid as u32 <= half {
        let p: u64 = pow2_u64(d_resid as u32);
        proof {
            // prev < 2^bl and d <= (32 - bl) / 2, so prev * 2^d < 2^32
            lemma_pow2_pos(d_resid as nat);
            vstd::arithmetic::power2::lemma_pow2_adds(bl as nat, d_resid as nat);
            if bl + d_resid < 32 {
                lemma_pow2_strictly_increases((bl + d_resid) as nat, 32);
            }
            assert(prev_delta_t * p <= pow2(bl as nat) * p) by (nonlinear_arith)
                requires
                    prev_delta_t <= pow2(bl as nat),
                    p > 0,
            ;
        }
        let scaled: u64 = prev_delta_t as u64 * p;
        if (scaled as i64) < delta_t_max {
            scaled as i64
        } else {
            delta_t_max
        }
    } else {
        prev_delta_t as i64
    }
}

/// The residuals written for an event, or for a position without one, when
/// `prev` is the event coded before it: the first event goes in as it is,
/// every later one as its change in decimation and the error of its
/// predicted tick count.
pub open spec fn spec_event_residuals(
    prev: Option<EventCoordless>,
    event: Option<EventCoordless>,
    delta_t_max: i64,
) -> (DResidual, DeltaTResidual) {
    match event {
        None => (D_RESIDUAL_NO_EVENT, DELTA_T_RESIDUAL_NO_EVENT),
        Some(ev) => match prev {
            None => (ev.d as DResidual, ev.delta_t as DeltaTResidual),
            Some(p) => (
                (ev.d - p.d) as DResidual,
                (ev.delta_t - spec_predicted_delta_t(
                    p.delta_t,
                    (ev.d - p.d) as DResidual,
                    delta_t_max,
                )) as DeltaTResidual,
            ),
        },
    }
}

/// What a pair of residuals stands for when `prev` is the event coded
/// before it.
pub enum Decoded {
    /// A position without an event.
    Empty,
    /// An event.
    Event(EventCoordless),
    /// Nothing: the pair rebuilds to values no event can have.
    Invalid,
}

/// What a pair of residuals stands for when `prev` is the event coded
/// before it.
pub open spec fn spec_event_from_residuals(
    prev: Option<EventCoordless>,
    d_resid: DResidual,
    dt_resid: DeltaTResidual,
    delta_t_max: i64,
) -> Decoded {
    if d_resid == D_RESIDUAL_NO_EVENT {
        Decoded::Empty
    } else {
        let d = match prev {
            None => d_resid as int,
            Some(p) => p.d + d_resid,
        };
        let dt = match prev {
            None => dt_resid as int,
            Some(p) => spec_predicted_delta_t(p.delta_t, d_resid, delta_t_max) + dt_resid,
        };
        if 0 <= d <= 255 && 0 <= dt <= u32::MAX {
            Decoded::Event(EventCoordless { d: d as u8, delta_t: dt as u32 })
        } else {
            Decoded::Invalid
        }
    }
}

/// The residuals written for an event stand for that event.
pub proof fn lemma_event_residuals_round_trip(
    prev: Option<EventCoordless>,
    event: Option<EventCoordless>,
    delta_t_max: i64,
)
    requires
        0 <= delta_t_max,
    ensures
        spec_event_from_residuals(
            prev,
            spec_event_residuals(prev, event, delta_t_max).0,
            spec_event_residuals(prev, event, delta_t_max).1,
            delta_t_max,
        ) == (match event {
            Some(ev) => Decoded::Event(ev),
            None => Decoded::Empty,
        }),
{
    match (prev, event) {
        (Some(p), Some(ev)) => {
            let d_resid = (ev.d - p.d) as DResidual;
            let pred = spec_predicted_delta_t(p.delta_t, d_resid, delta_t_max);
            lemma2_to64();
            crate::arith::lemma_bit_length_bound(p.delta_t as nat, 32);
            lemma_bit_length(p.delta_t as nat);
            if 0 < d_resid <= (32 - spec_bit_length(p.delta_t as nat)) / 2 {
                let bl = spec_bit_length(p.delta_t as nat);
                lemma_pow2_pos(d_resid as nat);
                vstd::arithmetic::power2::lemma_pow2_adds(bl, d_resid as nat);
                if bl + d_resid < 32 {
                    lemma_pow2_strictly_increases((bl + d_resid) as nat, 32);
                }
                assert(p.delta_t * pow2(d_resid as nat) <= pow2(bl) * pow2(d_resid as nat))
                    by (nonlinear_arith)
                    requires
                        p.delta_t <= pow2(bl),
                        pow2(d_resid as nat) > 0,
                ;
                assert(0 <= p.delta_t * pow2(d_resid as nat)) by (nonlinear_arith)
                    requires
                        p.delta_t >= 0,
                        pow2(d_resid as nat) > 0,
                ;
            }
            assert(0 <= pred <= 0x1_0000_0000 || pred == delta_t_max);
        },
        _ => {},
    }
}

/// The event coded before position `n` of a sequence: the last event among
/// the first `n` positions.
pub open spec fn spec_prev_coded(events: Seq<Option<EventCoordless>>, n: int) -> Option<
    EventCoordless,
>
    decreases n,
{
    if n <= 0 {
        None
    } else {
        match events[n - 1] {
            Some(e) => Some(e),
            None => spec_prev_coded(events, n - 1),
        }
    }
}

/// The residuals written for position `i` of a sequence of events.
pub open spec fn spec_residuals_at(
    events: Seq<Option<EventCoordless>>,
    delta_t_max: i64,
    i: int,
) -> (DResidual, DeltaTResidual) {
    spec_event_residuals(spec_prev_coded(events, i), events[i], delta_t_max)
}

/// The two coded streams of a block behind the length of the first: two
/// big-endian bytes of length, the decimation stream, the tick stream.
pub open spec fn spec_block_frame(d_bytes: Seq<u8>, dt_bytes: Seq<u8>) -> Seq<u8> {
    seq![(d_bytes.len() / 256) as u8, (d_bytes.len() % 256) as u8] + d_bytes + dt_bytes
}

/// Codes a block of events as two residual streams, each entropy coded with
/// a model of its own.
pub struct BlockIntraPredictionContextModel {
    pub prev_coded_event: Option<EventCoordless>,
    pub prediction_mode: TimeMode,
    pub d_model: BlockDResidualModel,
    pub delta_t_model: BlockDeltaTResidualModel,
}

impl BlockIntraPredictionContextModel {
    /// A coder without a previous event, with fresh models.
    pub fn new(delta_t_max: DeltaT) -> (r: Self)
        requires
            delta_t_max <= DELTA_T_MAX_LIMIT,
        ensures
            r.prev_coded_event is None,
            r.prediction_mode == TimeMode::AbsoluteT,
            r.delta_t_model.spec_delta_t_max() == delta_t_max,
            r.d_model@ == Seq::new((D_RESIDUAL_SYMBOLS + 1) as nat, |i: int| 1u64),
            r.delta_t_model@ == Seq::new((2 * delta_t_max + 3) as nat, |i: int| 1u64),
    {
        BlockIntraPredictionContextModel {
            prev_coded_event: None,
            prediction_mode: TimeMode::AbsoluteT,
            d_model: BlockDResidualModel::new(),
            delta_t_model: BlockDeltaTResidualModel::new(delta_t_max),
        }
    }

    /// The residuals of the next event, or of a position without one,
    /// against the event coded before it; an event becomes the one coded
    /// before the next.
    pub fn encode_event(&mut self, event: Option<&EventCoordless>) -> (r: (
        DResidual,
        DeltaTResidual,
    ))
        ensures
            r == spec_event_residuals(
                old(self).prev_coded_event,
                match event {
                    Some(e) => Some(*e),
                    None => None,
                },
                old(self).delta_t_model.spec_delta_t_max(),
            ),
            final(self).prev_coded_event == (match event {
                Some(e) => Some(*e),
                None => old(self).prev_coded_event,
            }),
            final(self).prediction_mode == old(self).prediction_mode,
            final(self).d_model@ == old(self).d_model@,
            final(self).delta_t_model@ == old(self).delta_t_model@,
            final(self).delta_t_model.spec_delta_t_max() == old(self).delta_t_model.spec_delta_t_max(),
    {
        let delta_t_max: i64 = self.delta_t_model.delta_t_max();
        match event {
            None => (D_RESIDUAL_NO_EVENT, DELTA_T_RESIDUAL_NO_EVENT),
            Some(ev) => {
                let r = match self.prev_coded_event {
                    None => (ev.d as DResidual, ev.delta_t as DeltaTResidual),
                    Some(prev_event) => {
                        let d_resid: DResidual = ev.d as DResidual - prev_event.d as DResidual;
                        let pred: i64 = predicted_delta_t(prev_event.delta_t, d_resid, delta_t_max);
                        proof {
                            lemma_event_residuals_round_trip(
                                Some(prev_event),
                                Some(*ev),
                                delta_t_max,
                            );
                        }
                        (d_resid, ev.delta_t as DeltaTResidual - pred)
                    },
                };
                self.prev_coded_event = Some(*ev);
                r
            },
        }
    }

    /// The event, or the position without one, that a pair of residuals
    /// stands for against the event coded before it; `Deserialize` where
    /// the pair stands for nothing.
    pub fn decode_event(&mut self, d_resid: DResidual, dt_resid: DeltaTResidual) -> (r: Result<
        Option<EventCoordless>,
        CodecError,
    >)
        ensures
            final(self).prediction_mode == old(self).prediction_mode,
            final(self).d_model@ == old(self).d_model@,
            final(self).delta_t_model@ == old(self).delta_t_model@,
            final(self).delta_t_model.spec_delta_t_max() == old(self).delta_t_model.spec_delta_t_max(),
            match spec_event_from_residuals(
                old(self).prev_coded_event,
                d_resid,
                dt_resid,
                old(self).delta_t_model.spec_delta_t_max(),
            ) {
                Decoded::Empty => r == Ok::<Option<EventCoordless>, CodecError>(None) && final(self).prev_coded_event == old(self).prev_coded_event,
                Decoded::Event(e) => r == Ok::<Option<EventCoordless>, CodecError>(Some(e))
                    && final(self).prev_coded_event == Some(e),
                Decoded::Invalid => r == Err::<Option<EventCoordless>, CodecError>(
                    CodecError::Deserialize,
                ) && final(self).prev_coded_event == old(self).prev_coded_event,
            },
    {
        if d_resid == D_RESIDUAL_NO_EVENT {
            return Ok(None);
        }
        let delta_t_max: i64 = self.delta_t_model.delta_t_max();
        let (d, dt): (i32, i128) = match self.prev_coded_event {
            None => (d_resid as i32, dt_resid as i128),
            Some(prev_event) => {
                let pred: i64 = predicted_delta_t(prev_event.delta_t, d_resid, delta_t_max);
                (prev_event.d as i32 + d_resid as i32, pred as i128 + dt_resid as i128)
            },
        };
        if d < 0 || d > 255 || dt < 0 || dt > u32::MAX as i128 {
            return Err(CodecError::Deserialize);
        }
        let event = EventCoordless { d: d as u8, delta_t: dt as u32 };
        self.prev_coded_event = Some(event);
        Ok(Some(event))
    }
}


/// The places in the decimation alphabet of the residuals written for a
/// sequence of events.
pub open spec fn spec_d_stream(events: Seq<Option<EventCoordless>>, delta_t_max: i64) -> Seq<usize> {
    Seq::new(events.len(), |i: int| spec_d_index(spec_residuals_at(events, delta_t_max, i).0)->0)
}

/// The places in the tick alphabet of the residuals written for a sequence
/// of events.
pub open spec fn spec_dt_stream(events: Seq<Option<EventCoordless>>, delta_t_max: i64) -> Seq<
    usize,
> {
    Seq::new(
        events.len(),
        |i: int| spec_dt_index(spec_residuals_at(events, delta_t_max, i).1, delta_t_max)->0,
    )
}

/// Every tick residual written for the first `n` events lies in the
/// alphabet.
pub open spec fn spec_block_codable(
    events: Seq<Option<EventCoordless>>,
    delta_t_max: i64,
    n: int,
) -> bool {
    forall|i: int|
        0 <= i < n ==> spec_dt_index(
            (#[trigger] spec_residuals_at(events, delta_t_max, i)).1,
            delta_t_max,
        ) is Some
}

/// What the first `n` pairs of two residual streams stand for, or `None`
/// where a place lies outside its alphabet or a pair stands for nothing.
pub open spec fn spec_decoded_events(
    d_stream: Seq<usize>,
    dt_stream: Seq<usize>,
    delta_t_max: i64,
    n: int,
) -> Option<Seq<Option<EventCoordless>>>
    decreases n,
{
    if n <= 0 {
        Some(Seq::empty())
    } else {
        match spec_decoded_events(d_stream, dt_stream, delta_t_max, n - 1) {
            None => None,
            Some(events) => if d_stream[n - 1] >= D_RESIDUAL_SYMBOLS || dt_stream[n - 1] >= 2
                * delta_t_max + 2 {
                None
            } else {
                match spec_event_from_residuals(
                    spec_prev_coded(events, n - 1),
                    spec_d_symbol_at(d_stream[n - 1]),
                    spec_dt_symbol_at(dt_stream[n - 1], delta_t_max),
                    delta_t_max,
                ) {
                    Decoded::Empty => Some(events.push(None)),
                    Decoded::Event(e) => Some(events.push(Some(e))),
                    Decoded::Invalid => None,
                }
            },
        }
    }
}

/// The event coded before a position depends on the events before the
/// position only.
pub proof fn lemma_prev_coded_prefix(
    a: Seq<Option<EventCoordless>>,
    b: Seq<Option<EventCoordless>>,
    n: int,
)
    requires
        0 <= n <= a.len(),
        n <= b.len(),
        forall|i: int| 0 <= i < n ==> a[i] == b[i],
    ensures
        spec_prev_coded(a, n) == spec_prev_coded(b, n),
    decreases n,
{
    if n > 0 {
        lemma_prev_coded_prefix(a, b, n - 1);
    }
}

/// The residual streams written for a sequence of events stand for those
/// events.
pub proof fn lemma_block_round_trip(events: Seq<Option<EventCoordless>>, delta_t_max: i64, n: int)
    requires
        0 <= n <= events.len(),
        0 <= delta_t_max <= DELTA_T_MAX_LIMIT,
        spec_block_codable(events, delta_t_max, events.len() as int),
    ensures
        spec_decoded_events(
            spec_d_stream(events, delta_t_max),
            spec_dt_stream(events, delta_t_max),
            delta_t_max,
            n,
        ) == Some(events.take(n)),
    decreases n,
{
    if n > 0 {
        lemma_block_round_trip(events, delta_t_max, n - 1);
        let prefix = events.take(n - 1);
        lemma_prev_coded_prefix(prefix, events, n - 1);
        let r = spec_residuals_at(events, delta_t_max, n - 1);
        lemma_event_residuals_round_trip(
            spec_prev_coded(events, n - 1),
            events[n - 1],
            delta_t_max,
        );
        assert(spec_d_index(r.0) is Some) by {
            match (spec_prev_coded(events, n - 1), events[n - 1]) {
                (Some(p), Some(ev)) => {},
                _ => {},
            }
        }
        assert(spec_dt_index(r.1, delta_t_max) is Some);
        assert(spec_d_symbol_at(spec_d_index(r.0)->0) == r.0);
        assert(spec_dt_symbol_at(spec_dt_index(r.1, delta_t_max)->0, delta_t_max) == r.1);
        assert(prefix.push(events[n - 1]) =~= events.take(n));
    } else {
        assert(events.take(0) =~= Seq::<Option<EventCoordless>>::empty());
    }
}

/// Streams that stand for nothing up to some point stand for nothing
/// beyond it.
pub proof fn lemma_decoded_events_prefix(
    d_stream: Seq<usize>,
    dt_stream: Seq<usize>,
    delta_t_max: i64,
    k: int,
    n: int,
)
    requires
        0 <= k <= n,
        spec_decoded_events(d_stream, dt_stream, delta_t_max, k) is None,
    ensures
        spec_decoded_events(d_stream, dt_stream, delta_t_max, n) is None,
    decreases n - k,
{
    if k < n {
        lemma_decoded_events_prefix(d_stream, dt_stream, delta_t_max, k, n - 1);
    }
}

/// The two coded streams that a block is made of: the bytes behind the
/// length field that the field counts, and the bytes behind those; `None`
/// where the block is shorter than its length field or than the length it
/// announces.
pub open spec fn spec_block_split(input: Seq<u8>) -> Option<(Seq<u8>, Seq<u8>)> {
    if input.len() < 2 || input.len() < 2 + input[0] * 256 + input[1] {
        None
    } else {
        let d_len = input[0] * 256 + input[1];
        Some((input.subrange(2, 2 + d_len), input.subrange(2 + d_len, input.len() as int)))
    }
}

/// A block is split into the streams it was made of.
pub proof fn lemma_block_split(d_bytes: Seq<u8>, dt_bytes: Seq<u8>)
    requires
        d_bytes.len() <= u16::MAX,
    ensures
        spec_block_split(spec_block_frame(d_bytes, dt_bytes)) == Some((d_bytes, dt_bytes)),
{
    let frame = spec_block_frame(d_bytes, dt_bytes);
    let n = d_bytes.len() as int;
    assert(frame[0] == (n / 256) as u8);
    assert(frame[1] == (n % 256) as u8);
    assert(frame[0] * 256 + frame[1] == n);
    assert(frame.subrange(2, 2 + n) =~= d_bytes);
    assert(frame.subrange(2 + n, frame.len() as int) =~= dt_bytes);
}

/// Puts the two coded streams of a block behind the length of the first.
/// A first stream longer than the length field holds is refused.
pub fn frame_block(d_bytes: &Vec<u8>, dt_bytes: &Vec<u8>) -> (r: Result<Vec<u8>, CodecError>)
    ensures
        d_bytes.len() <= u16::MAX ==> (r matches Ok(out) && out@ == spec_block_frame(
            d_bytes@,
            dt_bytes@,
        )),
        d_bytes.len() > u16::MAX ==> r == Err::<Vec<u8>, CodecError>(CodecError::MalformedEncoder),
{
    if d_bytes.len() > u16::MAX as usize {
        return Err(CodecError::MalformedEncoder);
    }
    let mut out: Vec<u8> = Vec::new();
    out.push((d_bytes.len() / 256) as u8);
    out.push((d_bytes.len() % 256) as u8);
    let ghost head = out@;
    let mut k: usize = 0;
    while k < d_bytes.len()
        invariant
            k <= d_bytes.len(),
            out@ == head + d_bytes@.subrange(0, k as int),
        decreases d_bytes.len() - k,
    {
        out.push(d_bytes[k]);
        k += 1;
        assert(out@ =~= head + d_bytes@.subrange(0, k as int));
    }
    assert(d_bytes@.subrange(0, d_bytes.len() as int) =~= d_bytes@);
    let ghost mid = out@;
    let mut k: usize = 0;
    while k < dt_bytes.len()
        invariant
            k <= dt_bytes.len(),
            out@ == mid + dt_bytes@.subrange(0, k as int),
        decreases dt_bytes.len() - k,
    {
        out.push(dt_bytes[k]);
        k += 1;
        assert(out@ =~= mid + dt_bytes@.subrange(0, k as int));
    }
    assert(dt_bytes@.subrange(0, dt_bytes.len() as int) =~= dt_bytes@);
    assert(out@ =~= spec_block_frame(d_bytes@, dt_bytes@));
    Ok(out)
}

/// Splits a block into its two coded streams; `Deserialize` where the
/// block is shorter than its length field or than the length it announces.
pub fn split_block(input: &Vec<u8>) -> (r: Result<(Vec<u8>, Vec<u8>), CodecError>)
    ensures
        match spec_block_split(input@) {
            Some(parts) => r matches Ok(out) && out.0@ == parts.0 && out.1@ == parts.1,
            None => r == Err::<(Vec<u8>, Vec<u8>), CodecError>(CodecError::Deserialize),
        },
{
    if input.len() < 2 {
        return Err(CodecError::Deserialize);
    }
    let d_len: usize = input[0] as usize * 256 + input[1] as usize;
    if input.len() - 2 < d_len {
        return Err(CodecError::Deserialize);
    }
    let mut d_bytes: Vec<u8> = Vec::new();
    let mut k: usize = 2;
    while k < 2 + d_len
        invariant
            2 <= k <= 2 + d_len <= input.len(),
            d_bytes@ == input@.subrange(2, k as int),
        decreases 2 + d_len - k,
    {
        d_bytes.push(input[k]);
        k += 1;
        assert(d_bytes@ =~= input@.subrange(2, k as int));
    }
    let mut dt_bytes: Vec<u8> = Vec::new();
    while k < input.len()
        invariant
            2 + d_len <= k <= input.len(),
            dt_bytes@ == input@.subrange(2 + d_len, k as int),
        decreases input.len() - k,
    {
        dt_bytes.push(input[k]);
        k += 1;
        assert(dt_bytes@ =~= input@.subrange(2 + d_len, k as int));
    }
    Ok((d_bytes, dt_bytes))
}

impl BlockIntraPredictionContextModel {
    /// The two residual streams of a sequence of events, as places in
    /// their alphabets: the residuals of every event, or position without
    /// one, against the event before it. The coding starts without a
    /// previous event.
    ///
    /// Fails with `MalformedEncoder` exactly where a tick residual lies
    /// outside the alphabet.
    pub fn residual_streams(&mut self, events: &Vec<Option<EventCoordless>>) -> (r: Result<
        (Vec<usize>, Vec<usize>),
        CodecError,
    >)
        ensures
            final(self).prediction_mode == old(self).prediction_mode,
            final(self).d_model@ == old(self).d_model@,
            final(self).delta_t_model@ == old(self).delta_t_model@,
            final(self).delta_t_model.spec_delta_t_max() == old(self).delta_t_model.spec_delta_t_max(),
            r is Ok <==> spec_block_codable(
                events@,
                old(self).delta_t_model.spec_delta_t_max(),
                events.len() as int,
            ),
            r is Err ==> r == Err::<(Vec<usize>, Vec<usize>), CodecError>(
                CodecError::MalformedEncoder,
            ),
            r matches Ok(streams) ==> {
                let delta_t_max = old(self).delta_t_model.spec_delta_t_max();
                &&& streams.0@ == spec_d_stream(events@, delta_t_max)
                &&& streams.1@ == spec_dt_stream(events@, delta_t_max)
                &&& final(self).prev_coded_event == spec_prev_coded(events@, events.len() as int)
                &&& forall|j: int|
                    0 <= j < events.len() ==> #[trigger] streams.0[j] < D_RESIDUAL_SYMBOLS
                &&& forall|j: int|
                    0 <= j < events.len() ==> #[trigger] streams.1[j] < 2 * delta_t_max + 2
            },
    {
        self.prev_coded_event = None;
        let delta_t_max: i64 = self.delta_t_model.delta_t_max();
        let mut d_stream: Vec<usize> = Vec::new();
        let mut dt_stream: Vec<usize> = Vec::new();
        let mut i: usize = 0;
        while i < events.len()
            invariant
                i <= events.len(),
                self.prediction_mode == old(self).prediction_mode,
                self.d_model@ == old(self).d_model@,
                self.delta_t_model@ == old(self).delta_t_model@,
                self.delta_t_model.spec_delta_t_max() == old(self).delta_t_model.spec_delta_t_max(),
                delta_t_max == self.delta_t_model.spec_delta_t_max(),
                0 <= delta_t_max <= DELTA_T_MAX_LIMIT,
                self.prev_coded_event == spec_prev_coded(events@, i as int),
                spec_block_codable(events@, delta_t_max, i as int),
                d_stream.len() == i,
                dt_stream.len() == i,
                forall|j: int|
                    0 <= j < i ==> #[trigger] d_stream[j] == spec_d_stream(events@, delta_t_max)[j],
                forall|j: int|
                    0 <= j < i ==> #[trigger] dt_stream[j] == spec_dt_stream(
                        events@,
                        delta_t_max,
                    )[j],
                forall|j: int| 0 <= j < i ==> #[trigger] d_stream[j] < D_RESIDUAL_SYMBOLS,
                forall|j: int| 0 <= j < i ==> #[trigger] dt_stream[j] < 2 * delta_t_max + 2,
            decreases events.len() - i,
        {
            let (d_resid, dt_resid) = match &events[i] {
                Some(e) => self.encode_event(Some(e)),
                None => self.encode_event(None),
            };
            assert((d_resid, dt_resid) == spec_residuals_at(events@, delta_t_max, i as int));
            // the difference of two decimations is always in the alphabet
            assert(spec_d_index(d_resid) is Some) by {
                match (spec_prev_coded(events@, i as int), events@[i as int]) {
                    (Some(p), Some(ev)) => {},
                    _ => {},
                }
            }
            let d_place = match d_index(d_resid) {
                Some(p) => p,
                None => {
                    return Err(CodecError::MalformedEncoder);
                },
            };
            let dt_place = match dt_index(dt_resid, delta_t_max) {
                Some(p) => p,
                None => {
                    assert(!spec_block_codable(events@, delta_t_max, events.len() as int)) by {
                        assert(spec_dt_index(
                            spec_residuals_at(events@, delta_t_max, i as int).1,
                            delta_t_max,
                        ) is None);
                    }
                    return Err(CodecError::MalformedEncoder);
                },
            };
            d_stream.push(d_place);
            dt_stream.push(dt_place);
            i += 1;
        }
        assert(d_stream@ =~= spec_d_stream(events@, delta_t_max));
        assert(dt_stream@ =~= spec_dt_stream(events@, delta_t_max));
        Ok((d_stream, dt_stream))
    }

    /// The `n` events that two residual streams stand for. The decoding
    /// starts without a previous event.
    ///
    /// Fails with `Deserialize` exactly where a stream does not hold `n`
    /// places, a place lies outside its alphabet, or a pair of residuals
    /// stands for nothing.
    pub fn events_from_streams(
        &mut self,
        d_stream: &Vec<usize>,
        dt_stream: &Vec<usize>,
        n: usize,
    ) -> (r: Result<Vec<Option<EventCoordless>>, CodecError>)
        ensures
            final(self).prediction_mode == old(self).prediction_mode,
            final(self).d_model@ == old(self).d_model@,
            final(self).delta_t_model@ == old(self).delta_t_model@,
            final(self).delta_t_model.spec_delta_t_max() == old(self).delta_t_model.spec_delta_t_max(),
            r is Ok <==> d_stream.len() == n && dt_stream.len() == n && spec_decoded_events(
                d_stream@,
                dt_stream@,
                old(self).delta_t_model.spec_delta_t_max(),
                n as int,
            ) is Some,
            r is Err ==> r == Err::<Vec<Option<EventCoordless>>, CodecError>(
                CodecError::Deserialize,
            ),
            r matches Ok(events) ==> {
                &&& spec_decoded_events(
                    d_stream@,
                    dt_stream@,
                    old(self).delta_t_model.spec_delta_t_max(),
                    n as int,
                ) == Some(events@)
                &&& final(self).prev_coded_event == spec_prev_coded(events@, n as int)
            },
    {
        self.prev_coded_event = None;
        if d_stream.len() != n || dt_stream.len() != n {
            return Err(CodecError::Deserialize);
        }
        let delta_t_max: i64 = self.delta_t_model.delta_t_max();
        let mut events: Vec<Option<EventCoordless>> = Vec::new();
        let mut i: usize = 0;
        while i < n
            invariant
                i <= n,
                d_stream.len() == n,
                dt_stream.len() == n,
                self.prediction_mode == old(self).prediction_mode,
                self.d_model@ == old(self).d_model@,
                self.delta_t_model@ == old(self).delta_t_model@,
                self.delta_t_model.spec_delta_t_max() == old(self).delta_t_model.spec_delta_t_max(),
                delta_t_max == self.delta_t_model.spec_delta_t_max(),
                0 <= delta_t_max <= DELTA_T_MAX_LIMIT,
                events.len() == i,
                self.prev_coded_event == spec_prev_coded(events@, i as int),
                spec_decoded_events(d_stream@, dt_stream@, delta_t_max, i as int) == Some(events@),
            decreases n - i,
        {
            if d_stream[i] >= D_RESIDUAL_SYMBOLS || dt_stream[i] as u64 >= 2 * (delta_t_max as u64)
                + 2 {
                proof {
                    lemma_decoded_events_prefix(
                        d_stream@,
                        dt_stream@,
                        delta_t_max,
                        i + 1,
                        n as int,
                    );
                }
                return Err(CodecError::Deserialize);
            }
            let d_resid: DResidual = d_symbol_at(d_stream[i]);
            let dt_resid: DeltaTResidual = dt_symbol_at(dt_stream[i], delta_t_max);
            let ghost before = events@;
            match self.decode_event(d_resid, dt_resid) {
                Ok(event) => {
                    events.push(event);
                },
                Err(e) => {
                    proof {
                        lemma_decoded_events_prefix(
                            d_stream@,
                            dt_stream@,
                            delta_t_max,
                            i + 1,
                            n as int,
                        );
                    }
                    return Err(CodecError::Deserialize);
                },
            }
            proof {
                lemma_prev_coded_prefix(before, events@, i as int);
                assert(events@ =~= before.push(events@[i as int]));
            }
            i += 1;
        }
        Ok(events)
    }

    /// Codes a sequence of events: its two residual streams, each entropy
    /// coded with a copy of its model, behind the length of the first.
    ///
    /// Fails with `MalformedEncoder` exactly where a tick residual lies
    /// outside the alphabet or the first coded stream is longer than its
    /// length field holds.
    pub fn encode_block(&mut self, events: &Vec<Option<EventCoordless>>) -> (r: Result<
        Vec<u8>,
        CodecError,
    >)
        ensures
            final(self).prediction_mode == old(self).prediction_mode,
            final(self).d_model@ == old(self).d_model@,
            final(self).delta_t_model@ == old(self).delta_t_model@,
            final(self).delta_t_model.spec_delta_t_max() == old(self).delta_t_model.spec_delta_t_max(),
            r is Ok <==> spec_block_codable(
                events@,
                old(self).delta_t_model.spec_delta_t_max(),
                events.len() as int,
            ) && spec_coded_d_stream(
                old(self).d_model@,
                events@,
                old(self).delta_t_model.spec_delta_t_max(),
            ).len() <= u16::MAX,
            r is Err ==> r == Err::<Vec<u8>, CodecError>(CodecError::MalformedEncoder),
            r matches Ok(out) ==> {
                let delta_t_max = old(self).delta_t_model.spec_delta_t_max();
                &&& final(self).prev_coded_event == spec_prev_coded(events@, events.len() as int)
                &&& out@ == spec_block_frame(
                    spec_coded_d_stream(old(self).d_model@, events@, delta_t_max),
                    spec_coded_dt_stream(old(self).delta_t_model@, events@, delta_t_max),
                )
            },
    {
        let (d_stream, dt_stream) = match self.residual_streams(events) {
            Ok(streams) => streams,
            Err(e) => {
                return Err(e);
            },
        };
        let d_coder = self.d_model.coder_model(events.len());
        let dt_coder = self.delta_t_model.coder_model(events.len());
        proof {
            lemma_plain_accepts(
                seq![self.d_model@],
                0,
                MAX_DENOMINATOR,
                events.len(),
                d_stream@,
                d_stream@.len() as int,
            );
            lemma_plain_accepts(
                seq![self.delta_t_model@],
                0,
                MAX_DENOMINATOR,
                events.len(),
                dt_stream@,
                dt_stream@.len() as int,
            );
        }
        let d_bytes = match encode_symbols(d_coder, d_stream) {
            Ok(bytes) => bytes,
            Err(e) => {
                return Err(e);
            },
        };
        let dt_bytes = match encode_symbols(dt_coder, dt_stream) {
            Ok(bytes) => bytes,
            Err(e) => {
                return Err(e);
            },
        };
        frame_block(&d_bytes, &dt_bytes)
    }

    /// Decodes a sequence of `n` events from a block: its two coded
    /// streams, each entropy decoded with a copy of its model, and the
    /// events that the residuals stand for.
    ///
    /// Fails with `Deserialize` exactly where the block is shorter than the
    /// length it announces, where a stream does not hold `n` residuals, and
    /// where a pair of residuals stands for nothing.
    pub fn decode_block(&mut self, input: &Vec<u8>, n: usize) -> (r: Result<
        Vec<Option<EventCoordless>>,
        CodecError,
    >)
        ensures
            final(self).prediction_mode == old(self).prediction_mode,
            final(self).d_model@ == old(self).d_model@,
            final(self).delta_t_model@ == old(self).delta_t_model@,
            final(self).delta_t_model.spec_delta_t_max() == old(self).delta_t_model.spec_delta_t_max(),
            match spec_block_split(input@) {
                None => r == Err::<Vec<Option<EventCoordless>>, CodecError>(
                    CodecError::Deserialize,
                ),
                Some(parts) => {
                    let delta_t_max = old(self).delta_t_model.spec_delta_t_max();
                    let d_stream = spec_arithmetic_decoding(
                        CoderModel::spec_plain(seq![old(self).d_model@], 0, MAX_DENOMINATOR, n),
                        parts.0,
                    );
                    let dt_stream = spec_arithmetic_decoding(
                        CoderModel::spec_plain(
                            seq![old(self).delta_t_model@],
                            0,
                            MAX_DENOMINATOR,
                            n,
                        ),
                        parts.1,
                    );
                    if d_stream.len() == n && dt_stream.len() == n && spec_decoded_events(
                        d_stream,
                        dt_stream,
                        delta_t_max,
                        n as int,
                    ) is Some {
                        r matches Ok(events) && spec_decoded_events(
                            d_stream,
                            dt_stream,
                            delta_t_max,
                            n as int,
                        ) == Some(events@) && final(self).prev_coded_event == spec_prev_coded(
                            events@,
                            n as int,
                        )
                    } else {
                        r == Err::<Vec<Option<EventCoordless>>, CodecError>(
                            CodecError::Deserialize,
                        )
                    }
                },
            },
    {
        let (d_bytes, dt_bytes) = match split_block(input) {
            Ok(parts) => parts,
            Err(e) => {
                return Err(e);
            },
        };
        let d_stream = match decode_symbols(self.d_model.coder_model(n), &d_bytes) {
            Ok(symbols) => symbols,
            Err(e) => {
                return Err(e);
            },
        };
        let dt_stream = match decode_symbols(self.delta_t_model.coder_model(n), &dt_bytes) {
            Ok(symbols) => symbols,
            Err(e) => {
                return Err(e);
            },
        };
        self.events_from_streams(&d_stream, &dt_stream, n)
    }
}

/// The coded stream of the decimation residuals of a sequence of events,
/// for a model with the counts `counts`.
pub open spec fn spec_coded_d_stream(
    counts: Seq<u64>,
    events: Seq<Option<EventCoordless>>,
    delta_t_max: i64,
) -> Seq<u8> {
    spec_arithmetic_encoding(
        CoderModel::spec_plain(seq![counts], 0, MAX_DENOMINATOR, events.len() as usize),
        spec_d_stream(events, delta_t_max),
    )
}

/// The coded stream of the tick residuals of a sequence of events, for a
/// model with the counts `counts`.
pub open spec fn spec_coded_dt_stream(
    counts: Seq<u64>,
    events: Seq<Option<EventCoordless>>,
    delta_t_max: i64,
) -> Seq<u8> {
    spec_arithmetic_encoding(
        CoderModel::spec_plain(seq![counts], 0, MAX_DENOMINATOR, events.len() as usize),
        spec_dt_stream(events, delta_t_max),
    )
}

} // verus!
