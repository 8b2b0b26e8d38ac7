//! Block-level prediction: the residuals an encoder writes for a 16x16 tile
//! of events, and the inverse a decoder applies to them.
//!
//! The first block of a tile is coded against its own first event (intra);
//! every later block is coded against the per-pixel memory that the blocks
//! before it left behind (inter). Time residuals are cut down to 16 bits by
//! a per-block shift, and both sides rebuild their memory from the cut
//! values, so that encoder and decoder always predict from equal states.

use crate::arith::{
    bit_length,
    lemma_array_from_seq,
    floor_div_pow2,
    lemma_bit_length,
    lemma_bit_length_bound,
    lemma_floor_div_pow2,
    mul_pow2,
    pow2_u64,
    spec_abs,
    spec_bit_length,
    spec_floor_div_pow2,
};
use crate::types::{
    lemma_round_up,
    spec_round_up,
    AbsoluteT,
    CodecError,
    DeltaT,
    EventCoordless,
    Mode,
    D,
};
use vstd::arithmetic::power2::{
    lemma2_to64,
    lemma_pow2_pos,
    lemma_pow2_strictly_increases,
    pow2,
};
use vstd::prelude::*;

verus! {

/// Side length of a block, in pixels.
pub const BLOCK_SIZE: usize = 16;

/// Number of pixels in a block.
pub const BLOCK_SIZE_AREA: usize = 256;

/// Difference of two decimations.
pub type DResidual = i16;

/// Difference of two tick counts, before it is cut to 16 bits.
pub type DeltaTResidual = i64;

/// Difference of two absolute times, the later minus the earlier.
pub type TResidual = AbsoluteT;

/// The decimation residual that marks a pixel without an event in a block.
/// No difference of two decimations can take this value.
pub const D_ENCODE_NO_EVENT: DResidual = 256;

/// The largest shift a block may apply to its time residuals.
pub const SPARAM_MAX: u8 = 48;

/// The events of one block, in row-major order.
pub type BlockEvents = [Option<EventCoordless>; BLOCK_SIZE_AREA];

/// The time a pixel's memory keeps for an event at `t`: `t` itself, or in
/// frame-perfect mode the next multiple of `dt_ref`.
pub open spec fn spec_commit_time(t: int, dt_ref: int, mode: Mode) -> int {
    if mode == Mode::FramePerfect {
        spec_round_up(t, dt_ref)
    } else {
        t
    }
}

/// `d1 - d0`.
pub open spec fn spec_d_residual(d0: D, d1: D) -> int {
    d1 - d0
}

/// The previous tick count scaled by the change in decimation: doubled per
/// step up and halved per step down, for changes of fewer than 8 steps. The
/// doubling is done in 32 bits and drops what does not fit.
pub open spec fn spec_shifted_delta_t(delta_t: DeltaT, d_resid: int) -> int {
    if 0 < d_resid < 8 {
        (delta_t * pow2(d_resid as nat)) % 0x1_0000_0000
    } else if -8 < d_resid < 0 {
        (delta_t as int) / (pow2((-d_resid) as nat) as int)
    } else {
        delta_t as int
    }
}

/// The tick count predicted for a pixel's next event: the scaled previous
/// count, or the previous count itself where the scaled one exceeds `dtm`.
pub open spec fn spec_predict_delta_t(delta_t: DeltaT, d_resid: int, dtm: DeltaT) -> int {
    let p = spec_shifted_delta_t(delta_t, d_resid);
    if p > dtm {
        delta_t as int
    } else {
        p
    }
}

/// The shift a block settles on: the one it was offered, raised as far as
/// the largest residual magnitude needs to fit in 16 signed bits.
pub open spec fn spec_choose_sparam(sparam: u8, max_abs: nat) -> u8 {
    if max_abs > 0 && spec_bit_length(max_abs) > sparam + 15 {
        (spec_bit_length(max_abs) - 15) as u8
    } else {
        sparam
    }
}

/// The largest magnitude among the first `n` residuals.
pub open spec fn spec_max_abs(r: Seq<int>, n: int) -> nat
    decreases n,
{
    if n <= 0 {
        0
    } else {
        let m = spec_max_abs(r, n - 1);
        let a = spec_abs(r[n - 1]);
        if a > m {
            a
        } else {
            m
        }
    }
}

/// Every residual is bounded by the largest magnitude.
pub proof fn lemma_max_abs_bounds(r: Seq<int>, n: int, i: int)
    requires
        0 <= i < n,
    ensures
        spec_abs(r[i]) <= spec_max_abs(r, n),
    decreases n,
{
    if i < n - 1 {
        lemma_max_abs_bounds(r, n - 1, i);
    }
}

/// With the shift a block settles on, every residual whose magnitude is at
/// most the block's maximum fits in 16 signed bits after the shift.
pub proof fn lemma_chosen_sparam_fits(sparam: u8, max_abs: nat, r: int)
    requires
        sparam <= SPARAM_MAX,
        max_abs < pow2(63),
        spec_abs(r) <= max_abs,
    ensures
        sparam <= spec_choose_sparam(sparam, max_abs) <= SPARAM_MAX,
        -32768 <= spec_floor_div_pow2(r, spec_choose_sparam(sparam, max_abs) as nat) <= 32767,
{
    let s = spec_choose_sparam(sparam, max_abs);
    let bl = spec_bit_length(max_abs);
    lemma_bit_length(max_abs);
    lemma_bit_length_bound(max_abs, 63);
    lemma2_to64();
    assert(s <= SPARAM_MAX);
    assert(sparam <= s);
    // bl <= s + 15, so max_abs < 2^(s + 15)
    if bl < s + 15 {
        lemma_pow2_strictly_increases(bl, (s + 15) as nat);
    }
    assert(max_abs < pow2((s + 15) as nat));
    vstd::arithmetic::power2::lemma_pow2_adds(s as nat, 15);
    lemma_pow2_pos(s as nat);
    let p = pow2(s as nat) as int;
    let q = spec_floor_div_pow2(r, s as nat);
    lemma_floor_div_pow2(r, s as nat);
    assert(-(p * 32768) <= r < p * 32768);
    assert(q <= 32767) by (nonlinear_arith)
        requires
            q * p <= r,
            r < p * 32768,
            p > 0,
    ;
    assert(q >= -32768) by (nonlinear_arith)
        requires
            r < q * p + p,
            -(p * 32768) <= r,
            p > 0,
    ;
}

/// `d1 - d0`, the change in decimation from one event to the next.
pub fn d_residual(d0: D, d1: D) -> (r: DResidual)
    ensures
        r == spec_d_residual(d0, d1),
{
    d1 as DResidual - d0 as DResidual
}

/// `t1 - t0`, the ticks between two absolute times in order.
pub fn t_residual(t0: AbsoluteT, t1: AbsoluteT) -> (r: TResidual)
    requires
        t0 <= t1,
    ensures
        r == t1 - t0,
{
    t1 - t0
}

/// `t1 - t0`, the difference of two tick residuals.
pub fn delta_t_residual(t0: DeltaTResidual, t1: DeltaTResidual) -> (r: DeltaTResidual)
    requires
        i64::MIN <= t1 - t0 <= i64::MAX,
    ensures
        r == t1 - t0,
{
    t1 - t0
}

/// The tick count predicted for the next event of a pixel whose memory is
/// `event_memory`, when its decimation changes by `d_resid`.
pub fn predict_delta_t(event_memory: &EventCoordless, d_resid: DResidual, dtm: DeltaT) -> (r:
    DeltaT)
    ensures
        r == spec_predict_delta_t(event_memory.delta_t, d_resid as int, dtm),
{
    let dt: DeltaT = event_memory.delta_t;
    let mut shifted: u64 = dt as u64;
    if d_resid > 0 && d_resid < 8 {
        let p: u64 = pow2_u64(d_resid as u32);
        proof {
            lemma2_to64();
            lemma_pow2_strictly_increases(d_resid as nat, 8);
            assert(dt * p <= 0xffff_ffff * 256) by (nonlinear_arith)
                requires
                    dt <= 0xffff_ffff,
                    p <= 256,
            ;
        }
        shifted = (dt as u64 * p) % 0x1_0000_0000;
    } else if d_resid < 0 && d_resid > -8 {
        let p: u64 = pow2_u64((-d_resid) as u32);
        proof {
            lemma_pow2_pos((-d_resid) as nat);
        }
        shifted = dt as u64 / p;
    }
    assert(shifted == spec_shifted_delta_t(dt, d_resid as int));
    if shifted > dtm as u64 {
        dt
    } else {
        shifted as u32
    }
}

/// The shift a block settles on for residuals of magnitude up to
/// `max_abs`.
pub fn choose_sparam(sparam: u8, max_abs: u64) -> (r: u8)
    requires
        sparam <= SPARAM_MAX,
        max_abs < pow2(63),
    ensures
        r == spec_choose_sparam(sparam, max_abs as nat),
        r <= SPARAM_MAX,
{
    let bl: u32 = bit_length(max_abs);
    proof {
        lemma_bit_length_bound(max_abs as nat, 63);
    }
    if max_abs > 0 && bl > sparam as u32 + 15 {
        (bl - 15) as u8
    } else {
        sparam
    }
}

/// The time committed to memory for an event at `t`, or `None` where the
/// frame-aligned time does not fit in 32 bits.
pub fn commit_time(t: AbsoluteT, dt_ref: DeltaT, mode: Mode) -> (r: Option<AbsoluteT>)
    requires
        mode == Mode::FramePerfect ==> dt_ref > 0,
    ensures
        match r {
            Some(v) => v == spec_commit_time(t as int, dt_ref as int, mode),
            None => spec_commit_time(t as int, dt_ref as int, mode) > u32::MAX,
        },
{
    if mode == Mode::FramePerfect && t % dt_ref != 0 {
        proof {
            lemma_round_up(t as int, dt_ref as int);
        }
        let q: u64 = (t / dt_ref) as u64 + 1;
        let m: u64 = q * dt_ref as u64;
        if m > u32::MAX as u64 {
            None
        } else {
            Some(m as u32)
        }
    } else {
        Some(t)
    }
}


/// The index of the first populated pixel at or after `from`, or the
/// block's length where there is none.
pub open spec fn spec_first_event_from(events: Seq<Option<EventCoordless>>, from: int) -> int
    decreases events.len() - from,
{
    if from < 0 || from >= events.len() {
        events.len() as int
    } else if events[from] is Some {
        from
    } else {
        spec_first_event_from(events, from + 1)
    }
}

/// Pixels `from..k` are empty and `k` is populated or the block's end, so
/// `k` is where the search from `from` stops.
pub proof fn lemma_first_event_from(events: Seq<Option<EventCoordless>>, from: int, k: int)
    requires
        0 <= from <= k <= events.len(),
        forall|j: int| from <= j < k ==> events[j] is None,
        k < events.len() ==> events[k] is Some,
    ensures
        spec_first_event_from(events, from) == k,
    decreases k - from,
{
    if from < k {
        lemma_first_event_from(events, from + 1, k);
    }
}

/// The event an intra block is coded against: that of its first populated
/// pixel, or the zero event for an empty block.
pub open spec fn spec_intra_start(events: Seq<Option<EventCoordless>>) -> EventCoordless {
    let i = spec_first_event_from(events, 0);
    if 0 <= i < events.len() && events[i] is Some {
        events[i]->0
    } else {
        EventCoordless { d: 0, delta_t: 0 }
    }
}

/// The decimation residual an intra block holds for pixel `i`: that of its
/// event against the head, for every populated pixel behind the head's
/// own; the no-event mark for the others, the head's own among them.
pub open spec fn spec_intra_d_residual(events: Seq<Option<EventCoordless>>, i: int) -> int {
    match events[i] {
        Some(e) => if i == spec_first_event_from(events, 0) {
            D_ENCODE_NO_EVENT as int
        } else {
            e.d - spec_intra_start(events).d
        },
        None => D_ENCODE_NO_EVENT as int,
    }
}

/// The decimation residual that is written for pixel `i` of an intra
/// block: the one the block holds, but zero for the head's own pixel, by
/// which a reader finds where the head stands.
pub open spec fn spec_intra_d_written(events: Seq<Option<EventCoordless>>, i: int) -> int {
    match events[i] {
        Some(e) => e.d - spec_intra_start(events).d,
        None => D_ENCODE_NO_EVENT as int,
    }
}

/// The decimation residuals that are written for an intra block.
pub open spec fn spec_intra_written(events: Seq<Option<EventCoordless>>) -> Seq<DResidual> {
    Seq::new(BLOCK_SIZE_AREA as nat, |i: int| spec_intra_d_written(events, i) as i16)
}

/// The decimation residuals that are written for an intra block: those
/// that the prediction has left in `d_residuals`, with zero in the slot of
/// the head's own pixel.
pub fn mark_intra_head(d_residuals: &[DResidual; BLOCK_SIZE_AREA], events: &BlockEvents) -> (r: [DResidual; BLOCK_SIZE_AREA])
    requires
        forall|i: int|
            0 <= i < BLOCK_SIZE_AREA ==> #[trigger] d_residuals[i] == spec_intra_d_residual(
                events@,
                i,
            ),
    ensures
        r@ == spec_intra_written(events@),
{
    let mut r: [DResidual; BLOCK_SIZE_AREA] = *d_residuals;
    let mut idx: usize = 0;
    while idx < BLOCK_SIZE_AREA
        invariant
            idx <= BLOCK_SIZE_AREA,
            r == *d_residuals,
            forall|j: int| 0 <= j < idx ==> (#[trigger] events@[j]) is None,
            forall|i: int|
                0 <= i < BLOCK_SIZE_AREA ==> #[trigger] d_residuals[i] == spec_intra_d_residual(
                    events@,
                    i,
                ),
        decreases BLOCK_SIZE_AREA - idx,
    {
        if events[idx].is_some() {
            proof {
                lemma_first_event_from(events@, 0, idx as int);
            }
            r[idx] = 0;
            assert(r@ =~= spec_intra_written(events@)) by {
                assert forall|j: int| 0 <= j < BLOCK_SIZE_AREA implies r@[j]
                    == spec_intra_written(events@)[j] by {
                    assert(d_residuals[j] == spec_intra_d_residual(events@, j));
                }
            }
            return r;
        }
        idx += 1;
    }
    assert(r@ =~= spec_intra_written(events@)) by {
        assert forall|j: int| 0 <= j < BLOCK_SIZE_AREA implies r@[j] == spec_intra_written(
            events@,
        )[j] by {
            assert(d_residuals[j] == spec_intra_d_residual(events@, j));
            assert(events@[j] is None);
        }
    }
    r
}

/// The time residual an intra block holds for pixel `i`, before the shift.
pub open spec fn spec_intra_t_residual(events: Seq<Option<EventCoordless>>, i: int) -> int {
    match events[i] {
        Some(e) => e.delta_t - spec_intra_start(events).delta_t,
        None => 0,
    }
}

/// All time residuals of an intra block, before the shift.
pub open spec fn spec_intra_t_residuals(events: Seq<Option<EventCoordless>>) -> Seq<int> {
    Seq::new(events.len(), |i: int| spec_intra_t_residual(events, i))
}

/// The shift an intra block settles on.
pub open spec fn spec_intra_sparam(sparam: u8, events: Seq<Option<EventCoordless>>) -> u8 {
    spec_choose_sparam(
        sparam,
        spec_max_abs(spec_intra_t_residuals(events), events.len() as int),
    )
}

/// The 16-bit time residual an intra block writes for pixel `i`.
pub open spec fn spec_intra_quantized(
    sparam: u8,
    events: Seq<Option<EventCoordless>>,
    i: int,
) -> int {
    spec_floor_div_pow2(spec_intra_t_residual(events, i), spec_intra_sparam(sparam, events) as nat)
}

/// The time a decoder rebuilds for a pixel of an intra block from the
/// block's head time, the pixel's 16-bit residual and the block's shift.
pub open spec fn spec_intra_recon_t(head_t: AbsoluteT, quantized: int, sparam: u8) -> int {
    head_t + quantized * pow2(sparam as nat)
}

/// The time a decoder will rebuild for pixel `i` of the intra block coded
/// from `events`.
pub open spec fn spec_intra_recon_of(
    sparam: u8,
    events: Seq<Option<EventCoordless>>,
    i: int,
) -> int {
    spec_intra_recon_t(
        spec_intra_start(events).delta_t,
        spec_intra_quantized(sparam, events, i),
        spec_intra_sparam(sparam, events),
    )
}

/// The blocks that can be intra coded: the offered shift is in range, the
/// frame interval is positive where times are aligned to it, no residual
/// exceeds `dtm`, and every time that goes to memory, true or rebuilt, is a
/// 32-bit time.
pub open spec fn spec_intra_valid(
    mode: Mode,
    sparam: u8,
    dt_ref: DeltaT,
    dtm: DeltaT,
    events: Seq<Option<EventCoordless>>,
) -> bool {
    &&& sparam <= SPARAM_MAX
    &&& mode == Mode::FramePerfect ==> dt_ref > 0
    &&& spec_max_abs(spec_intra_t_residuals(events), events.len() as int) <= dtm
    &&& forall|i: int|
        0 <= i < events.len() && (#[trigger] events[i]) is Some ==> {
            &&& spec_commit_time(events[i]->0.delta_t as int, dt_ref as int, mode) <= u32::MAX
            &&& 0 <= spec_intra_recon_of(sparam, events, i)
            &&& spec_commit_time(spec_intra_recon_of(sparam, events, i), dt_ref as int, mode)
                <= u32::MAX
        }
}

/// Keeps track of the actual and reconstructed times of past events, and
/// computes the prediction residuals of the next block.
pub struct PredictionModel {
    /// The true last time of each pixel.
    pub t_memory: [AbsoluteT; BLOCK_SIZE_AREA],
    /// The decimation and reconstructed tick count of each pixel's last
    /// event.
    pub event_memory: [EventCoordless; BLOCK_SIZE_AREA],
    /// The reconstructed last time of each pixel.
    pub t_recon: [AbsoluteT; BLOCK_SIZE_AREA],
    /// The decimation residuals of the current block.
    pub d_residuals: [DResidual; BLOCK_SIZE_AREA],
    /// The time residuals of the current block, before the shift.
    pub dt_pred_residuals: [DeltaTResidual; BLOCK_SIZE_AREA],
    /// The time residuals of the current block, as they are entropy coded.
    pub dt_pred_residuals_i16: [i16; BLOCK_SIZE_AREA],
    pub time_modulation_mode: Mode,
}

impl PredictionModel {
    /// No pixel remembers an event.
    pub open spec fn memory_is_reset(&self) -> bool {
        &&& forall|i: int| 0 <= i < BLOCK_SIZE_AREA ==> #[trigger] self.t_memory[i] == 0
        &&& forall|i: int|
            0 <= i < BLOCK_SIZE_AREA ==> #[trigger] self.event_memory[i] == (EventCoordless {
                d: 0,
                delta_t: 0,
            })
        &&& forall|i: int| 0 <= i < BLOCK_SIZE_AREA ==> #[trigger] self.t_recon[i] == 0
    }

    /// The residual buffers describe a block without events.
    pub open spec fn residuals_are_reset(&self) -> bool {
        &&& forall|i: int|
            0 <= i < BLOCK_SIZE_AREA ==> #[trigger] self.d_residuals[i] == D_ENCODE_NO_EVENT
        &&& forall|i: int| 0 <= i < BLOCK_SIZE_AREA ==> #[trigger] self.dt_pred_residuals[i] == 0
        &&& forall|i: int|
            0 <= i < BLOCK_SIZE_AREA ==> #[trigger] self.dt_pred_residuals_i16[i] == 0
    }

    /// A model without memory, for a source of the given mode.
    pub fn new(time_modulation_mode: Mode) -> (r: Self)
        ensures
            r.time_modulation_mode == time_modulation_mode,
            r.memory_is_reset(),
            r.residuals_are_reset(),
            r == spec_fresh(time_modulation_mode),
    {
        let r = PredictionModel {
            t_memory: [0u32; BLOCK_SIZE_AREA],
            event_memory: [EventCoordless { d: 0, delta_t: 0 }; BLOCK_SIZE_AREA],
            t_recon: [0u32; BLOCK_SIZE_AREA],
            d_residuals: [D_ENCODE_NO_EVENT; BLOCK_SIZE_AREA],
            dt_pred_residuals: [0i64; BLOCK_SIZE_AREA],
            dt_pred_residuals_i16: [0i16; BLOCK_SIZE_AREA],
            time_modulation_mode,
        };
        proof {
            lemma_fresh_unique(r);
        }
        r
    }

    /// Replaces the reconstructed memory, as a decoder does when it resumes
    /// from a known state.
    pub fn override_memory(
        &mut self,
        event_memory: [EventCoordless; BLOCK_SIZE_AREA],
        t_recon: [AbsoluteT; BLOCK_SIZE_AREA],
    )
        ensures
            final(self).event_memory == event_memory,
            final(self).t_recon == t_recon,
            final(self).t_memory == old(self).t_memory,
            final(self).d_residuals == old(self).d_residuals,
            final(self).dt_pred_residuals == old(self).dt_pred_residuals,
            final(self).dt_pred_residuals_i16 == old(self).dt_pred_residuals_i16,
            final(self).time_modulation_mode == old(self).time_modulation_mode,
    {
        self.event_memory = event_memory;
        self.t_recon = t_recon;
    }

    /// Replaces the residual buffers, as a decoder does with the residuals
    /// it read for the next block.
    pub fn load_residuals(
        &mut self,
        d_residuals: [DResidual; BLOCK_SIZE_AREA],
        dt_residuals: [i16; BLOCK_SIZE_AREA],
    )
        ensures
            final(self).d_residuals == d_residuals,
            final(self).dt_pred_residuals_i16 == dt_residuals,
            final(self).dt_pred_residuals == old(self).dt_pred_residuals,
            final(self).event_memory == old(self).event_memory,
            final(self).t_recon == old(self).t_recon,
            final(self).t_memory == old(self).t_memory,
            final(self).time_modulation_mode == old(self).time_modulation_mode,
            *final(self) == spec_loaded(*old(self), d_residuals@, dt_residuals@),
    {
        self.d_residuals = d_residuals;
        self.dt_pred_residuals_i16 = dt_residuals;
        proof {
            lemma_loaded_unique(*self, *old(self), d_residuals@, dt_residuals@);
        }
    }

    /// Forgets every pixel's last event.
    pub fn reset_memory(&mut self)
        ensures
            final(self).memory_is_reset(),
            final(self).d_residuals == old(self).d_residuals,
            final(self).dt_pred_residuals == old(self).dt_pred_residuals,
            final(self).dt_pred_residuals_i16 == old(self).dt_pred_residuals_i16,
            final(self).time_modulation_mode == old(self).time_modulation_mode,
    {
        self.t_memory = [0u32; BLOCK_SIZE_AREA];
        self.event_memory = [EventCoordless { d: 0, delta_t: 0 }; BLOCK_SIZE_AREA];
        self.t_recon = [0u32; BLOCK_SIZE_AREA];
    }

    /// Clears the residual buffers to those of a block without events.
    pub fn reset_residuals(&mut self)
        ensures
            final(self).residuals_are_reset(),
            final(self).t_memory == old(self).t_memory,
            final(self).event_memory == old(self).event_memory,
            final(self).t_recon == old(self).t_recon,
            final(self).time_modulation_mode == old(self).time_modulation_mode,
    {
        self.d_residuals = [D_ENCODE_NO_EVENT; BLOCK_SIZE_AREA];
        self.dt_pred_residuals = [0i64; BLOCK_SIZE_AREA];
        self.dt_pred_residuals_i16 = [0i16; BLOCK_SIZE_AREA];
    }
}


impl PredictionModel {
    /// The state an encoder is left in by intra coding `events`: the
    /// residual buffers hold the block, memory holds the true and the
    /// rebuilt time of every populated pixel, and no pixel has a remembered
    /// event yet.
    pub open spec fn holds_intra_block(
        &self,
        sparam: u8,
        dt_ref: DeltaT,
        events: Seq<Option<EventCoordless>>,
    ) -> bool {
        &&& forall|i: int|
            0 <= i < BLOCK_SIZE_AREA ==> #[trigger] self.d_residuals[i] == spec_intra_d_residual(
                events,
                i,
            )
        &&& forall|i: int|
            0 <= i < BLOCK_SIZE_AREA ==> #[trigger] self.dt_pred_residuals[i]
                == spec_intra_t_residual(events, i)
        &&& forall|i: int|
            0 <= i < BLOCK_SIZE_AREA ==> #[trigger] self.dt_pred_residuals_i16[i]
                == spec_intra_quantized(sparam, events, i)
        &&& forall|i: int|
            0 <= i < BLOCK_SIZE_AREA ==> #[trigger] self.t_memory[i] == (match events[i] {
                Some(e) => spec_commit_time(
                    e.delta_t as int,
                    dt_ref as int,
                    self.time_modulation_mode,
                ),
                None => 0,
            })
        &&& forall|i: int|
            0 <= i < BLOCK_SIZE_AREA ==> #[trigger] self.t_recon[i] == (match events[i] {
                Some(e) => spec_commit_time(
                    spec_intra_recon_of(sparam, events, i),
                    dt_ref as int,
                    self.time_modulation_mode,
                ),
                None => 0,
            })
        &&& forall|i: int|
            0 <= i < BLOCK_SIZE_AREA ==> #[trigger] self.event_memory[i] == (EventCoordless {
                d: 0,
                delta_t: 0,
            })
    }

    /// Intra codes the first block of a tile. Memory is cleared, the first
    /// populated pixel becomes the block's head, and every populated pixel
    /// behind it gets the residual of its event against the head; the
    /// head's own slot keeps the no-event mark. Returns the head's time and decimation and the shift that was
    /// applied to the time residuals.
    ///
    /// Fails, leaving the model cleared, exactly on the blocks that
    /// `spec_intra_valid` leaves out.
    pub fn forward_intra_prediction(
        &mut self,
        sparam: u8,
        dt_ref: DeltaT,
        dtm: DeltaT,
        events: &BlockEvents,
    ) -> (r: Result<(AbsoluteT, D, u8), CodecError>)
        ensures
            final(self).time_modulation_mode == old(self).time_modulation_mode,
            r is Ok <==> spec_intra_valid(
                old(self).time_modulation_mode,
                sparam,
                dt_ref,
                dtm,
                events@,
            ),
            r is Err ==> r == Err::<(AbsoluteT, D, u8), CodecError>(CodecError::MalformedEncoder)
                && final(self).memory_is_reset() && final(self).residuals_are_reset(),
            r matches Ok(out) ==> {
                &&& out.0 == spec_intra_start(events@).delta_t
                &&& out.1 == spec_intra_start(events@).d
                &&& out.2 == spec_intra_sparam(sparam, events@)
                &&& final(self).holds_intra_block(sparam, dt_ref, events@)
                &&& *final(self) == spec_intra_coded(
                    old(self).time_modulation_mode,
                    sparam,
                    dt_ref,
                    events@,
                )
            },
    {
        self.reset_residuals();
        self.reset_memory();
        let mode = self.time_modulation_mode;
        if sparam > SPARAM_MAX || (mode == Mode::FramePerfect && dt_ref == 0) {
            return Err(CodecError::MalformedEncoder);
        }
        let ghost resids = spec_intra_t_residuals(events@);
        let mut init = false;
        let mut start = EventCoordless { d: 0, delta_t: 0 };
        let mut max_t_resid: u64 = 0;
        let mut idx: usize = 0;
        while idx < BLOCK_SIZE_AREA
            invariant
                idx <= BLOCK_SIZE_AREA,
                mode == self.time_modulation_mode,
                mode == old(self).time_modulation_mode,
                mode == Mode::FramePerfect ==> dt_ref > 0,
                resids == spec_intra_t_residuals(events@),
                forall|j: int|
                    0 <= j < idx && (#[trigger] events@[j]) is Some ==> spec_commit_time(
                        events@[j]->0.delta_t as int,
                        dt_ref as int,
                        mode,
                    ) <= u32::MAX,
                !init ==> start == (EventCoordless { d: 0, delta_t: 0 }) && forall|j: int|
                    0 <= j < idx ==> (#[trigger] events@[j]) is None,
                init ==> start == spec_intra_start(events@) && spec_first_event_from(events@, 0)
                    < idx,
                max_t_resid == spec_max_abs(resids, idx as int),
                max_t_resid <= u32::MAX,
                forall|j: int|
                    0 <= j < idx ==> #[trigger] self.d_residuals[j] == spec_intra_d_residual(
                        events@,
                        j,
                    ),
                forall|j: int|
                    0 <= j < idx ==> #[trigger] self.dt_pred_residuals[j] == spec_intra_t_residual(
                        events@,
                        j,
                    ),
                forall|j: int|
                    0 <= j < idx ==> #[trigger] self.t_memory[j] == (match events@[j] {
                        Some(e) => spec_commit_time(e.delta_t as int, dt_ref as int, mode),
                        None => 0,
                    }),
                forall|j: int|
                    idx <= j < BLOCK_SIZE_AREA ==> #[trigger] self.d_residuals[j]
                        == D_ENCODE_NO_EVENT,
                forall|j: int|
                    idx <= j < BLOCK_SIZE_AREA ==> #[trigger] self.dt_pred_residuals[j] == 0,
                forall|j: int| idx <= j < BLOCK_SIZE_AREA ==> #[trigger] self.t_memory[j] == 0,
                forall|j: int| 0 <= j < BLOCK_SIZE_AREA ==> #[trigger] self.t_recon[j] == 0,
                forall|j: int|
                    0 <= j < BLOCK_SIZE_AREA ==> #[trigger] self.dt_pred_residuals_i16[j] == 0,
                forall|j: int|
                    0 <= j < BLOCK_SIZE_AREA ==> #[trigger] self.event_memory[j] == (
                    EventCoordless { d: 0, delta_t: 0 }),
            decreases BLOCK_SIZE_AREA - idx,
        {
            match events[idx] {
                Some(e) => {
                    if !init {
                        proof {
                            lemma_first_event_from(events@, 0, idx as int);
                        }
                        init = true;
                        start = e;
                    } else {
                        self.d_residuals[idx] = e.d as DResidual - start.d as DResidual;
                    }
                    let t_resid: DeltaTResidual = e.delta_t as DeltaTResidual
                        - start.delta_t as DeltaTResidual;
                    self.dt_pred_residuals[idx] = t_resid;
                    match commit_time(e.delta_t, dt_ref, mode) {
                        Some(t) => {
                            self.t_memory[idx] = t;
                        },
                        None => {
                            assert(events@[idx as int] is Some);
                            self.reset_residuals();
                            self.reset_memory();
                            return Err(CodecError::MalformedEncoder);
                        },
                    }
                    let a: u64 = if t_resid < 0 {
                        (-t_resid) as u64
                    } else {
                        t_resid as u64
                    };
                    if a > max_t_resid {
                        max_t_resid = a;
                    }
                },
                None => {},
            }
            idx += 1;
        }
        if max_t_resid > dtm as u64 {
            self.reset_residuals();
            self.reset_memory();
            return Err(CodecError::MalformedEncoder);
        }
        proof {
            lemma2_to64();
            lemma_pow2_strictly_increases(32, 63);
        }
        let s: u8 = choose_sparam(sparam, max_t_resid);
        let mut idx: usize = 0;
        while idx < BLOCK_SIZE_AREA
            invariant
                idx <= BLOCK_SIZE_AREA,
                mode == self.time_modulation_mode,
                mode == old(self).time_modulation_mode,
                mode == Mode::FramePerfect ==> dt_ref > 0,
                sparam <= SPARAM_MAX,
                resids == spec_intra_t_residuals(events@),
                start == spec_intra_start(events@),
                max_t_resid == spec_max_abs(resids, BLOCK_SIZE_AREA as int),
                max_t_resid <= dtm,
                s == spec_intra_sparam(sparam, events@),
                s <= SPARAM_MAX,
                forall|j: int|
                    0 <= j < BLOCK_SIZE_AREA ==> #[trigger] self.d_residuals[j]
                        == spec_intra_d_residual(events@, j),
                forall|j: int|
                    0 <= j < BLOCK_SIZE_AREA ==> #[trigger] self.dt_pred_residuals[j]
                        == spec_intra_t_residual(events@, j),
                forall|j: int|
                    0 <= j < BLOCK_SIZE_AREA ==> #[trigger] self.t_memory[j] == (match events@[j] {
                        Some(e) => spec_commit_time(e.delta_t as int, dt_ref as int, mode),
                        None => 0,
                    }),
                forall|j: int|
                    0 <= j < BLOCK_SIZE_AREA && (#[trigger] events@[j]) is Some
                        ==> spec_commit_time(events@[j]->0.delta_t as int, dt_ref as int, mode)
                        <= u32::MAX,
                forall|j: int|
                    0 <= j < idx ==> #[trigger] self.dt_pred_residuals_i16[j]
                        == spec_intra_quantized(sparam, events@, j),
                forall|j: int|
                    0 <= j < idx ==> #[trigger] self.t_recon[j] == (match events@[j] {
                        Some(e) => spec_commit_time(
                            spec_intra_recon_of(sparam, events@, j),
                            dt_ref as int,
                            mode,
                        ),
                        None => 0,
                    }),
                forall|j: int|
                    0 <= j < idx && (#[trigger] events@[j]) is Some ==> 0 <= spec_intra_recon_of(
                        sparam,
                        events@,
                        j,
                    ) && spec_commit_time(
                        spec_intra_recon_of(sparam, events@, j),
                        dt_ref as int,
                        mode,
                    ) <= u32::MAX,
                forall|j: int| idx <= j < BLOCK_SIZE_AREA ==> #[trigger] self.t_recon[j] == 0,
                forall|j: int|
                    0 <= j < BLOCK_SIZE_AREA ==> #[trigger] self.event_memory[j] == (
                    EventCoordless { d: 0, delta_t: 0 }),
            decreases BLOCK_SIZE_AREA - idx,
        {
            let t_resid: DeltaTResidual = self.dt_pred_residuals[idx];
            proof {
                lemma2_to64();
                lemma_pow2_strictly_increases(32, 63);
                lemma_max_abs_bounds(resids, BLOCK_SIZE_AREA as int, idx as int);
                lemma_chosen_sparam_fits(sparam, max_t_resid as nat, t_resid as int);
                lemma_floor_div_pow2(t_resid as int, s as nat);
                lemma_pow2_pos(s as nat);
            }
            let q: i64 = floor_div_pow2(t_resid, s as u32);
            let q16: i16 = q as i16;
            self.dt_pred_residuals_i16[idx] = q16;
            match events[idx] {
                Some(e) => {
                    let deq: i64 = mul_pow2(q16, s as u32);
                    let recon: i64 = start.delta_t as i64 + deq;
                    assert(recon == spec_intra_recon_of(sparam, events@, idx as int));
                    assert(recon <= e.delta_t);
                    assert(events@[idx as int] is Some);
                    if recon < 0 {
                        self.reset_residuals();
                        self.reset_memory();
                        return Err(CodecError::MalformedEncoder);
                    }
                    match commit_time(recon as u32, dt_ref, mode) {
                        Some(t) => {
                            self.t_recon[idx] = t;
                        },
                        None => {
                            self.reset_residuals();
                            self.reset_memory();
                            return Err(CodecError::MalformedEncoder);
                        },
                    }
                },
                None => {},
            }
            idx += 1;
        }
        proof {
            lemma_intra_coded_unique(*self, sparam, dt_ref, events@);
        }
        Ok((start.delta_t, start.d, s))
    }
}


/// The residuals a decoder can invert as an intra block: the shift is in
/// range, the frame interval is positive where times are aligned to it,
/// and every populated pixel rebuilds to an 8-bit decimation and a 32-bit
/// time.
pub open spec fn spec_inverse_intra_valid(
    mode: Mode,
    head_t: AbsoluteT,
    head_d: D,
    d_residuals: Seq<DResidual>,
    dt_residuals: Seq<i16>,
    sparam: u8,
    dt_ref: DeltaT,
) -> bool {
    &&& sparam <= SPARAM_MAX
    &&& mode == Mode::FramePerfect ==> dt_ref > 0
    &&& forall|i: int|
        0 <= i < BLOCK_SIZE_AREA && (#[trigger] d_residuals[i]) != D_ENCODE_NO_EVENT ==> {
            &&& 0 <= head_d + d_residuals[i] <= 255
            &&& 0 <= spec_intra_recon_t(head_t, dt_residuals[i] as int, sparam) <= u32::MAX
            &&& spec_commit_time(
                spec_intra_recon_t(head_t, dt_residuals[i] as int, sparam),
                dt_ref as int,
                mode,
            ) <= u32::MAX
        }
}

/// The event a decoder rebuilds for one pixel of an intra block.
pub open spec fn spec_inverse_intra_event(
    head_t: AbsoluteT,
    head_d: D,
    d_resid: DResidual,
    dt_resid: i16,
    sparam: u8,
) -> Option<EventCoordless> {
    if d_resid == D_ENCODE_NO_EVENT {
        None
    } else {
        Some(
            EventCoordless {
                d: (head_d + d_resid) as u8,
                delta_t: spec_intra_recon_t(head_t, dt_resid as int, sparam) as u32,
            },
        )
    }
}

impl PredictionModel {
    /// Inverts the intra block held in the residual buffers, given its head
    /// and shift: every pixel whose decimation residual is not the
    /// no-event mark yields the event that the residuals rebuild. Memory is
    /// cleared, then keeps the rebuilt time of every populated pixel.
    ///
    /// Fails, leaving memory cleared, exactly on the residuals that
    /// `spec_inverse_intra_valid` leaves out.
    pub fn inverse_intra_prediction(
        &mut self,
        head_t: AbsoluteT,
        head_d: D,
        sparam: u8,
        dt_ref: DeltaT,
    ) -> (r: Result<BlockEvents, CodecError>)
        ensures
            final(self).time_modulation_mode == old(self).time_modulation_mode,
            final(self).d_residuals == old(self).d_residuals,
            final(self).dt_pred_residuals == old(self).dt_pred_residuals,
            final(self).dt_pred_residuals_i16 == old(self).dt_pred_residuals_i16,
            r is Ok <==> spec_inverse_intra_valid(
                old(self).time_modulation_mode,
                head_t,
                head_d,
                old(self).d_residuals@,
                old(self).dt_pred_residuals_i16@,
                sparam,
                dt_ref,
            ),
            r is Err ==> r == Err::<BlockEvents, CodecError>(CodecError::Deserialize) && final(self).memory_is_reset(),
            r matches Ok(events) ==> {
                &&& forall|i: int|
                    0 <= i < BLOCK_SIZE_AREA ==> #[trigger] events[i] == spec_inverse_intra_event(
                        head_t,
                        head_d,
                        old(self).d_residuals[i],
                        old(self).dt_pred_residuals_i16[i],
                        sparam,
                    )
                &&& forall|i: int|
                    0 <= i < BLOCK_SIZE_AREA ==> #[trigger] final(self).t_recon[i] == (match events[i] {
                        Some(e) => spec_commit_time(
                            e.delta_t as int,
                            dt_ref as int,
                            old(self).time_modulation_mode,
                        ),
                        None => 0,
                    })
                &&& forall|i: int|
                    0 <= i < BLOCK_SIZE_AREA ==> #[trigger] final(self).t_memory[i] == final(self).t_recon[i]
                &&& forall|i: int|
                    0 <= i < BLOCK_SIZE_AREA ==> #[trigger] final(self).event_memory[i] == (
                    EventCoordless { d: 0, delta_t: 0 })
                &&& *final(self) == spec_intra_decoded(*old(self), head_t, head_d, sparam, dt_ref)
                &&& old(self).time_modulation_mode == Mode::FramePerfect ==> forall|i: int|
                    0 <= i < BLOCK_SIZE_AREA ==> (#[trigger] final(self).t_recon[i]) as int
                        % dt_ref as int == 0
            },
    {
        self.reset_memory();
        let mode = self.time_modulation_mode;
        let mut events: BlockEvents = [None; BLOCK_SIZE_AREA];
        if sparam > SPARAM_MAX || (mode == Mode::FramePerfect && dt_ref == 0) {
            return Err(CodecError::Deserialize);
        }
        let mut idx: usize = 0;
        while idx < BLOCK_SIZE_AREA
            invariant
                idx <= BLOCK_SIZE_AREA,
                sparam <= SPARAM_MAX,
                mode == self.time_modulation_mode,
                mode == old(self).time_modulation_mode,
                mode == Mode::FramePerfect ==> dt_ref > 0,
                self.d_residuals == old(self).d_residuals,
                self.dt_pred_residuals == old(self).dt_pred_residuals,
                self.dt_pred_residuals_i16 == old(self).dt_pred_residuals_i16,
                forall|j: int|
                    0 <= j < idx && (#[trigger] self.d_residuals@[j]) != D_ENCODE_NO_EVENT ==> {
                        &&& 0 <= head_d + self.d_residuals@[j] <= 255
                        &&& 0 <= spec_intra_recon_t(
                            head_t,
                            self.dt_pred_residuals_i16@[j] as int,
                            sparam,
                        ) <= u32::MAX
                        &&& spec_commit_time(
                            spec_intra_recon_t(
                                head_t,
                                self.dt_pred_residuals_i16@[j] as int,
                                sparam,
                            ),
                            dt_ref as int,
                            mode,
                        ) <= u32::MAX
                    },
                forall|j: int|
                    0 <= j < idx ==> #[trigger] events[j] == spec_inverse_intra_event(
                        head_t,
                        head_d,
                        self.d_residuals[j],
                        self.dt_pred_residuals_i16[j],
                        sparam,
                    ),
                forall|j: int|
                    0 <= j < idx ==> #[trigger] self.t_recon[j] == (match events[j] {
                        Some(e) => spec_commit_time(e.delta_t as int, dt_ref as int, mode),
                        None => 0,
                    }),
                forall|j: int| 0 <= j < idx ==> #[trigger] self.t_memory[j] == self.t_recon[j],
                forall|j: int| idx <= j < BLOCK_SIZE_AREA ==> (#[trigger] events[j]) is None,
                forall|j: int| idx <= j < BLOCK_SIZE_AREA ==> #[trigger] self.t_recon[j] == 0,
                forall|j: int| idx <= j < BLOCK_SIZE_AREA ==> #[trigger] self.t_memory[j] == 0,
                forall|j: int|
                    0 <= j < BLOCK_SIZE_AREA ==> #[trigger] self.event_memory[j] == (
                    EventCoordless { d: 0, delta_t: 0 }),
            decreases BLOCK_SIZE_AREA - idx,
        {
            let d_resid: DResidual = self.d_residuals[idx];
            if d_resid != D_ENCODE_NO_EVENT {
                assert(self.d_residuals@[idx as int] != D_ENCODE_NO_EVENT);
                let d: i32 = head_d as i32 + d_resid as i32;
                let deq: i64 = mul_pow2(self.dt_pred_residuals_i16[idx], sparam as u32);
                let recon: i128 = head_t as i128 + deq as i128;
                if d < 0 || d > 255 || recon < 0 || recon > u32::MAX as i128 {
                    self.reset_memory();
                    return Err(CodecError::Deserialize);
                }
                match commit_time(recon as u32, dt_ref, mode) {
                    Some(t) => {
                        self.t_recon[idx] = t;
                        self.t_memory[idx] = t;
                    },
                    None => {
                        self.reset_memory();
                        return Err(CodecError::Deserialize);
                    },
                }
                events[idx] = Some(EventCoordless { d: d as u8, delta_t: recon as u32 });
            }
            idx += 1;
        }
        proof {
            assert(self.holds_inverted_intra(old(self), head_t, head_d, sparam, dt_ref));
            lemma_intra_decoded_unique(*self, *old(self), head_t, head_d, sparam, dt_ref);
            if mode == Mode::FramePerfect {
                assert forall|i: int| 0 <= i < BLOCK_SIZE_AREA implies (#[trigger] self.t_recon[i]) as int
                    % dt_ref as int == 0 by {
                    assert(dt_ref > 0);
                    assert(self.t_recon[i] == (match events[i] {
                        Some(e) => spec_commit_time(e.delta_t as int, dt_ref as int, mode),
                        None => 0,
                    }));
                    match events[i] {
                        Some(e) => {
                            lemma_round_up(e.delta_t as int, dt_ref as int);
                        },
                        None => {
                            assert(0int % (dt_ref as int) == 0);
                        },
                    }
                }
            }
        }
        Ok(events)
    }
}

/// What is written for an intra block, a decoder inverts: it accepts the
/// residuals, finds an event at exactly the pixels that had one, with
/// the decimation that went in and a time that is at most the shift's
/// granularity below the true one, and its rebuilt times are those that the
/// encoder kept.
pub proof fn lemma_intra_round_trip(
    enc: PredictionModel,
    sparam: u8,
    dt_ref: DeltaT,
    dtm: DeltaT,
    events: Seq<Option<EventCoordless>>,
    i: int,
)
    requires
        events.len() == BLOCK_SIZE_AREA,
        spec_intra_valid(enc.time_modulation_mode, sparam, dt_ref, dtm, events),
        enc.holds_intra_block(sparam, dt_ref, events),
        0 <= i < BLOCK_SIZE_AREA,
    ensures
        spec_inverse_intra_valid(
            enc.time_modulation_mode,
            spec_intra_start(events).delta_t,
            spec_intra_start(events).d,
            spec_intra_written(events),
            enc.dt_pred_residuals_i16@,
            spec_intra_sparam(sparam, events),
            dt_ref,
        ),
        events[i] is None ==> spec_inverse_intra_event(
            spec_intra_start(events).delta_t,
            spec_intra_start(events).d,
            spec_intra_written(events)[i],
            enc.dt_pred_residuals_i16[i],
            spec_intra_sparam(sparam, events),
        ) is None,
        events[i] matches Some(e) ==> {
            let decoded = spec_inverse_intra_event(
                spec_intra_start(events).delta_t,
                spec_intra_start(events).d,
                spec_intra_written(events)[i],
                enc.dt_pred_residuals_i16[i],
                spec_intra_sparam(sparam, events),
            );
            &&& decoded is Some
            &&& decoded->0.d == e.d
            &&& e.delta_t - pow2(spec_intra_sparam(sparam, events) as nat) < decoded->0.delta_t
                <= e.delta_t
            &&& enc.t_recon[i] == spec_commit_time(
                decoded->0.delta_t as int,
                dt_ref as int,
                enc.time_modulation_mode,
            )
        },
{
    let s = spec_intra_sparam(sparam, events);
    let start = spec_intra_start(events);
    let resids = spec_intra_t_residuals(events);
    lemma2_to64();
    lemma_pow2_strictly_increases(32, 63);
    lemma_chosen_sparam_fits(sparam, spec_max_abs(resids, BLOCK_SIZE_AREA as int), 0);
    assert forall|j: int|
        0 <= j < BLOCK_SIZE_AREA && (#[trigger] spec_intra_written(events)[j])
            != D_ENCODE_NO_EVENT implies {
        &&& 0 <= start.d + spec_intra_written(events)[j] <= 255
        &&& 0 <= spec_intra_recon_t(start.delta_t, enc.dt_pred_residuals_i16@[j] as int, s)
            <= u32::MAX
        &&& spec_commit_time(
            spec_intra_recon_t(start.delta_t, enc.dt_pred_residuals_i16@[j] as int, s),
            dt_ref as int,
            enc.time_modulation_mode,
        ) <= u32::MAX
    } by {
        assert(spec_intra_written(events)[j] == spec_intra_d_written(events, j));
        assert(enc.dt_pred_residuals_i16[j] == spec_intra_quantized(sparam, events, j));
        assert(events[j] is Some);
        lemma_floor_div_pow2(spec_intra_t_residual(events, j), s as nat);
    }
    assert(spec_intra_written(events)[i] == spec_intra_d_written(events, i));
    assert(enc.dt_pred_residuals_i16[i] == spec_intra_quantized(sparam, events, i));
    lemma_floor_div_pow2(spec_intra_t_residual(events, i), s as nat);
}


/// The tick count both sides rebuild for a pixel's event: the predicted
/// count plus the 16-bit residual shifted back up.
pub open spec fn spec_recon_delta_t(
    mem_delta_t: DeltaT,
    d_resid: int,
    dt_resid: int,
    sparam: u8,
    dtm: DeltaT,
) -> int {
    spec_predict_delta_t(mem_delta_t, d_resid, dtm) + dt_resid * pow2(sparam as nat)
}

/// The residuals from which a pixel's memory can be rebuilt: the rebuilt
/// tick count lies in `0..=dtm`, and the rebuilt time and what memory keeps
/// of it are 32-bit times.
pub open spec fn spec_recon_pixel_valid(
    mode: Mode,
    mem_delta_t: DeltaT,
    t_recon: AbsoluteT,
    d_resid: int,
    dt_resid: int,
    sparam: u8,
    dtm: DeltaT,
    dt_ref: DeltaT,
) -> bool {
    let dt = spec_recon_delta_t(mem_delta_t, d_resid, dt_resid, sparam, dtm);
    &&& 0 <= dt <= dtm
    &&& t_recon + dt <= u32::MAX
    &&& spec_commit_time(t_recon + dt, dt_ref as int, mode) <= u32::MAX
}

/// Rebuilds one pixel's tick count, time, and the time memory keeps of it,
/// or `None` where `spec_recon_pixel_valid` does not hold.
fn recon_pixel(
    mode: Mode,
    mem: &EventCoordless,
    t_recon: AbsoluteT,
    d_resid: DResidual,
    dt_resid: i16,
    sparam: u8,
    dtm: DeltaT,
    dt_ref: DeltaT,
) -> (r: Option<(DeltaT, DeltaTResidual, AbsoluteT)>)
    requires
        sparam <= SPARAM_MAX,
        mode == Mode::FramePerfect ==> dt_ref > 0,
    ensures
        r is Some <==> spec_recon_pixel_valid(
            mode,
            mem.delta_t,
            t_recon,
            d_resid as int,
            dt_resid as int,
            sparam,
            dtm,
            dt_ref,
        ),
        r matches Some(out) ==> {
            &&& out.0 == spec_predict_delta_t(mem.delta_t, d_resid as int, dtm)
            &&& out.1 == dt_resid * pow2(sparam as nat)
            &&& out.2 == spec_commit_time(
                t_recon + spec_recon_delta_t(
                    mem.delta_t,
                    d_resid as int,
                    dt_resid as int,
                    sparam,
                    dtm,
                ),
                dt_ref as int,
                mode,
            )
        },
{
    let dt_pred: DeltaT = predict_delta_t(mem, d_resid, dtm);
    let deq: DeltaTResidual = mul_pow2(dt_resid, sparam as u32);
    let dt: i128 = dt_pred as i128 + deq as i128;
    if dt < 0 || dt > dtm as i128 {
        return None;
    }
    let recon_t: i128 = t_recon as i128 + dt;
    if recon_t > u32::MAX as i128 {
        return None;
    }
    match commit_time(recon_t as u32, dt_ref, mode) {
        Some(t) => Some((dt_pred, deq, t)),
        None => None,
    }
}

/// Moves a pixel's memory on by one rebuilt event: its tick count becomes
/// the prediction plus the residual, and its time advances by that count.
pub fn update_values_from_prediction(
    event_memory: &mut EventCoordless,
    t_recon: &mut AbsoluteT,
    dt_pred: DeltaT,
    dt_pred_residual: DeltaTResidual,
    dtm: DeltaT,
)
    requires
        0 <= dt_pred + dt_pred_residual <= dtm,
        *old(t_recon) + dt_pred + dt_pred_residual <= u32::MAX,
    ensures
        final(event_memory).delta_t == dt_pred + dt_pred_residual,
        final(event_memory).d == old(event_memory).d,
        *final(t_recon) == *old(t_recon) + dt_pred + dt_pred_residual,
{
    let recon_t: i128 = *t_recon as i128 + dt_pred as i128 + dt_pred_residual as i128;
    let recon_t: AbsoluteT = recon_t as AbsoluteT;
    event_memory.delta_t = recon_t - *t_recon;
    *t_recon = recon_t;
}

impl PredictionModel {
    /// The residual buffers can be folded back into memory: the shift is in
    /// range, the frame interval is positive where times are aligned to it,
    /// and every populated pixel satisfies `spec_recon_pixel_valid`.
    pub open spec fn reconstruct_valid(&self, sparam: u8, dtm: DeltaT, dt_ref: DeltaT) -> bool {
        &&& sparam <= SPARAM_MAX
        &&& self.time_modulation_mode == Mode::FramePerfect ==> dt_ref > 0
        &&& forall|i: int|
            0 <= i < BLOCK_SIZE_AREA && (#[trigger] self.d_residuals[i]) != D_ENCODE_NO_EVENT
                ==> spec_recon_pixel_valid(
                self.time_modulation_mode,
                self.event_memory[i].delta_t,
                self.t_recon[i],
                self.d_residuals[i] as int,
                self.dt_pred_residuals_i16[i] as int,
                sparam,
                dtm,
                dt_ref,
            )
    }

    /// The tick count rebuilt for pixel `i` from the residual buffers.
    pub open spec fn recon_delta_t(&self, sparam: u8, dtm: DeltaT, i: int) -> int {
        spec_recon_delta_t(
            self.event_memory[i].delta_t,
            self.d_residuals[i] as int,
            self.dt_pred_residuals_i16[i] as int,
            sparam,
            dtm,
        )
    }

    /// `self` is `prev` after the residual buffers were folded into the
    /// reconstructed times: every populated pixel remembers its rebuilt
    /// tick count and has moved on by it, every other pixel is untouched.
    pub open spec fn is_reconstruction_of(
        &self,
        prev: &PredictionModel,
        sparam: u8,
        dtm: DeltaT,
        dt_ref: DeltaT,
    ) -> bool {
        &&& self.time_modulation_mode == prev.time_modulation_mode
        &&& self.d_residuals == prev.d_residuals
        &&& self.dt_pred_residuals == prev.dt_pred_residuals
        &&& self.dt_pred_residuals_i16 == prev.dt_pred_residuals_i16
        &&& self.t_memory == prev.t_memory
        &&& forall|i: int|
            0 <= i < BLOCK_SIZE_AREA ==> #[trigger] self.event_memory[i] == (if prev.d_residuals[i]
                != D_ENCODE_NO_EVENT {
                EventCoordless {
                    d: prev.event_memory[i].d,
                    delta_t: prev.recon_delta_t(sparam, dtm, i) as u32,
                }
            } else {
                prev.event_memory[i]
            })
        &&& forall|i: int|
            0 <= i < BLOCK_SIZE_AREA ==> #[trigger] self.t_recon[i] == (if prev.d_residuals[i]
                != D_ENCODE_NO_EVENT {
                spec_commit_time(
                    prev.t_recon[i] + prev.recon_delta_t(sparam, dtm, i),
                    dt_ref as int,
                    prev.time_modulation_mode,
                )
            } else {
                prev.t_recon[i] as int
            })
    }

    /// Folds the residual buffers back into the reconstructed memory, the
    /// way a decoder will, so that the next block is predicted from the
    /// state the decoder will be in.
    ///
    /// Fails, leaving the model as it was, exactly where
    /// `reconstruct_valid` does not hold.
    pub fn reconstruct_t_values(&mut self, sparam: u8, dtm: DeltaT, dt_ref: DeltaT) -> (r: Result<
        (),
        CodecError,
    >)
        ensures
            r is Ok <==> old(self).reconstruct_valid(sparam, dtm, dt_ref),
            r is Ok ==> final(self).is_reconstruction_of(old(self), sparam, dtm, dt_ref),
            r is Err ==> r == Err::<(), CodecError>(CodecError::MalformedEncoder) && *final(self)
                == *old(self),
    {
        let mode = self.time_modulation_mode;
        if sparam > SPARAM_MAX || (mode == Mode::FramePerfect && dt_ref == 0) {
            return Err(CodecError::MalformedEncoder);
        }
        let saved_event_memory = self.event_memory;
        let saved_t_recon = self.t_recon;
        let mut idx: usize = 0;
        while idx < BLOCK_SIZE_AREA
            invariant
                idx <= BLOCK_SIZE_AREA,
                sparam <= SPARAM_MAX,
                mode == old(self).time_modulation_mode,
                mode == Mode::FramePerfect ==> dt_ref > 0,
                saved_event_memory == old(self).event_memory,
                saved_t_recon == old(self).t_recon,
                self.time_modulation_mode == old(self).time_modulation_mode,
                self.d_residuals == old(self).d_residuals,
                self.dt_pred_residuals == old(self).dt_pred_residuals,
                self.dt_pred_residuals_i16 == old(self).dt_pred_residuals_i16,
                self.t_memory == old(self).t_memory,
                forall|j: int|
                    0 <= j < idx && (#[trigger] old(self).d_residuals[j]) != D_ENCODE_NO_EVENT
                        ==> spec_recon_pixel_valid(
                        mode,
                        old(self).event_memory[j].delta_t,
                        old(self).t_recon[j],
                        old(self).d_residuals[j] as int,
                        old(self).dt_pred_residuals_i16[j] as int,
                        sparam,
                        dtm,
                        dt_ref,
                    ),
                forall|j: int|
                    0 <= j < idx ==> #[trigger] self.event_memory[j] == (if old(self).d_residuals[j]
                        != D_ENCODE_NO_EVENT {
                        EventCoordless {
                            d: old(self).event_memory[j].d,
                            delta_t: old(self).recon_delta_t(sparam, dtm, j) as u32,
                        }
                    } else {
                        old(self).event_memory[j]
                    }),
                forall|j: int|
                    0 <= j < idx ==> #[trigger] self.t_recon[j] == (if old(self).d_residuals[j]
                        != D_ENCODE_NO_EVENT {
                        spec_commit_time(
                            old(self).t_recon[j] + old(self).recon_delta_t(sparam, dtm, j),
                            dt_ref as int,
                            mode,
                        )
                    } else {
                        old(self).t_recon[j] as int
                    }),
                forall|j: int|
                    idx <= j < BLOCK_SIZE_AREA ==> #[trigger] self.event_memory[j] == old(self).event_memory[j],
                forall|j: int|
                    idx <= j < BLOCK_SIZE_AREA ==> #[trigger] self.t_recon[j] == old(self).t_recon[j],
            decreases BLOCK_SIZE_AREA - idx,
        {
            let d_resid: DResidual = self.d_residuals[idx];
            if d_resid != D_ENCODE_NO_EVENT {
                let mem: EventCoordless = self.event_memory[idx];
                let tr: AbsoluteT = self.t_recon[idx];
                match recon_pixel(
                    mode,
                    &mem,
                    tr,
                    d_resid,
                    self.dt_pred_residuals_i16[idx],
                    sparam,
                    dtm,
                    dt_ref,
                ) {
                    Some((dt_pred, dt_pred_residual, committed)) => {
                        let mut em: EventCoordless = mem;
                        let mut t: AbsoluteT = tr;
                        update_values_from_prediction(
                            &mut em,
                            &mut t,
                            dt_pred,
                            dt_pred_residual,
                            dtm,
                        );
                        self.event_memory[idx] = em;
                        self.t_recon[idx] = committed;
                    },
                    None => {
                        assert(old(self).d_residuals[idx as int] != D_ENCODE_NO_EVENT);
                        self.event_memory = saved_event_memory;
                        self.t_recon = saved_t_recon;
                        return Err(CodecError::MalformedEncoder);
                    },
                }
            }
            idx += 1;
        }
        Ok(())
    }
}


/// The decimation residual an inter block holds for a pixel whose memory is
/// `mem`.
pub open spec fn spec_inter_d_residual(mem: EventCoordless, event: Option<EventCoordless>) -> int {
    match event {
        Some(e) => e.d - mem.d,
        None => D_ENCODE_NO_EVENT as int,
    }
}

/// The time residual an inter block holds for a pixel, before the shift:
/// the true ticks since the pixel's last event minus the predicted ones.
pub open spec fn spec_inter_t_residual(
    mem: EventCoordless,
    t_memory: AbsoluteT,
    event: Option<EventCoordless>,
    dtm: DeltaT,
) -> int {
    match event {
        Some(e) => (e.delta_t - t_memory) - spec_predict_delta_t(mem.delta_t, e.d - mem.d, dtm),
        None => 0,
    }
}

impl PredictionModel {
    /// All time residuals of the inter block coded from `events` against
    /// this memory, before the shift.
    pub open spec fn inter_t_residuals(
        &self,
        events: Seq<Option<EventCoordless>>,
        dtm: DeltaT,
    ) -> Seq<int> {
        Seq::new(
            BLOCK_SIZE_AREA as nat,
            |i: int|
                spec_inter_t_residual(self.event_memory[i], self.t_memory[i], events[i], dtm),
        )
    }

    /// The shift the inter block coded from `events` settles on.
    pub open spec fn inter_sparam(
        &self,
        sparam: u8,
        events: Seq<Option<EventCoordless>>,
        dtm: DeltaT,
    ) -> u8 {
        spec_choose_sparam(
            sparam,
            spec_max_abs(self.inter_t_residuals(events, dtm), BLOCK_SIZE_AREA as int),
        )
    }

    /// The 16-bit time residual the inter block writes for pixel `i`.
    pub open spec fn inter_quantized(
        &self,
        sparam: u8,
        events: Seq<Option<EventCoordless>>,
        dtm: DeltaT,
        i: int,
    ) -> int {
        spec_floor_div_pow2(
            self.inter_t_residuals(events, dtm)[i],
            self.inter_sparam(sparam, events, dtm) as nat,
        )
    }

    /// The tick count a decoder will rebuild for pixel `i` of the inter
    /// block coded from `events`.
    pub open spec fn inter_recon_delta_t(
        &self,
        sparam: u8,
        events: Seq<Option<EventCoordless>>,
        dtm: DeltaT,
        i: int,
    ) -> int {
        spec_recon_delta_t(
            self.event_memory[i].delta_t,
            spec_inter_d_residual(self.event_memory[i], events[i]),
            self.inter_quantized(sparam, events, dtm, i),
            self.inter_sparam(sparam, events, dtm),
            dtm,
        )
    }

    /// The blocks that can be inter coded against this memory: the offered
    /// shift is in range, the frame interval is positive where times are
    /// aligned to it, every event is at most `dtm` ticks after its pixel's
    /// last one and not before it, no residual exceeds `dtm`, and every
    /// pixel can be rebuilt from what is written for it.
    pub open spec fn inter_valid(
        &self,
        sparam: u8,
        dtm: DeltaT,
        dt_ref: DeltaT,
        events: Seq<Option<EventCoordless>>,
    ) -> bool {
        &&& sparam <= SPARAM_MAX
        &&& self.time_modulation_mode == Mode::FramePerfect ==> dt_ref > 0
        &&& forall|i: int|
            0 <= i < BLOCK_SIZE_AREA && (#[trigger] events[i]) is Some ==> {
                &&& self.t_memory[i] <= events[i]->0.delta_t
                &&& events[i]->0.delta_t - self.t_memory[i] <= dtm
                &&& spec_commit_time(
                    events[i]->0.delta_t as int,
                    dt_ref as int,
                    self.time_modulation_mode,
                ) <= u32::MAX
            }
        &&& spec_max_abs(self.inter_t_residuals(events, dtm), BLOCK_SIZE_AREA as int) <= dtm
        &&& forall|i: int|
            0 <= i < BLOCK_SIZE_AREA && (#[trigger] events[i]) is Some ==> spec_recon_pixel_valid(
                self.time_modulation_mode,
                self.event_memory[i].delta_t,
                self.t_recon[i],
                spec_inter_d_residual(self.event_memory[i], events[i]),
                self.inter_quantized(sparam, events, dtm, i),
                self.inter_sparam(sparam, events, dtm),
                dtm,
                dt_ref,
            )
    }

    /// `self` is `prev` after `events` were inter coded against it: the
    /// residual buffers hold the block, and every populated pixel remembers
    /// the decimation of its event, the tick count and time that a decoder
    /// rebuilds for it, and its true time.
    pub open spec fn holds_inter_block(
        &self,
        prev: &PredictionModel,
        sparam: u8,
        dtm: DeltaT,
        dt_ref: DeltaT,
        events: Seq<Option<EventCoordless>>,
    ) -> bool {
        &&& self.time_modulation_mode == prev.time_modulation_mode
        &&& forall|i: int|
            0 <= i < BLOCK_SIZE_AREA ==> #[trigger] self.d_residuals[i] == spec_inter_d_residual(
                prev.event_memory[i],
                events[i],
            )
        &&& forall|i: int|
            0 <= i < BLOCK_SIZE_AREA ==> #[trigger] self.dt_pred_residuals[i]
                == prev.inter_t_residuals(events, dtm)[i]
        &&& forall|i: int|
            0 <= i < BLOCK_SIZE_AREA ==> #[trigger] self.dt_pred_residuals_i16[i]
                == prev.inter_quantized(sparam, events, dtm, i)
        &&& forall|i: int|
            0 <= i < BLOCK_SIZE_AREA ==> #[trigger] self.t_memory[i] == (match events[i] {
                Some(e) => spec_commit_time(
                    e.delta_t as int,
                    dt_ref as int,
                    prev.time_modulation_mode,
                ),
                None => prev.t_memory[i] as int,
            })
        &&& forall|i: int|
            0 <= i < BLOCK_SIZE_AREA ==> #[trigger] self.event_memory[i] == (match events[i] {
                Some(e) => EventCoordless {
                    d: e.d,
                    delta_t: prev.inter_recon_delta_t(sparam, events, dtm, i) as u32,
                },
                None => prev.event_memory[i],
            })
        &&& forall|i: int|
            0 <= i < BLOCK_SIZE_AREA ==> #[trigger] self.t_recon[i] == (match events[i] {
                Some(e) => spec_commit_time(
                    prev.t_recon[i] + prev.inter_recon_delta_t(sparam, events, dtm, i),
                    dt_ref as int,
                    prev.time_modulation_mode,
                ),
                None => prev.t_recon[i] as int,
            })
    }

    /// Puts `event_memory`, `t_memory` and `t_recon` back and clears the
    /// residual buffers.
    fn restore_memory(
        &mut self,
        event_memory: [EventCoordless; BLOCK_SIZE_AREA],
        t_memory: [AbsoluteT; BLOCK_SIZE_AREA],
        t_recon: [AbsoluteT; BLOCK_SIZE_AREA],
    )
        ensures
            final(self).event_memory == event_memory,
            final(self).t_memory == t_memory,
            final(self).t_recon == t_recon,
            final(self).time_modulation_mode == old(self).time_modulation_mode,
            final(self).residuals_are_reset(),
    {
        self.event_memory = event_memory;
        self.t_memory = t_memory;
        self.t_recon = t_recon;
        self.reset_residuals();
    }

    /// No event of the block comes more than `dtm` ticks after the last
    /// one of its pixel.
    pub open spec fn within_tick_bound(&self, events: Seq<Option<EventCoordless>>, dtm: DeltaT) -> bool {
        forall|i: int|
            0 <= i < BLOCK_SIZE_AREA && (#[trigger] events[i]) is Some ==> events[i]->0.delta_t
                - self.t_memory[i] <= dtm
    }

    /// Whether no event of the block comes more than `dtm` ticks after the
    /// last one of its pixel.
    pub fn fits_tick_bound(&self, events: &BlockEvents, dtm: DeltaT) -> (r: bool)
        ensures
            r == self.within_tick_bound(events@, dtm),
    {
        let mut idx: usize = 0;
        while idx < BLOCK_SIZE_AREA
            invariant
                idx <= BLOCK_SIZE_AREA,
                forall|i: int|
                    0 <= i < idx && (#[trigger] events@[i]) is Some ==> events@[i]->0.delta_t
                        - self.t_memory[i] <= dtm,
            decreases BLOCK_SIZE_AREA - idx,
        {
            match events[idx] {
                Some(e) => {
                    if e.delta_t as i64 - self.t_memory[idx] as i64 > dtm as i64 {
                        assert(events@[idx as int] is Some);
                        return false;
                    }
                },
                None => {},
            }
            idx += 1;
        }
        true
    }

    /// Inter codes a later block of a tile against the memory that the
    /// blocks before it left. An event more than `dtm` ticks after the last
    /// one of its pixel is an error of the caller: such blocks are not
    /// taken. Every populated pixel gets the change of its
    /// decimation and the residual of its true tick count against the
    /// predicted one; memory then moves on to the state a decoder reaches
    /// from the same residuals. Returns the shift that was applied to the
    /// time residuals.
    ///
    /// Fails, with memory as it was and the residual buffers cleared,
    /// exactly on the blocks that `inter_valid` leaves out.
    pub fn forward_inter_prediction(
        &mut self,
        sparam: u8,
        dtm: DeltaT,
        dt_ref: DeltaT,
        events: &BlockEvents,
    ) -> (r: Result<u8, CodecError>)
        requires
            old(self).within_tick_bound(events@, dtm),
        ensures
            final(self).time_modulation_mode == old(self).time_modulation_mode,
            r is Ok <==> old(self).inter_valid(sparam, dtm, dt_ref, events@),
            r is Err ==> {
                &&& r == Err::<u8, CodecError>(CodecError::MalformedEncoder)
                &&& final(self).event_memory == old(self).event_memory
                &&& final(self).t_memory == old(self).t_memory
                &&& final(self).t_recon == old(self).t_recon
                &&& final(self).residuals_are_reset()
            },
            r matches Ok(s) ==> {
                &&& s == old(self).inter_sparam(sparam, events@, dtm)
                &&& final(self).holds_inter_block(old(self), sparam, dtm, dt_ref, events@)
                &&& *final(self) == spec_inter_coded(*old(self), sparam, dtm, dt_ref, events@)
            },
    {
        self.reset_residuals();
        let mode = self.time_modulation_mode;
        if sparam > SPARAM_MAX || (mode == Mode::FramePerfect && dt_ref == 0) {
            return Err(CodecError::MalformedEncoder);
        }
        let saved_event_memory = self.event_memory;
        let saved_t_memory = self.t_memory;
        let saved_t_recon = self.t_recon;
        let ghost resids = old(self).inter_t_residuals(events@, dtm);
        let mut max_t_resid: u64 = 0;
        let mut idx: usize = 0;
        while idx < BLOCK_SIZE_AREA
            invariant
                idx <= BLOCK_SIZE_AREA,
                mode == self.time_modulation_mode,
                mode == old(self).time_modulation_mode,
                mode == Mode::FramePerfect ==> dt_ref > 0,
                saved_event_memory == old(self).event_memory,
                saved_t_memory == old(self).t_memory,
                saved_t_recon == old(self).t_recon,
                self.t_recon == old(self).t_recon,
                resids == old(self).inter_t_residuals(events@, dtm),
                max_t_resid == spec_max_abs(resids, idx as int),
                max_t_resid <= 2 * u32::MAX,
                forall|j: int|
                    0 <= j < idx && (#[trigger] events@[j]) is Some ==> {
                        &&& old(self).t_memory[j] <= events@[j]->0.delta_t
                        &&& events@[j]->0.delta_t - old(self).t_memory[j] <= dtm
                        &&& spec_commit_time(events@[j]->0.delta_t as int, dt_ref as int, mode)
                            <= u32::MAX
                    },
                forall|j: int|
                    0 <= j < idx ==> #[trigger] self.d_residuals[j] == spec_inter_d_residual(
                        old(self).event_memory[j],
                        events@[j],
                    ),
                forall|j: int| 0 <= j < idx ==> #[trigger] self.dt_pred_residuals[j] == resids[j],
                forall|j: int|
                    0 <= j < idx ==> #[trigger] self.t_memory[j] == (match events@[j] {
                        Some(e) => spec_commit_time(e.delta_t as int, dt_ref as int, mode),
                        None => old(self).t_memory[j] as int,
                    }),
                forall|j: int|
                    0 <= j < idx ==> #[trigger] self.event_memory[j] == (match events@[j] {
                        Some(e) => EventCoordless {
                            d: e.d,
                            delta_t: old(self).event_memory[j].delta_t,
                        },
                        None => old(self).event_memory[j],
                    }),
                forall|j: int|
                    idx <= j < BLOCK_SIZE_AREA ==> #[trigger] self.d_residuals[j]
                        == D_ENCODE_NO_EVENT,
                forall|j: int|
                    idx <= j < BLOCK_SIZE_AREA ==> #[trigger] self.dt_pred_residuals[j] == 0,
                forall|j: int|
                    idx <= j < BLOCK_SIZE_AREA ==> #[trigger] self.t_memory[j] == old(self).t_memory[j],
                forall|j: int|
                    idx <= j < BLOCK_SIZE_AREA ==> #[trigger] self.event_memory[j] == old(self).event_memory[j],
                forall|j: int|
                    0 <= j < BLOCK_SIZE_AREA ==> #[trigger] self.dt_pred_residuals_i16[j] == 0,
            decreases BLOCK_SIZE_AREA - idx,
        {
            match events[idx] {
                Some(next) => {
                    assert(events@[idx as int] is Some);
                    let mem: EventCoordless = self.event_memory[idx];
                    let t_prev: AbsoluteT = self.t_memory[idx];
                    if next.delta_t < t_prev || next.delta_t - t_prev > dtm {
                        self.restore_memory(saved_event_memory, saved_t_memory, saved_t_recon);
                        return Err(CodecError::MalformedEncoder);
                    }
                    let d_resid: DResidual = d_residual(mem.d, next.d);
                    self.event_memory[idx].d = next.d;
                    self.d_residuals[idx] = d_resid;
                    let delta_t: DeltaT = next.delta_t - t_prev;
                    match commit_time(next.delta_t, dt_ref, mode) {
                        Some(t) => {
                            self.t_memory[idx] = t;
                        },
                        None => {
                            self.restore_memory(saved_event_memory, saved_t_memory, saved_t_recon);
                            return Err(CodecError::MalformedEncoder);
                        },
                    }
                    let dt_pred: DeltaT = predict_delta_t(&mem, d_resid, dtm);
                    let dt_pred_residual: DeltaTResidual = delta_t as DeltaTResidual
                        - dt_pred as DeltaTResidual;
                    self.dt_pred_residuals[idx] = dt_pred_residual;
                    let a: u64 = if dt_pred_residual < 0 {
                        (-dt_pred_residual) as u64
                    } else {
                        dt_pred_residual as u64
                    };
                    if a > max_t_resid {
                        max_t_resid = a;
                    }
                },
                None => {},
            }
            idx += 1;
        }
        if max_t_resid > dtm as u64 {
            self.restore_memory(saved_event_memory, saved_t_memory, saved_t_recon);
            return Err(CodecError::MalformedEncoder);
        }
        proof {
            lemma2_to64();
            lemma_pow2_strictly_increases(32, 63);
        }
        let s: u8 = choose_sparam(sparam, max_t_resid);
        let mut idx: usize = 0;
        while idx < BLOCK_SIZE_AREA
            invariant
                idx <= BLOCK_SIZE_AREA,
                sparam <= SPARAM_MAX,
                mode == self.time_modulation_mode,
                self.t_recon == old(self).t_recon,
                resids == old(self).inter_t_residuals(events@, dtm),
                max_t_resid == spec_max_abs(resids, BLOCK_SIZE_AREA as int),
                max_t_resid <= dtm,
                s == old(self).inter_sparam(sparam, events@, dtm),
                s <= SPARAM_MAX,
                forall|j: int|
                    0 <= j < BLOCK_SIZE_AREA ==> #[trigger] self.d_residuals[j]
                        == spec_inter_d_residual(old(self).event_memory[j], events@[j]),
                forall|j: int|
                    0 <= j < BLOCK_SIZE_AREA ==> #[trigger] self.dt_pred_residuals[j] == resids[j],
                forall|j: int|
                    0 <= j < BLOCK_SIZE_AREA ==> #[trigger] self.t_memory[j] == (match events@[j] {
                        Some(e) => spec_commit_time(e.delta_t as int, dt_ref as int, mode),
                        None => old(self).t_memory[j] as int,
                    }),
                forall|j: int|
                    0 <= j < BLOCK_SIZE_AREA ==> #[trigger] self.event_memory[j] == (
                    match events@[j] {
                        Some(e) => EventCoordless {
                            d: e.d,
                            delta_t: old(self).event_memory[j].delta_t,
                        },
                        None => old(self).event_memory[j],
                    }),
                forall|j: int|
                    0 <= j < idx ==> #[trigger] self.dt_pred_residuals_i16[j] == old(self).inter_quantized(sparam, events@, dtm, j),
            decreases BLOCK_SIZE_AREA - idx,
        {
            let t_resid: DeltaTResidual = self.dt_pred_residuals[idx];
            proof {
                lemma2_to64();
                lemma_pow2_strictly_increases(32, 63);
                lemma_max_abs_bounds(resids, BLOCK_SIZE_AREA as int, idx as int);
                lemma_chosen_sparam_fits(sparam, max_t_resid as nat, t_resid as int);
            }
            let q: i64 = floor_div_pow2(t_resid, s as u32);
            self.dt_pred_residuals_i16[idx] = q as i16;
            idx += 1;
        }
        let ghost mid = *self;
        proof {
            assert forall|i: int|
                0 <= i < BLOCK_SIZE_AREA implies (#[trigger] mid.d_residuals[i]
                != D_ENCODE_NO_EVENT <==> events@[i] is Some) by {
                assert(mid.d_residuals[i] == spec_inter_d_residual(
                    old(self).event_memory[i],
                    events@[i],
                ));
            }
            assert forall|i: int| 0 <= i < BLOCK_SIZE_AREA implies #[trigger] mid.recon_delta_t(
                s,
                dtm,
                i,
            ) == old(self).inter_recon_delta_t(sparam, events@, dtm, i) by {
                assert(mid.d_residuals[i] == spec_inter_d_residual(
                    old(self).event_memory[i],
                    events@[i],
                ));
                assert(mid.dt_pred_residuals_i16[i] == old(self).inter_quantized(
                    sparam,
                    events@,
                    dtm,
                    i,
                ));
                assert(mid.event_memory[i].delta_t == old(self).event_memory[i].delta_t);
            }
        }
        match self.reconstruct_t_values(s, dtm, dt_ref) {
            Ok(()) => {
                proof {
                    assert(old(self).inter_valid(sparam, dtm, dt_ref, events@)) by {
                        assert forall|i: int|
                            0 <= i < BLOCK_SIZE_AREA && (#[trigger] events@[i])
                                is Some implies spec_recon_pixel_valid(
                            mode,
                            old(self).event_memory[i].delta_t,
                            old(self).t_recon[i],
                            spec_inter_d_residual(old(self).event_memory[i], events@[i]),
                            old(self).inter_quantized(sparam, events@, dtm, i),
                            s,
                            dtm,
                            dt_ref,
                        ) by {
                            assert(mid.d_residuals[i] != D_ENCODE_NO_EVENT);
                            assert(mid.recon_delta_t(s, dtm, i) == old(self).inter_recon_delta_t(
                                sparam,
                                events@,
                                dtm,
                                i,
                            ));
                        }
                    }
                    assert(self.holds_inter_block(old(self), sparam, dtm, dt_ref, events@)) by {
                        assert forall|i: int| 0 <= i < BLOCK_SIZE_AREA implies #[trigger] self.event_memory[i] == (
                        match events@[i] {
                            Some(e) => EventCoordless {
                                d: e.d,
                                delta_t: old(self).inter_recon_delta_t(sparam, events@, dtm, i) as u32,
                            },
                            None => old(self).event_memory[i],
                        }) by {
                            assert(mid.recon_delta_t(s, dtm, i) == old(self).inter_recon_delta_t(
                                sparam,
                                events@,
                                dtm,
                                i,
                            ));
                            assert(mid.d_residuals[i] != D_ENCODE_NO_EVENT <==> events@[i] is Some);
                        }
                        assert forall|i: int| 0 <= i < BLOCK_SIZE_AREA implies #[trigger] self.t_recon[i] == (
                        match events@[i] {
                            Some(e) => spec_commit_time(
                                old(self).t_recon[i] + old(self).inter_recon_delta_t(
                                    sparam,
                                    events@,
                                    dtm,
                                    i,
                                ),
                                dt_ref as int,
                                mode,
                            ),
                            None => old(self).t_recon[i] as int,
                        }) by {
                            assert(mid.recon_delta_t(s, dtm, i) == old(self).inter_recon_delta_t(
                                sparam,
                                events@,
                                dtm,
                                i,
                            ));
                            assert(mid.d_residuals[i] != D_ENCODE_NO_EVENT <==> events@[i] is Some);
                        }
                    }
                    lemma_inter_coded_unique(*self, *old(self), sparam, dtm, dt_ref, events@);
                }
                Ok(s)
            },
            Err(_) => {
                proof {
                    assert(!old(self).inter_valid(sparam, dtm, dt_ref, events@)) by {
                        if old(self).inter_valid(sparam, dtm, dt_ref, events@) {
                            assert forall|i: int|
                                0 <= i < BLOCK_SIZE_AREA && (#[trigger] mid.d_residuals[i])
                                    != D_ENCODE_NO_EVENT implies spec_recon_pixel_valid(
                                mode,
                                mid.event_memory[i].delta_t,
                                mid.t_recon[i],
                                mid.d_residuals[i] as int,
                                mid.dt_pred_residuals_i16[i] as int,
                                s,
                                dtm,
                                dt_ref,
                            ) by {
                                assert(mid.d_residuals[i] != D_ENCODE_NO_EVENT <==> events@[i]
                                    is Some);
                                assert(events@[i] is Some);
                                assert(mid.recon_delta_t(s, dtm, i) == old(self).inter_recon_delta_t(sparam, events@, dtm, i));
                            }
                            assert(mid.reconstruct_valid(s, dtm, dt_ref));
                        }
                    }
                }
                self.restore_memory(saved_event_memory, saved_t_memory, saved_t_recon);
                Err(CodecError::MalformedEncoder)
            },
        }
    }
}


impl PredictionModel {
    /// The residual buffers can be inverted as an inter block against this
    /// memory: they can be folded back into it, and every populated pixel
    /// rebuilds to an 8-bit decimation.
    pub open spec fn inverse_inter_valid(&self, sparam: u8, dtm: DeltaT, dt_ref: DeltaT) -> bool {
        &&& self.reconstruct_valid(sparam, dtm, dt_ref)
        &&& forall|i: int|
            0 <= i < BLOCK_SIZE_AREA && (#[trigger] self.d_residuals[i]) != D_ENCODE_NO_EVENT ==> 0
                <= self.event_memory[i].d + self.d_residuals[i] <= 255
    }

    /// The event a decoder rebuilds for pixel `i` of the inter block in the
    /// residual buffers: the remembered decimation plus its residual, at
    /// the reconstructed time plus the rebuilt tick count.
    pub open spec fn inverse_inter_event(&self, sparam: u8, dtm: DeltaT, i: int) -> Option<
        EventCoordless,
    > {
        if self.d_residuals[i] == D_ENCODE_NO_EVENT {
            None
        } else {
            Some(
                EventCoordless {
                    d: (self.event_memory[i].d + self.d_residuals[i]) as u8,
                    delta_t: (self.t_recon[i] + self.recon_delta_t(sparam, dtm, i)) as u32,
                },
            )
        }
    }

    /// What pixel `i` remembers after the inter block in the residual
    /// buffers was inverted.
    pub open spec fn inverse_inter_memory(&self, sparam: u8, dtm: DeltaT, i: int) -> EventCoordless {
        if self.d_residuals[i] == D_ENCODE_NO_EVENT {
            self.event_memory[i]
        } else {
            EventCoordless {
                d: (self.event_memory[i].d + self.d_residuals[i]) as u8,
                delta_t: self.recon_delta_t(sparam, dtm, i) as u32,
            }
        }
    }

    /// The reconstructed time of pixel `i` after the inter block in the
    /// residual buffers was inverted.
    pub open spec fn inverse_inter_t_recon(
        &self,
        sparam: u8,
        dtm: DeltaT,
        dt_ref: DeltaT,
        i: int,
    ) -> int {
        if self.d_residuals[i] == D_ENCODE_NO_EVENT {
            self.t_recon[i] as int
        } else {
            spec_commit_time(
                self.t_recon[i] + self.recon_delta_t(sparam, dtm, i),
                dt_ref as int,
                self.time_modulation_mode,
            )
        }
    }

    /// Inverts the inter block held in the residual buffers against the
    /// reconstructed memory: every pixel whose decimation residual is not
    /// the no-event mark yields an event, and its memory moves on to that
    /// event. No rebuilt tick count exceeds `dtm`, and in frame-perfect
    /// mode every time that memory keeps is a multiple of `dt_ref`.
    ///
    /// Fails, leaving the model as it was, exactly where
    /// `inverse_inter_valid` does not hold.
    pub fn inverse_inter_prediction(&mut self, sparam: u8, dtm: DeltaT, dt_ref: DeltaT) -> (r:
        Result<BlockEvents, CodecError>)
        ensures
            final(self).time_modulation_mode == old(self).time_modulation_mode,
            final(self).d_residuals == old(self).d_residuals,
            final(self).dt_pred_residuals == old(self).dt_pred_residuals,
            final(self).dt_pred_residuals_i16 == old(self).dt_pred_residuals_i16,
            final(self).t_memory == old(self).t_memory,
            r is Ok <==> old(self).inverse_inter_valid(sparam, dtm, dt_ref),
            r is Err ==> r == Err::<BlockEvents, CodecError>(CodecError::Deserialize) && *final(self) == *old(self),
            r matches Ok(events) ==> {
                &&& forall|i: int|
                    0 <= i < BLOCK_SIZE_AREA ==> #[trigger] events[i] == old(self).inverse_inter_event(sparam, dtm, i)
                &&& forall|i: int|
                    0 <= i < BLOCK_SIZE_AREA ==> #[trigger] final(self).event_memory[i] == old(self).inverse_inter_memory(sparam, dtm, i)
                &&& forall|i: int|
                    0 <= i < BLOCK_SIZE_AREA ==> #[trigger] final(self).t_recon[i] == old(self).inverse_inter_t_recon(sparam, dtm, dt_ref, i)
                &&& forall|i: int|
                    0 <= i < BLOCK_SIZE_AREA && (#[trigger] events[i]) is Some ==> final(self).event_memory[i].delta_t <= dtm
                &&& old(self).time_modulation_mode == Mode::FramePerfect ==> forall|i: int|
                    0 <= i < BLOCK_SIZE_AREA && (#[trigger] events[i]) is Some ==> final(self).t_recon[i] as int % dt_ref as int == 0
                &&& *final(self) == spec_inter_decoded(*old(self), sparam, dtm, dt_ref)
            },
    {
        let mode = self.time_modulation_mode;
        let mut events: BlockEvents = [None; BLOCK_SIZE_AREA];
        if sparam > SPARAM_MAX || (mode == Mode::FramePerfect && dt_ref == 0) {
            return Err(CodecError::Deserialize);
        }
        let saved_event_memory = self.event_memory;
        let saved_t_recon = self.t_recon;
        let mut idx: usize = 0;
        while idx < BLOCK_SIZE_AREA
            invariant
                idx <= BLOCK_SIZE_AREA,
                sparam <= SPARAM_MAX,
                mode == old(self).time_modulation_mode,
                mode == Mode::FramePerfect ==> dt_ref > 0,
                saved_event_memory == old(self).event_memory,
                saved_t_recon == old(self).t_recon,
                self.time_modulation_mode == old(self).time_modulation_mode,
                self.d_residuals == old(self).d_residuals,
                self.dt_pred_residuals == old(self).dt_pred_residuals,
                self.dt_pred_residuals_i16 == old(self).dt_pred_residuals_i16,
                self.t_memory == old(self).t_memory,
                forall|j: int|
                    0 <= j < idx && (#[trigger] old(self).d_residuals[j]) != D_ENCODE_NO_EVENT ==> {
                        &&& spec_recon_pixel_valid(
                            mode,
                            old(self).event_memory[j].delta_t,
                            old(self).t_recon[j],
                            old(self).d_residuals[j] as int,
                            old(self).dt_pred_residuals_i16[j] as int,
                            sparam,
                            dtm,
                            dt_ref,
                        )
                        &&& 0 <= old(self).event_memory[j].d + old(self).d_residuals[j] <= 255
                    },
                forall|j: int|
                    0 <= j < idx ==> #[trigger] events[j] == old(self).inverse_inter_event(
                        sparam,
                        dtm,
                        j,
                    ),
                forall|j: int|
                    0 <= j < idx ==> #[trigger] self.event_memory[j] == old(self).inverse_inter_memory(sparam, dtm, j),
                forall|j: int|
                    0 <= j < idx ==> #[trigger] self.t_recon[j] == old(self).inverse_inter_t_recon(
                        sparam,
                        dtm,
                        dt_ref,
                        j,
                    ),
                forall|j: int|
                    0 <= j < idx && (#[trigger] events[j]) is Some
                        ==> self.event_memory[j].delta_t <= dtm && (mode == Mode::FramePerfect
                        ==> self.t_recon[j] as int % dt_ref as int == 0),
                forall|j: int| idx <= j < BLOCK_SIZE_AREA ==> (#[trigger] events[j]) is None,
                forall|j: int|
                    idx <= j < BLOCK_SIZE_AREA ==> #[trigger] self.event_memory[j] == old(self).event_memory[j],
                forall|j: int|
                    idx <= j < BLOCK_SIZE_AREA ==> #[trigger] self.t_recon[j] == old(self).t_recon[j],
            decreases BLOCK_SIZE_AREA - idx,
        {
            let d_resid: DResidual = self.d_residuals[idx];
            if d_resid != D_ENCODE_NO_EVENT {
                assert(old(self).d_residuals[idx as int] != D_ENCODE_NO_EVENT);
                let mem: EventCoordless = self.event_memory[idx];
                let tr: AbsoluteT = self.t_recon[idx];
                let d: i32 = mem.d as i32 + d_resid as i32;
                if d < 0 || d > 255 {
                    self.event_memory = saved_event_memory;
                    self.t_recon = saved_t_recon;
                    return Err(CodecError::Deserialize);
                }
                match recon_pixel(
                    mode,
                    &mem,
                    tr,
                    d_resid,
                    self.dt_pred_residuals_i16[idx],
                    sparam,
                    dtm,
                    dt_ref,
                ) {
                    Some((dt_pred, dt_pred_residual, committed)) => {
                        let mut em: EventCoordless = mem;
                        let mut recon_t: AbsoluteT = tr;
                        update_values_from_prediction(
                            &mut em,
                            &mut recon_t,
                            dt_pred,
                            dt_pred_residual,
                            dtm,
                        );
                        em.d = d as u8;
                        proof {
                            if mode == Mode::FramePerfect {
                                lemma_round_up(recon_t as int, dt_ref as int);
                            }
                        }
                        self.event_memory[idx] = em;
                        self.t_recon[idx] = committed;
                        events[idx] = Some(EventCoordless { d: d as u8, delta_t: recon_t });
                    },
                    None => {
                        self.event_memory = saved_event_memory;
                        self.t_recon = saved_t_recon;
                        return Err(CodecError::Deserialize);
                    },
                }
            }
            idx += 1;
        }
        proof {
            assert(self.holds_inverted_inter(old(self), sparam, dtm, dt_ref));
            lemma_inter_decoded_unique(*self, *old(self), sparam, dtm, dt_ref);
        }
        Ok(events)
    }
}

/// What an encoder writes for an inter block, a decoder in the same
/// reconstructed state inverts: it accepts the residuals, finds an event at
/// exactly the pixels that had one, with the decimation that went in, and
/// ends in the reconstructed state that the encoder has moved on to. The
/// tick count it rebuilds is at most `dtm` and at most the shift's
/// granularity below the true one; so is the time, where the pixel's
/// reconstructed time had not drifted from its true one before.
pub proof fn lemma_inter_round_trip(
    enc_old: PredictionModel,
    enc_new: PredictionModel,
    dec_old: PredictionModel,
    sparam: u8,
    dtm: DeltaT,
    dt_ref: DeltaT,
    events: Seq<Option<EventCoordless>>,
    i: int,
)
    requires
        events.len() == BLOCK_SIZE_AREA,
        0 <= i < BLOCK_SIZE_AREA,
        enc_old.inter_valid(sparam, dtm, dt_ref, events),
        enc_new.holds_inter_block(&enc_old, sparam, dtm, dt_ref, events),
        dec_old.time_modulation_mode == enc_old.time_modulation_mode,
        dec_old.event_memory == enc_old.event_memory,
        dec_old.t_recon == enc_old.t_recon,
        dec_old.d_residuals == enc_new.d_residuals,
        dec_old.dt_pred_residuals_i16 == enc_new.dt_pred_residuals_i16,
    ensures
        dec_old.inverse_inter_valid(enc_old.inter_sparam(sparam, events, dtm), dtm, dt_ref),
        events[i] is None <==> dec_old.inverse_inter_event(
            enc_old.inter_sparam(sparam, events, dtm),
            dtm,
            i,
        ) is None,
        enc_new.event_memory[i] == dec_old.inverse_inter_memory(
            enc_old.inter_sparam(sparam, events, dtm),
            dtm,
            i,
        ),
        enc_new.t_recon[i] == dec_old.inverse_inter_t_recon(
            enc_old.inter_sparam(sparam, events, dtm),
            dtm,
            dt_ref,
            i,
        ),
        events[i] matches Some(e) ==> {
            let s = enc_old.inter_sparam(sparam, events, dtm);
            let decoded = dec_old.inverse_inter_event(s, dtm, i)->0;
            let true_delta_t = e.delta_t - enc_old.t_memory[i];
            let delta_t = dec_old.recon_delta_t(s, dtm, i);
            &&& decoded.d == e.d
            &&& decoded.delta_t == dec_old.t_recon[i] + delta_t
            &&& true_delta_t - pow2(s as nat) < delta_t <= true_delta_t
            &&& 0 <= delta_t <= dtm
            &&& enc_old.t_recon[i] == enc_old.t_memory[i] ==> e.delta_t - pow2(s as nat)
                < decoded.delta_t <= e.delta_t
        },
{
    let s = enc_old.inter_sparam(sparam, events, dtm);
    let resids = enc_old.inter_t_residuals(events, dtm);
    lemma2_to64();
    lemma_pow2_strictly_increases(32, 63);
    lemma_chosen_sparam_fits(sparam, spec_max_abs(resids, BLOCK_SIZE_AREA as int), 0);
    assert forall|j: int| 0 <= j < BLOCK_SIZE_AREA implies {
        &&& (#[trigger] dec_old.d_residuals[j]) == spec_inter_d_residual(
            enc_old.event_memory[j],
            events[j],
        )
        &&& dec_old.dt_pred_residuals_i16[j] == enc_old.inter_quantized(sparam, events, dtm, j)
        &&& dec_old.recon_delta_t(s, dtm, j) == enc_old.inter_recon_delta_t(sparam, events, dtm, j)
    } by {
        assert(enc_new.d_residuals[j] == spec_inter_d_residual(enc_old.event_memory[j], events[j]));
        assert(enc_new.dt_pred_residuals_i16[j] == enc_old.inter_quantized(
            sparam,
            events,
            dtm,
            j,
        ));
    }
    assert forall|j: int|
        0 <= j < BLOCK_SIZE_AREA && (#[trigger] dec_old.d_residuals[j])
            != D_ENCODE_NO_EVENT implies spec_recon_pixel_valid(
        dec_old.time_modulation_mode,
        dec_old.event_memory[j].delta_t,
        dec_old.t_recon[j],
        dec_old.d_residuals[j] as int,
        dec_old.dt_pred_residuals_i16[j] as int,
        s,
        dtm,
        dt_ref,
    ) && 0 <= dec_old.event_memory[j].d + dec_old.d_residuals[j] <= 255 by {
        assert(events[j] is Some);
    }
    assert(dec_old.d_residuals[i] == spec_inter_d_residual(enc_old.event_memory[i], events[i]));
    if events[i] is Some {
        lemma_max_abs_bounds(resids, BLOCK_SIZE_AREA as int, i);
        lemma_floor_div_pow2(resids[i], s as nat);
    }
}

/// A block whose shift is zero loses nothing: the decoder rebuilds the true
/// tick count of every event, and where a pixel's reconstructed time had
/// not drifted, its true time. In particular, events of a frame-perfect
/// source that lie on multiples of `dt_ref` are decoded on those multiples.
pub proof fn lemma_inter_lossless(
    enc_old: PredictionModel,
    enc_new: PredictionModel,
    dec_old: PredictionModel,
    sparam: u8,
    dtm: DeltaT,
    dt_ref: DeltaT,
    events: Seq<Option<EventCoordless>>,
    i: int,
)
    requires
        events.len() == BLOCK_SIZE_AREA,
        0 <= i < BLOCK_SIZE_AREA,
        enc_old.inter_valid(sparam, dtm, dt_ref, events),
        enc_new.holds_inter_block(&enc_old, sparam, dtm, dt_ref, events),
        dec_old.time_modulation_mode == enc_old.time_modulation_mode,
        dec_old.event_memory == enc_old.event_memory,
        dec_old.t_recon == enc_old.t_recon,
        dec_old.d_residuals == enc_new.d_residuals,
        dec_old.dt_pred_residuals_i16 == enc_new.dt_pred_residuals_i16,
        enc_old.inter_sparam(sparam, events, dtm) == 0,
        events[i] is Some,
    ensures
        dec_old.recon_delta_t(0, dtm, i) == events[i]->0.delta_t - enc_old.t_memory[i],
        enc_old.t_recon[i] == enc_old.t_memory[i] ==> dec_old.inverse_inter_event(0, dtm, i)
            == events[i],
        enc_old.t_recon[i] == enc_old.t_memory[i] && dt_ref > 0 && events[i]->0.delta_t as int
            % dt_ref as int == 0 ==> dec_old.inverse_inter_event(0, dtm, i)->0.delta_t as int
            % dt_ref as int == 0,
{
    lemma_inter_round_trip(enc_old, enc_new, dec_old, sparam, dtm, dt_ref, events, i);
    lemma2_to64();
}


/// The state an encoder of the given mode is in after intra coding
/// `events`.
pub open spec fn spec_intra_coded(
    mode: Mode,
    sparam: u8,
    dt_ref: DeltaT,
    events: Seq<Option<EventCoordless>>,
) -> PredictionModel {
    choose|m: PredictionModel|
        m.time_modulation_mode == mode && #[trigger] m.holds_intra_block(sparam, dt_ref, events)
}

/// There is one state that holds an intra block.
pub proof fn lemma_intra_coded_unique(
    m: PredictionModel,
    sparam: u8,
    dt_ref: DeltaT,
    events: Seq<Option<EventCoordless>>,
)
    requires
        m.holds_intra_block(sparam, dt_ref, events),
    ensures
        m == spec_intra_coded(m.time_modulation_mode, sparam, dt_ref, events),
{
    let c = spec_intra_coded(m.time_modulation_mode, sparam, dt_ref, events);
    assert(c.time_modulation_mode == m.time_modulation_mode && c.holds_intra_block(
        sparam,
        dt_ref,
        events,
    ));
    assert(m.t_memory =~= c.t_memory);
    assert(m.event_memory =~= c.event_memory);
    assert(m.t_recon =~= c.t_recon);
    assert(m.d_residuals =~= c.d_residuals);
    assert(m.dt_pred_residuals =~= c.dt_pred_residuals);
    assert(m.dt_pred_residuals_i16 =~= c.dt_pred_residuals_i16);
}

/// The state an encoder is in after inter coding `events` against the
/// state `prev`.
pub open spec fn spec_inter_coded(
    prev: PredictionModel,
    sparam: u8,
    dtm: DeltaT,
    dt_ref: DeltaT,
    events: Seq<Option<EventCoordless>>,
) -> PredictionModel {
    choose|m: PredictionModel| #[trigger] m.holds_inter_block(&prev, sparam, dtm, dt_ref, events)
}

/// There is one state that holds an inter block coded against a given
/// state.
pub proof fn lemma_inter_coded_unique(
    m: PredictionModel,
    prev: PredictionModel,
    sparam: u8,
    dtm: DeltaT,
    dt_ref: DeltaT,
    events: Seq<Option<EventCoordless>>,
)
    requires
        m.holds_inter_block(&prev, sparam, dtm, dt_ref, events),
    ensures
        m == spec_inter_coded(prev, sparam, dtm, dt_ref, events),
{
    let c = spec_inter_coded(prev, sparam, dtm, dt_ref, events);
    assert(c.holds_inter_block(&prev, sparam, dtm, dt_ref, events));
    assert(m.t_memory =~= c.t_memory);
    assert(m.event_memory =~= c.event_memory);
    assert(m.t_recon =~= c.t_recon);
    assert(m.d_residuals =~= c.d_residuals);
    assert(m.dt_pred_residuals =~= c.dt_pred_residuals);
    assert(m.dt_pred_residuals_i16 =~= c.dt_pred_residuals_i16);
}

impl PredictionModel {
    /// `self` is `prev` after the intra block in its residual buffers was
    /// inverted: memory holds the rebuilt time of every populated pixel and
    /// no remembered event.
    pub open spec fn holds_inverted_intra(
        &self,
        prev: &PredictionModel,
        head_t: AbsoluteT,
        head_d: D,
        sparam: u8,
        dt_ref: DeltaT,
    ) -> bool {
        &&& self.time_modulation_mode == prev.time_modulation_mode
        &&& self.d_residuals == prev.d_residuals
        &&& self.dt_pred_residuals == prev.dt_pred_residuals
        &&& self.dt_pred_residuals_i16 == prev.dt_pred_residuals_i16
        &&& forall|i: int|
            0 <= i < BLOCK_SIZE_AREA ==> #[trigger] self.t_recon[i] == (
            match spec_inverse_intra_event(
                head_t,
                head_d,
                prev.d_residuals[i],
                prev.dt_pred_residuals_i16[i],
                sparam,
            ) {
                Some(e) => spec_commit_time(
                    e.delta_t as int,
                    dt_ref as int,
                    prev.time_modulation_mode,
                ),
                None => 0,
            })
        &&& forall|i: int| 0 <= i < BLOCK_SIZE_AREA ==> #[trigger] self.t_memory[i] == self.t_recon[i]
        &&& forall|i: int|
            0 <= i < BLOCK_SIZE_AREA ==> #[trigger] self.event_memory[i] == (EventCoordless {
                d: 0,
                delta_t: 0,
            })
    }

    /// `self` is `prev` after the inter block in its residual buffers was
    /// inverted: every populated pixel has moved on to its rebuilt event.
    pub open spec fn holds_inverted_inter(
        &self,
        prev: &PredictionModel,
        sparam: u8,
        dtm: DeltaT,
        dt_ref: DeltaT,
    ) -> bool {
        &&& self.time_modulation_mode == prev.time_modulation_mode
        &&& self.d_residuals == prev.d_residuals
        &&& self.dt_pred_residuals == prev.dt_pred_residuals
        &&& self.dt_pred_residuals_i16 == prev.dt_pred_residuals_i16
        &&& self.t_memory == prev.t_memory
        &&& forall|i: int|
            0 <= i < BLOCK_SIZE_AREA ==> #[trigger] self.event_memory[i]
                == prev.inverse_inter_memory(sparam, dtm, i)
        &&& forall|i: int|
            0 <= i < BLOCK_SIZE_AREA ==> #[trigger] self.t_recon[i] == prev.inverse_inter_t_recon(
                sparam,
                dtm,
                dt_ref,
                i,
            )
    }
}

/// The state a decoder is in after inverting the intra block in the
/// residual buffers of `prev`.
pub open spec fn spec_intra_decoded(
    prev: PredictionModel,
    head_t: AbsoluteT,
    head_d: D,
    sparam: u8,
    dt_ref: DeltaT,
) -> PredictionModel {
    choose|m: PredictionModel| #[trigger] m.holds_inverted_intra(&prev, head_t, head_d, sparam, dt_ref)
}

/// There is one state behind an inverted intra block.
pub proof fn lemma_intra_decoded_unique(
    m: PredictionModel,
    prev: PredictionModel,
    head_t: AbsoluteT,
    head_d: D,
    sparam: u8,
    dt_ref: DeltaT,
)
    requires
        m.holds_inverted_intra(&prev, head_t, head_d, sparam, dt_ref),
    ensures
        m == spec_intra_decoded(prev, head_t, head_d, sparam, dt_ref),
{
    let c = spec_intra_decoded(prev, head_t, head_d, sparam, dt_ref);
    assert(c.holds_inverted_intra(&prev, head_t, head_d, sparam, dt_ref));
    assert(m.t_recon =~= c.t_recon);
    assert(m.t_memory =~= c.t_memory) by {
        assert forall|i: int| 0 <= i < BLOCK_SIZE_AREA implies m.t_memory[i] == c.t_memory[i] by {
            assert(m.t_memory[i] == m.t_recon[i]);
            assert(c.t_memory[i] == c.t_recon[i]);
        }
    }
    assert(m.event_memory =~= c.event_memory);
}

/// The state a decoder is in after inverting the inter block in the
/// residual buffers of `prev`.
pub open spec fn spec_inter_decoded(
    prev: PredictionModel,
    sparam: u8,
    dtm: DeltaT,
    dt_ref: DeltaT,
) -> PredictionModel {
    choose|m: PredictionModel| #[trigger] m.holds_inverted_inter(&prev, sparam, dtm, dt_ref)
}

/// There is one state behind an inverted inter block.
pub proof fn lemma_inter_decoded_unique(
    m: PredictionModel,
    prev: PredictionModel,
    sparam: u8,
    dtm: DeltaT,
    dt_ref: DeltaT,
)
    requires
        m.holds_inverted_inter(&prev, sparam, dtm, dt_ref),
    ensures
        m == spec_inter_decoded(prev, sparam, dtm, dt_ref),
{
    let c = spec_inter_decoded(prev, sparam, dtm, dt_ref);
    assert(c.holds_inverted_inter(&prev, sparam, dtm, dt_ref));
    assert(m.t_recon =~= c.t_recon);
    assert(m.event_memory =~= c.event_memory);
}


/// The state of a model that has seen nothing.
pub open spec fn spec_fresh(mode: Mode) -> PredictionModel {
    choose|m: PredictionModel|
        m.time_modulation_mode == mode && #[trigger] m.memory_is_reset() && m.residuals_are_reset()
}

/// There is one state without memory and residuals.
pub proof fn lemma_fresh_unique(m: PredictionModel)
    requires
        m.memory_is_reset(),
        m.residuals_are_reset(),
    ensures
        m == spec_fresh(m.time_modulation_mode),
{
    let c = spec_fresh(m.time_modulation_mode);
    assert(c.time_modulation_mode == m.time_modulation_mode && c.memory_is_reset()
        && c.residuals_are_reset());
    assert(m.t_memory =~= c.t_memory);
    assert(m.event_memory =~= c.event_memory);
    assert(m.t_recon =~= c.t_recon);
    assert(m.d_residuals =~= c.d_residuals);
    assert(m.dt_pred_residuals =~= c.dt_pred_residuals);
    assert(m.dt_pred_residuals_i16 =~= c.dt_pred_residuals_i16);
}

impl PredictionModel {
    /// `self` is `prev` with the residuals of a block in its buffers.
    pub open spec fn holds_loaded(
        &self,
        prev: &PredictionModel,
        d_residuals: Seq<DResidual>,
        dt_residuals: Seq<i16>,
    ) -> bool {
        &&& self.time_modulation_mode == prev.time_modulation_mode
        &&& self.t_memory == prev.t_memory
        &&& self.event_memory == prev.event_memory
        &&& self.t_recon == prev.t_recon
        &&& self.dt_pred_residuals == prev.dt_pred_residuals
        &&& self.d_residuals@ == d_residuals
        &&& self.dt_pred_residuals_i16@ == dt_residuals
    }
}

/// The state `prev` with the residuals of a block in its buffers.
pub open spec fn spec_loaded(
    prev: PredictionModel,
    d_residuals: Seq<DResidual>,
    dt_residuals: Seq<i16>,
) -> PredictionModel {
    choose|m: PredictionModel| #[trigger] m.holds_loaded(&prev, d_residuals, dt_residuals)
}

/// There is one state with given memory and residuals.
pub proof fn lemma_loaded_unique(
    m: PredictionModel,
    prev: PredictionModel,
    d_residuals: Seq<DResidual>,
    dt_residuals: Seq<i16>,
)
    requires
        m.holds_loaded(&prev, d_residuals, dt_residuals),
    ensures
        m == spec_loaded(prev, d_residuals, dt_residuals),
{
    let c = spec_loaded(prev, d_residuals, dt_residuals);
    assert(c.holds_loaded(&prev, d_residuals, dt_residuals));
    assert(m.d_residuals =~= c.d_residuals);
    assert(m.dt_pred_residuals_i16 =~= c.dt_pred_residuals_i16);
}


/// A model that has seen nothing exists.
pub proof fn lemma_fresh_exists(mode: Mode)
    ensures
        spec_fresh(mode).time_modulation_mode == mode,
        spec_fresh(mode).memory_is_reset(),
        spec_fresh(mode).residuals_are_reset(),
{
    let zero = EventCoordless { d: 0, delta_t: 0 };
    let m = PredictionModel {
        t_memory: lemma_array_from_seq(Seq::new(BLOCK_SIZE_AREA as nat, |i: int| 0u32)),
        event_memory: lemma_array_from_seq(Seq::new(BLOCK_SIZE_AREA as nat, |i: int| zero)),
        t_recon: lemma_array_from_seq(Seq::new(BLOCK_SIZE_AREA as nat, |i: int| 0u32)),
        d_residuals: lemma_array_from_seq(
            Seq::new(BLOCK_SIZE_AREA as nat, |i: int| D_ENCODE_NO_EVENT),
        ),
        dt_pred_residuals: lemma_array_from_seq(Seq::new(BLOCK_SIZE_AREA as nat, |i: int| 0i64)),
        dt_pred_residuals_i16: lemma_array_from_seq(
            Seq::new(BLOCK_SIZE_AREA as nat, |i: int| 0i16),
        ),
        time_modulation_mode: mode,
    };
    assert(m.time_modulation_mode == mode && m.memory_is_reset() && m.residuals_are_reset());
}

/// A state can be given the residuals of any block.
pub proof fn lemma_loaded_exists(
    prev: PredictionModel,
    d_residuals: Seq<DResidual>,
    dt_residuals: Seq<i16>,
)
    requires
        d_residuals.len() == BLOCK_SIZE_AREA,
        dt_residuals.len() == BLOCK_SIZE_AREA,
    ensures
        spec_loaded(prev, d_residuals, dt_residuals).holds_loaded(
            &prev,
            d_residuals,
            dt_residuals,
        ),
{
    let m = PredictionModel {
        d_residuals: lemma_array_from_seq(d_residuals),
        dt_pred_residuals_i16: lemma_array_from_seq(dt_residuals),
        ..prev
    };
    assert(m.holds_loaded(&prev, d_residuals, dt_residuals));
}

/// The state behind an intra block exists for every block that can be intra
/// coded.
pub proof fn lemma_intra_coded_exists(
    mode: Mode,
    sparam: u8,
    dt_ref: DeltaT,
    dtm: DeltaT,
    events: Seq<Option<EventCoordless>>,
)
    requires
        events.len() == BLOCK_SIZE_AREA,
        spec_intra_valid(mode, sparam, dt_ref, dtm, events),
    ensures
        spec_intra_coded(mode, sparam, dt_ref, events).time_modulation_mode == mode,
        spec_intra_coded(mode, sparam, dt_ref, events).holds_intra_block(sparam, dt_ref, events),
{
    let zero = EventCoordless { d: 0, delta_t: 0 };
    let resids = spec_intra_t_residuals(events);
    lemma2_to64();
    lemma_pow2_strictly_increases(32, 63);
    assert forall|i: int| 0 <= i < BLOCK_SIZE_AREA implies -32768 <= #[trigger] spec_intra_quantized(
        sparam,
        events,
        i,
    ) <= 32767 by {
        lemma_max_abs_bounds(resids, BLOCK_SIZE_AREA as int, i);
        lemma_chosen_sparam_fits(
            sparam,
            spec_max_abs(resids, BLOCK_SIZE_AREA as int),
            spec_intra_t_residual(events, i),
        );
    }
    let m = PredictionModel {
        t_memory: lemma_array_from_seq(
            Seq::new(
                BLOCK_SIZE_AREA as nat,
                |i: int|
                    (match events[i] {
                        Some(e) => spec_commit_time(e.delta_t as int, dt_ref as int, mode),
                        None => 0,
                    }) as u32,
            ),
        ),
        event_memory: lemma_array_from_seq(Seq::new(BLOCK_SIZE_AREA as nat, |i: int| zero)),
        t_recon: lemma_array_from_seq(
            Seq::new(
                BLOCK_SIZE_AREA as nat,
                |i: int|
                    (match events[i] {
                        Some(e) => spec_commit_time(
                            spec_intra_recon_of(sparam, events, i),
                            dt_ref as int,
                            mode,
                        ),
                        None => 0,
                    }) as u32,
            ),
        ),
        d_residuals: lemma_array_from_seq(
            Seq::new(BLOCK_SIZE_AREA as nat, |i: int| spec_intra_d_residual(events, i) as i16),
        ),
        dt_pred_residuals: lemma_array_from_seq(
            Seq::new(BLOCK_SIZE_AREA as nat, |i: int| spec_intra_t_residual(events, i) as i64),
        ),
        dt_pred_residuals_i16: lemma_array_from_seq(
            Seq::new(BLOCK_SIZE_AREA as nat, |i: int| spec_intra_quantized(sparam, events, i) as i16),
        ),
        time_modulation_mode: mode,
    };
    assert forall|i: int| 0 <= i < BLOCK_SIZE_AREA && events[i] is Some implies 0
        <= spec_commit_time(events[i]->0.delta_t as int, dt_ref as int, mode) && 0
        <= spec_commit_time(spec_intra_recon_of(sparam, events, i), dt_ref as int, mode) by {
        if mode == Mode::FramePerfect {
            lemma_round_up(events[i]->0.delta_t as int, dt_ref as int);
            lemma_round_up(spec_intra_recon_of(sparam, events, i), dt_ref as int);
        }
    }
    assert(m.holds_intra_block(sparam, dt_ref, events));
}

/// The state behind an inter block exists for every block that can be inter
/// coded.
pub proof fn lemma_inter_coded_exists(
    prev: PredictionModel,
    sparam: u8,
    dtm: DeltaT,
    dt_ref: DeltaT,
    events: Seq<Option<EventCoordless>>,
)
    requires
        events.len() == BLOCK_SIZE_AREA,
        prev.inter_valid(sparam, dtm, dt_ref, events),
    ensures
        spec_inter_coded(prev, sparam, dtm, dt_ref, events).holds_inter_block(
            &prev,
            sparam,
            dtm,
            dt_ref,
            events,
        ),
{
    let mode = prev.time_modulation_mode;
    let resids = prev.inter_t_residuals(events, dtm);
    lemma2_to64();
    lemma_pow2_strictly_increases(32, 63);
    assert forall|i: int| 0 <= i < BLOCK_SIZE_AREA implies -32768
        <= #[trigger] prev.inter_quantized(sparam, events, dtm, i) <= 32767 && -0x1_0000_0000
        <= resids[i] <= 0x1_0000_0000 by {
        lemma_max_abs_bounds(resids, BLOCK_SIZE_AREA as int, i);
        lemma_chosen_sparam_fits(
            sparam,
            spec_max_abs(resids, BLOCK_SIZE_AREA as int),
            resids[i],
        );
    }
    let m = PredictionModel {
        t_memory: lemma_array_from_seq(
            Seq::new(
                BLOCK_SIZE_AREA as nat,
                |i: int|
                    (match events[i] {
                        Some(e) => spec_commit_time(e.delta_t as int, dt_ref as int, mode),
                        None => prev.t_memory[i] as int,
                    }) as u32,
            ),
        ),
        event_memory: lemma_array_from_seq(
            Seq::new(
                BLOCK_SIZE_AREA as nat,
                |i: int|
                    match events[i] {
                        Some(e) => EventCoordless {
                            d: e.d,
                            delta_t: prev.inter_recon_delta_t(sparam, events, dtm, i) as u32,
                        },
                        None => prev.event_memory[i],
                    },
            ),
        ),
        t_recon: lemma_array_from_seq(
            Seq::new(
                BLOCK_SIZE_AREA as nat,
                |i: int|
                    (match events[i] {
                        Some(e) => spec_commit_time(
                            prev.t_recon[i] + prev.inter_recon_delta_t(sparam, events, dtm, i),
                            dt_ref as int,
                            mode,
                        ),
                        None => prev.t_recon[i] as int,
                    }) as u32,
            ),
        ),
        d_residuals: lemma_array_from_seq(
            Seq::new(
                BLOCK_SIZE_AREA as nat,
                |i: int| spec_inter_d_residual(prev.event_memory[i], events[i]) as i16,
            ),
        ),
        dt_pred_residuals: lemma_array_from_seq(
            Seq::new(BLOCK_SIZE_AREA as nat, |i: int| resids[i] as i64),
        ),
        dt_pred_residuals_i16: lemma_array_from_seq(
            Seq::new(
                BLOCK_SIZE_AREA as nat,
                |i: int| prev.inter_quantized(sparam, events, dtm, i) as i16,
            ),
        ),
        time_modulation_mode: mode,
    };
    assert forall|i: int| 0 <= i < BLOCK_SIZE_AREA && events[i] is Some implies 0
        <= spec_commit_time(events[i]->0.delta_t as int, dt_ref as int, mode) && 0
        <= spec_commit_time(
        prev.t_recon[i] + prev.inter_recon_delta_t(sparam, events, dtm, i),
        dt_ref as int,
        mode,
    ) by {
        if mode == Mode::FramePerfect {
            lemma_round_up(events[i]->0.delta_t as int, dt_ref as int);
            lemma_round_up(
                prev.t_recon[i] + prev.inter_recon_delta_t(sparam, events, dtm, i),
                dt_ref as int,
            );
        }
    }
    assert(m.holds_inter_block(&prev, sparam, dtm, dt_ref, events));
}

/// The state behind an inverted intra block exists for all residuals that
/// can be inverted.
pub proof fn lemma_intra_decoded_exists(
    prev: PredictionModel,
    head_t: AbsoluteT,
    head_d: D,
    sparam: u8,
    dt_ref: DeltaT,
)
    requires
        spec_inverse_intra_valid(
            prev.time_modulation_mode,
            head_t,
            head_d,
            prev.d_residuals@,
            prev.dt_pred_residuals_i16@,
            sparam,
            dt_ref,
        ),
    ensures
        spec_intra_decoded(prev, head_t, head_d, sparam, dt_ref).holds_inverted_intra(
            &prev,
            head_t,
            head_d,
            sparam,
            dt_ref,
        ),
{
    let zero = EventCoordless { d: 0, delta_t: 0 };
    let mode = prev.time_modulation_mode;
    let times = Seq::new(
        BLOCK_SIZE_AREA as nat,
        |i: int|
            (match spec_inverse_intra_event(
                head_t,
                head_d,
                prev.d_residuals[i],
                prev.dt_pred_residuals_i16[i],
                sparam,
            ) {
                Some(e) => spec_commit_time(e.delta_t as int, dt_ref as int, mode),
                None => 0,
            }) as u32,
    );
    let m = PredictionModel {
        t_memory: lemma_array_from_seq(times),
        event_memory: lemma_array_from_seq(Seq::new(BLOCK_SIZE_AREA as nat, |i: int| zero)),
        t_recon: lemma_array_from_seq(times),
        ..prev
    };
    assert forall|i: int| 0 <= i < BLOCK_SIZE_AREA implies #[trigger] m.t_recon[i] == (
    match spec_inverse_intra_event(
        head_t,
        head_d,
        prev.d_residuals[i],
        prev.dt_pred_residuals_i16[i],
        sparam,
    ) {
        Some(e) => spec_commit_time(e.delta_t as int, dt_ref as int, mode),
        None => 0,
    }) by {
        if prev.d_residuals@[i] != D_ENCODE_NO_EVENT {
            let t = spec_intra_recon_t(head_t, prev.dt_pred_residuals_i16@[i] as int, sparam);
            if mode == Mode::FramePerfect {
                lemma_round_up(t, dt_ref as int);
            }
        }
    }
    assert(m.holds_inverted_intra(&prev, head_t, head_d, sparam, dt_ref));
}

/// The state behind an inverted inter block exists for all residuals that
/// can be inverted.
pub proof fn lemma_inter_decoded_exists(
    prev: PredictionModel,
    sparam: u8,
    dtm: DeltaT,
    dt_ref: DeltaT,
)
    requires
        prev.inverse_inter_valid(sparam, dtm, dt_ref),
    ensures
        spec_inter_decoded(prev, sparam, dtm, dt_ref).holds_inverted_inter(
            &prev,
            sparam,
            dtm,
            dt_ref,
        ),
{
    let mode = prev.time_modulation_mode;
    let m = PredictionModel {
        event_memory: lemma_array_from_seq(
            Seq::new(BLOCK_SIZE_AREA as nat, |i: int| prev.inverse_inter_memory(sparam, dtm, i)),
        ),
        t_recon: lemma_array_from_seq(
            Seq::new(
                BLOCK_SIZE_AREA as nat,
                |i: int| prev.inverse_inter_t_recon(sparam, dtm, dt_ref, i) as u32,
            ),
        ),
        ..prev
    };
    assert forall|i: int| 0 <= i < BLOCK_SIZE_AREA implies #[trigger] m.t_recon[i]
        == prev.inverse_inter_t_recon(sparam, dtm, dt_ref, i) by {
        if prev.d_residuals[i] != D_ENCODE_NO_EVENT {
            if mode == Mode::FramePerfect {
                lemma_round_up(prev.t_recon[i] + prev.recon_delta_t(sparam, dtm, i), dt_ref as int);
            }
        }
    }
    assert(m.holds_inverted_inter(&prev, sparam, dtm, dt_ref));
}

} // verus!
