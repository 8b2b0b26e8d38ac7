//! The events of one access unit, as they are gathered before compression
//! and handed out after decompression.
//!
//! Events are kept per tile of 16x16 pixels. Within a tile, the first event
//! of every pixel goes to the tile's first block, its second event to the
//! second block, and so on: the first block is the one that is intra coded,
//! every later block is inter coded against the memory that the blocks
//! before it leave behind, and every pixel's events stay in their order.

use crate::adu::{
    Adu,
    AduChannelType,
    AduCube,
    AduInterBlock,
    AduIntraBlock,
};
use crate::layout::{BlockBodyView, CubeView, IntraBlockView};
use crate::prediction::{
    commit_time,
    lemma_fresh_exists,
    lemma_inter_coded_exists,
    lemma_inter_decoded_exists,
    lemma_inter_lossless,
    lemma_inter_round_trip,
    lemma_intra_coded_exists,
    lemma_intra_decoded_exists,
    lemma_intra_round_trip,
    lemma_loaded_exists,
    spec_commit_time,
    spec_fresh,
    spec_inter_coded,
    spec_inter_d_residual,
    spec_inter_decoded,
    spec_intra_coded,
    spec_intra_d_written,
    spec_intra_written,
    mark_intra_head,
    spec_intra_decoded,
    spec_intra_sparam,
    spec_intra_start,
    spec_intra_valid,
    spec_inverse_intra_event,
    spec_inverse_intra_valid,
    spec_loaded,
    BlockEvents,
    PredictionModel,
    BLOCK_SIZE_AREA,
    D_ENCODE_NO_EVENT,
};
use crate::types::{
    AbsoluteT,
    CodecError,
    Coord,
    DeltaT,
    Event,
    EventCoordless,
    Mode,
    PlaneSize,
};
use vstd::arithmetic::power2::pow2;
use vstd::prelude::*;

verus! {

/// The events of one tile of one color plane.
pub struct EventCube {
    pub idx_y: u16,
    pub idx_x: u16,
    /// The color plane of the tile: 0, 1 or 2.
    pub channel: u8,
    /// Block `k` holds the event number `k` of every pixel that has so
    /// many.
    pub blocks: Vec<BlockEvents>,
    /// How many events each pixel has.
    pub counts: [u16; BLOCK_SIZE_AREA],
}

/// A block without events.
pub open spec fn spec_empty_block() -> Seq<Option<EventCoordless>> {
    Seq::new(BLOCK_SIZE_AREA as nat, |i: int| None::<EventCoordless>)
}

impl EventCube {
    /// The tile lies in a plane of 16-bit coordinates, there is a first
    /// block, the blocks fit the 16-bit count of an access unit, and a
    /// pixel has an event in exactly the blocks below its count.
    pub open spec fn wf(&self) -> bool {
        &&& 1 <= self.blocks.len() <= 0xffff
        &&& self.channel <= 2
        &&& self.idx_y < 0x1000
        &&& self.idx_x < 0x1000
        &&& forall|p: int| 0 <= p < BLOCK_SIZE_AREA ==> #[trigger] self.counts[p] <= self.blocks.len()
        &&& forall|k: int, p: int|
            0 <= k < self.blocks.len() && 0 <= p < BLOCK_SIZE_AREA ==> ((
            #[trigger] self.blocks[k][p]) is Some <==> k < self.counts[p])
    }

    /// What block `k` holds, a block without events where there is no block
    /// `k` yet.
    pub open spec fn spec_block(&self, k: int) -> Seq<Option<EventCoordless>> {
        if 0 <= k < self.blocks.len() {
            self.blocks[k]@
        } else {
            spec_empty_block()
        }
    }

    /// A cube of the tile (`idx_y`, `idx_x`) of a color plane, with the
    /// first event of its pixel `pixel`.
    pub fn with_event(idx_y: u16, idx_x: u16, channel: u8, pixel: usize, event: EventCoordless) -> (r:
        Self)
        requires
            pixel < BLOCK_SIZE_AREA,
            channel <= 2,
            idx_y < 0x1000,
            idx_x < 0x1000,
        ensures
            r.wf(),
            r.idx_y == idx_y,
            r.idx_x == idx_x,
            r.channel == channel,
            r.blocks.len() == 1,
            r.blocks[0]@ == spec_empty_block().update(pixel as int, Some(event)),
            r.counts@ == Seq::new(BLOCK_SIZE_AREA as nat, |i: int| 0u16).update(pixel as int, 1u16),
    {
        let mut block: BlockEvents = [None; BLOCK_SIZE_AREA];
        block[pixel] = Some(event);
        let mut blocks: Vec<BlockEvents> = Vec::new();
        blocks.push(block);
        let mut counts: [u16; BLOCK_SIZE_AREA] = [0u16; BLOCK_SIZE_AREA];
        counts[pixel] = 1;
        assert(blocks[0]@ =~= spec_empty_block().update(pixel as int, Some(event)));
        assert(counts@ =~= Seq::new(BLOCK_SIZE_AREA as nat, |i: int| 0u16).update(
            pixel as int,
            1u16,
        ));
        EventCube { idx_y, idx_x, channel, blocks, counts }
    }

    /// The time of the last event of a pixel, if it has one.
    pub fn last_time(&self, pixel: usize) -> (r: Option<AbsoluteT>)
        requires
            self.wf(),
            pixel < BLOCK_SIZE_AREA,
        ensures
            self.counts[pixel as int] == 0 ==> r is None,
            self.counts[pixel as int] > 0 ==> r == Some(
                self.blocks[self.counts[pixel as int] - 1][pixel as int]->0.delta_t,
            ),
    {
        let n: u16 = self.counts[pixel];
        if n == 0 {
            None
        } else {
            let k: usize = (n - 1) as usize;
            assert(self.blocks[k as int][pixel as int] is Some);
            match self.blocks[k][pixel] {
                Some(e) => Some(e.delta_t),
                None => None,
            }
        }
    }

    /// Stores the next event of a pixel, in the block of its number, unless
    /// the pixel has `max_blocks` events already. Returns whether the event
    /// was stored.
    pub fn ingest(&mut self, pixel: usize, event: EventCoordless, max_blocks: usize) -> (r: bool)
        requires
            old(self).wf(),
            pixel < BLOCK_SIZE_AREA,
            max_blocks <= 0xffff,
        ensures
            final(self).wf(),
            final(self).idx_y == old(self).idx_y,
            final(self).idx_x == old(self).idx_x,
            final(self).channel == old(self).channel,
            r == (old(self).counts[pixel as int] < max_blocks),
            !r ==> *final(self) == *old(self),
            r ==> {
                let k = old(self).counts[pixel as int] as int;
                &&& final(self).counts@ == old(self).counts@.update(pixel as int, (k + 1) as u16)
                &&& final(self).blocks.len() == (if k == old(self).blocks.len() {
                    k + 1
                } else {
                    old(self).blocks.len() as int
                })
                &&& forall|j: int|
                    0 <= j < final(self).blocks.len() ==> #[trigger] final(self).blocks[j]@ == (
                    if j == k {
                        old(self).spec_block(k).update(pixel as int, Some(event))
                    } else {
                        old(self).blocks[j]@
                    })
            },
    {
        let k: usize = self.counts[pixel] as usize;
        if k >= max_blocks {
            return false;
        }
        if k == self.blocks.len() {
            let mut block: BlockEvents = [None; BLOCK_SIZE_AREA];
            block[pixel] = Some(event);
            assert(block@ =~= spec_empty_block().update(pixel as int, Some(event)));
            self.blocks.push(block);
        } else {
            let mut block: BlockEvents = self.blocks[k];
            block[pixel] = Some(event);
            self.blocks[k] = block;
        }
        self.counts[pixel] = (k + 1) as u16;
        proof {
            assert forall|q: int, j: int|
                0 <= j < self.blocks.len() && 0 <= q < BLOCK_SIZE_AREA implies ((
            #[trigger] self.blocks[j][q]) is Some <==> j < self.counts[q]) by {
                if j < old(self).blocks.len() {
                    assert(old(self).blocks[j][q] is Some <==> j < old(self).counts[q]);
                }
                if q != pixel {
                    assert(old(self).counts[q] <= old(self).blocks.len());
                }
            }
        }
        true
    }
}

/// The pixel of a block that a coordinate falls on, in row-major order.
pub open spec fn spec_pixel_of(coord: Coord) -> int {
    (coord.y % 16) * 16 + coord.x % 16
}

/// The color plane of a coordinate: the first where it names none.
pub open spec fn spec_channel_of(coord: Coord) -> u8 {
    match coord.c {
        Some(c) => c,
        None => 0,
    }
}

/// The events of one access unit.
pub struct EventAdu {
    pub plane: PlaneSize,
    /// The time at which the unit's window begins.
    pub start_t: AbsoluteT,
    /// Ticks per reference interval.
    pub dt_ref: DeltaT,
    /// Number of reference intervals in the unit's window.
    pub num_intervals: usize,
    /// How the source aligns its event times.
    pub mode: Mode,
    /// The largest tick count between two events of a pixel.
    pub dtm: DeltaT,
    /// The largest number of inter blocks of a cube.
    pub max_inter_blocks: u16,
    /// The tiles that hold an event, in the order of their first events.
    pub cubes: Vec<EventCube>,
    /// The number of events gathered.
    pub num_events: usize,
    /// The events that were decompressed, in the order they are handed
    /// out.
    pub decoded: Vec<Event>,
    /// How many of the decompressed events were handed out.
    pub next_decoded: usize,
}

impl EventAdu {
    /// Every cube is well formed and lies in a color plane of its own tile;
    /// no two cubes share a tile and plane.
    pub open spec fn wf(&self) -> bool {
        &&& self.next_decoded <= self.decoded.len()
        &&& self.cubes.len() <= u16::MAX
        &&& self.max_inter_blocks < u16::MAX
        &&& forall|i: int| 0 <= i < self.cubes.len() ==> (#[trigger] self.cubes[i]).wf()
        &&& forall|i: int, j: int|
            0 <= i < j < self.cubes.len() ==> !((#[trigger] self.cubes[i]).idx_y == (
            #[trigger] self.cubes[j]).idx_y && self.cubes[i].idx_x == self.cubes[j].idx_x
                && self.cubes[i].channel == self.cubes[j].channel)
    }

    /// An access unit without events, whose window begins at `start_t` and
    /// spans `num_intervals` reference intervals of `dt_ref` ticks.
    pub fn new(plane: PlaneSize, start_t: AbsoluteT, dt_ref: DeltaT, num_intervals: usize) -> (r:
        Self)
        ensures
            r.wf(),
            r.plane == plane,
            r.start_t == start_t,
            r.dt_ref == dt_ref,
            r.num_intervals == num_intervals,
            r.mode == Mode::Continuous,
            r.dtm == u32::MAX,
            r.max_inter_blocks == u16::MAX - 1,
            r.cubes@.len() == 0,
            r.num_events == 0,
            r.decoded@.len() == 0,
            r.next_decoded == 0,
    {
        EventAdu {
            plane,
            start_t,
            dt_ref,
            num_intervals,
            mode: Mode::Continuous,
            dtm: u32::MAX,
            max_inter_blocks: u16::MAX - 1,
            cubes: Vec::new(),
            num_events: 0,
            decoded: Vec::new(),
            next_decoded: 0,
        }
    }

    /// Whether the unit holds no event to compress.
    pub fn is_empty(&self) -> (r: bool)
        ensures
            r == (self.cubes@.len() == 0),
    {
        self.cubes.len() == 0
    }

    /// Whether every decompressed event was handed out.
    pub fn decoder_is_empty(&self) -> (r: bool)
        requires
            self.wf(),
        ensures
            r == (self.next_decoded == self.decoded.len()),
    {
        self.next_decoded >= self.decoded.len()
    }

    /// Whether the unit can take an event at this coordinate: it lies in
    /// the plane, in one of at most three color planes.
    pub open spec fn spec_accepts(&self, coord: Coord) -> bool {
        &&& coord.x < self.plane.width
        &&& coord.y < self.plane.height
        &&& spec_channel_of(coord) < self.plane.channels
        &&& spec_channel_of(coord) <= 2
    }

    /// Whether the unit can take an event at this coordinate.
    pub fn accepts(&self, coord: &Coord) -> (r: bool)
        ensures
            r == self.spec_accepts(*coord),
    {
        let c: u8 = match coord.c {
            Some(c) => c,
            None => 0,
        };
        coord.x < self.plane.width && coord.y < self.plane.height && c < self.plane.channels && c
            <= 2
    }

    /// The index of the cube of a tile and color plane, or the number of
    /// cubes where the tile has none.
    pub fn find_cube(&self, idx_y: u16, idx_x: u16, channel: u8) -> (r: usize)
        ensures
            r <= self.cubes.len(),
            r < self.cubes.len() ==> self.cubes[r as int].idx_y == idx_y && self.cubes[r as int].idx_x
                == idx_x && self.cubes[r as int].channel == channel,
            forall|i: int|
                0 <= i < r ==> !((#[trigger] self.cubes[i]).idx_y == idx_y && self.cubes[i].idx_x
                    == idx_x && self.cubes[i].channel == channel),
    {
        let mut i: usize = 0;
        while i < self.cubes.len()
            invariant
                i <= self.cubes.len(),
                forall|j: int|
                    0 <= j < i ==> !((#[trigger] self.cubes[j]).idx_y == idx_y
                        && self.cubes[j].idx_x == idx_x && self.cubes[j].channel == channel),
            decreases self.cubes.len() - i,
        {
            if self.cubes[i].idx_y == idx_y && self.cubes[i].idx_x == idx_x && self.cubes[i].channel
                == channel {
                return i;
            }
            i += 1;
        }
        i
    }
}


/// The shift an encoder offers every block; a block raises it as far as its
/// residuals need.
pub const SPARAM_OFFERED: u8 = 0;

/// What each of a list of blocks holds.
pub open spec fn spec_block_views(blocks: Seq<BlockEvents>) -> Seq<Seq<Option<EventCoordless>>> {
    Seq::new(blocks.len(), |k: int| blocks[k]@)
}

/// The state of an encoder that has coded the blocks `0..=k` of a cube: the
/// first intra, the others inter, each against the state before it.
pub open spec fn spec_encoder_state(
    blocks: Seq<Seq<Option<EventCoordless>>>,
    mode: Mode,
    dtm: DeltaT,
    dt_ref: DeltaT,
    k: int,
) -> PredictionModel
    decreases k,
{
    if k <= 0 {
        spec_intra_coded(mode, SPARAM_OFFERED, dt_ref, blocks[0])
    } else {
        spec_inter_coded(
            spec_encoder_state(blocks, mode, dtm, dt_ref, k - 1),
            SPARAM_OFFERED,
            dtm,
            dt_ref,
            blocks[k],
        )
    }
}

/// The first `n` blocks of a cube can be coded.
pub open spec fn spec_codable(
    blocks: Seq<Seq<Option<EventCoordless>>>,
    mode: Mode,
    dtm: DeltaT,
    dt_ref: DeltaT,
    n: int,
) -> bool
    decreases n,
{
    if n <= 0 {
        true
    } else if n == 1 {
        spec_intra_valid(mode, SPARAM_OFFERED, dt_ref, dtm, blocks[0])
    } else {
        spec_codable(blocks, mode, dtm, dt_ref, n - 1) && spec_encoder_state(
            blocks,
            mode,
            dtm,
            dt_ref,
            n - 2,
        ).inter_valid(SPARAM_OFFERED, dtm, dt_ref, blocks[n - 1])
    }
}

/// The intra block written for the first block of a cube: what the
/// prediction leaves, with zero in the slot of the head's own pixel.
pub open spec fn spec_coded_intra(
    blocks: Seq<Seq<Option<EventCoordless>>>,
    mode: Mode,
    dtm: DeltaT,
    dt_ref: DeltaT,
) -> IntraBlockView {
    let m = spec_encoder_state(blocks, mode, dtm, dt_ref, 0);
    IntraBlockView {
        head_event_d: spec_intra_start(blocks[0]).d,
        head_event_t: spec_intra_start(blocks[0]).delta_t,
        body: BlockBodyView {
            shift_loss_param: 0,
            sparam: spec_intra_sparam(SPARAM_OFFERED, blocks[0]),
            d_residuals: spec_intra_written(blocks[0]),
            t_residuals: m.dt_pred_residuals_i16@,
        },
    }
}

/// The inter block written for block `k >= 1` of a cube.
pub open spec fn spec_coded_inter(
    blocks: Seq<Seq<Option<EventCoordless>>>,
    mode: Mode,
    dtm: DeltaT,
    dt_ref: DeltaT,
    k: int,
) -> BlockBodyView {
    let prev = spec_encoder_state(blocks, mode, dtm, dt_ref, k - 1);
    let m = spec_encoder_state(blocks, mode, dtm, dt_ref, k);
    BlockBodyView {
        shift_loss_param: 0,
        sparam: prev.inter_sparam(SPARAM_OFFERED, blocks[k], dtm),
        d_residuals: m.d_residuals@,
        t_residuals: m.dt_pred_residuals_i16@,
    }
}

/// What is written for a cube: its tile index, its first block intra
/// coded, every later block inter coded.
pub open spec fn spec_coded_cube(
    idx_y: u16,
    idx_x: u16,
    blocks: Seq<Seq<Option<EventCoordless>>>,
    mode: Mode,
    dtm: DeltaT,
    dt_ref: DeltaT,
) -> CubeView {
    CubeView {
        idx_y,
        idx_x,
        intra_block: spec_coded_intra(blocks, mode, dtm, dt_ref),
        inter_blocks: Seq::new(
            (blocks.len() - 1) as nat,
            |j: int| spec_coded_inter(blocks, mode, dtm, dt_ref, j + 1),
        ),
    }
}

/// The state of a decoder that has inverted the blocks `0..=k` of a cube.
pub open spec fn spec_decoder_state(
    cube: CubeView,
    mode: Mode,
    dtm: DeltaT,
    dt_ref: DeltaT,
    k: int,
) -> PredictionModel
    decreases k,
{
    if k <= 0 {
        spec_intra_decoded(
            spec_loaded(
                spec_fresh(mode),
                cube.intra_block.body.d_residuals,
                cube.intra_block.body.t_residuals,
            ),
            cube.intra_block.head_event_t,
            cube.intra_block.head_event_d,
            cube.intra_block.body.sparam,
            dt_ref,
        )
    } else {
        spec_inter_decoded(
            spec_decoder_input(cube, mode, dtm, dt_ref, k),
            cube.inter_blocks[k - 1].sparam,
            dtm,
            dt_ref,
        )
    }
}

/// The state in which a decoder inverts block `k >= 1` of a cube: the one
/// it reached behind block `k - 1`, with the residuals of block `k` in its
/// buffers.
pub open spec fn spec_decoder_input(
    cube: CubeView,
    mode: Mode,
    dtm: DeltaT,
    dt_ref: DeltaT,
    k: int,
) -> PredictionModel
    decreases k, 0int,
{
    if k <= 0 {
        spec_fresh(mode)
    } else {
        spec_loaded(
            spec_decoder_state(cube, mode, dtm, dt_ref, k - 1),
            cube.inter_blocks[k - 1].d_residuals,
            cube.inter_blocks[k - 1].t_residuals,
        )
    }
}

/// The first `n` blocks of a cube can be inverted.
pub open spec fn spec_decodable(
    cube: CubeView,
    mode: Mode,
    dtm: DeltaT,
    dt_ref: DeltaT,
    n: int,
) -> bool
    decreases n,
{
    if n <= 0 {
        true
    } else if n == 1 {
        spec_inverse_intra_valid(
            mode,
            cube.intra_block.head_event_t,
            cube.intra_block.head_event_d,
            cube.intra_block.body.d_residuals,
            cube.intra_block.body.t_residuals,
            cube.intra_block.body.sparam,
            dt_ref,
        )
    } else {
        spec_decodable(cube, mode, dtm, dt_ref, n - 1) && spec_decoder_input(
            cube,
            mode,
            dtm,
            dt_ref,
            n - 1,
        ).inverse_inter_valid(cube.inter_blocks[n - 2].sparam, dtm, dt_ref)
    }
}

/// The events a decoder finds in block `k` of a cube.
pub open spec fn spec_decoded_block(
    cube: CubeView,
    mode: Mode,
    dtm: DeltaT,
    dt_ref: DeltaT,
    k: int,
) -> Seq<Option<EventCoordless>> {
    if k <= 0 {
        Seq::new(
            BLOCK_SIZE_AREA as nat,
            |i: int|
                spec_inverse_intra_event(
                    cube.intra_block.head_event_t,
                    cube.intra_block.head_event_d,
                    cube.intra_block.body.d_residuals[i],
                    cube.intra_block.body.t_residuals[i],
                    cube.intra_block.body.sparam,
                ),
        )
    } else {
        Seq::new(
            BLOCK_SIZE_AREA as nat,
            |i: int|
                spec_decoder_input(cube, mode, dtm, dt_ref, k).inverse_inter_event(
                    cube.inter_blocks[k - 1].sparam,
                    dtm,
                    i,
                ),
        )
    }
}

impl EventCube {
    /// Codes the cube: the first block intra, every later block inter
    /// against the memory that the blocks before it leave behind.
    ///
    /// Fails exactly where one of the blocks cannot be coded.
    pub fn compress(&self, mode: Mode, dtm: DeltaT, dt_ref: DeltaT) -> (r: Result<
        AduCube,
        CodecError,
    >)
        requires
            self.wf(),
        ensures
            r is Ok <==> spec_codable(
                spec_block_views(self.blocks@),
                mode,
                dtm,
                dt_ref,
                self.blocks.len() as int,
            ),
            r is Err ==> r == Err::<AduCube, CodecError>(CodecError::MalformedEncoder),
            r matches Ok(cube) ==> cube.wf() && cube@ == spec_coded_cube(
                self.idx_y,
                self.idx_x,
                spec_block_views(self.blocks@),
                mode,
                dtm,
                dt_ref,
            ),
    {
        let ghost views = spec_block_views(self.blocks@);
        let mut model = PredictionModel::new(mode);
        let (head_event_t, head_event_d, sparam) = match model.forward_intra_prediction(
            SPARAM_OFFERED,
            dt_ref,
            dtm,
            &self.blocks[0],
        ) {
            Ok(out) => out,
            Err(_) => {
                proof {
                    assert(views[0] == self.blocks[0]@);
                    assert(!spec_codable(views, mode, dtm, dt_ref, 1));
                    lemma_codable_prefix(views, mode, dtm, dt_ref, 1, self.blocks.len() as int);
                }
                return Err(CodecError::MalformedEncoder);
            },
        };
        assert(views[0] == self.blocks[0]@);
        let intra_block = AduIntraBlock {
            head_event_t,
            head_event_d,
            shift_loss_param: 0,
            sparam,
            d_residuals: mark_intra_head(&model.d_residuals, &self.blocks[0]),
            dt_residuals: model.dt_pred_residuals_i16,
        };
        proof {
            assert forall|i: int| 0 <= i < BLOCK_SIZE_AREA implies -255
                <= #[trigger] intra_block.d_residuals@[i] <= D_ENCODE_NO_EVENT by {
                assert(intra_block.d_residuals@[i] == spec_intra_d_written(views[0], i));
            }
        }
        let mut cube = AduCube::from_intra_block(intra_block, self.idx_y, self.idx_x);
        let mut k: usize = 1;
        while k < self.blocks.len()
            invariant
                1 <= k <= self.blocks.len(),
                self.wf(),
                views == spec_block_views(self.blocks@),
                model == spec_encoder_state(views, mode, dtm, dt_ref, k - 1),
                spec_codable(views, mode, dtm, dt_ref, k as int),
                cube.wf(),
                cube.idx_y == self.idx_y,
                cube.idx_x == self.idx_x,
                cube.intra_block@ == spec_coded_intra(views, mode, dtm, dt_ref),
                cube.inter_blocks.len() == k - 1,
                forall|j: int|
                    0 <= j < k - 1 ==> (#[trigger] cube.inter_blocks[j])@ == spec_coded_inter(
                        views,
                        mode,
                        dtm,
                        dt_ref,
                        j + 1,
                    ),
            decreases self.blocks.len() - k,
        {
            let ghost prev = model;
            assert(views[k as int] == self.blocks[k as int]@);
            if !model.fits_tick_bound(&self.blocks[k], dtm) {
                proof {
                    assert(!model.inter_valid(SPARAM_OFFERED, dtm, dt_ref, views[k as int]));
                    assert(!spec_codable(views, mode, dtm, dt_ref, k + 1));
                    lemma_codable_prefix(views, mode, dtm, dt_ref, k + 1, self.blocks.len() as int);
                }
                return Err(CodecError::MalformedEncoder);
            }
            let s = match model.forward_inter_prediction(
                SPARAM_OFFERED,
                dtm,
                dt_ref,
                &self.blocks[k],
            ) {
                Ok(s) => s,
                Err(_) => {
                    proof {
                        assert(!spec_codable(views, mode, dtm, dt_ref, k + 1));
                        lemma_codable_prefix(
                            views,
                            mode,
                            dtm,
                            dt_ref,
                            k + 1,
                            self.blocks.len() as int,
                        );
                    }
                    return Err(CodecError::MalformedEncoder);
                },
            };
            let block = AduInterBlock {
                shift_loss_param: 0,
                sparam: s,
                d_residuals: model.d_residuals,
                t_residuals: model.dt_pred_residuals_i16,
            };
            proof {
                assert(model == spec_encoder_state(views, mode, dtm, dt_ref, k as int));
                assert forall|i: int| 0 <= i < BLOCK_SIZE_AREA implies -255
                    <= #[trigger] block.d_residuals@[i] <= D_ENCODE_NO_EVENT by {
                    assert(model.d_residuals[i] == spec_inter_d_residual(
                        prev.event_memory[i],
                        views[k as int][i],
                    ));
                }
                assert(block@ == spec_coded_inter(views, mode, dtm, dt_ref, k as int));
            }
            cube.add_inter_block(block);
            k += 1;
        }
        proof {
            let want = spec_coded_cube(self.idx_y, self.idx_x, views, mode, dtm, dt_ref);
            assert(cube@.inter_blocks =~= want.inter_blocks) by {
                assert forall|j: int| 0 <= j < cube@.inter_blocks.len() implies cube@.inter_blocks[j]
                    == want.inter_blocks[j] by {
                    assert(cube@.inter_blocks[j] == cube.inter_blocks[j]@);
                }
            }
        }
        Ok(cube)
    }

    /// Inverts a coded cube: the events of its blocks, in their order.
    ///
    /// Fails exactly where one of the blocks cannot be inverted.
    pub fn decompress(cube: &AduCube, mode: Mode, dtm: DeltaT, dt_ref: DeltaT) -> (r: Result<
        Vec<BlockEvents>,
        CodecError,
    >)
        requires
            cube.wf(),
        ensures
            r is Ok <==> spec_decodable(cube@, mode, dtm, dt_ref, 1 + cube.inter_blocks.len()),
            r is Err ==> r == Err::<Vec<BlockEvents>, CodecError>(CodecError::Deserialize),
            r matches Ok(blocks) ==> {
                &&& blocks.len() == 1 + cube.inter_blocks.len()
                &&& forall|k: int|
                    0 <= k < blocks.len() ==> #[trigger] blocks[k]@ == spec_decoded_block(
                        cube@,
                        mode,
                        dtm,
                        dt_ref,
                        k,
                    )
            },
    {
        let ghost view = cube@;
        let mut model = PredictionModel::new(mode);
        model.load_residuals(cube.intra_block.d_residuals, cube.intra_block.dt_residuals);
        let first = match model.inverse_intra_prediction(
            cube.intra_block.head_event_t,
            cube.intra_block.head_event_d,
            cube.intra_block.sparam,
            dt_ref,
        ) {
            Ok(events) => events,
            Err(_) => {
                proof {
                    assert(!spec_decodable(view, mode, dtm, dt_ref, 1));
                    lemma_decodable_prefix(
                        view,
                        mode,
                        dtm,
                        dt_ref,
                        1,
                        1 + cube.inter_blocks.len(),
                    );
                }
                return Err(CodecError::Deserialize);
            },
        };
        let mut blocks: Vec<BlockEvents> = Vec::new();
        blocks.push(first);
        assert(blocks[0]@ =~= spec_decoded_block(view, mode, dtm, dt_ref, 0));
        let mut k: usize = 1;
        while k < 1 + cube.inter_blocks.len()
            invariant
                1 <= k <= 1 + cube.inter_blocks.len(),
                cube.wf(),
                view == cube@,
                model == spec_decoder_state(view, mode, dtm, dt_ref, k - 1),
                spec_decodable(view, mode, dtm, dt_ref, k as int),
                blocks.len() == k,
                forall|j: int|
                    0 <= j < k ==> #[trigger] blocks[j]@ == spec_decoded_block(
                        view,
                        mode,
                        dtm,
                        dt_ref,
                        j,
                    ),
            decreases 1 + cube.inter_blocks.len() - k,
        {
            let b = &cube.inter_blocks[k - 1];
            assert(view.inter_blocks[k - 1] == cube.inter_blocks[k - 1]@);
            model.load_residuals(b.d_residuals, b.t_residuals);
            assert(model == spec_decoder_input(view, mode, dtm, dt_ref, k as int));
            let events = match model.inverse_inter_prediction(b.sparam, dtm, dt_ref) {
                Ok(events) => events,
                Err(_) => {
                    proof {
                        assert(!spec_decodable(view, mode, dtm, dt_ref, k + 1));
                        lemma_decodable_prefix(
                            view,
                            mode,
                            dtm,
                            dt_ref,
                            k + 1,
                            1 + cube.inter_blocks.len(),
                        );
                    }
                    return Err(CodecError::Deserialize);
                },
            };
            assert(events@ =~= spec_decoded_block(view, mode, dtm, dt_ref, k as int));
            blocks.push(events);
            k += 1;
        }
        Ok(blocks)
    }
}

/// Blocks that can be coded can be coded up to any point.
pub proof fn lemma_codable_prefix(
    blocks: Seq<Seq<Option<EventCoordless>>>,
    mode: Mode,
    dtm: DeltaT,
    dt_ref: DeltaT,
    k: int,
    n: int,
)
    requires
        0 <= k <= n,
        !spec_codable(blocks, mode, dtm, dt_ref, k),
    ensures
        !spec_codable(blocks, mode, dtm, dt_ref, n),
    decreases n - k,
{
    if k < n {
        lemma_codable_prefix(blocks, mode, dtm, dt_ref, k, n - 1);
    }
}

/// Blocks that can be inverted can be inverted up to any point.
pub proof fn lemma_decodable_prefix(
    cube: CubeView,
    mode: Mode,
    dtm: DeltaT,
    dt_ref: DeltaT,
    k: int,
    n: int,
)
    requires
        0 <= k <= n,
        !spec_decodable(cube, mode, dtm, dt_ref, k),
    ensures
        !spec_decodable(cube, mode, dtm, dt_ref, n),
    decreases n - k,
{
    if k < n {
        lemma_decodable_prefix(cube, mode, dtm, dt_ref, k, n - 1);
    }
}


/// What a decoder finds for pixel `p` of block `k` is the event that went
/// in, but for the loss of the block's shift in its time.
pub open spec fn spec_decoded_matches(
    decoded: Option<EventCoordless>,
    event: Option<EventCoordless>,
) -> bool {
    match event {
        Some(e) => decoded is Some && decoded->0.d == e.d,
        None => decoded is None,
    }
}

/// A cube that was coded is decoded block by block into the events that
/// went in: every block can be inverted, a pixel has an event in a block
/// behind the decoder exactly where it had one before the encoder, the
/// decimations are the same, and the decoder ends every block in the
/// reconstructed state of the encoder.
pub proof fn lemma_cube_round_trip(
    idx_y: u16,
    idx_x: u16,
    blocks: Seq<Seq<Option<EventCoordless>>>,
    mode: Mode,
    dtm: DeltaT,
    dt_ref: DeltaT,
    k: int,
)
    requires
        0 <= k < blocks.len(),
        forall|j: int| 0 <= j < blocks.len() ==> (#[trigger] blocks[j]).len() == BLOCK_SIZE_AREA,
        spec_codable(blocks, mode, dtm, dt_ref, k + 1),
    ensures
        spec_decodable(
            spec_coded_cube(idx_y, idx_x, blocks, mode, dtm, dt_ref),
            mode,
            dtm,
            dt_ref,
            k + 1,
        ),
        spec_decoder_state(
            spec_coded_cube(idx_y, idx_x, blocks, mode, dtm, dt_ref),
            mode,
            dtm,
            dt_ref,
            k,
        ).event_memory == spec_encoder_state(blocks, mode, dtm, dt_ref, k).event_memory,
        spec_decoder_state(
            spec_coded_cube(idx_y, idx_x, blocks, mode, dtm, dt_ref),
            mode,
            dtm,
            dt_ref,
            k,
        ).t_recon == spec_encoder_state(blocks, mode, dtm, dt_ref, k).t_recon,
        spec_decoder_state(
            spec_coded_cube(idx_y, idx_x, blocks, mode, dtm, dt_ref),
            mode,
            dtm,
            dt_ref,
            k,
        ).time_modulation_mode == mode,
        spec_encoder_state(blocks, mode, dtm, dt_ref, k).time_modulation_mode == mode,
        forall|p: int|
            0 <= p < BLOCK_SIZE_AREA ==> spec_decoded_matches(
                #[trigger] spec_decoded_block(
                    spec_coded_cube(idx_y, idx_x, blocks, mode, dtm, dt_ref),
                    mode,
                    dtm,
                    dt_ref,
                    k,
                )[p],
                blocks[k][p],
            ),
    decreases k,
{
    let cube = spec_coded_cube(idx_y, idx_x, blocks, mode, dtm, dt_ref);
    let enc = spec_encoder_state(blocks, mode, dtm, dt_ref, k);
    let dec = spec_decoder_state(cube, mode, dtm, dt_ref, k);
    let decoded = spec_decoded_block(cube, mode, dtm, dt_ref, k);
    lemma_fresh_exists(mode);
    if k == 0 {
        let events = blocks[0];
        lemma_intra_coded_exists(mode, SPARAM_OFFERED, dt_ref, dtm, events);
        let head = spec_intra_start(events);
        let s = spec_intra_sparam(SPARAM_OFFERED, events);
        lemma_loaded_exists(
            spec_fresh(mode),
            spec_intra_written(events),
            enc.dt_pred_residuals_i16@,
        );
        let pre = spec_loaded(
            spec_fresh(mode),
            spec_intra_written(events),
            enc.dt_pred_residuals_i16@,
        );
        assert(pre.d_residuals@ =~= spec_intra_written(events));
        assert(pre.dt_pred_residuals_i16 =~= enc.dt_pred_residuals_i16);
        lemma_intra_round_trip(enc, SPARAM_OFFERED, dt_ref, dtm, events, 0);
        lemma_intra_decoded_exists(pre, head.delta_t, head.d, s, dt_ref);
        assert forall|p: int| 0 <= p < BLOCK_SIZE_AREA implies spec_decoded_matches(
            #[trigger] decoded[p],
            blocks[k][p],
        ) && dec.t_recon[p] == enc.t_recon[p] && dec.event_memory[p] == enc.event_memory[p] by {
            lemma_intra_round_trip(enc, SPARAM_OFFERED, dt_ref, dtm, events, p);
        }
        assert(dec.t_recon =~= enc.t_recon);
        assert(dec.event_memory =~= enc.event_memory);
    } else {
        lemma_cube_round_trip(idx_y, idx_x, blocks, mode, dtm, dt_ref, k - 1);
        let events = blocks[k];
        let enc_prev = spec_encoder_state(blocks, mode, dtm, dt_ref, k - 1);
        let dec_prev = spec_decoder_state(cube, mode, dtm, dt_ref, k - 1);
        lemma_inter_coded_exists(enc_prev, SPARAM_OFFERED, dtm, dt_ref, events);
        let s = enc_prev.inter_sparam(SPARAM_OFFERED, events, dtm);
        assert(cube.inter_blocks[k - 1] == spec_coded_inter(blocks, mode, dtm, dt_ref, k));
        lemma_loaded_exists(dec_prev, enc.d_residuals@, enc.dt_pred_residuals_i16@);
        let pre = spec_decoder_input(cube, mode, dtm, dt_ref, k);
        assert(pre.d_residuals =~= enc.d_residuals);
        assert(pre.dt_pred_residuals_i16 =~= enc.dt_pred_residuals_i16);
        lemma_inter_round_trip(enc_prev, enc, pre, SPARAM_OFFERED, dtm, dt_ref, events, 0);
        lemma_inter_decoded_exists(pre, s, dtm, dt_ref);
        assert forall|p: int| 0 <= p < BLOCK_SIZE_AREA implies spec_decoded_matches(
            #[trigger] decoded[p],
            blocks[k][p],
        ) && dec.t_recon[p] == enc.t_recon[p] && dec.event_memory[p] == enc.event_memory[p] by {
            lemma_inter_round_trip(enc_prev, enc, pre, SPARAM_OFFERED, dtm, dt_ref, events, p);
        }
        assert(dec.t_recon =~= enc.t_recon);
        assert(dec.event_memory =~= enc.event_memory);
    }
}


/// The coordinate of pixel `p` of the tile (`idx_y`, `idx_x`).
pub open spec fn spec_coord_of(idx_y: u16, idx_x: u16, channel: u8, colors: u8, p: int) -> Coord {
    Coord {
        x: (idx_x * 16 + p % 16) as u16,
        y: (idx_y * 16 + p / 16) as u16,
        c: if colors <= 1 {
            None
        } else {
            Some(channel)
        },
    }
}

/// The events of the first `n` pixels of a block, in row-major order.
pub open spec fn spec_block_events(
    block: Seq<Option<EventCoordless>>,
    idx_y: u16,
    idx_x: u16,
    channel: u8,
    colors: u8,
    n: int,
) -> Seq<Event>
    decreases n,
{
    if n <= 0 {
        Seq::empty()
    } else {
        let before = spec_block_events(block, idx_y, idx_x, channel, colors, n - 1);
        match block[n - 1] {
            Some(e) => before.push(
                Event {
                    coord: spec_coord_of(idx_y, idx_x, channel, colors, n - 1),
                    d: e.d,
                    t: e.delta_t,
                },
            ),
            None => before,
        }
    }
}

/// The events of the first `n` blocks of a cube, block by block.
pub open spec fn spec_cube_events(
    blocks: Seq<Seq<Option<EventCoordless>>>,
    idx_y: u16,
    idx_x: u16,
    channel: u8,
    colors: u8,
    n: int,
) -> Seq<Event>
    decreases n,
{
    if n <= 0 {
        Seq::empty()
    } else {
        spec_cube_events(blocks, idx_y, idx_x, channel, colors, n - 1) + spec_block_events(
            blocks[n - 1],
            idx_y,
            idx_x,
            channel,
            colors,
            BLOCK_SIZE_AREA as int,
        )
    }
}

/// The blocks a decoder finds in a cube.
pub open spec fn spec_decoded_blocks(cube: CubeView, mode: Mode, dtm: DeltaT, dt_ref: DeltaT) -> Seq<
    Seq<Option<EventCoordless>>,
> {
    Seq::new(
        (1 + cube.inter_blocks.len()) as nat,
        |k: int| spec_decoded_block(cube, mode, dtm, dt_ref, k),
    )
}

/// A cube can be turned into events: its tile lies within 16-bit
/// coordinates, and all its blocks can be inverted.
pub open spec fn spec_cube_readable(cube: CubeView, mode: Mode, dtm: DeltaT, dt_ref: DeltaT) -> bool {
    &&& cube.idx_y < 0x1000
    &&& cube.idx_x < 0x1000
    &&& spec_decodable(cube, mode, dtm, dt_ref, 1 + cube.inter_blocks.len() as int)
}

/// The first `n` cubes of a channel can be turned into events.
pub open spec fn spec_channel_readable(
    cubes: Seq<CubeView>,
    mode: Mode,
    dtm: DeltaT,
    dt_ref: DeltaT,
    n: int,
) -> bool
    decreases n,
{
    if n <= 0 {
        true
    } else {
        spec_channel_readable(cubes, mode, dtm, dt_ref, n - 1) && spec_cube_readable(
            cubes[n - 1],
            mode,
            dtm,
            dt_ref,
        )
    }
}

/// The events of the first `n` cubes of a channel, cube by cube.
pub open spec fn spec_channel_events(
    cubes: Seq<CubeView>,
    channel: u8,
    colors: u8,
    mode: Mode,
    dtm: DeltaT,
    dt_ref: DeltaT,
    n: int,
) -> Seq<Event>
    decreases n,
{
    if n <= 0 {
        Seq::empty()
    } else {
        let cube = cubes[n - 1];
        spec_channel_events(cubes, channel, colors, mode, dtm, dt_ref, n - 1) + spec_cube_events(
            spec_decoded_blocks(cube, mode, dtm, dt_ref),
            cube.idx_y,
            cube.idx_x,
            channel,
            colors,
            1 + cube.inter_blocks.len() as int,
        )
    }
}

/// Appends the events of a block to `out`.
fn push_block_events(
    block: &BlockEvents,
    idx_y: u16,
    idx_x: u16,
    channel: u8,
    colors: u8,
    out: &mut Vec<Event>,
)
    requires
        idx_y < 0x1000,
        idx_x < 0x1000,
    ensures
        final(out)@ == old(out)@ + spec_block_events(
            block@,
            idx_y,
            idx_x,
            channel,
            colors,
            BLOCK_SIZE_AREA as int,
        ),
{
    let mut p: usize = 0;
    assert(out@ =~= old(out)@ + spec_block_events(block@, idx_y, idx_x, channel, colors, 0));
    while p < BLOCK_SIZE_AREA
        invariant
            p <= BLOCK_SIZE_AREA,
            idx_y < 0x1000,
            idx_x < 0x1000,
            out@ == old(out)@ + spec_block_events(block@, idx_y, idx_x, channel, colors, p as int),
        decreases BLOCK_SIZE_AREA - p,
    {
        match block[p] {
            Some(e) => {
                let coord = Coord {
                    x: idx_x * 16 + (p % 16) as u16,
                    y: idx_y * 16 + (p / 16) as u16,
                    c: if colors <= 1 {
                        None
                    } else {
                        Some(channel)
                    },
                };
                out.push(Event { coord, d: e.d, t: e.delta_t });
            },
            None => {},
        }
        p += 1;
        assert(out@ =~= old(out)@ + spec_block_events(
            block@,
            idx_y,
            idx_x,
            channel,
            colors,
            p as int,
        ));
    }
}

/// Appends the events of all cubes of a channel to `out`, or fails where a
/// cube cannot be turned into events.
fn push_channel_events(
    channel: &crate::adu::AduChannel,
    id: u8,
    colors: u8,
    mode: Mode,
    dtm: DeltaT,
    dt_ref: DeltaT,
    out: &mut Vec<Event>,
) -> (r: Result<(), CodecError>)
    requires
        channel.wf(),
    ensures
        r is Ok <==> spec_channel_readable(channel@, mode, dtm, dt_ref, channel@.len() as int),
        r is Err ==> r == Err::<(), CodecError>(CodecError::Deserialize),
        r is Ok ==> final(out)@ == old(out)@ + spec_channel_events(
            channel@,
            id,
            colors,
            mode,
            dtm,
            dt_ref,
            channel@.len() as int,
        ),
{
    let ghost views = channel@;
    let mut i: usize = 0;
    assert(out@ =~= old(out)@ + spec_channel_events(views, id, colors, mode, dtm, dt_ref, 0));
    while i < channel.cubes.len()
        invariant
            i <= channel.cubes.len(),
            channel.wf(),
            views == channel@,
            spec_channel_readable(views, mode, dtm, dt_ref, i as int),
            out@ == old(out)@ + spec_channel_events(views, id, colors, mode, dtm, dt_ref, i as int),
        decreases channel.cubes.len() - i,
    {
        let cube = &channel.cubes[i];
        assert(views[i as int] == cube@);
        if cube.idx_y >= 0x1000 || cube.idx_x >= 0x1000 {
            proof {
                assert(!spec_channel_readable(views, mode, dtm, dt_ref, i + 1));
                lemma_channel_readable_prefix(views, mode, dtm, dt_ref, i + 1, views.len() as int);
            }
            return Err(CodecError::Deserialize);
        }
        let blocks = match EventCube::decompress(cube, mode, dtm, dt_ref) {
            Ok(blocks) => blocks,
            Err(_) => {
                proof {
                    assert(!spec_channel_readable(views, mode, dtm, dt_ref, i + 1));
                    lemma_channel_readable_prefix(
                        views,
                        mode,
                        dtm,
                        dt_ref,
                        i + 1,
                        views.len() as int,
                    );
                }
                return Err(CodecError::Deserialize);
            },
        };
        let ghost decoded = spec_decoded_blocks(cube@, mode, dtm, dt_ref);
        let ghost before = out@;
        let mut k: usize = 0;
        assert(out@ =~= before + spec_cube_events(
            decoded,
            cube.idx_y,
            cube.idx_x,
            id,
            colors,
            0,
        ));
        while k < blocks.len()
            invariant
                k <= blocks.len(),
                cube.idx_y < 0x1000,
                cube.idx_x < 0x1000,
                blocks.len() == decoded.len(),
                forall|j: int| 0 <= j < blocks.len() ==> #[trigger] blocks[j]@ == decoded[j],
                out@ == before + spec_cube_events(
                    decoded,
                    cube.idx_y,
                    cube.idx_x,
                    id,
                    colors,
                    k as int,
                ),
            decreases blocks.len() - k,
        {
            push_block_events(&blocks[k], cube.idx_y, cube.idx_x, id, colors, out);
            k += 1;
            assert(out@ =~= before + spec_cube_events(
                decoded,
                cube.idx_y,
                cube.idx_x,
                id,
                colors,
                k as int,
            ));
        }
        i += 1;
        assert(out@ =~= old(out)@ + spec_channel_events(
            views,
            id,
            colors,
            mode,
            dtm,
            dt_ref,
            i as int,
        ));
    }
    Ok(())
}

/// Cubes that can be turned into events can be up to any point.
pub proof fn lemma_channel_readable_prefix(
    cubes: Seq<CubeView>,
    mode: Mode,
    dtm: DeltaT,
    dt_ref: DeltaT,
    k: int,
    n: int,
)
    requires
        0 <= k <= n,
        !spec_channel_readable(cubes, mode, dtm, dt_ref, k),
    ensures
        !spec_channel_readable(cubes, mode, dtm, dt_ref, n),
    decreases n - k,
{
    if k < n {
        lemma_channel_readable_prefix(cubes, mode, dtm, dt_ref, k, n - 1);
    }
}


/// The color plane of a channel id.
pub fn channel_type(channel: u8) -> (r: AduChannelType)
    ensures
        r == (if channel == 0 {
            AduChannelType::R
        } else if channel == 1 {
            AduChannelType::G
        } else {
            AduChannelType::B
        }),
{
    if channel == 0 {
        AduChannelType::R
    } else if channel == 1 {
        AduChannelType::G
    } else {
        AduChannelType::B
    }
}

/// What is written for the cubes of one color plane among the first `n`
/// cubes, in their order.
pub open spec fn spec_coded_channel(
    cubes: Seq<EventCube>,
    channel: u8,
    mode: Mode,
    dtm: DeltaT,
    dt_ref: DeltaT,
    n: int,
) -> Seq<CubeView>
    decreases n,
{
    if n <= 0 {
        Seq::empty()
    } else {
        let before = spec_coded_channel(cubes, channel, mode, dtm, dt_ref, n - 1);
        let cube = cubes[n - 1];
        if cube.channel == channel {
            before.push(
                spec_coded_cube(
                    cube.idx_y,
                    cube.idx_x,
                    spec_block_views(cube.blocks@),
                    mode,
                    dtm,
                    dt_ref,
                ),
            )
        } else {
            before
        }
    }
}

/// The first `n` cubes can all be coded.
pub open spec fn spec_all_codable(
    cubes: Seq<EventCube>,
    mode: Mode,
    dtm: DeltaT,
    dt_ref: DeltaT,
    n: int,
) -> bool
    decreases n,
{
    if n <= 0 {
        true
    } else {
        spec_all_codable(cubes, mode, dtm, dt_ref, n - 1) && spec_codable(
            spec_block_views(cubes[n - 1].blocks@),
            mode,
            dtm,
            dt_ref,
            cubes[n - 1].blocks.len() as int,
        )
    }
}

/// Cubes that can all be coded can be up to any point.
pub proof fn lemma_all_codable_prefix(
    cubes: Seq<EventCube>,
    mode: Mode,
    dtm: DeltaT,
    dt_ref: DeltaT,
    k: int,
    n: int,
)
    requires
        0 <= k <= n,
        !spec_all_codable(cubes, mode, dtm, dt_ref, k),
    ensures
        !spec_all_codable(cubes, mode, dtm, dt_ref, n),
    decreases n - k,
{
    if k < n {
        lemma_all_codable_prefix(cubes, mode, dtm, dt_ref, k, n - 1);
    }
}

/// A channel holds at most as many coded cubes as there are cubes.
pub proof fn lemma_coded_channel_len(
    cubes: Seq<EventCube>,
    channel: u8,
    mode: Mode,
    dtm: DeltaT,
    dt_ref: DeltaT,
    n: int,
)
    requires
        0 <= n,
    ensures
        spec_coded_channel(cubes, channel, mode, dtm, dt_ref, n).len() <= n,
    decreases n,
{
    if n > 0 {
        lemma_coded_channel_len(cubes, channel, mode, dtm, dt_ref, n - 1);
    }
}

impl EventAdu {
    /// The time under which an event is stored: its own, but not before
    /// the start of the window, nor before the time that memory keeps of
    /// the pixel's last event.
    pub open spec fn spec_stored_time(&self, t: AbsoluteT, last: Option<AbsoluteT>) -> int {
        let floor = if t < self.start_t {
            self.start_t
        } else {
            t
        };
        match last {
            Some(l) => {
                let kept = spec_commit_time(l as int, self.dt_ref as int, self.mode);
                if floor < kept {
                    kept
                } else {
                    floor as int
                }
            },
            None => floor as int,
        }
    }

    /// The index of the cube of a tile and color plane, if the tile has
    /// one.
    pub open spec fn spec_cube_index(&self, idx_y: u16, idx_x: u16, channel: u8) -> Option<int> {
        if exists|i: int|
            0 <= i < self.cubes.len() && (#[trigger] self.cubes[i]).idx_y == idx_y
                && self.cubes[i].idx_x == idx_x && self.cubes[i].channel == channel {
            Some(
                choose|i: int|
                    0 <= i < self.cubes.len() && (#[trigger] self.cubes[i]).idx_y == idx_y
                        && self.cubes[i].idx_x == idx_x && self.cubes[i].channel == channel,
            )
        } else {
            None
        }
    }

    /// Whether the unit can store an event: its coordinate lies in the
    /// plane, its tile has a cube or can be given one, its pixel holds
    /// fewer events than a cube may hold blocks, and the time that memory
    /// keeps of the pixel's last event is a 32-bit time.
    pub open spec fn spec_can_store(&self, event: Event) -> bool {
        let pixel = spec_pixel_of(event.coord);
        &&& self.spec_accepts(event.coord)
        &&& !(self.mode == Mode::FramePerfect && self.dt_ref == 0)
        &&& self.num_events < usize::MAX
        &&& match self.spec_cube_index(
            (event.coord.y / 16) as u16,
            (event.coord.x / 16) as u16,
            spec_channel_of(event.coord),
        ) {
            Some(i) => {
                let k = self.cubes[i].counts[pixel] as int;
                &&& k <= self.max_inter_blocks
                &&& k > 0 ==> spec_commit_time(
                    self.cubes[i].blocks[k - 1][pixel]->0.delta_t as int,
                    self.dt_ref as int,
                    self.mode,
                ) <= u32::MAX
            },
            None => self.cubes.len() < u16::MAX,
        }
    }

    /// What is written for the unit where the plane has `num_channels`
    /// colors: the start of its window, and its coded cubes by color
    /// plane.
    pub open spec fn spec_coded_view(&self, num_channels: u8) -> crate::layout::AduView {
        let n = self.cubes.len() as int;
        crate::layout::AduView {
            head_event_t: self.start_t,
            channels: if num_channels <= 1 {
                seq![spec_coded_channel(self.cubes@, 0, self.mode, self.dtm, self.dt_ref, n)]
            } else {
                seq![
                    spec_coded_channel(self.cubes@, 0, self.mode, self.dtm, self.dt_ref, n),
                    spec_coded_channel(self.cubes@, 1, self.mode, self.dtm, self.dt_ref, n),
                    spec_coded_channel(self.cubes@, 2, self.mode, self.dtm, self.dt_ref, n),
                ]
            },
        }
    }

    /// Forgets all events and moves the window to begin at `start_t`.
    pub fn reset(&mut self, start_t: AbsoluteT)
        requires
            old(self).wf(),
        ensures
            final(self).wf(),
            final(self).cubes@.len() == 0,
            final(self).num_events == 0,
            final(self).start_t == start_t,
            final(self).plane == old(self).plane,
            final(self).dt_ref == old(self).dt_ref,
            final(self).num_intervals == old(self).num_intervals,
            final(self).mode == old(self).mode,
            final(self).dtm == old(self).dtm,
            final(self).max_inter_blocks == old(self).max_inter_blocks,
            final(self).decoded@ == old(self).decoded@,
            final(self).next_decoded == old(self).next_decoded,
    {
        self.cubes = Vec::new();
        self.num_events = 0;
        self.start_t = start_t;
    }

    /// Stores an event with the events of its pixel. Returns whether it was
    /// stored. It is not where its coordinate lies outside the plane,
    /// where the time memory would keep of the pixel's last event is no
    /// 32-bit time, or where the unit has no room: its pixel holds as many
    /// events as a cube may hold blocks, or its tile would be one cube too
    /// many.
    pub fn ingest_event(&mut self, event: Event) -> (r: bool)
        requires
            old(self).wf(),
        ensures
            final(self).wf(),
            final(self).plane == old(self).plane,
            final(self).start_t == old(self).start_t,
            final(self).dt_ref == old(self).dt_ref,
            final(self).num_intervals == old(self).num_intervals,
            final(self).mode == old(self).mode,
            final(self).dtm == old(self).dtm,
            final(self).max_inter_blocks == old(self).max_inter_blocks,
            final(self).decoded@ == old(self).decoded@,
            final(self).next_decoded == old(self).next_decoded,
            r == old(self).spec_can_store(event),
            !r ==> final(self).cubes@ == old(self).cubes@ && final(self).num_events == old(self).num_events,
            r ==> old(self).spec_ingested(final(self), event),
    {
        if !self.accepts(&event.coord) {
            return false;
        }
        if self.mode == Mode::FramePerfect && self.dt_ref == 0 {
            return false;
        }
        if self.num_events == usize::MAX {
            return false;
        }
        let channel: u8 = match event.coord.c {
            Some(c) => c,
            None => 0,
        };
        let idx_y: u16 = event.coord.y / 16;
        let idx_x: u16 = event.coord.x / 16;
        let pixel: usize = ((event.coord.y % 16) * 16 + event.coord.x % 16) as usize;
        let floor: AbsoluteT = if event.t < self.start_t {
            self.start_t
        } else {
            event.t
        };
        let i: usize = self.find_cube(idx_y, idx_x, channel);
        proof {
            let found = self.spec_cube_index(idx_y, idx_x, channel);
            if i < self.cubes.len() {
                assert(self.cubes[i as int].idx_y == idx_y);
                assert(found is Some);
                let j = found->0;
                if j < i {
                    assert(!(self.cubes[j].idx_y == idx_y && self.cubes[j].idx_x == idx_x
                        && self.cubes[j].channel == channel));
                } else if i < j {
                    assert(!(self.cubes[i as int].idx_y == self.cubes[j].idx_y
                        && self.cubes[i as int].idx_x == self.cubes[j].idx_x
                        && self.cubes[i as int].channel == self.cubes[j].channel));
                }
                assert(found == Some(i as int));
            } else {
                assert(found is None);
            }
        }
        if i == self.cubes.len() {
            if self.cubes.len() >= u16::MAX as usize {
                return false;
            }
            let cube = EventCube::with_event(
                idx_y,
                idx_x,
                channel,
                pixel,
                EventCoordless { d: event.d, delta_t: floor },
            );
            self.cubes.push(cube);
            self.num_events = self.num_events + 1;
            proof {
                assert(old(self).spec_ingested_at(self, event, i as int));
            }
            return true;
        }
        let t: AbsoluteT = match self.cubes[i].last_time(pixel) {
            Some(l) => match commit_time(l, self.dt_ref, self.mode) {
                Some(kept) => if floor < kept {
                    kept
                } else {
                    floor
                },
                None => {
                    return false;
                },
            },
            None => floor,
        };
        let max_blocks: usize = self.max_inter_blocks as usize + 1;
        let stored = self.cubes[i].ingest(pixel, EventCoordless { d: event.d, delta_t: t }, max_blocks);
        if stored {
            self.num_events = self.num_events + 1;
        }
        proof {
            assert forall|a: int, b: int| 0 <= a < b < self.cubes.len() implies !((
            #[trigger] self.cubes[a]).idx_y == (#[trigger] self.cubes[b]).idx_y
                && self.cubes[a].idx_x == self.cubes[b].idx_x && self.cubes[a].channel
                == self.cubes[b].channel) by {
                assert(self.cubes[a].idx_y == old(self).cubes[a].idx_y);
                assert(self.cubes[b].idx_y == old(self).cubes[b].idx_y);
                assert(self.cubes[a].idx_x == old(self).cubes[a].idx_x);
                assert(self.cubes[b].idx_x == old(self).cubes[b].idx_x);
                assert(self.cubes[a].channel == old(self).cubes[a].channel);
                assert(self.cubes[b].channel == old(self).cubes[b].channel);
            }
            if !stored {
                assert(self.cubes@ =~= old(self).cubes@);
            } else {
                assert(old(self).spec_ingested_at(self, event, i as int));
            }
        }
        stored
    }

    /// `after` is this unit with `event` stored: in the cube of its tile
    /// and color plane, which is a new last cube where the tile had none,
    /// as the next event of its pixel; every other cube is as it was.
    pub open spec fn spec_ingested(&self, after: &EventAdu, event: Event) -> bool {
        exists|i: int| #[trigger] self.spec_ingested_at(after, event, i)
    }

    /// `after` is this unit with `event` stored in the cube at index `i`.
    pub open spec fn spec_ingested_at(&self, after: &EventAdu, event: Event, i: int) -> bool {
        let idx_y = (event.coord.y / 16) as u16;
        let idx_x = (event.coord.x / 16) as u16;
        let channel = spec_channel_of(event.coord);
        let pixel = spec_pixel_of(event.coord);
        &&& after.num_events == self.num_events + 1
        &&& 0 <= i < after.cubes.len()
        &&& after.cubes[i].idx_y == idx_y
        &&& after.cubes[i].idx_x == idx_x
        &&& after.cubes[i].channel == channel
        &&& forall|j: int|
            0 <= j < self.cubes.len() && j != i ==> #[trigger] after.cubes[j] == self.cubes[j]
        &&& if i < self.cubes.len() {
            let k = self.cubes[i].counts[pixel] as int;
            let t = self.spec_stored_time(
                event.t,
                if k > 0 {
                    Some(self.cubes[i].blocks[k - 1][pixel]->0.delta_t)
                } else {
                    None
                },
            );
            &&& after.cubes.len() == self.cubes.len()
            &&& self.cubes[i].idx_y == idx_y
            &&& self.cubes[i].idx_x == idx_x
            &&& self.cubes[i].channel == channel
            &&& k <= self.max_inter_blocks
            &&& after.cubes[i].counts@ == self.cubes[i].counts@.update(pixel, (k + 1) as u16)
            &&& after.cubes[i].blocks.len() == (if k == self.cubes[i].blocks.len() {
                k + 1
            } else {
                self.cubes[i].blocks.len() as int
            })
            &&& forall|j: int|
                0 <= j < after.cubes[i].blocks.len() ==> #[trigger] after.cubes[i].blocks[j]@ == (
                if j == k {
                    self.cubes[i].spec_block(k).update(
                        pixel,
                        Some(EventCoordless { d: event.d, delta_t: t as u32 }),
                    )
                } else {
                    self.cubes[i].blocks[j]@
                })
        } else {
            &&& i == self.cubes.len()
            &&& after.cubes.len() == self.cubes.len() + 1
            &&& after.cubes[i].blocks.len() == 1
            &&& after.cubes[i].blocks[0]@ == spec_empty_block().update(
                pixel,
                Some(
                    EventCoordless {
                        d: event.d,
                        delta_t: self.spec_stored_time(event.t, None) as u32,
                    },
                ),
            )
            &&& forall|j: int|
                0 <= j < self.cubes.len() ==> !((#[trigger] self.cubes[j]).idx_y == idx_y
                    && self.cubes[j].idx_x == idx_x && self.cubes[j].channel == channel)
        }
    }

    /// Codes every cube and gathers the coded cubes by color plane, in the
    /// order of the cubes. The unit's head time is the start of its
    /// window.
    ///
    /// Fails exactly where one of the cubes cannot be coded.
    pub fn compress(&self) -> (r: Result<Adu, CodecError>)
        requires
            self.wf(),
        ensures
            r is Ok <==> spec_all_codable(
                self.cubes@,
                self.mode,
                self.dtm,
                self.dt_ref,
                self.cubes.len() as int,
            ),
            r is Err ==> r == Err::<Adu, CodecError>(CodecError::MalformedEncoder),
            r matches Ok(adu) ==> {
                &&& adu.wf()
                &&& adu.head_event_t == self.start_t
                &&& forall|n: u8| #[trigger] adu.view_with(n) == self.spec_coded_view(n)
                &&& adu.cubes_r@ == spec_coded_channel(
                    self.cubes@,
                    0,
                    self.mode,
                    self.dtm,
                    self.dt_ref,
                    self.cubes.len() as int,
                )
                &&& adu.cubes_g@ == spec_coded_channel(
                    self.cubes@,
                    1,
                    self.mode,
                    self.dtm,
                    self.dt_ref,
                    self.cubes.len() as int,
                )
                &&& adu.cubes_b@ == spec_coded_channel(
                    self.cubes@,
                    2,
                    self.mode,
                    self.dtm,
                    self.dt_ref,
                    self.cubes.len() as int,
                )
            },
    {
        let mut adu = Adu::new();
        adu.head_event_t = self.start_t;
        let mut i: usize = 0;
        assert(adu.cubes_r@ =~= spec_coded_channel(self.cubes@, 0, self.mode, self.dtm, self.dt_ref, 0));
        assert(adu.cubes_g@ =~= spec_coded_channel(self.cubes@, 1, self.mode, self.dtm, self.dt_ref, 0));
        assert(adu.cubes_b@ =~= spec_coded_channel(self.cubes@, 2, self.mode, self.dtm, self.dt_ref, 0));
        while i < self.cubes.len()
            invariant
                i <= self.cubes.len(),
                self.wf(),
                adu.wf(),
                adu.head_event_t == self.start_t,
                spec_all_codable(self.cubes@, self.mode, self.dtm, self.dt_ref, i as int),
                adu.cubes_r@ == spec_coded_channel(
                    self.cubes@,
                    0,
                    self.mode,
                    self.dtm,
                    self.dt_ref,
                    i as int,
                ),
                adu.cubes_g@ == spec_coded_channel(
                    self.cubes@,
                    1,
                    self.mode,
                    self.dtm,
                    self.dt_ref,
                    i as int,
                ),
                adu.cubes_b@ == spec_coded_channel(
                    self.cubes@,
                    2,
                    self.mode,
                    self.dtm,
                    self.dt_ref,
                    i as int,
                ),
            decreases self.cubes.len() - i,
        {
            let cube = match self.cubes[i].compress(self.mode, self.dtm, self.dt_ref) {
                Ok(cube) => cube,
                Err(_) => {
                    proof {
                        assert(!spec_all_codable(
                            self.cubes@,
                            self.mode,
                            self.dtm,
                            self.dt_ref,
                            i + 1,
                        ));
                        lemma_all_codable_prefix(
                            self.cubes@,
                            self.mode,
                            self.dtm,
                            self.dt_ref,
                            i + 1,
                            self.cubes.len() as int,
                        );
                    }
                    return Err(CodecError::MalformedEncoder);
                },
            };
            let kind = channel_type(self.cubes[i].channel);
            proof {
                lemma_coded_channel_len(self.cubes@, 0, self.mode, self.dtm, self.dt_ref, i as int);
                lemma_coded_channel_len(self.cubes@, 1, self.mode, self.dtm, self.dt_ref, i as int);
                lemma_coded_channel_len(self.cubes@, 2, self.mode, self.dtm, self.dt_ref, i as int);
                assert(adu.cubes_r@.len() == adu.cubes_r.cubes.len());
                assert(adu.cubes_g@.len() == adu.cubes_g.cubes.len());
                assert(adu.cubes_b@.len() == adu.cubes_b.cubes.len());
            }
            let ghost before_r = adu.cubes_r@;
            let ghost before_g = adu.cubes_g@;
            let ghost before_b = adu.cubes_b@;
            adu.add_cube(cube, kind);
            proof {
                assert(self.cubes[i as int].channel <= 2);
                if self.cubes[i as int].channel == 0 {
                    assert(adu.cubes_r@ =~= before_r.push(cube@));
                } else {
                    assert(adu.cubes_r@ =~= before_r);
                }
                if self.cubes[i as int].channel == 1 {
                    assert(adu.cubes_g@ =~= before_g.push(cube@));
                } else {
                    assert(adu.cubes_g@ =~= before_g);
                }
                if self.cubes[i as int].channel == 2 {
                    assert(adu.cubes_b@ =~= before_b.push(cube@));
                } else {
                    assert(adu.cubes_b@ =~= before_b);
                }
            }
            i += 1;
        }
        Ok(adu)
    }

    /// Turns a coded access unit into the events that are handed out next:
    /// those of the first channel, then the second, then the third; within
    /// a channel cube by cube, within a cube block by block, within a block
    /// in row-major order. Events of earlier units that were not handed out
    /// are dropped.
    ///
    /// Fails, with no event to hand out, exactly where a cube of the unit
    /// cannot be turned into events.
    pub fn decompress(&mut self, adu: &Adu) -> (r: Result<(), CodecError>)
        requires
            old(self).wf(),
            adu.wf(),
        ensures
            final(self).wf(),
            final(self).plane == old(self).plane,
            final(self).start_t == old(self).start_t,
            final(self).dt_ref == old(self).dt_ref,
            final(self).num_intervals == old(self).num_intervals,
            final(self).mode == old(self).mode,
            final(self).dtm == old(self).dtm,
            final(self).max_inter_blocks == old(self).max_inter_blocks,
            final(self).cubes@ == old(self).cubes@,
            final(self).num_events == old(self).num_events,
            final(self).next_decoded == 0,
            r is Ok <==> old(self).spec_readable(adu),
            r is Err ==> r == Err::<(), CodecError>(CodecError::Deserialize) && final(self).decoded@.len() == 0,
            r is Ok ==> final(self).decoded@ == old(self).spec_events_of(adu),
    {
        let colors: u8 = self.plane.channels;
        let mut out: Vec<Event> = Vec::new();
        self.next_decoded = 0;
        self.decoded = Vec::new();
        if push_channel_events(&adu.cubes_r, 0, colors, self.mode, self.dtm, self.dt_ref, &mut out).is_err() {
            return Err(CodecError::Deserialize);
        }
        if push_channel_events(&adu.cubes_g, 1, colors, self.mode, self.dtm, self.dt_ref, &mut out).is_err() {
            return Err(CodecError::Deserialize);
        }
        if push_channel_events(&adu.cubes_b, 2, colors, self.mode, self.dtm, self.dt_ref, &mut out).is_err() {
            return Err(CodecError::Deserialize);
        }
        assert(out@ =~= old(self).spec_events_of(adu));
        self.decoded = out;
        Ok(())
    }

    /// Every cube of `adu` can be turned into events.
    pub open spec fn spec_readable(&self, adu: &Adu) -> bool {
        &&& spec_channel_readable(adu.cubes_r@, self.mode, self.dtm, self.dt_ref, adu.cubes_r@.len() as int)
        &&& spec_channel_readable(adu.cubes_g@, self.mode, self.dtm, self.dt_ref, adu.cubes_g@.len() as int)
        &&& spec_channel_readable(adu.cubes_b@, self.mode, self.dtm, self.dt_ref, adu.cubes_b@.len() as int)
    }

    /// The events of `adu`, in the order they are handed out.
    pub open spec fn spec_events_of(&self, adu: &Adu) -> Seq<Event> {
        spec_channel_events(
            adu.cubes_r@,
            0,
            self.plane.channels,
            self.mode,
            self.dtm,
            self.dt_ref,
            adu.cubes_r@.len() as int,
        ) + spec_channel_events(
            adu.cubes_g@,
            1,
            self.plane.channels,
            self.mode,
            self.dtm,
            self.dt_ref,
            adu.cubes_g@.len() as int,
        ) + spec_channel_events(
            adu.cubes_b@,
            2,
            self.plane.channels,
            self.mode,
            self.dtm,
            self.dt_ref,
            adu.cubes_b@.len() as int,
        )
    }

    /// Hands out the next decompressed event, or `NoMoreEvents` where every
    /// one was handed out.
    pub fn digest_event(&mut self) -> (r: Result<Event, CodecError>)
        requires
            old(self).wf(),
        ensures
            final(self).wf(),
            final(self).decoded@ == old(self).decoded@,
            final(self).cubes@ == old(self).cubes@,
            final(self).num_events == old(self).num_events,
            final(self).plane == old(self).plane,
            final(self).start_t == old(self).start_t,
            final(self).dt_ref == old(self).dt_ref,
            final(self).num_intervals == old(self).num_intervals,
            final(self).mode == old(self).mode,
            final(self).dtm == old(self).dtm,
            final(self).max_inter_blocks == old(self).max_inter_blocks,
            old(self).next_decoded < old(self).decoded.len() ==> r == Ok::<Event, CodecError>(
                old(self).decoded[old(self).next_decoded as int],
            ) && final(self).next_decoded == old(self).next_decoded + 1,
            old(self).next_decoded >= old(self).decoded.len() ==> r == Err::<Event, CodecError>(
                CodecError::NoMoreEvents,
            ) && final(self).next_decoded == old(self).next_decoded,
    {
        if self.next_decoded < self.decoded.len() {
            let e = self.decoded[self.next_decoded];
            self.next_decoded = self.next_decoded + 1;
            Ok(e)
        } else {
            Err(CodecError::NoMoreEvents)
        }
    }
}


/// The first `n` channels of an access unit can be turned into events.
pub open spec fn spec_channels_readable(
    channels: Seq<Seq<CubeView>>,
    mode: Mode,
    dtm: DeltaT,
    dt_ref: DeltaT,
    n: int,
) -> bool
    decreases n,
{
    if n <= 0 {
        true
    } else {
        spec_channels_readable(channels, mode, dtm, dt_ref, n - 1) && spec_channel_readable(
            channels[n - 1],
            mode,
            dtm,
            dt_ref,
            channels[n - 1].len() as int,
        )
    }
}

/// The events of the first `n` channels of an access unit, channel by
/// channel.
pub open spec fn spec_channels_events(
    channels: Seq<Seq<CubeView>>,
    colors: u8,
    mode: Mode,
    dtm: DeltaT,
    dt_ref: DeltaT,
    n: int,
) -> Seq<Event>
    decreases n,
{
    if n <= 0 {
        Seq::empty()
    } else {
        spec_channels_events(channels, colors, mode, dtm, dt_ref, n - 1) + spec_channel_events(
            channels[n - 1],
            (n - 1) as u8,
            colors,
            mode,
            dtm,
            dt_ref,
            channels[n - 1].len() as int,
        )
    }
}

/// The events of an access unit are those of the channels it carries for
/// its plane, where the channels it does not carry hold no cube.
pub proof fn lemma_events_of_view(unit: EventAdu, adu: Adu, num_channels: u8)
    requires
        num_channels <= 1 ==> adu.cubes_g.cubes@.len() == 0 && adu.cubes_b.cubes@.len() == 0,
    ensures
        unit.spec_readable(&adu) == spec_channels_readable(
            adu.view_with(num_channels).channels,
            unit.mode,
            unit.dtm,
            unit.dt_ref,
            adu.view_with(num_channels).channels.len() as int,
        ),
        unit.spec_events_of(&adu) == spec_channels_events(
            adu.view_with(num_channels).channels,
            unit.plane.channels,
            unit.mode,
            unit.dtm,
            unit.dt_ref,
            adu.view_with(num_channels).channels.len() as int,
        ),
{
    let channels = adu.view_with(num_channels).channels;
    let colors = unit.plane.channels;
    let r = spec_channel_events(
        adu.cubes_r@,
        0,
        colors,
        unit.mode,
        unit.dtm,
        unit.dt_ref,
        adu.cubes_r@.len() as int,
    );
    let g = spec_channel_events(
        adu.cubes_g@,
        1,
        colors,
        unit.mode,
        unit.dtm,
        unit.dt_ref,
        adu.cubes_g@.len() as int,
    );
    let b = spec_channel_events(
        adu.cubes_b@,
        2,
        colors,
        unit.mode,
        unit.dtm,
        unit.dt_ref,
        adu.cubes_b@.len() as int,
    );
    let e0 = spec_channels_events(channels, colors, unit.mode, unit.dtm, unit.dt_ref, 0);
    let e1 = spec_channels_events(channels, colors, unit.mode, unit.dtm, unit.dt_ref, 1);
    assert(e0 =~= Seq::<Event>::empty());
    assert(e1 =~= r);
    assert(spec_channels_readable(channels, unit.mode, unit.dtm, unit.dt_ref, 0));
    if num_channels <= 1 {
        assert(channels.len() == 1);
        assert(adu.cubes_g@.len() == 0);
        assert(adu.cubes_b@.len() == 0);
        assert(g =~= Seq::<Event>::empty());
        assert(b =~= Seq::<Event>::empty());
        assert(unit.spec_events_of(&adu) =~= e1);
    } else {
        assert(channels.len() == 3);
        let e2 = spec_channels_events(channels, colors, unit.mode, unit.dtm, unit.dt_ref, 2);
        let e3 = spec_channels_events(channels, colors, unit.mode, unit.dtm, unit.dt_ref, 3);
        assert(e2 =~= r + g);
        assert(e3 =~= r + g + b);
        assert(spec_channels_readable(channels, unit.mode, unit.dtm, unit.dt_ref, 1)
            == spec_channel_readable(
            adu.cubes_r@,
            unit.mode,
            unit.dtm,
            unit.dt_ref,
            adu.cubes_r@.len() as int,
        ));
        assert(spec_channels_readable(channels, unit.mode, unit.dtm, unit.dt_ref, 2) == (
        spec_channels_readable(channels, unit.mode, unit.dtm, unit.dt_ref, 1)
            && spec_channel_readable(
            adu.cubes_g@,
            unit.mode,
            unit.dtm,
            unit.dt_ref,
            adu.cubes_g@.len() as int,
        )));
    }
}

/// No block among the first `n` of a cube needs a shift: every time
/// residual fits 16 bits as it is.
pub open spec fn spec_shift_free(
    blocks: Seq<Seq<Option<EventCoordless>>>,
    mode: Mode,
    dtm: DeltaT,
    dt_ref: DeltaT,
    n: int,
) -> bool
    decreases n,
{
    if n <= 0 {
        true
    } else if n == 1 {
        spec_intra_sparam(SPARAM_OFFERED, blocks[0]) == 0
    } else {
        spec_shift_free(blocks, mode, dtm, dt_ref, n - 1) && spec_encoder_state(
            blocks,
            mode,
            dtm,
            dt_ref,
            n - 2,
        ).inter_sparam(SPARAM_OFFERED, blocks[n - 1], dtm) == 0
    }
}

/// A cube whose blocks need no shift loses nothing: the decoder finds in
/// every block the events that went in, decimation and time, and the
/// encoder's reconstructed times never leave the true ones.
pub proof fn lemma_cube_lossless(
    idx_y: u16,
    idx_x: u16,
    blocks: Seq<Seq<Option<EventCoordless>>>,
    mode: Mode,
    dtm: DeltaT,
    dt_ref: DeltaT,
    k: int,
)
    requires
        0 <= k < blocks.len(),
        forall|j: int| 0 <= j < blocks.len() ==> (#[trigger] blocks[j]).len() == BLOCK_SIZE_AREA,
        spec_codable(blocks, mode, dtm, dt_ref, k + 1),
        spec_shift_free(blocks, mode, dtm, dt_ref, k + 1),
    ensures
        spec_decoded_block(
            spec_coded_cube(idx_y, idx_x, blocks, mode, dtm, dt_ref),
            mode,
            dtm,
            dt_ref,
            k,
        ) == blocks[k],
        forall|p: int|
            0 <= p < BLOCK_SIZE_AREA ==> #[trigger] spec_encoder_state(
                blocks,
                mode,
                dtm,
                dt_ref,
                k,
            ).t_recon[p] == spec_encoder_state(blocks, mode, dtm, dt_ref, k).t_memory[p],
    decreases k,
{
    let cube = spec_coded_cube(idx_y, idx_x, blocks, mode, dtm, dt_ref);
    let enc = spec_encoder_state(blocks, mode, dtm, dt_ref, k);
    let decoded = spec_decoded_block(cube, mode, dtm, dt_ref, k);
    let events = blocks[k];
    lemma_fresh_exists(mode);
    lemma_cube_round_trip(idx_y, idx_x, blocks, mode, dtm, dt_ref, k);
    vstd::arithmetic::power2::lemma2_to64();
    if k == 0 {
        lemma_intra_coded_exists(mode, SPARAM_OFFERED, dt_ref, dtm, events);
        assert forall|p: int| 0 <= p < BLOCK_SIZE_AREA implies #[trigger] decoded[p] == events[p]
            && enc.t_recon[p] == enc.t_memory[p] by {
            lemma_intra_round_trip(enc, SPARAM_OFFERED, dt_ref, dtm, events, p);
        }
    } else {
        lemma_cube_lossless(idx_y, idx_x, blocks, mode, dtm, dt_ref, k - 1);
        lemma_cube_round_trip(idx_y, idx_x, blocks, mode, dtm, dt_ref, k - 1);
        let enc_prev = spec_encoder_state(blocks, mode, dtm, dt_ref, k - 1);
        lemma_inter_coded_exists(enc_prev, SPARAM_OFFERED, dtm, dt_ref, events);
        assert(cube.inter_blocks[k - 1] == spec_coded_inter(blocks, mode, dtm, dt_ref, k));
        lemma_loaded_exists(
            spec_decoder_state(cube, mode, dtm, dt_ref, k - 1),
            enc.d_residuals@,
            enc.dt_pred_residuals_i16@,
        );
        let pre = spec_decoder_input(cube, mode, dtm, dt_ref, k);
        assert(pre.d_residuals =~= enc.d_residuals);
        assert(pre.dt_pred_residuals_i16 =~= enc.dt_pred_residuals_i16);
        assert forall|p: int| 0 <= p < BLOCK_SIZE_AREA implies #[trigger] decoded[p] == events[p]
            && enc.t_recon[p] == enc.t_memory[p] by {
            assert(enc_prev.t_recon[p] == enc_prev.t_memory[p]);
            lemma_inter_round_trip(enc_prev, enc, pre, SPARAM_OFFERED, dtm, dt_ref, events, p);
            if events[p] is Some {
                lemma_inter_lossless(enc_prev, enc, pre, SPARAM_OFFERED, dtm, dt_ref, events, p);
            }
        }
    }
    assert(decoded =~= events);
}

/// The shift of block `k` of a cube.
pub open spec fn spec_block_shift(
    blocks: Seq<Seq<Option<EventCoordless>>>,
    mode: Mode,
    dtm: DeltaT,
    dt_ref: DeltaT,
    k: int,
) -> u8 {
    if k <= 0 {
        spec_intra_sparam(SPARAM_OFFERED, blocks[0])
    } else {
        spec_encoder_state(blocks, mode, dtm, dt_ref, k - 1).inter_sparam(
            SPARAM_OFFERED,
            blocks[k],
            dtm,
        )
    }
}

/// The most that the shifts of the blocks `0..=k` of a cube can take from
/// the time of an event: for every block, one tick less than the
/// granularity of its shift.
pub open spec fn spec_drift_bound(
    blocks: Seq<Seq<Option<EventCoordless>>>,
    mode: Mode,
    dtm: DeltaT,
    dt_ref: DeltaT,
    k: int,
) -> int
    decreases k + 1,
{
    if k < 0 {
        0
    } else {
        spec_drift_bound(blocks, mode, dtm, dt_ref, k - 1) + pow2(
            spec_block_shift(blocks, mode, dtm, dt_ref, k) as nat,
        ) - 1
    }
}

/// The time that a decoder finds for an event of a continuous source is
/// never behind the true one, and before it by no more than the shifts of
/// the cube's blocks up to the event's own have taken; the same holds of
/// the reconstructed times that the encoder keeps.
pub proof fn lemma_cube_drift(
    idx_y: u16,
    idx_x: u16,
    blocks: Seq<Seq<Option<EventCoordless>>>,
    dtm: DeltaT,
    dt_ref: DeltaT,
    k: int,
)
    requires
        0 <= k < blocks.len(),
        forall|j: int| 0 <= j < blocks.len() ==> (#[trigger] blocks[j]).len() == BLOCK_SIZE_AREA,
        spec_codable(blocks, Mode::Continuous, dtm, dt_ref, k + 1),
    ensures
        0 <= spec_drift_bound(blocks, Mode::Continuous, dtm, dt_ref, k),
        forall|p: int|
            0 <= p < BLOCK_SIZE_AREA && blocks[k][p] is Some ==> {
                let decoded = (#[trigger] spec_decoded_block(
                    spec_coded_cube(idx_y, idx_x, blocks, Mode::Continuous, dtm, dt_ref),
                    Mode::Continuous,
                    dtm,
                    dt_ref,
                    k,
                )[p])->0;
                blocks[k][p]->0.delta_t - spec_drift_bound(
                    blocks,
                    Mode::Continuous,
                    dtm,
                    dt_ref,
                    k,
                ) <= decoded.delta_t <= blocks[k][p]->0.delta_t
            },
        forall|p: int|
            0 <= p < BLOCK_SIZE_AREA ==> (#[trigger] spec_encoder_state(
                blocks,
                Mode::Continuous,
                dtm,
                dt_ref,
                k,
            ).t_memory[p]) - spec_drift_bound(blocks, Mode::Continuous, dtm, dt_ref, k)
                <= spec_encoder_state(blocks, Mode::Continuous, dtm, dt_ref, k).t_recon[p]
                <= spec_encoder_state(blocks, Mode::Continuous, dtm, dt_ref, k).t_memory[p],
    decreases k,
{
    let mode = Mode::Continuous;
    let cube = spec_coded_cube(idx_y, idx_x, blocks, mode, dtm, dt_ref);
    let enc = spec_encoder_state(blocks, mode, dtm, dt_ref, k);
    let decoded = spec_decoded_block(cube, mode, dtm, dt_ref, k);
    let events = blocks[k];
    let shift = spec_block_shift(blocks, mode, dtm, dt_ref, k);
    let bound = spec_drift_bound(blocks, mode, dtm, dt_ref, k);
    lemma_fresh_exists(mode);
    lemma_cube_round_trip(idx_y, idx_x, blocks, mode, dtm, dt_ref, k);
    vstd::arithmetic::power2::lemma_pow2_pos(shift as nat);
    if k == 0 {
        assert(spec_drift_bound(blocks, mode, dtm, dt_ref, -1) == 0);
        lemma_intra_coded_exists(mode, SPARAM_OFFERED, dt_ref, dtm, events);
        assert forall|p: int| 0 <= p < BLOCK_SIZE_AREA implies (events[p] matches Some(e) ==> e.delta_t
            - bound <= (#[trigger] decoded[p])->0.delta_t <= e.delta_t) by {
            lemma_intra_round_trip(enc, SPARAM_OFFERED, dt_ref, dtm, events, p);
        }
        assert forall|p: int| 0 <= p < BLOCK_SIZE_AREA implies (#[trigger] enc.t_memory[p]) - bound
            <= enc.t_recon[p] <= enc.t_memory[p] by {
            lemma_intra_round_trip(enc, SPARAM_OFFERED, dt_ref, dtm, events, p);
        }
    } else {
        lemma_cube_drift(idx_y, idx_x, blocks, dtm, dt_ref, k - 1);
        lemma_cube_round_trip(idx_y, idx_x, blocks, mode, dtm, dt_ref, k - 1);
        let enc_prev = spec_encoder_state(blocks, mode, dtm, dt_ref, k - 1);
        let before = spec_drift_bound(blocks, mode, dtm, dt_ref, k - 1);
        lemma_inter_coded_exists(enc_prev, SPARAM_OFFERED, dtm, dt_ref, events);
        assert(cube.inter_blocks[k - 1] == spec_coded_inter(blocks, mode, dtm, dt_ref, k));
        lemma_loaded_exists(
            spec_decoder_state(cube, mode, dtm, dt_ref, k - 1),
            enc.d_residuals@,
            enc.dt_pred_residuals_i16@,
        );
        let pre = spec_decoder_input(cube, mode, dtm, dt_ref, k);
        assert(pre.d_residuals =~= enc.d_residuals);
        assert(pre.dt_pred_residuals_i16 =~= enc.dt_pred_residuals_i16);
        assert forall|p: int| 0 <= p < BLOCK_SIZE_AREA implies (events[p] matches Some(e) ==> e.delta_t
            - bound <= (#[trigger] decoded[p])->0.delta_t <= e.delta_t) by {
            assert(enc_prev.t_memory[p] - before <= enc_prev.t_recon[p] <= enc_prev.t_memory[p]);
            lemma_inter_round_trip(enc_prev, enc, pre, SPARAM_OFFERED, dtm, dt_ref, events, p);
        }
        assert forall|p: int| 0 <= p < BLOCK_SIZE_AREA implies (#[trigger] enc.t_memory[p]) - bound
            <= enc.t_recon[p] <= enc.t_memory[p] by {
            assert(enc_prev.t_memory[p] - before <= enc_prev.t_recon[p] <= enc_prev.t_memory[p]);
            lemma_inter_round_trip(enc_prev, enc, pre, SPARAM_OFFERED, dtm, dt_ref, events, p);
        }
    }
}

/// The decimations of the events that pixel `p` has in the first `n`
/// blocks of a cube, in the order of the blocks.
pub open spec fn spec_pixel_decimations(
    blocks: Seq<Seq<Option<EventCoordless>>>,
    p: int,
    n: int,
) -> Seq<u8>
    decreases n,
{
    if n <= 0 {
        Seq::empty()
    } else {
        let before = spec_pixel_decimations(blocks, p, n - 1);
        match blocks[n - 1][p] {
            Some(e) => before.push(e.d),
            None => before,
        }
    }
}

/// Behind the decoder every pixel of a cube has as many events as it had
/// before the encoder, with the same decimations in the same order.
pub proof fn lemma_pixel_round_trip(
    idx_y: u16,
    idx_x: u16,
    blocks: Seq<Seq<Option<EventCoordless>>>,
    mode: Mode,
    dtm: DeltaT,
    dt_ref: DeltaT,
    p: int,
    n: int,
)
    requires
        0 <= n <= blocks.len(),
        0 <= p < BLOCK_SIZE_AREA,
        forall|j: int| 0 <= j < blocks.len() ==> (#[trigger] blocks[j]).len() == BLOCK_SIZE_AREA,
        spec_codable(blocks, mode, dtm, dt_ref, blocks.len() as int),
    ensures
        spec_pixel_decimations(
            spec_decoded_blocks(
                spec_coded_cube(idx_y, idx_x, blocks, mode, dtm, dt_ref),
                mode,
                dtm,
                dt_ref,
            ),
            p,
            n,
        ) == spec_pixel_decimations(blocks, p, n),
    decreases n,
{
    if n > 0 {
        lemma_pixel_round_trip(idx_y, idx_x, blocks, mode, dtm, dt_ref, p, n - 1);
        if !spec_codable(blocks, mode, dtm, dt_ref, n) {
            lemma_codable_prefix(blocks, mode, dtm, dt_ref, n, blocks.len() as int);
        }
        lemma_cube_round_trip(idx_y, idx_x, blocks, mode, dtm, dt_ref, n - 1);
        let cube = spec_coded_cube(idx_y, idx_x, blocks, mode, dtm, dt_ref);
        let decoded = spec_decoded_blocks(cube, mode, dtm, dt_ref);
        assert(decoded[n - 1] == spec_decoded_block(cube, mode, dtm, dt_ref, n - 1));
        assert(spec_decoded_matches(
            spec_decoded_block(cube, mode, dtm, dt_ref, n - 1)[p],
            blocks[n - 1][p],
        ));
    }
}

/// What is written for a cube that can be coded, a decoder with the same
/// settings can turn into events.
pub proof fn lemma_coded_cube_readable(
    idx_y: u16,
    idx_x: u16,
    blocks: Seq<Seq<Option<EventCoordless>>>,
    mode: Mode,
    dtm: DeltaT,
    dt_ref: DeltaT,
)
    requires
        idx_y < 0x1000,
        idx_x < 0x1000,
        1 <= blocks.len(),
        forall|j: int| 0 <= j < blocks.len() ==> (#[trigger] blocks[j]).len() == BLOCK_SIZE_AREA,
        spec_codable(blocks, mode, dtm, dt_ref, blocks.len() as int),
    ensures
        spec_cube_readable(spec_coded_cube(idx_y, idx_x, blocks, mode, dtm, dt_ref), mode, dtm, dt_ref),
{
    lemma_cube_round_trip(idx_y, idx_x, blocks, mode, dtm, dt_ref, blocks.len() - 1);
}

/// Whether the first cubes of a channel can be turned into events does not
/// depend on a cube behind them.
proof fn lemma_channel_readable_push(
    cubes: Seq<CubeView>,
    cube: CubeView,
    mode: Mode,
    dtm: DeltaT,
    dt_ref: DeltaT,
    n: int,
)
    requires
        0 <= n <= cubes.len(),
    ensures
        spec_channel_readable(cubes.push(cube), mode, dtm, dt_ref, n) == spec_channel_readable(
            cubes,
            mode,
            dtm,
            dt_ref,
            n,
        ),
    decreases n,
{
    if n > 0 {
        lemma_channel_readable_push(cubes, cube, mode, dtm, dt_ref, n - 1);
        assert(cubes.push(cube)[n - 1] == cubes[n - 1]);
    }
}

/// What is written for a color plane of cubes that can be coded, a decoder
/// with the same settings can turn into events.
pub proof fn lemma_coded_channel_readable(
    cubes: Seq<EventCube>,
    channel: u8,
    mode: Mode,
    dtm: DeltaT,
    dt_ref: DeltaT,
    n: int,
)
    requires
        0 <= n <= cubes.len(),
        forall|i: int| 0 <= i < cubes.len() ==> (#[trigger] cubes[i]).wf(),
        spec_all_codable(cubes, mode, dtm, dt_ref, n),
    ensures
        spec_channel_readable(
            spec_coded_channel(cubes, channel, mode, dtm, dt_ref, n),
            mode,
            dtm,
            dt_ref,
            spec_coded_channel(cubes, channel, mode, dtm, dt_ref, n).len() as int,
        ),
    decreases n,
{
    if n > 0 {
        lemma_coded_channel_readable(cubes, channel, mode, dtm, dt_ref, n - 1);
        let before = spec_coded_channel(cubes, channel, mode, dtm, dt_ref, n - 1);
        let cube = cubes[n - 1];
        if cube.channel == channel {
            let views = spec_block_views(cube.blocks@);
            let coded = spec_coded_cube(cube.idx_y, cube.idx_x, views, mode, dtm, dt_ref);
            assert(cube.wf());
            lemma_coded_cube_readable(cube.idx_y, cube.idx_x, views, mode, dtm, dt_ref);
            lemma_channel_readable_push(before, coded, mode, dtm, dt_ref, before.len() as int);
            assert(before.push(coded)[before.len() as int] == coded);
        }
    }
}

/// What `compress` makes of a unit, `decompress` accepts in a unit with the
/// same settings.
pub proof fn lemma_unit_round_trip(unit: EventAdu, adu: Adu, reader: EventAdu)
    requires
        unit.wf(),
        spec_all_codable(unit.cubes@, unit.mode, unit.dtm, unit.dt_ref, unit.cubes.len() as int),
        adu.cubes_r@ == spec_coded_channel(
            unit.cubes@,
            0,
            unit.mode,
            unit.dtm,
            unit.dt_ref,
            unit.cubes.len() as int,
        ),
        adu.cubes_g@ == spec_coded_channel(
            unit.cubes@,
            1,
            unit.mode,
            unit.dtm,
            unit.dt_ref,
            unit.cubes.len() as int,
        ),
        adu.cubes_b@ == spec_coded_channel(
            unit.cubes@,
            2,
            unit.mode,
            unit.dtm,
            unit.dt_ref,
            unit.cubes.len() as int,
        ),
        reader.mode == unit.mode,
        reader.dtm == unit.dtm,
        reader.dt_ref == unit.dt_ref,
    ensures
        reader.spec_readable(&adu),
{
    let n = unit.cubes.len() as int;
    lemma_coded_channel_readable(unit.cubes@, 0, unit.mode, unit.dtm, unit.dt_ref, n);
    lemma_coded_channel_readable(unit.cubes@, 1, unit.mode, unit.dtm, unit.dt_ref, n);
    lemma_coded_channel_readable(unit.cubes@, 2, unit.mode, unit.dtm, unit.dt_ref, n);
}

/// Blocks none of which needs a shift need none up to any point.
pub proof fn lemma_shift_free_prefix(
    blocks: Seq<Seq<Option<EventCoordless>>>,
    mode: Mode,
    dtm: DeltaT,
    dt_ref: DeltaT,
    k: int,
    n: int,
)
    requires
        0 <= k <= n,
        !spec_shift_free(blocks, mode, dtm, dt_ref, k),
    ensures
        !spec_shift_free(blocks, mode, dtm, dt_ref, n),
    decreases n - k,
{
    if k < n {
        lemma_shift_free_prefix(blocks, mode, dtm, dt_ref, k, n - 1);
    }
}

/// No block of the first `n` cubes needs a shift.
pub open spec fn spec_all_shift_free(
    cubes: Seq<EventCube>,
    mode: Mode,
    dtm: DeltaT,
    dt_ref: DeltaT,
    n: int,
) -> bool
    decreases n,
{
    if n <= 0 {
        true
    } else {
        spec_all_shift_free(cubes, mode, dtm, dt_ref, n - 1) && spec_shift_free(
            spec_block_views(cubes[n - 1].blocks@),
            mode,
            dtm,
            dt_ref,
            cubes[n - 1].blocks.len() as int,
        )
    }
}

/// The events that the first `n` cubes of a unit hold in a color plane, in
/// the order in which a reader hands them out: cube by cube, block by
/// block, in row-major order.
pub open spec fn spec_stored_events(cubes: Seq<EventCube>, channel: u8, colors: u8, n: int) -> Seq<
    Event,
>
    decreases n,
{
    if n <= 0 {
        Seq::empty()
    } else {
        let before = spec_stored_events(cubes, channel, colors, n - 1);
        let cube = cubes[n - 1];
        if cube.channel == channel {
            before + spec_cube_events(
                spec_block_views(cube.blocks@),
                cube.idx_y,
                cube.idx_x,
                channel,
                colors,
                cube.blocks.len() as int,
            )
        } else {
            before
        }
    }
}

/// The events of the first blocks of a cube depend on those blocks only.
proof fn lemma_cube_events_agree(
    a: Seq<Seq<Option<EventCoordless>>>,
    b: Seq<Seq<Option<EventCoordless>>>,
    idx_y: u16,
    idx_x: u16,
    channel: u8,
    colors: u8,
    n: int,
)
    requires
        0 <= n <= a.len(),
        n <= b.len(),
        forall|k: int| 0 <= k < n ==> a[k] == b[k],
    ensures
        spec_cube_events(a, idx_y, idx_x, channel, colors, n) == spec_cube_events(
            b,
            idx_y,
            idx_x,
            channel,
            colors,
            n,
        ),
    decreases n,
{
    if n > 0 {
        lemma_cube_events_agree(a, b, idx_y, idx_x, channel, colors, n - 1);
    }
}

/// The events of the first cubes of a channel do not depend on a cube
/// behind them.
proof fn lemma_channel_events_push(
    cubes: Seq<CubeView>,
    cube: CubeView,
    channel: u8,
    colors: u8,
    mode: Mode,
    dtm: DeltaT,
    dt_ref: DeltaT,
    n: int,
)
    requires
        0 <= n <= cubes.len(),
    ensures
        spec_channel_events(cubes.push(cube), channel, colors, mode, dtm, dt_ref, n)
            == spec_channel_events(cubes, channel, colors, mode, dtm, dt_ref, n),
    decreases n,
{
    if n > 0 {
        lemma_channel_events_push(cubes, cube, channel, colors, mode, dtm, dt_ref, n - 1);
        assert(cubes.push(cube)[n - 1] == cubes[n - 1]);
    }
}

/// Where no block needs a shift, a reader of what is written for a color
/// plane hands out exactly the events that the cubes hold.
pub proof fn lemma_channel_lossless(
    cubes: Seq<EventCube>,
    channel: u8,
    colors: u8,
    mode: Mode,
    dtm: DeltaT,
    dt_ref: DeltaT,
    n: int,
)
    requires
        0 <= n <= cubes.len(),
        forall|i: int| 0 <= i < cubes.len() ==> (#[trigger] cubes[i]).wf(),
        spec_all_codable(cubes, mode, dtm, dt_ref, n),
        spec_all_shift_free(cubes, mode, dtm, dt_ref, n),
    ensures
        spec_channel_events(
            spec_coded_channel(cubes, channel, mode, dtm, dt_ref, n),
            channel,
            colors,
            mode,
            dtm,
            dt_ref,
            spec_coded_channel(cubes, channel, mode, dtm, dt_ref, n).len() as int,
        ) == spec_stored_events(cubes, channel, colors, n),
    decreases n,
{
    if n > 0 {
        lemma_channel_lossless(cubes, channel, colors, mode, dtm, dt_ref, n - 1);
        let before = spec_coded_channel(cubes, channel, mode, dtm, dt_ref, n - 1);
        let cube = cubes[n - 1];
        if cube.channel == channel {
            let views = spec_block_views(cube.blocks@);
            let len = cube.blocks.len() as int;
            let coded = spec_coded_cube(cube.idx_y, cube.idx_x, views, mode, dtm, dt_ref);
            let decoded = spec_decoded_blocks(coded, mode, dtm, dt_ref);
            assert(cube.wf());
            assert forall|k: int| 0 <= k < len implies decoded[k] == views[k] by {
                if !spec_codable(views, mode, dtm, dt_ref, k + 1) {
                    lemma_codable_prefix(views, mode, dtm, dt_ref, k + 1, len);
                }
                if !spec_shift_free(views, mode, dtm, dt_ref, k + 1) {
                    lemma_shift_free_prefix(views, mode, dtm, dt_ref, k + 1, len);
                }
                lemma_cube_lossless(cube.idx_y, cube.idx_x, views, mode, dtm, dt_ref, k);
            }
            lemma_cube_events_agree(decoded, views, cube.idx_y, cube.idx_x, channel, colors, len);
            lemma_channel_events_push(
                before,
                coded,
                channel,
                colors,
                mode,
                dtm,
                dt_ref,
                before.len() as int,
            );
            assert(before.push(coded)[before.len() as int] == coded);
        }
    }
}

/// Where no block needs a shift, what `decompress` makes of what
/// `compress` has made of a unit are exactly the events that the unit
/// holds, color plane by color plane.
pub proof fn lemma_unit_lossless(unit: EventAdu, adu: Adu, reader: EventAdu)
    requires
        unit.wf(),
        spec_all_codable(unit.cubes@, unit.mode, unit.dtm, unit.dt_ref, unit.cubes.len() as int),
        spec_all_shift_free(unit.cubes@, unit.mode, unit.dtm, unit.dt_ref, unit.cubes.len() as int),
        adu.cubes_r@ == spec_coded_channel(
            unit.cubes@,
            0,
            unit.mode,
            unit.dtm,
            unit.dt_ref,
            unit.cubes.len() as int,
        ),
        adu.cubes_g@ == spec_coded_channel(
            unit.cubes@,
            1,
            unit.mode,
            unit.dtm,
            unit.dt_ref,
            unit.cubes.len() as int,
        ),
        adu.cubes_b@ == spec_coded_channel(
            unit.cubes@,
            2,
            unit.mode,
            unit.dtm,
            unit.dt_ref,
            unit.cubes.len() as int,
        ),
        reader.mode == unit.mode,
        reader.dtm == unit.dtm,
        reader.dt_ref == unit.dt_ref,
    ensures
        reader.spec_readable(&adu),
        reader.spec_events_of(&adu) == spec_stored_events(
            unit.cubes@,
            0,
            reader.plane.channels,
            unit.cubes.len() as int,
        ) + spec_stored_events(unit.cubes@, 1, reader.plane.channels, unit.cubes.len() as int)
            + spec_stored_events(unit.cubes@, 2, reader.plane.channels, unit.cubes.len() as int),
{
    let n = unit.cubes.len() as int;
    let colors = reader.plane.channels;
    lemma_unit_round_trip(unit, adu, reader);
    lemma_channel_lossless(unit.cubes@, 0, colors, unit.mode, unit.dtm, unit.dt_ref, n);
    lemma_channel_lossless(unit.cubes@, 1, colors, unit.mode, unit.dtm, unit.dt_ref, n);
    lemma_channel_lossless(unit.cubes@, 2, colors, unit.mode, unit.dtm, unit.dt_ref, n);
}

/// For a continuous source, the reconstructed time that is kept of a
/// pixel behind block `k` is the time of the event that a decoder finds
/// for it in that block; and the event that a decoder finds in a later
/// block comes no more than `dtm` ticks behind the reconstructed time kept
/// of its pixel, and not before it.
pub proof fn lemma_cube_tick_bound(
    idx_y: u16,
    idx_x: u16,
    blocks: Seq<Seq<Option<EventCoordless>>>,
    dtm: DeltaT,
    dt_ref: DeltaT,
    k: int,
    p: int,
)
    requires
        0 <= k < blocks.len(),
        0 <= p < BLOCK_SIZE_AREA,
        forall|j: int| 0 <= j < blocks.len() ==> (#[trigger] blocks[j]).len() == BLOCK_SIZE_AREA,
        spec_codable(blocks, Mode::Continuous, dtm, dt_ref, k + 1),
        blocks[k][p] is Some,
    ensures
        spec_encoder_state(blocks, Mode::Continuous, dtm, dt_ref, k).t_recon[p]
            == spec_decoded_block(
            spec_coded_cube(idx_y, idx_x, blocks, Mode::Continuous, dtm, dt_ref),
            Mode::Continuous,
            dtm,
            dt_ref,
            k,
        )[p]->0.delta_t,
        k > 0 ==> 0 <= spec_decoded_block(
            spec_coded_cube(idx_y, idx_x, blocks, Mode::Continuous, dtm, dt_ref),
            Mode::Continuous,
            dtm,
            dt_ref,
            k,
        )[p]->0.delta_t - spec_encoder_state(blocks, Mode::Continuous, dtm, dt_ref, k - 1).t_recon[p]
            <= dtm,
{
    let mode = Mode::Continuous;
    let cube = spec_coded_cube(idx_y, idx_x, blocks, mode, dtm, dt_ref);
    let enc = spec_encoder_state(blocks, mode, dtm, dt_ref, k);
    let decoded = spec_decoded_block(cube, mode, dtm, dt_ref, k);
    let events = blocks[k];
    lemma_fresh_exists(mode);
    lemma_cube_round_trip(idx_y, idx_x, blocks, mode, dtm, dt_ref, k);
    if k == 0 {
        lemma_intra_coded_exists(mode, SPARAM_OFFERED, dt_ref, dtm, events);
        lemma_intra_round_trip(enc, SPARAM_OFFERED, dt_ref, dtm, events, p);
        assert(decoded[p] == spec_inverse_intra_event(
            cube.intra_block.head_event_t,
            cube.intra_block.head_event_d,
            cube.intra_block.body.d_residuals[p],
            cube.intra_block.body.t_residuals[p],
            cube.intra_block.body.sparam,
        ));
    } else {
        lemma_cube_round_trip(idx_y, idx_x, blocks, mode, dtm, dt_ref, k - 1);
        let enc_prev = spec_encoder_state(blocks, mode, dtm, dt_ref, k - 1);
        lemma_inter_coded_exists(enc_prev, SPARAM_OFFERED, dtm, dt_ref, events);
        assert(cube.inter_blocks[k - 1] == spec_coded_inter(blocks, mode, dtm, dt_ref, k));
        lemma_loaded_exists(
            spec_decoder_state(cube, mode, dtm, dt_ref, k - 1),
            enc.d_residuals@,
            enc.dt_pred_residuals_i16@,
        );
        let pre = spec_decoder_input(cube, mode, dtm, dt_ref, k);
        assert(pre.d_residuals =~= enc.d_residuals);
        assert(pre.dt_pred_residuals_i16 =~= enc.dt_pred_residuals_i16);
        lemma_inter_round_trip(enc_prev, enc, pre, SPARAM_OFFERED, dtm, dt_ref, events, p);
        assert(decoded[p] == pre.inverse_inter_event(cube.inter_blocks[k - 1].sparam, dtm, p));
    }
}

/// Two sequences of events are the same but for the times: as many
/// events, and at every place the same pixel and the same decimation.
pub open spec fn spec_same_events(a: Seq<Event>, b: Seq<Event>) -> bool {
    &&& a.len() == b.len()
    &&& forall|i: int| 0 <= i < a.len() ==> (#[trigger] a[i]).coord == b[i].coord && a[i].d == b[i].d
}

/// Sequences that are the same but for the times stay so when put one
/// behind the other.
pub proof fn lemma_same_events_concat(a: Seq<Event>, b: Seq<Event>, c: Seq<Event>, d: Seq<Event>)
    requires
        spec_same_events(a, b),
        spec_same_events(c, d),
    ensures
        spec_same_events(a + c, b + d),
{
    assert forall|i: int| 0 <= i < (a + c).len() implies (#[trigger] (a + c)[i]).coord == (b
        + d)[i].coord && (a + c)[i].d == (b + d)[i].d by {
        if i < a.len() {
            assert((a + c)[i] == a[i]);
            assert((b + d)[i] == b[i]);
        } else {
            assert((a + c)[i] == c[i - a.len()]);
            assert((b + d)[i] == d[i - a.len()]);
        }
    }
}

/// Blocks that hold events at the same pixels with the same decimations
/// give the same events but for the times.
pub proof fn lemma_block_events_match(
    decoded: Seq<Option<EventCoordless>>,
    stored: Seq<Option<EventCoordless>>,
    idx_y: u16,
    idx_x: u16,
    channel: u8,
    colors: u8,
    n: int,
)
    requires
        0 <= n <= decoded.len(),
        n <= stored.len(),
        forall|p: int| 0 <= p < n ==> spec_decoded_matches(#[trigger] decoded[p], stored[p]),
    ensures
        spec_same_events(
            spec_block_events(decoded, idx_y, idx_x, channel, colors, n),
            spec_block_events(stored, idx_y, idx_x, channel, colors, n),
        ),
    decreases n,
{
    if n > 0 {
        lemma_block_events_match(decoded, stored, idx_y, idx_x, channel, colors, n - 1);
        assert(spec_decoded_matches(decoded[n - 1], stored[n - 1]));
        let a = spec_block_events(decoded, idx_y, idx_x, channel, colors, n - 1);
        let b = spec_block_events(stored, idx_y, idx_x, channel, colors, n - 1);
        match stored[n - 1] {
            Some(e) => {
                let coord = spec_coord_of(idx_y, idx_x, channel, colors, n - 1);
                let x = Event { coord, d: decoded[n - 1]->0.d, t: decoded[n - 1]->0.delta_t };
                let y = Event { coord, d: e.d, t: e.delta_t };
                assert(spec_same_events(seq![x], seq![y]));
                lemma_same_events_concat(a, b, seq![x], seq![y]);
                assert(a.push(x) =~= a + seq![x]);
                assert(b.push(y) =~= b + seq![y]);
            },
            None => {},
        }
    }
}

/// A reader finds in the first `n` blocks of a coded cube the events that
/// the cube holds there, in the same order, at the same pixels and with
/// the same decimations.
pub proof fn lemma_cube_events_match(
    idx_y: u16,
    idx_x: u16,
    blocks: Seq<Seq<Option<EventCoordless>>>,
    mode: Mode,
    dtm: DeltaT,
    dt_ref: DeltaT,
    channel: u8,
    colors: u8,
    n: int,
)
    requires
        0 <= n <= blocks.len(),
        forall|j: int| 0 <= j < blocks.len() ==> (#[trigger] blocks[j]).len() == BLOCK_SIZE_AREA,
        spec_codable(blocks, mode, dtm, dt_ref, blocks.len() as int),
    ensures
        spec_same_events(
            spec_cube_events(
                spec_decoded_blocks(
                    spec_coded_cube(idx_y, idx_x, blocks, mode, dtm, dt_ref),
                    mode,
                    dtm,
                    dt_ref,
                ),
                idx_y,
                idx_x,
                channel,
                colors,
                n,
            ),
            spec_cube_events(blocks, idx_y, idx_x, channel, colors, n),
        ),
    decreases n,
{
    if n > 0 {
        lemma_cube_events_match(idx_y, idx_x, blocks, mode, dtm, dt_ref, channel, colors, n - 1);
        if !spec_codable(blocks, mode, dtm, dt_ref, n) {
            lemma_codable_prefix(blocks, mode, dtm, dt_ref, n, blocks.len() as int);
        }
        lemma_cube_round_trip(idx_y, idx_x, blocks, mode, dtm, dt_ref, n - 1);
        let cube = spec_coded_cube(idx_y, idx_x, blocks, mode, dtm, dt_ref);
        let decoded = spec_decoded_blocks(cube, mode, dtm, dt_ref);
        assert(decoded[n - 1] == spec_decoded_block(cube, mode, dtm, dt_ref, n - 1));
        assert(decoded[n - 1].len() == BLOCK_SIZE_AREA);
        lemma_block_events_match(
            decoded[n - 1],
            blocks[n - 1],
            idx_y,
            idx_x,
            channel,
            colors,
            BLOCK_SIZE_AREA as int,
        );
        lemma_same_events_concat(
            spec_cube_events(decoded, idx_y, idx_x, channel, colors, n - 1),
            spec_cube_events(blocks, idx_y, idx_x, channel, colors, n - 1),
            spec_block_events(decoded[n - 1], idx_y, idx_x, channel, colors, BLOCK_SIZE_AREA as int),
            spec_block_events(blocks[n - 1], idx_y, idx_x, channel, colors, BLOCK_SIZE_AREA as int),
        );
    }
}

/// Whatever the shifts, a reader of what is written for a color plane
/// hands out the events that the cubes hold, in the same order, at the
/// same pixels and with the same decimations: every pixel has as many
/// events behind the decoder as before the encoder, each with its
/// decimation.
pub proof fn lemma_channel_events_match(
    cubes: Seq<EventCube>,
    channel: u8,
    colors: u8,
    mode: Mode,
    dtm: DeltaT,
    dt_ref: DeltaT,
    n: int,
)
    requires
        0 <= n <= cubes.len(),
        forall|i: int| 0 <= i < cubes.len() ==> (#[trigger] cubes[i]).wf(),
        spec_all_codable(cubes, mode, dtm, dt_ref, n),
    ensures
        spec_same_events(
            spec_channel_events(
                spec_coded_channel(cubes, channel, mode, dtm, dt_ref, n),
                channel,
                colors,
                mode,
                dtm,
                dt_ref,
                spec_coded_channel(cubes, channel, mode, dtm, dt_ref, n).len() as int,
            ),
            spec_stored_events(cubes, channel, colors, n),
        ),
    decreases n,
{
    if n > 0 {
        lemma_channel_events_match(cubes, channel, colors, mode, dtm, dt_ref, n - 1);
        let before = spec_coded_channel(cubes, channel, mode, dtm, dt_ref, n - 1);
        let cube = cubes[n - 1];
        if cube.channel == channel {
            let views = spec_block_views(cube.blocks@);
            let len = cube.blocks.len() as int;
            let coded = spec_coded_cube(cube.idx_y, cube.idx_x, views, mode, dtm, dt_ref);
            assert(cube.wf());
            lemma_cube_events_match(
                cube.idx_y,
                cube.idx_x,
                views,
                mode,
                dtm,
                dt_ref,
                channel,
                colors,
                len,
            );
            lemma_channel_events_push(
                before,
                coded,
                channel,
                colors,
                mode,
                dtm,
                dt_ref,
                before.len() as int,
            );
            assert(before.push(coded)[before.len() as int] == coded);
            lemma_same_events_concat(
                spec_channel_events(
                    before,
                    channel,
                    colors,
                    mode,
                    dtm,
                    dt_ref,
                    before.len() as int,
                ),
                spec_stored_events(cubes, channel, colors, n - 1),
                spec_cube_events(
                    spec_decoded_blocks(coded, mode, dtm, dt_ref),
                    cube.idx_y,
                    cube.idx_x,
                    channel,
                    colors,
                    len,
                ),
                spec_cube_events(views, cube.idx_y, cube.idx_x, channel, colors, len),
            );
        }
    }
}

/// The events that a unit holds, in the order in which a reader of a plane
/// of `colors` colors hands them out: those of the first color plane for a
/// single color, of all three otherwise.
pub open spec fn spec_unit_stored_events(cubes: Seq<EventCube>, colors: u8) -> Seq<Event> {
    if colors <= 1 {
        spec_stored_events(cubes, 0, colors, cubes.len() as int)
    } else {
        spec_stored_events(cubes, 0, colors, cubes.len() as int) + spec_stored_events(
            cubes,
            1,
            colors,
            cubes.len() as int,
        ) + spec_stored_events(cubes, 2, colors, cubes.len() as int)
    }
}

/// Whatever the shifts, a reader of what is written for a unit finds the
/// events that the unit holds, in the same order, at the same pixels and
/// with the same decimations.
pub proof fn lemma_unit_events_match(unit: EventAdu, colors: u8)
    requires
        unit.wf(),
        spec_all_codable(unit.cubes@, unit.mode, unit.dtm, unit.dt_ref, unit.cubes.len() as int),
    ensures
        spec_same_events(
            spec_channels_events(
                unit.spec_coded_view(colors).channels,
                colors,
                unit.mode,
                unit.dtm,
                unit.dt_ref,
                unit.spec_coded_view(colors).channels.len() as int,
            ),
            spec_unit_stored_events(unit.cubes@, colors),
        ),
{
    let n = unit.cubes.len() as int;
    let channels = unit.spec_coded_view(colors).channels;
    lemma_channel_events_match(unit.cubes@, 0, colors, unit.mode, unit.dtm, unit.dt_ref, n);
    let e0 = spec_channels_events(channels, colors, unit.mode, unit.dtm, unit.dt_ref, 0);
    let e1 = spec_channels_events(channels, colors, unit.mode, unit.dtm, unit.dt_ref, 1);
    let s0 = spec_stored_events(unit.cubes@, 0, colors, n);
    assert(e0 =~= Seq::<Event>::empty());
    assert(e1 =~= spec_channel_events(
        channels[0],
        0,
        colors,
        unit.mode,
        unit.dtm,
        unit.dt_ref,
        channels[0].len() as int,
    ));
    if colors > 1 {
        lemma_channel_events_match(unit.cubes@, 1, colors, unit.mode, unit.dtm, unit.dt_ref, n);
        lemma_channel_events_match(unit.cubes@, 2, colors, unit.mode, unit.dtm, unit.dt_ref, n);
        let e2 = spec_channels_events(channels, colors, unit.mode, unit.dtm, unit.dt_ref, 2);
        let e3 = spec_channels_events(channels, colors, unit.mode, unit.dtm, unit.dt_ref, 3);
        let c1 = spec_channel_events(
            channels[1],
            1,
            colors,
            unit.mode,
            unit.dtm,
            unit.dt_ref,
            channels[1].len() as int,
        );
        let c2 = spec_channel_events(
            channels[2],
            2,
            colors,
            unit.mode,
            unit.dtm,
            unit.dt_ref,
            channels[2].len() as int,
        );
        let s1 = spec_stored_events(unit.cubes@, 1, colors, n);
        let s2 = spec_stored_events(unit.cubes@, 2, colors, n);
        assert(e2 == e1 + c1);
        assert(e3 == e2 + c2);
        lemma_same_events_concat(e1, s0, c1, s1);
        lemma_same_events_concat(e1 + c1, s0 + s1, c2, s2);
    }
}

} // verus!
