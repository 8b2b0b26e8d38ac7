//! The symbol layout of a compressed access unit.
//!
//! An access unit is written as a sequence of symbols, each drawn from the
//! alphabet of one of four contexts: raw bytes, decimation residuals, time
//! residuals, and the end-of-sequence mark. Integer fields are split into
//! big-endian bytes. This module states the layout over plain sequences:
//! what is written for each level of the hierarchy, and how a sequence of
//! symbols is read back.

use crate::prediction::{BLOCK_SIZE_AREA, D_ENCODE_NO_EVENT};
use vstd::prelude::*;

verus! {

/// The alphabets a symbol can be drawn from.
#[derive(Clone, Copy, Debug, PartialEq, Eq, Structural)]
pub enum ContextKind {
    /// Raw bytes: header fields and counts.
    U8General,
    /// Decimation residuals `-255..=255` and the no-event mark.
    D,
    /// 16-bit time residuals.
    Dt,
    /// Nothing but the end-of-sequence mark.
    Eof,
}

/// Number of symbols in the byte alphabet.
pub const U8_SYMBOLS: usize = 256;

/// Number of symbols in the decimation-residual alphabet.
pub const D_SYMBOLS: usize = 512;

/// Number of symbols in the time-residual alphabet.
pub const DT_SYMBOLS: usize = 65536;

/// Number of symbols a block's header bytes and residuals take.
pub const BLOCK_BODY_SYMBOLS: usize = 514;

/// Number of symbols an intra block takes.
pub const INTRA_BLOCK_SYMBOLS: usize = 519;

/// Number of symbols a cube takes before its blocks.
pub const CUBE_HEADER_SYMBOLS: usize = 6;

/// Number of symbols in the alphabet of a context.
pub open spec fn spec_context_symbols(kind: ContextKind) -> nat {
    match kind {
        ContextKind::U8General => 256,
        ContextKind::D => 512,
        ContextKind::Dt => 65536,
        ContextKind::Eof => 0,
    }
}

/// The two big-endian bytes of `v`.
pub open spec fn spec_u16_symbols(v: u16) -> Seq<usize> {
    seq![(v / 256) as usize, (v % 256) as usize]
}

/// The four big-endian bytes of `v`.
pub open spec fn spec_u32_symbols(v: u32) -> Seq<usize> {
    seq![
        (v / 0x100_0000) as usize,
        ((v / 0x1_0000) % 256) as usize,
        ((v / 0x100) % 256) as usize,
        (v % 256) as usize,
    ]
}

/// The value of two big-endian bytes.
pub open spec fn spec_u16_value(hi: usize, lo: usize) -> int {
    hi * 256 + lo
}

/// The value of four big-endian bytes.
pub open spec fn spec_u32_value(b0: usize, b1: usize, b2: usize, b3: usize) -> int {
    b0 * 0x100_0000 + b1 * 0x1_0000 + b2 * 0x100 + b3
}

/// The symbol that stands for a decimation residual: the residual moved up
/// by 255, so that the no-event mark comes last.
pub open spec fn spec_d_symbol(r: i16) -> usize {
    (r + 255) as usize
}

/// The symbol that stands for a 16-bit time residual.
pub open spec fn spec_dt_symbol(q: i16) -> usize {
    (q + 32768) as usize
}

/// The header bytes and residuals that every block carries.
pub struct BlockBodyView {
    pub shift_loss_param: u8,
    pub sparam: u8,
    pub d_residuals: Seq<i16>,
    pub t_residuals: Seq<i16>,
}

/// What an intra block carries: the head event, then a block body.
pub struct IntraBlockView {
    pub head_event_d: u8,
    pub head_event_t: u32,
    pub body: BlockBodyView,
}

/// What a cube carries: its tile index, the intra block, and the inter
/// blocks in order.
pub struct CubeView {
    pub idx_y: u16,
    pub idx_x: u16,
    pub intra_block: IntraBlockView,
    pub inter_blocks: Seq<BlockBodyView>,
}

/// What an access unit carries: the time of its first event, and the cubes
/// of each color plane.
pub struct AduView {
    pub head_event_t: u32,
    pub channels: Seq<Seq<CubeView>>,
}

impl BlockBodyView {
    /// Both residual lists cover the block, and every decimation residual
    /// is in the alphabet.
    pub open spec fn wf(self) -> bool {
        &&& self.d_residuals.len() == BLOCK_SIZE_AREA
        &&& self.t_residuals.len() == BLOCK_SIZE_AREA
        &&& forall|i: int|
            0 <= i < BLOCK_SIZE_AREA ==> -255 <= #[trigger] self.d_residuals[i]
                <= D_ENCODE_NO_EVENT
    }

    /// The symbols written for the block body: the loss parameter, the
    /// shift, 256 decimation residuals, 256 time residuals.
    pub open spec fn symbols(self) -> Seq<usize> {
        Seq::new(
            BLOCK_BODY_SYMBOLS as nat,
            |j: int|
                if j == 0 {
                    self.shift_loss_param as usize
                } else if j == 1 {
                    self.sparam as usize
                } else if j < 2 + BLOCK_SIZE_AREA {
                    spec_d_symbol(self.d_residuals[j - 2])
                } else {
                    spec_dt_symbol(self.t_residuals[j - 2 - BLOCK_SIZE_AREA])
                },
        )
    }

    /// The context each of those symbols is drawn from.
    pub open spec fn contexts() -> Seq<ContextKind> {
        Seq::new(
            BLOCK_BODY_SYMBOLS as nat,
            |j: int|
                if j < 2 {
                    ContextKind::U8General
                } else if j < 2 + BLOCK_SIZE_AREA {
                    ContextKind::D
                } else {
                    ContextKind::Dt
                },
        )
    }
}

/// The symbols at `lo..hi` are all below `bound`.
pub open spec fn spec_all_below(s: Seq<usize>, lo: int, hi: int, bound: int) -> bool {
    forall|j: int| lo <= j < hi ==> #[trigger] s[j] < bound
}

/// The block body that the symbols from `pos` on spell, if they spell one.
pub open spec fn spec_parse_block_body(s: Seq<usize>, pos: int) -> Option<BlockBodyView> {
    if 0 <= pos && pos + BLOCK_BODY_SYMBOLS <= s.len() && s[pos] < 256 && s[pos + 1] < 256
        && spec_all_below(s, pos + 2, pos + 2 + BLOCK_SIZE_AREA, 512) && spec_all_below(
        s,
        pos + 2 + BLOCK_SIZE_AREA,
        pos + BLOCK_BODY_SYMBOLS,
        65536,
    ) {
        Some(
            BlockBodyView {
                shift_loss_param: s[pos] as u8,
                sparam: s[pos + 1] as u8,
                d_residuals: Seq::new(
                    BLOCK_SIZE_AREA as nat,
                    |i: int| (s[pos + 2 + i] - 255) as i16,
                ),
                t_residuals: Seq::new(
                    BLOCK_SIZE_AREA as nat,
                    |i: int| (s[pos + 2 + BLOCK_SIZE_AREA + i] - 32768) as i16,
                ),
            },
        )
    } else {
        None
    }
}

impl IntraBlockView {
    pub open spec fn wf(self) -> bool {
        self.body.wf()
    }

    /// The symbols written for an intra block: the head's decimation, the
    /// head's time, then the block body.
    pub open spec fn symbols(self) -> Seq<usize> {
        seq![self.head_event_d as usize] + spec_u32_symbols(self.head_event_t)
            + self.body.symbols()
    }

    /// The context each of those symbols is drawn from.
    pub open spec fn contexts() -> Seq<ContextKind> {
        Seq::new(5, |j: int| ContextKind::U8General) + BlockBodyView::contexts()
    }
}

/// The intra block that the symbols from `pos` on spell, if they spell one.
pub open spec fn spec_parse_intra_block(s: Seq<usize>, pos: int) -> Option<IntraBlockView> {
    if 0 <= pos && pos + INTRA_BLOCK_SYMBOLS <= s.len() && s[pos] < 256 && s[pos + 1] < 256 && s[pos
        + 2] < 256 && s[pos + 3] < 256 && s[pos + 4] < 256 {
        match spec_parse_block_body(s, pos + 5) {
            Some(body) => Some(
                IntraBlockView {
                    head_event_d: s[pos] as u8,
                    head_event_t: spec_u32_value(s[pos + 1], s[pos + 2], s[pos + 3], s[pos + 4]) as u32,
                    body,
                },
            ),
            None => None,
        }
    } else {
        None
    }
}

/// The symbols written for the first `n` of a cube's inter blocks.
pub open spec fn spec_inter_blocks_symbols(blocks: Seq<BlockBodyView>, n: int) -> Seq<usize>
    decreases n,
{
    if n <= 0 {
        Seq::empty()
    } else {
        spec_inter_blocks_symbols(blocks, n - 1) + blocks[n - 1].symbols()
    }
}

/// The contexts of `n` inter blocks.
pub open spec fn spec_inter_blocks_contexts(n: int) -> Seq<ContextKind>
    decreases n,
{
    if n <= 0 {
        Seq::empty()
    } else {
        spec_inter_blocks_contexts(n - 1) + BlockBodyView::contexts()
    }
}

/// The `n` inter blocks that the symbols from `pos` on spell, if they spell
/// as many.
pub open spec fn spec_parse_inter_blocks(s: Seq<usize>, pos: int, n: int) -> Option<
    Seq<BlockBodyView>,
>
    decreases n,
{
    if n <= 0 {
        Some(Seq::empty())
    } else {
        match spec_parse_inter_blocks(s, pos, n - 1) {
            Some(blocks) => match spec_parse_block_body(s, pos + (n - 1) * BLOCK_BODY_SYMBOLS) {
                Some(b) => Some(blocks.push(b)),
                None => None,
            },
            None => None,
        }
    }
}

impl CubeView {
    /// The blocks are well formed and their number fits the 16-bit count.
    pub open spec fn wf(self) -> bool {
        &&& self.intra_block.wf()
        &&& self.inter_blocks.len() <= u16::MAX
        &&& forall|i: int| 0 <= i < self.inter_blocks.len() ==> (#[trigger] self.inter_blocks[i]).wf()
    }

    /// The number of symbols the cube takes.
    pub open spec fn symbol_count(self) -> int {
        CUBE_HEADER_SYMBOLS + INTRA_BLOCK_SYMBOLS + self.inter_blocks.len() * BLOCK_BODY_SYMBOLS
    }

    /// The symbols written for a cube: its tile index, the number of inter
    /// blocks, the intra block, the inter blocks.
    pub open spec fn symbols(self) -> Seq<usize> {
        spec_u16_symbols(self.idx_y) + spec_u16_symbols(self.idx_x) + spec_u16_symbols(
            self.inter_blocks.len() as u16,
        ) + self.intra_block.symbols() + spec_inter_blocks_symbols(
            self.inter_blocks,
            self.inter_blocks.len() as int,
        )
    }

    /// The context each of those symbols is drawn from.
    pub open spec fn contexts(self) -> Seq<ContextKind> {
        Seq::new(6, |j: int| ContextKind::U8General) + IntraBlockView::contexts()
            + spec_inter_blocks_contexts(self.inter_blocks.len() as int)
    }
}

/// The cube that the symbols from `pos` on spell, if they spell one, and
/// the position after it.
pub open spec fn spec_parse_cube(s: Seq<usize>, pos: int) -> Option<(CubeView, int)> {
    if 0 <= pos && pos + CUBE_HEADER_SYMBOLS <= s.len() && s[pos] < 256 && s[pos + 1] < 256 && s[pos
        + 2] < 256 && s[pos + 3] < 256 && s[pos + 4] < 256 && s[pos + 5] < 256 {
        let n = spec_u16_value(s[pos + 4], s[pos + 5]);
        match spec_parse_intra_block(s, pos + 6) {
            Some(intra_block) => match spec_parse_inter_blocks(
                s,
                pos + 6 + INTRA_BLOCK_SYMBOLS,
                n,
            ) {
                Some(inter_blocks) => Some(
                    (
                        CubeView {
                            idx_y: spec_u16_value(s[pos], s[pos + 1]) as u16,
                            idx_x: spec_u16_value(s[pos + 2], s[pos + 3]) as u16,
                            intra_block,
                            inter_blocks,
                        },
                        pos + 6 + INTRA_BLOCK_SYMBOLS + n * BLOCK_BODY_SYMBOLS,
                    ),
                ),
                None => None,
            },
            None => None,
        }
    } else {
        None
    }
}

/// The symbols written for the first `n` cubes of a channel.
pub open spec fn spec_cubes_symbols(cubes: Seq<CubeView>, n: int) -> Seq<usize>
    decreases n,
{
    if n <= 0 {
        Seq::empty()
    } else {
        spec_cubes_symbols(cubes, n - 1) + cubes[n - 1].symbols()
    }
}

/// The contexts of the first `n` cubes of a channel.
pub open spec fn spec_cubes_contexts(cubes: Seq<CubeView>, n: int) -> Seq<ContextKind>
    decreases n,
{
    if n <= 0 {
        Seq::empty()
    } else {
        spec_cubes_contexts(cubes, n - 1) + cubes[n - 1].contexts()
    }
}

/// The `n` cubes that the symbols from `pos` on spell, if they spell as
/// many, and the position after them.
pub open spec fn spec_parse_cubes(s: Seq<usize>, pos: int, n: int) -> Option<(Seq<CubeView>, int)>
    decreases n,
{
    if n <= 0 {
        Some((Seq::empty(), pos))
    } else {
        match spec_parse_cubes(s, pos, n - 1) {
            Some((cubes, p)) => match spec_parse_cube(s, p) {
                Some((cube, next)) => Some((cubes.push(cube), next)),
                None => None,
            },
            None => None,
        }
    }
}

/// A channel's cubes are well formed and their number fits the 16-bit
/// count.
pub open spec fn spec_channel_wf(cubes: Seq<CubeView>) -> bool {
    &&& cubes.len() <= u16::MAX
    &&& forall|i: int| 0 <= i < cubes.len() ==> (#[trigger] cubes[i]).wf()
}

/// The symbols written for a channel: the number of cubes, then the cubes.
pub open spec fn spec_channel_symbols(cubes: Seq<CubeView>) -> Seq<usize> {
    spec_u16_symbols(cubes.len() as u16) + spec_cubes_symbols(cubes, cubes.len() as int)
}

/// The context each of a channel's symbols is drawn from.
pub open spec fn spec_channel_contexts(cubes: Seq<CubeView>) -> Seq<ContextKind> {
    Seq::new(2, |j: int| ContextKind::U8General) + spec_cubes_contexts(cubes, cubes.len() as int)
}

/// The channel that the symbols from `pos` on spell, if they spell one, and
/// the position after it.
pub open spec fn spec_parse_channel(s: Seq<usize>, pos: int) -> Option<(Seq<CubeView>, int)> {
    if 0 <= pos && pos + 2 <= s.len() && s[pos] < 256 && s[pos + 1] < 256 {
        spec_parse_cubes(s, pos + 2, spec_u16_value(s[pos], s[pos + 1]))
    } else {
        None
    }
}

/// The symbols written for the first `n` channels of an access unit.
pub open spec fn spec_channels_symbols(channels: Seq<Seq<CubeView>>, n: int) -> Seq<usize>
    decreases n,
{
    if n <= 0 {
        Seq::empty()
    } else {
        spec_channels_symbols(channels, n - 1) + spec_channel_symbols(channels[n - 1])
    }
}

/// The contexts of the first `n` channels of an access unit.
pub open spec fn spec_channels_contexts(channels: Seq<Seq<CubeView>>, n: int) -> Seq<ContextKind>
    decreases n,
{
    if n <= 0 {
        Seq::empty()
    } else {
        spec_channels_contexts(channels, n - 1) + spec_channel_contexts(channels[n - 1])
    }
}

/// The `n` channels that the symbols from `pos` on spell, if they spell as
/// many, and the position after them.
pub open spec fn spec_parse_channels(s: Seq<usize>, pos: int, n: int) -> Option<
    (Seq<Seq<CubeView>>, int),
>
    decreases n,
{
    if n <= 0 {
        Some((Seq::empty(), pos))
    } else {
        match spec_parse_channels(s, pos, n - 1) {
            Some((channels, p)) => match spec_parse_channel(s, p) {
                Some((channel, next)) => Some((channels.push(channel), next)),
                None => None,
            },
            None => None,
        }
    }
}

impl AduView {
    pub open spec fn wf(self) -> bool {
        forall|c: int| 0 <= c < self.channels.len() ==> spec_channel_wf(#[trigger] self.channels[c])
    }

    /// The symbols written for an access unit: the time of its first event,
    /// then one channel per color plane. The end-of-sequence mark follows
    /// them on the coder.
    pub open spec fn symbols(self) -> Seq<usize> {
        spec_u32_symbols(self.head_event_t) + spec_channels_symbols(
            self.channels,
            self.channels.len() as int,
        )
    }

    /// The context each of those symbols is drawn from.
    pub open spec fn contexts(self) -> Seq<ContextKind> {
        Seq::new(4, |j: int| ContextKind::U8General) + spec_channels_contexts(
            self.channels,
            self.channels.len() as int,
        )
    }
}

/// The access unit of `num_channels` color planes that the symbols spell,
/// if they spell one and nothing more.
pub open spec fn spec_parse_adu(s: Seq<usize>, num_channels: int) -> Option<AduView> {
    if 4 <= s.len() && s[0] < 256 && s[1] < 256 && s[2] < 256 && s[3] < 256 {
        match spec_parse_channels(s, 4, num_channels) {
            Some((channels, p)) => if p == s.len() {
                Some(
                    AduView {
                        head_event_t: spec_u32_value(s[0], s[1], s[2], s[3]) as u32,
                        channels,
                    },
                )
            } else {
                None
            },
            None => None,
        }
    } else {
        None
    }
}


/// The symbols of `x` stand in `s` from `pos` on.
pub open spec fn spec_has_at(s: Seq<usize>, pos: int, x: Seq<usize>) -> bool {
    &&& 0 <= pos
    &&& pos + x.len() <= s.len()
    &&& forall|j: int| 0 <= j < x.len() ==> s[pos + j] == #[trigger] x[j]
}

/// A concatenation stands at `pos` exactly when its first part stands at
/// `pos` and its second part right behind the first.
pub proof fn lemma_has_at_concat(s: Seq<usize>, pos: int, a: Seq<usize>, b: Seq<usize>)
    ensures
        spec_has_at(s, pos, a + b) <==> spec_has_at(s, pos, a) && spec_has_at(s, pos + a.len(), b),
{
    if spec_has_at(s, pos, a + b) {
        assert forall|j: int| 0 <= j < a.len() implies s[pos + j] == #[trigger] a[j] by {
            assert((a + b)[j] == a[j]);
        }
        assert forall|j: int| 0 <= j < b.len() implies s[pos + a.len() + j] == #[trigger] b[j] by {
            assert((a + b)[a.len() + j] == b[j]);
        }
    }
    if spec_has_at(s, pos, a) && spec_has_at(s, pos + a.len(), b) {
        assert forall|j: int| 0 <= j < (a + b).len() implies s[pos + j] == #[trigger] (a + b)[j] by {
            if j < a.len() {
                assert((a + b)[j] == a[j]);
            } else {
                assert((a + b)[j] == b[j - a.len()]);
                assert(s[pos + a.len() + (j - a.len())] == b[j - a.len()]);
            }
        }
    }
}

/// Two bytes written for a 16-bit value read back as that value.
pub proof fn lemma_u16_round_trip(v: u16)
    ensures
        spec_u16_symbols(v).len() == 2,
        spec_u16_symbols(v)[0] < 256,
        spec_u16_symbols(v)[1] < 256,
        spec_u16_value(spec_u16_symbols(v)[0], spec_u16_symbols(v)[1]) == v,
{
}

/// Four bytes written for a 32-bit value read back as that value.
pub proof fn lemma_u32_round_trip(v: u32)
    ensures
        spec_u32_symbols(v).len() == 4,
        spec_u32_symbols(v)[0] < 256,
        spec_u32_symbols(v)[1] < 256,
        spec_u32_symbols(v)[2] < 256,
        spec_u32_symbols(v)[3] < 256,
        spec_u32_value(
            spec_u32_symbols(v)[0],
            spec_u32_symbols(v)[1],
            spec_u32_symbols(v)[2],
            spec_u32_symbols(v)[3],
        ) == v,
{
}

/// A block body that stands at `pos` is what is read there.
pub proof fn lemma_parse_block_body(s: Seq<usize>, pos: int, b: BlockBodyView)
    requires
        b.wf(),
        spec_has_at(s, pos, b.symbols()),
    ensures
        spec_parse_block_body(s, pos) == Some(b),
{
    let x = b.symbols();
    assert(s[pos] == x[0]);
    assert(s[pos + 1] == x[1]);
    assert forall|j: int| pos + 2 <= j < pos + 2 + BLOCK_SIZE_AREA implies #[trigger] s[j]
        < 512 by {
        assert(s[pos + (j - pos)] == x[j - pos]);
    }
    assert forall|j: int|
        pos + 2 + BLOCK_SIZE_AREA <= j < pos + BLOCK_BODY_SYMBOLS implies #[trigger] s[j]
        < 65536 by {
        assert(s[pos + (j - pos)] == x[j - pos]);
    }
    let parsed = spec_parse_block_body(s, pos)->0;
    assert(parsed.d_residuals =~= b.d_residuals) by {
        assert forall|i: int| 0 <= i < BLOCK_SIZE_AREA implies parsed.d_residuals[i]
            == b.d_residuals[i] by {
            assert(s[pos + (2 + i)] == x[2 + i]);
        }
    }
    assert(parsed.t_residuals =~= b.t_residuals) by {
        assert forall|i: int| 0 <= i < BLOCK_SIZE_AREA implies parsed.t_residuals[i]
            == b.t_residuals[i] by {
            assert(s[pos + (2 + BLOCK_SIZE_AREA + i)] == x[2 + BLOCK_SIZE_AREA + i]);
        }
    }
}

/// An intra block that stands at `pos` is what is read there.
pub proof fn lemma_parse_intra_block(s: Seq<usize>, pos: int, b: IntraBlockView)
    requires
        b.wf(),
        spec_has_at(s, pos, b.symbols()),
    ensures
        spec_parse_intra_block(s, pos) == Some(b),
        b.symbols().len() == INTRA_BLOCK_SYMBOLS,
{
    let head = seq![b.head_event_d as usize] + spec_u32_symbols(b.head_event_t);
    lemma_u32_round_trip(b.head_event_t);
    lemma_has_at_concat(s, pos, head, b.body.symbols());
    lemma_has_at_concat(s, pos, seq![b.head_event_d as usize], spec_u32_symbols(b.head_event_t));
    assert(s[pos + 0] == seq![b.head_event_d as usize][0]);
    let t = spec_u32_symbols(b.head_event_t);
    assert(s[pos + 1 + 0] == t[0]);
    assert(s[pos + 1 + 1] == t[1]);
    assert(s[pos + 1 + 2] == t[2]);
    assert(s[pos + 1 + 3] == t[3]);
    lemma_parse_block_body(s, pos + 5, b.body);
}

/// `n` inter blocks take 514 symbols each.
pub proof fn lemma_inter_blocks_len(blocks: Seq<BlockBodyView>, n: int)
    requires
        0 <= n,
    ensures
        spec_inter_blocks_symbols(blocks, n).len() == n * BLOCK_BODY_SYMBOLS,
    decreases n,
{
    if n > 0 {
        lemma_inter_blocks_len(blocks, n - 1);
    }
}

/// Inter blocks that stand at `pos` are what is read there.
pub proof fn lemma_parse_inter_blocks(s: Seq<usize>, pos: int, blocks: Seq<BlockBodyView>, n: int)
    requires
        0 <= n <= blocks.len(),
        forall|i: int| 0 <= i < n ==> (#[trigger] blocks[i]).wf(),
        spec_has_at(s, pos, spec_inter_blocks_symbols(blocks, n)),
    ensures
        spec_parse_inter_blocks(s, pos, n) == Some(blocks.take(n)),
    decreases n,
{
    if n > 0 {
        lemma_inter_blocks_len(blocks, n - 1);
        lemma_has_at_concat(
            s,
            pos,
            spec_inter_blocks_symbols(blocks, n - 1),
            blocks[n - 1].symbols(),
        );
        lemma_parse_inter_blocks(s, pos, blocks, n - 1);
        lemma_parse_block_body(s, pos + (n - 1) * BLOCK_BODY_SYMBOLS, blocks[n - 1]);
        assert(blocks.take(n - 1).push(blocks[n - 1]) =~= blocks.take(n));
    } else {
        assert(blocks.take(0) =~= Seq::<BlockBodyView>::empty());
    }
}

/// A cube that stands at `pos` is what is read there, and reading ends
/// right behind it.
pub proof fn lemma_parse_cube(s: Seq<usize>, pos: int, c: CubeView)
    requires
        c.wf(),
        spec_has_at(s, pos, c.symbols()),
    ensures
        spec_parse_cube(s, pos) == Some((c, pos + c.symbol_count())),
        c.symbols().len() == c.symbol_count(),
{
    let n = c.inter_blocks.len() as int;
    let y = spec_u16_symbols(c.idx_y);
    let x = spec_u16_symbols(c.idx_x);
    let k = spec_u16_symbols(n as u16);
    let intra = c.intra_block.symbols();
    let inter = spec_inter_blocks_symbols(c.inter_blocks, n);
    lemma_u16_round_trip(c.idx_y);
    lemma_u16_round_trip(c.idx_x);
    lemma_u16_round_trip(n as u16);
    lemma_inter_blocks_len(c.inter_blocks, n);
    lemma_has_at_concat(s, pos, y + x + k + intra, inter);
    lemma_has_at_concat(s, pos, y + x + k, intra);
    lemma_has_at_concat(s, pos, y + x, k);
    lemma_has_at_concat(s, pos, y, x);
    assert(s[pos + 0] == y[0]);
    assert(s[pos + 1] == y[1]);
    assert(s[pos + 2 + 0] == x[0]);
    assert(s[pos + 2 + 1] == x[1]);
    assert(s[pos + 4 + 0] == k[0]);
    assert(s[pos + 4 + 1] == k[1]);
    lemma_parse_intra_block(s, pos + 6, c.intra_block);
    lemma_parse_inter_blocks(s, pos + 6 + INTRA_BLOCK_SYMBOLS, c.inter_blocks, n);
    assert(c.inter_blocks.take(n) =~= c.inter_blocks);
}

/// Cubes that stand at `pos` are what is read there, and reading ends right
/// behind them.
pub proof fn lemma_parse_cubes(s: Seq<usize>, pos: int, cubes: Seq<CubeView>, n: int)
    requires
        0 <= n <= cubes.len(),
        forall|i: int| 0 <= i < n ==> (#[trigger] cubes[i]).wf(),
        spec_has_at(s, pos, spec_cubes_symbols(cubes, n)),
    ensures
        spec_parse_cubes(s, pos, n) == Some(
            (cubes.take(n), pos + spec_cubes_symbols(cubes, n).len()),
        ),
    decreases n,
{
    if n > 0 {
        lemma_has_at_concat(s, pos, spec_cubes_symbols(cubes, n - 1), cubes[n - 1].symbols());
        lemma_parse_cubes(s, pos, cubes, n - 1);
        lemma_parse_cube(s, pos + spec_cubes_symbols(cubes, n - 1).len(), cubes[n - 1]);
        assert(cubes.take(n - 1).push(cubes[n - 1]) =~= cubes.take(n));
    } else {
        assert(cubes.take(0) =~= Seq::<CubeView>::empty());
    }
}

/// A channel that stands at `pos` is what is read there, and reading ends
/// right behind it.
pub proof fn lemma_parse_channel(s: Seq<usize>, pos: int, cubes: Seq<CubeView>)
    requires
        spec_channel_wf(cubes),
        spec_has_at(s, pos, spec_channel_symbols(cubes)),
    ensures
        spec_parse_channel(s, pos) == Some((cubes, pos + spec_channel_symbols(cubes).len())),
{
    let n = cubes.len() as int;
    let k = spec_u16_symbols(n as u16);
    lemma_u16_round_trip(n as u16);
    lemma_has_at_concat(s, pos, k, spec_cubes_symbols(cubes, n));
    assert(s[pos + 0] == k[0]);
    assert(s[pos + 1] == k[1]);
    lemma_parse_cubes(s, pos + 2, cubes, n);
    assert(cubes.take(n) =~= cubes);
}

/// Channels that stand at `pos` are what is read there, and reading ends
/// right behind them.
pub proof fn lemma_parse_channels(s: Seq<usize>, pos: int, channels: Seq<Seq<CubeView>>, n: int)
    requires
        0 <= n <= channels.len(),
        forall|c: int| 0 <= c < n ==> spec_channel_wf(#[trigger] channels[c]),
        spec_has_at(s, pos, spec_channels_symbols(channels, n)),
    ensures
        spec_parse_channels(s, pos, n) == Some(
            (channels.take(n), pos + spec_channels_symbols(channels, n).len()),
        ),
    decreases n,
{
    if n > 0 {
        lemma_has_at_concat(
            s,
            pos,
            spec_channels_symbols(channels, n - 1),
            spec_channel_symbols(channels[n - 1]),
        );
        lemma_parse_channels(s, pos, channels, n - 1);
        lemma_parse_channel(
            s,
            pos + spec_channels_symbols(channels, n - 1).len(),
            channels[n - 1],
        );
        assert(channels.take(n - 1).push(channels[n - 1]) =~= channels.take(n));
    } else {
        assert(channels.take(0) =~= Seq::<Seq<CubeView>>::empty());
    }
}

/// Reading the symbols that were written for an access unit gives the
/// access unit back: its head time, and in every channel the same cubes
/// with the same blocks and residuals.
pub proof fn lemma_adu_round_trip(adu: AduView)
    requires
        adu.wf(),
    ensures
        spec_parse_adu(adu.symbols(), adu.channels.len() as int) == Some(adu),
{
    let s = adu.symbols();
    let n = adu.channels.len() as int;
    let head = spec_u32_symbols(adu.head_event_t);
    let rest = spec_channels_symbols(adu.channels, n);
    lemma_u32_round_trip(adu.head_event_t);
    assert(spec_has_at(s, 0, head + rest));
    lemma_has_at_concat(s, 0, head, rest);
    assert(s[0int + 0] == head[0]);
    assert(s[0int + 1] == head[1]);
    assert(s[0int + 2] == head[2]);
    assert(s[0int + 3] == head[3]);
    lemma_parse_channels(s, 4, adu.channels, n);
    assert(adu.channels.take(n) =~= adu.channels);
}

} // verus!
