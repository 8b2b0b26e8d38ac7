//! The compressed access unit and the levels below it: blocks of
//! residuals, cubes of blocks, channels of cubes. Each level writes itself
//! as symbols for the entropy coder and reads itself back from symbols.

use crate::layout::{
    spec_all_below,
    spec_channel_symbols,
    spec_channel_wf,
    spec_channels_symbols,
    spec_cubes_symbols,
    spec_inter_blocks_symbols,
    spec_parse_adu,
    spec_parse_block_body,
    spec_parse_channel,
    spec_parse_channels,
    spec_parse_cube,
    spec_parse_cubes,
    spec_parse_inter_blocks,
    spec_parse_intra_block,
    spec_u16_symbols,
    spec_u16_value,
    spec_u32_symbols,
    AduView,
    BlockBodyView,
    CubeView,
    IntraBlockView,
    BLOCK_BODY_SYMBOLS,
    CUBE_HEADER_SYMBOLS,
    INTRA_BLOCK_SYMBOLS,
};
use crate::prediction::{DResidual, BLOCK_SIZE_AREA, D_ENCODE_NO_EVENT};
use crate::types::{AbsoluteT, CodecError, D};
use vstd::prelude::*;

verus! {

/// Appends the two big-endian bytes of `v`.
pub fn write_u16(v: u16, out: &mut Vec<usize>)
    ensures
        final(out)@ == old(out)@ + spec_u16_symbols(v),
{
    out.push((v / 256) as usize);
    out.push((v % 256) as usize);
    assert(out@ =~= old(out)@ + spec_u16_symbols(v));
}

/// Appends the four big-endian bytes of `v`.
pub fn write_u32(v: u32, out: &mut Vec<usize>)
    ensures
        final(out)@ == old(out)@ + spec_u32_symbols(v),
{
    out.push((v / 0x100_0000) as usize);
    out.push(((v / 0x1_0000) % 256) as usize);
    out.push(((v / 0x100) % 256) as usize);
    out.push((v % 256) as usize);
    assert(out@ =~= old(out)@ + spec_u32_symbols(v));
}

/// Whether two residual arrays hold the same values.
pub fn residuals_equal(a: &[i16; BLOCK_SIZE_AREA], b: &[i16; BLOCK_SIZE_AREA]) -> (r: bool)
    ensures
        r == (a@ == b@),
{
    let mut i: usize = 0;
    while i < BLOCK_SIZE_AREA
        invariant
            i <= BLOCK_SIZE_AREA,
            forall|j: int| 0 <= j < i ==> a[j] == b[j],
        decreases BLOCK_SIZE_AREA - i,
    {
        if a[i] != b[i] {
            return false;
        }
        i += 1;
    }
    assert(a@ =~= b@);
    true
}

/// Appends the symbols of a block body.
fn write_block_body(
    shift_loss_param: u8,
    sparam: u8,
    d_residuals: &[DResidual; BLOCK_SIZE_AREA],
    t_residuals: &[i16; BLOCK_SIZE_AREA],
    out: &mut Vec<usize>,
)
    requires
        (BlockBodyView {
            shift_loss_param,
            sparam,
            d_residuals: d_residuals@,
            t_residuals: t_residuals@,
        }).wf(),
    ensures
        final(out)@ == old(out)@ + (BlockBodyView {
            shift_loss_param,
            sparam,
            d_residuals: d_residuals@,
            t_residuals: t_residuals@,
        }).symbols(),
{
    let ghost view = BlockBodyView {
        shift_loss_param,
        sparam,
        d_residuals: d_residuals@,
        t_residuals: t_residuals@,
    };
    let ghost x = view.symbols();
    out.push(shift_loss_param as usize);
    out.push(sparam as usize);
    let mut i: usize = 0;
    while i < BLOCK_SIZE_AREA
        invariant
            i <= BLOCK_SIZE_AREA,
            view.wf(),
            view.d_residuals == d_residuals@,
            x == view.symbols(),
            out@.len() == old(out)@.len() + 2 + i,
            forall|j: int| 0 <= j < old(out)@.len() ==> out@[j] == old(out)@[j],
            forall|j: int| 0 <= j < 2 + i ==> out@[old(out)@.len() + j] == x[j],
        decreases BLOCK_SIZE_AREA - i,
    {
        let r: DResidual = d_residuals[i];
        assert(-255 <= view.d_residuals[i as int] <= D_ENCODE_NO_EVENT);
        out.push((r as i32 + 255) as usize);
        i += 1;
    }
    let mut i: usize = 0;
    while i < BLOCK_SIZE_AREA
        invariant
            i <= BLOCK_SIZE_AREA,
            view.t_residuals == t_residuals@,
            x == view.symbols(),
            out@.len() == old(out)@.len() + 2 + BLOCK_SIZE_AREA + i,
            forall|j: int| 0 <= j < old(out)@.len() ==> out@[j] == old(out)@[j],
            forall|j: int|
                0 <= j < 2 + BLOCK_SIZE_AREA + i ==> out@[old(out)@.len() + j] == x[j],
        decreases BLOCK_SIZE_AREA - i,
    {
        let q: i16 = t_residuals[i];
        out.push((q as i32 + 32768) as usize);
        i += 1;
    }
    assert(out@ =~= old(out)@ + x);
}

/// The header bytes and residual arrays of a block body read from `pos`.
struct ParsedBody {
    shift_loss_param: u8,
    sparam: u8,
    d_residuals: [DResidual; BLOCK_SIZE_AREA],
    t_residuals: [i16; BLOCK_SIZE_AREA],
}

/// Reads a block body from the symbols at `pos`.
fn parse_block_body(s: &Vec<usize>, pos: usize) -> (r: Option<ParsedBody>)
    ensures
        match spec_parse_block_body(s@, pos as int) {
            Some(v) => r matches Some(b) && v == (BlockBodyView {
                shift_loss_param: b.shift_loss_param,
                sparam: b.sparam,
                d_residuals: b.d_residuals@,
                t_residuals: b.t_residuals@,
            }),
            None => r is None,
        },
{
    if s.len() < BLOCK_BODY_SYMBOLS || pos > s.len() - BLOCK_BODY_SYMBOLS {
        return None;
    }
    if s[pos] >= 256 || s[pos + 1] >= 256 {
        return None;
    }
    let mut d_residuals: [DResidual; BLOCK_SIZE_AREA] = [0i16; BLOCK_SIZE_AREA];
    let mut t_residuals: [i16; BLOCK_SIZE_AREA] = [0i16; BLOCK_SIZE_AREA];
    let mut i: usize = 0;
    while i < BLOCK_SIZE_AREA
        invariant
            i <= BLOCK_SIZE_AREA,
            pos + BLOCK_BODY_SYMBOLS <= s.len(),
            spec_all_below(s@, pos + 2, pos + 2 + i, 512),
            forall|j: int| 0 <= j < i ==> #[trigger] d_residuals[j] == s@[pos + 2 + j] - 255,
        decreases BLOCK_SIZE_AREA - i,
    {
        let v: usize = s[pos + 2 + i];
        if v >= 512 {
            assert(!spec_all_below(s@, pos + 2, pos + 2 + BLOCK_SIZE_AREA, 512)) by {
                assert(s@[pos + 2 + i] >= 512);
            }
            return None;
        }
        d_residuals[i] = (v as i32 - 255) as i16;
        i += 1;
    }
    let mut i: usize = 0;
    while i < BLOCK_SIZE_AREA
        invariant
            i <= BLOCK_SIZE_AREA,
            pos + BLOCK_BODY_SYMBOLS <= s.len(),
            spec_all_below(s@, pos + 2 + BLOCK_SIZE_AREA, pos + 2 + BLOCK_SIZE_AREA + i, 65536),
            forall|j: int|
                0 <= j < i ==> #[trigger] t_residuals[j] == s@[pos + 2 + BLOCK_SIZE_AREA + j]
                    - 32768,
        decreases BLOCK_SIZE_AREA - i,
    {
        let v: usize = s[pos + 2 + BLOCK_SIZE_AREA + i];
        if v >= 65536 {
            assert(!spec_all_below(
                s@,
                pos + 2 + BLOCK_SIZE_AREA,
                pos + BLOCK_BODY_SYMBOLS,
                65536,
            )) by {
                assert(s@[pos + 2 + BLOCK_SIZE_AREA + i] >= 65536);
            }
            return None;
        }
        t_residuals[i] = (v as i32 - 32768) as i16;
        i += 1;
    }
    proof {
        let v = spec_parse_block_body(s@, pos as int)->0;
        assert(v.d_residuals =~= d_residuals@);
        assert(v.t_residuals =~= t_residuals@);
    }
    Some(
        ParsedBody { shift_loss_param: s[pos] as u8, sparam: s[pos + 1] as u8, d_residuals, t_residuals },
    )
}

/// The residuals of one block after the first of a cube.
#[derive(Clone, Copy, Debug)]
pub struct AduInterBlock {
    pub shift_loss_param: u8,
    pub sparam: u8,
    pub d_residuals: [DResidual; BLOCK_SIZE_AREA],
    pub t_residuals: [i16; BLOCK_SIZE_AREA],
}

impl View for AduInterBlock {
    type V = BlockBodyView;

    open spec fn view(&self) -> BlockBodyView {
        BlockBodyView {
            shift_loss_param: self.shift_loss_param,
            sparam: self.sparam,
            d_residuals: self.d_residuals@,
            t_residuals: self.t_residuals@,
        }
    }
}

impl AduInterBlock {
    /// Every decimation residual is in the alphabet.
    pub open spec fn wf(&self) -> bool {
        self@.wf()
    }

    /// Appends the block's symbols to `out`.
    pub fn write_symbols(&self, out: &mut Vec<usize>)
        requires
            self.wf(),
        ensures
            final(out)@ == old(out)@ + self@.symbols(),
    {
        write_block_body(
            self.shift_loss_param,
            self.sparam,
            &self.d_residuals,
            &self.t_residuals,
            out,
        );
    }

    /// Reads a block from the symbols at `pos`: the block that those
    /// symbols spell, or `None` where they spell none.
    pub fn parse(s: &Vec<usize>, pos: usize) -> (r: Option<AduInterBlock>)
        ensures
            match spec_parse_block_body(s@, pos as int) {
                Some(v) => r matches Some(b) && b@ == v,
                None => r is None,
            },
    {
        match parse_block_body(s, pos) {
            Some(b) => Some(
                AduInterBlock {
                    shift_loss_param: b.shift_loss_param,
                    sparam: b.sparam,
                    d_residuals: b.d_residuals,
                    t_residuals: b.t_residuals,
                },
            ),
            None => None,
        }
    }

    /// Whether two blocks hold the same values.
    pub fn same_as(&self, other: &AduInterBlock) -> (r: bool)
        ensures
            r == (self@ == other@),
    {
        self.shift_loss_param == other.shift_loss_param && self.sparam == other.sparam
            && residuals_equal(&self.d_residuals, &other.d_residuals) && residuals_equal(
            &self.t_residuals,
            &other.t_residuals,
        )
    }
}

/// The head event and residuals of the first block of a cube.
#[derive(Clone, Copy, Debug)]
pub struct AduIntraBlock {
    pub head_event_t: AbsoluteT,
    pub head_event_d: D,
    pub shift_loss_param: u8,
    pub sparam: u8,
    pub d_residuals: [DResidual; BLOCK_SIZE_AREA],
    pub dt_residuals: [i16; BLOCK_SIZE_AREA],
}

impl View for AduIntraBlock {
    type V = IntraBlockView;

    open spec fn view(&self) -> IntraBlockView {
        IntraBlockView {
            head_event_d: self.head_event_d,
            head_event_t: self.head_event_t,
            body: BlockBodyView {
                shift_loss_param: self.shift_loss_param,
                sparam: self.sparam,
                d_residuals: self.d_residuals@,
                t_residuals: self.dt_residuals@,
            },
        }
    }
}

impl AduIntraBlock {
    /// Every decimation residual is in the alphabet.
    pub open spec fn wf(&self) -> bool {
        self@.wf()
    }

    /// Appends the block's symbols to `out`.
    pub fn write_symbols(&self, out: &mut Vec<usize>)
        requires
            self.wf(),
        ensures
            final(out)@ == old(out)@ + self@.symbols(),
    {
        out.push(self.head_event_d as usize);
        assert(out@ =~= old(out)@ + seq![self.head_event_d as usize]);
        write_u32(self.head_event_t, out);
        write_block_body(
            self.shift_loss_param,
            self.sparam,
            &self.d_residuals,
            &self.dt_residuals,
            out,
        );
        assert(out@ =~= old(out)@ + self@.symbols());
    }

    /// Reads a block from the symbols at `pos`: the block that those
    /// symbols spell, or `None` where they spell none.
    pub fn parse(s: &Vec<usize>, pos: usize) -> (r: Option<AduIntraBlock>)
        ensures
            match spec_parse_intra_block(s@, pos as int) {
                Some(v) => r matches Some(b) && b@ == v,
                None => r is None,
            },
    {
        if s.len() < INTRA_BLOCK_SYMBOLS || pos > s.len() - INTRA_BLOCK_SYMBOLS {
            return None;
        }
        if s[pos] >= 256 || s[pos + 1] >= 256 || s[pos + 2] >= 256 || s[pos + 3] >= 256 || s[pos
            + 4] >= 256 {
            return None;
        }
        let head_event_d: u8 = s[pos] as u8;
        let head_event_t: u32 = (s[pos + 1] as u32) * 0x100_0000 + (s[pos + 2] as u32) * 0x1_0000
            + (s[pos + 3] as u32) * 0x100 + (s[pos + 4] as u32);
        match parse_block_body(s, pos + 5) {
            Some(b) => Some(
                AduIntraBlock {
                    head_event_t,
                    head_event_d,
                    shift_loss_param: b.shift_loss_param,
                    sparam: b.sparam,
                    d_residuals: b.d_residuals,
                    dt_residuals: b.t_residuals,
                },
            ),
            None => None,
        }
    }

    /// Whether two blocks hold the same values.
    pub fn same_as(&self, other: &AduIntraBlock) -> (r: bool)
        ensures
            r == (self@ == other@),
    {
        self.head_event_t == other.head_event_t && self.head_event_d == other.head_event_d
            && self.shift_loss_param == other.shift_loss_param && self.sparam == other.sparam
            && residuals_equal(&self.d_residuals, &other.d_residuals) && residuals_equal(
            &self.dt_residuals,
            &other.dt_residuals,
        )
    }
}


/// The views of a list of inter blocks.
pub open spec fn spec_inter_block_views(blocks: Seq<AduInterBlock>) -> Seq<BlockBodyView> {
    Seq::new(blocks.len(), |i: int| blocks[i]@)
}

/// One spatial tile across an access unit: the intra block of the first
/// reference interval in which the tile has an event, and the inter blocks
/// of the intervals after it.
pub struct AduCube {
    pub idx_y: u16,
    pub idx_x: u16,
    pub intra_block: AduIntraBlock,
    /// The number of inter blocks.
    pub num_inter_blocks: u16,
    pub inter_blocks: Vec<AduInterBlock>,
}

impl View for AduCube {
    type V = CubeView;

    open spec fn view(&self) -> CubeView {
        CubeView {
            idx_y: self.idx_y,
            idx_x: self.idx_x,
            intra_block: self.intra_block@,
            inter_blocks: spec_inter_block_views(self.inter_blocks@),
        }
    }
}

impl AduCube {
    /// The count matches the list of inter blocks, and every block is well
    /// formed.
    pub open spec fn wf(&self) -> bool {
        &&& self.num_inter_blocks == self.inter_blocks.len()
        &&& self@.wf()
    }

    /// A cube of the tile at (`idx_y`, `idx_x`) that holds its intra block
    /// and no inter block yet.
    pub fn from_intra_block(intra_block: AduIntraBlock, idx_y: u16, idx_x: u16) -> (r: Self)
        requires
            intra_block.wf(),
        ensures
            r.wf(),
            r.idx_y == idx_y,
            r.idx_x == idx_x,
            r.intra_block == intra_block,
            r.num_inter_blocks == 0,
            r.inter_blocks@.len() == 0,
    {
        AduCube { idx_y, idx_x, intra_block, num_inter_blocks: 0, inter_blocks: Vec::new() }
    }

    /// Appends an inter block.
    pub fn add_inter_block(&mut self, block: AduInterBlock)
        requires
            old(self).wf(),
            block.wf(),
            old(self).num_inter_blocks < u16::MAX,
        ensures
            final(self).wf(),
            final(self).idx_y == old(self).idx_y,
            final(self).idx_x == old(self).idx_x,
            final(self).intra_block == old(self).intra_block,
            final(self).inter_blocks@ == old(self).inter_blocks@.push(block),
            final(self).num_inter_blocks == old(self).num_inter_blocks + 1,
    {
        self.inter_blocks.push(block);
        self.num_inter_blocks = self.num_inter_blocks + 1;
        proof {
            assert forall|i: int| 0 <= i < self@.inter_blocks.len() implies (
            #[trigger] self@.inter_blocks[i]).wf() by {
                if i < old(self).inter_blocks.len() {
                    assert(self@.inter_blocks[i] == old(self)@.inter_blocks[i]);
                }
            }
        }
    }

    /// Appends the cube's symbols to `out`.
    pub fn write_symbols(&self, out: &mut Vec<usize>)
        requires
            self.wf(),
        ensures
            final(out)@ == old(out)@ + self@.symbols(),
    {
        let ghost views = self@.inter_blocks;
        write_u16(self.idx_y, out);
        write_u16(self.idx_x, out);
        write_u16(self.num_inter_blocks, out);
        self.intra_block.write_symbols(out);
        let ghost before = out@;
        let mut i: usize = 0;
        while i < self.inter_blocks.len()
            invariant
                i <= self.inter_blocks.len(),
                self.wf(),
                views == self@.inter_blocks,
                out@ == before + spec_inter_blocks_symbols(views, i as int),
            decreases self.inter_blocks.len() - i,
        {
            assert(views[i as int] == self.inter_blocks[i as int]@);
            assert(views[i as int].wf());
            self.inter_blocks[i].write_symbols(out);
            i += 1;
            assert(out@ =~= before + spec_inter_blocks_symbols(views, i as int));
        }
        assert(out@ =~= old(out)@ + self@.symbols());
    }

    /// Reads a cube from the symbols at `pos`: the cube that those symbols
    /// spell and the position behind it, or `None` where they spell none.
    pub fn parse(s: &Vec<usize>, pos: usize) -> (r: Option<(AduCube, usize)>)
        ensures
            match spec_parse_cube(s@, pos as int) {
                Some((v, p)) => r matches Some((c, next)) && c@ == v && next == p && c.wf()
                    && next <= s.len(),
                None => r is None,
            },
    {
        if s.len() < CUBE_HEADER_SYMBOLS || pos > s.len() - CUBE_HEADER_SYMBOLS {
            return None;
        }
        if s[pos] >= 256 || s[pos + 1] >= 256 || s[pos + 2] >= 256 || s[pos + 3] >= 256 || s[pos
            + 4] >= 256 || s[pos + 5] >= 256 {
            return None;
        }
        let idx_y: u16 = ((s[pos] as u32) * 256 + s[pos + 1] as u32) as u16;
        let idx_x: u16 = ((s[pos + 2] as u32) * 256 + s[pos + 3] as u32) as u16;
        let n: u16 = ((s[pos + 4] as u32) * 256 + s[pos + 5] as u32) as u16;
        let intra_block = match AduIntraBlock::parse(s, pos + 6) {
            Some(b) => b,
            None => {
                return None;
            },
        };
        let start: usize = pos + 6 + INTRA_BLOCK_SYMBOLS;
        let mut inter_blocks: Vec<AduInterBlock> = Vec::new();
        let mut i: u16 = 0;
        assert(n as int == spec_u16_value(s@[pos + 4], s@[pos + 5]));
        assert(spec_parse_intra_block(s@, pos + 6) is Some);
        while i < n
            invariant
                i <= n,
                n as int == spec_u16_value(s@[pos + 4], s@[pos + 5]),
                spec_parse_intra_block(s@, pos + 6) is Some,
                pos + CUBE_HEADER_SYMBOLS <= s.len(),
                s@[pos as int] < 256 && s@[pos + 1] < 256 && s@[pos + 2] < 256 && s@[pos + 3] < 256
                    && s@[pos + 4] < 256 && s@[pos + 5] < 256,
                start == pos + 6 + INTRA_BLOCK_SYMBOLS,
                start + i * BLOCK_BODY_SYMBOLS <= s.len(),
                inter_blocks.len() == i,
                spec_parse_inter_blocks(s@, start as int, i as int) == Some(
                    spec_inter_block_views(inter_blocks@),
                ),
                forall|j: int| 0 <= j < i ==> (#[trigger] inter_blocks[j]).wf(),
            decreases n - i,
        {
            let at: usize = start + (i as usize) * BLOCK_BODY_SYMBOLS;
            match AduInterBlock::parse(s, at) {
                Some(b) => {
                    let ghost before = spec_inter_block_views(inter_blocks@);
                    inter_blocks.push(b);
                    assert(spec_inter_block_views(inter_blocks@) =~= before.push(b@));
                },
                None => {
                    proof {
                        assert(spec_parse_block_body(
                            s@,
                            start as int + ((i as int + 1) - 1) * BLOCK_BODY_SYMBOLS,
                        ) is None);
                        assert(spec_parse_inter_blocks(s@, start as int, i as int + 1) is None);
                        lemma_parse_inter_blocks_prefix(s@, start as int, i as int + 1, n as int);
                    }
                    return None;
                },
            }
            i += 1;
        }
        let next: usize = start + (n as usize) * BLOCK_BODY_SYMBOLS;
        let cube = AduCube { idx_y, idx_x, intra_block, num_inter_blocks: n, inter_blocks };
        proof {
            let parsed = spec_parse_cube(s@, pos as int)->0;
            assert(cube@.inter_blocks == parsed.0.inter_blocks);
            assert forall|j: int| 0 <= j < cube@.inter_blocks.len() implies (
            #[trigger] cube@.inter_blocks[j]).wf() by {
                assert(cube@.inter_blocks[j] == cube.inter_blocks[j]@);
                assert(cube.inter_blocks[j].wf());
            }
        }
        Some((cube, next))
    }

    /// Whether two cubes have the same tile index and hold the same blocks.
    pub fn same_as(&self, other: &AduCube) -> (r: bool)
        requires
            self.wf(),
            other.wf(),
        ensures
            r == (self@ == other@),
    {
        if self.idx_y != other.idx_y || self.idx_x != other.idx_x
            || !self.intra_block.same_as(&other.intra_block) || self.num_inter_blocks
            != other.num_inter_blocks {
            assert(self@.inter_blocks.len() == self.num_inter_blocks);
            assert(other@.inter_blocks.len() == other.num_inter_blocks);
            return false;
        }
        let mut i: usize = 0;
        while i < self.inter_blocks.len()
            invariant
                i <= self.inter_blocks.len(),
                self.inter_blocks.len() == other.inter_blocks.len(),
                forall|j: int| 0 <= j < i ==> self.inter_blocks[j]@ == other.inter_blocks[j]@,
            decreases self.inter_blocks.len() - i,
        {
            if !self.inter_blocks[i].same_as(&other.inter_blocks[i]) {
                assert(self@.inter_blocks[i as int] == self.inter_blocks[i as int]@);
                assert(other@.inter_blocks[i as int] == other.inter_blocks[i as int]@);
                return false;
            }
            i += 1;
        }
        assert(self@.inter_blocks =~= other@.inter_blocks);
        true
    }
}

/// Where `n` inter blocks can be read, so can the first `k` of them.
pub proof fn lemma_parse_inter_blocks_prefix(s: Seq<usize>, pos: int, k: int, n: int)
    requires
        0 <= k <= n,
        spec_parse_inter_blocks(s, pos, k) is None,
    ensures
        spec_parse_inter_blocks(s, pos, n) is None,
    decreases n - k,
{
    if k < n {
        lemma_parse_inter_blocks_prefix(s, pos, k, n - 1);
    }
}

/// `n` inter blocks that can be read end within the symbols.
pub proof fn lemma_parse_inter_blocks_bound(s: Seq<usize>, pos: int, n: int)
    requires
        0 <= n,
        0 <= pos <= s.len(),
        spec_parse_inter_blocks(s, pos, n) is Some,
    ensures
        pos + n * BLOCK_BODY_SYMBOLS <= s.len(),
        spec_parse_inter_blocks(s, pos, n)->0.len() == n,
    decreases n,
{
    if n > 0 {
        lemma_parse_inter_blocks_bound(s, pos, n - 1);
    }
}


/// The views of a list of cubes.
pub open spec fn spec_cube_views(cubes: Seq<AduCube>) -> Seq<CubeView> {
    Seq::new(cubes.len(), |i: int| cubes[i]@)
}

/// The cubes of one color plane, in the order they were added.
pub struct AduChannel {
    /// The number of cubes.
    pub num_cubes: u16,
    pub cubes: Vec<AduCube>,
}

impl View for AduChannel {
    type V = Seq<CubeView>;

    open spec fn view(&self) -> Seq<CubeView> {
        spec_cube_views(self.cubes@)
    }
}

impl AduChannel {
    /// The count matches the list of cubes, and every cube is well formed.
    pub open spec fn wf(&self) -> bool {
        &&& self.num_cubes == self.cubes.len()
        &&& forall|i: int| 0 <= i < self.cubes.len() ==> (#[trigger] self.cubes[i]).wf()
    }

    /// A channel without cubes.
    pub fn new() -> (r: Self)
        ensures
            r.wf(),
            r.num_cubes == 0,
            r.cubes@.len() == 0,
    {
        AduChannel { num_cubes: 0, cubes: Vec::new() }
    }

    /// Appends a cube.
    pub fn add_cube(&mut self, cube: AduCube)
        requires
            old(self).wf(),
            cube.wf(),
            old(self).num_cubes < u16::MAX,
        ensures
            final(self).wf(),
            final(self).cubes@ == old(self).cubes@.push(cube),
            final(self).num_cubes == old(self).num_cubes + 1,
    {
        self.cubes.push(cube);
        self.num_cubes = self.num_cubes + 1;
    }

    /// A well-formed channel has a well-formed view.
    pub proof fn lemma_view_wf(&self)
        requires
            self.wf(),
        ensures
            spec_channel_wf(self@),
    {
        assert forall|i: int| 0 <= i < self@.len() implies (#[trigger] self@[i]).wf() by {
            assert(self.cubes[i].wf());
        }
    }

    /// Appends the channel's symbols to `out`: the number of cubes, then
    /// every cube.
    pub fn write_symbols(&self, out: &mut Vec<usize>)
        requires
            self.wf(),
        ensures
            final(out)@ == old(out)@ + spec_channel_symbols(self@),
    {
        let ghost views = self@;
        write_u16(self.num_cubes, out);
        let ghost before = out@;
        let mut i: usize = 0;
        while i < self.cubes.len()
            invariant
                i <= self.cubes.len(),
                self.wf(),
                views == self@,
                out@ == before + spec_cubes_symbols(views, i as int),
            decreases self.cubes.len() - i,
        {
            assert(views[i as int] == self.cubes[i as int]@);
            self.cubes[i].write_symbols(out);
            i += 1;
            assert(out@ =~= before + spec_cubes_symbols(views, i as int));
        }
        assert(out@ =~= old(out)@ + spec_channel_symbols(self@));
    }

    /// Reads a channel from the symbols at `pos`: the channel that those
    /// symbols spell and the position behind it, or `None` where they spell
    /// none.
    pub fn parse(s: &Vec<usize>, pos: usize) -> (r: Option<(AduChannel, usize)>)
        ensures
            match spec_parse_channel(s@, pos as int) {
                Some((v, p)) => r matches Some((c, next)) && c@ == v && next == p && c.wf()
                    && next <= s.len(),
                None => r is None,
            },
    {
        if s.len() < 2 || pos > s.len() - 2 {
            return None;
        }
        if s[pos] >= 256 || s[pos + 1] >= 256 {
            return None;
        }
        let n: u16 = ((s[pos] as u32) * 256 + s[pos + 1] as u32) as u16;
        let mut cubes: Vec<AduCube> = Vec::new();
        let mut at: usize = pos + 2;
        let mut i: u16 = 0;
        while i < n
            invariant
                i <= n,
                at <= s.len(),
                pos + 2 <= s.len(),
                s@[pos as int] < 256 && s@[pos + 1] < 256,
                n as int == spec_u16_value(s@[pos as int], s@[pos + 1]),
                cubes.len() == i,
                spec_parse_cubes(s@, pos + 2, i as int) == Some(
                    (spec_cube_views(cubes@), at as int),
                ),
                forall|j: int| 0 <= j < i ==> (#[trigger] cubes[j]).wf(),
            decreases n - i,
        {
            match AduCube::parse(s, at) {
                Some((cube, next)) => {
                    let ghost before = spec_cube_views(cubes@);
                    cubes.push(cube);
                    assert(spec_cube_views(cubes@) =~= before.push(cube@));
                    at = next;
                },
                None => {
                    proof {
                        assert(spec_parse_cubes(s@, pos + 2, i as int + 1) is None);
                        lemma_parse_cubes_prefix(s@, pos + 2, i as int + 1, n as int);
                    }
                    return None;
                },
            }
            i += 1;
        }
        Some((AduChannel { num_cubes: n, cubes }, at))
    }
}

/// Where `n` cubes can be read, so can the first `k` of them.
pub proof fn lemma_parse_cubes_prefix(s: Seq<usize>, pos: int, k: int, n: int)
    requires
        0 <= k <= n,
        spec_parse_cubes(s, pos, k) is None,
    ensures
        spec_parse_cubes(s, pos, n) is None,
    decreases n - k,
{
    if k < n {
        lemma_parse_cubes_prefix(s, pos, k, n - 1);
    }
}

/// Whether two channels agree: they count the same number of cubes, and
/// wherever both hold a cube at the same position, the two have the same
/// tile index and the same blocks.
pub fn compare_channels(channel: &AduChannel, decoded_channel: &AduChannel) -> (r: bool)
    requires
        channel.wf(),
        decoded_channel.wf(),
    ensures
        r == (channel@ == decoded_channel@),
{
    if channel.num_cubes != decoded_channel.num_cubes {
        assert(channel@.len() != decoded_channel@.len());
        return false;
    }
    let mut i: usize = 0;
    while i < channel.cubes.len()
        invariant
            i <= channel.cubes.len(),
            channel.wf(),
            decoded_channel.wf(),
            channel.cubes.len() == decoded_channel.cubes.len(),
            forall|j: int| 0 <= j < i ==> channel.cubes[j]@ == decoded_channel.cubes[j]@,
        decreases channel.cubes.len() - i,
    {
        if !channel.cubes[i].same_as(&decoded_channel.cubes[i]) {
            assert(channel@[i as int] == channel.cubes[i as int]@);
            assert(decoded_channel@[i as int] == decoded_channel.cubes[i as int]@);
            return false;
        }
        i += 1;
    }
    assert(channel@ =~= decoded_channel@);
    true
}

/// The color plane a cube belongs to.
#[derive(Clone, Copy, Debug, PartialEq, Eq, Structural)]
pub enum AduChannelType {
    R,
    G,
    B,
}

/// A whole spatial frame of data: every cube of every color plane for one
/// temporal window.
pub struct Adu {
    /// The timestamp of the first event in the access unit.
    pub head_event_t: AbsoluteT,
    pub cubes_r: AduChannel,
    pub cubes_g: AduChannel,
    pub cubes_b: AduChannel,
}

impl Adu {
    /// Every channel is well formed.
    pub open spec fn wf(&self) -> bool {
        &&& self.cubes_r.wf()
        &&& self.cubes_g.wf()
        &&& self.cubes_b.wf()
    }

    /// What the access unit carries for a plane of `num_channels` colors:
    /// the first channel alone for a single color, all three otherwise.
    pub open spec fn view_with(&self, num_channels: u8) -> AduView {
        AduView {
            head_event_t: self.head_event_t,
            channels: if num_channels <= 1 {
                seq![self.cubes_r@]
            } else {
                seq![self.cubes_r@, self.cubes_g@, self.cubes_b@]
            },
        }
    }

    /// An access unit at time 0 without cubes.
    pub fn new() -> (r: Self)
        ensures
            r.wf(),
            r.head_event_t == 0,
            r.cubes_r.cubes@.len() == 0,
            r.cubes_g.cubes@.len() == 0,
            r.cubes_b.cubes@.len() == 0,
    {
        Adu {
            head_event_t: 0,
            cubes_r: AduChannel::new(),
            cubes_g: AduChannel::new(),
            cubes_b: AduChannel::new(),
        }
    }

    /// The number of cubes in a channel.
    pub open spec fn spec_num_cubes(&self, channel: AduChannelType) -> int {
        match channel {
            AduChannelType::R => self.cubes_r.num_cubes as int,
            AduChannelType::G => self.cubes_g.num_cubes as int,
            AduChannelType::B => self.cubes_b.num_cubes as int,
        }
    }

    /// Appends a cube to the channel of its color plane; the other channels
    /// and the head time stay as they are.
    pub fn add_cube(&mut self, cube: AduCube, channel: AduChannelType)
        requires
            old(self).wf(),
            cube.wf(),
            old(self).spec_num_cubes(channel) < u16::MAX,
        ensures
            final(self).wf(),
            final(self).head_event_t == old(self).head_event_t,
            final(self).cubes_r.cubes@ == (if channel == AduChannelType::R {
                old(self).cubes_r.cubes@.push(cube)
            } else {
                old(self).cubes_r.cubes@
            }),
            final(self).cubes_g.cubes@ == (if channel == AduChannelType::G {
                old(self).cubes_g.cubes@.push(cube)
            } else {
                old(self).cubes_g.cubes@
            }),
            final(self).cubes_b.cubes@ == (if channel == AduChannelType::B {
                old(self).cubes_b.cubes@.push(cube)
            } else {
                old(self).cubes_b.cubes@
            }),
            final(self).spec_num_cubes(channel) == old(self).spec_num_cubes(channel) + 1,
    {
        match channel {
            AduChannelType::R => {
                self.cubes_r.add_cube(cube);
            },
            AduChannelType::G => {
                self.cubes_g.add_cube(cube);
            },
            AduChannelType::B => {
                self.cubes_b.add_cube(cube);
            },
        }
    }

    /// A well-formed access unit has a well-formed view.
    pub proof fn lemma_view_wf(&self, num_channels: u8)
        requires
            self.wf(),
        ensures
            self.view_with(num_channels).wf(),
    {
        self.cubes_r.lemma_view_wf();
        self.cubes_g.lemma_view_wf();
        self.cubes_b.lemma_view_wf();
    }

    /// The symbols of the access unit for a plane of `num_channels` colors:
    /// its head time, then the first channel for a single color and all
    /// three otherwise.
    pub fn to_symbols(&self, num_channels: u8) -> (out: Vec<usize>)
        requires
            self.wf(),
        ensures
            out@ == self.view_with(num_channels).symbols(),
    {
        let ghost view = self.view_with(num_channels);
        let mut out: Vec<usize> = Vec::new();
        write_u32(self.head_event_t, &mut out);
        let ghost before = out@;
        assert(before =~= spec_u32_symbols(self.head_event_t));
        self.cubes_r.write_symbols(&mut out);
        assert(out@ =~= before + spec_channels_symbols(view.channels, 1)) by {
            assert(spec_channels_symbols(view.channels, 0) =~= Seq::<usize>::empty());
            assert(spec_channels_symbols(view.channels, 1) =~= spec_channel_symbols(
                view.channels[0],
            ));
        }
        if num_channels > 1 {
            self.cubes_g.write_symbols(&mut out);
            assert(out@ =~= before + spec_channels_symbols(view.channels, 2));
            self.cubes_b.write_symbols(&mut out);
            assert(out@ =~= before + spec_channels_symbols(view.channels, 3));
        }
        out
    }

    /// Reads an access unit for a plane of `num_channels` colors from
    /// symbols: the one that the symbols spell, where they spell one and
    /// nothing more. Channels that the symbols do not hold are left
    /// without cubes.
    pub fn from_symbols(s: &Vec<usize>, num_channels: u8) -> (r: Result<Adu, CodecError>)
        ensures
            match spec_parse_adu(s@, if num_channels <= 1 {
                1int
            } else {
                3int
            }) {
                Some(v) => r matches Ok(adu) && adu.wf() && adu.view_with(num_channels) == v
                    && (num_channels <= 1 ==> adu.cubes_g.cubes@.len() == 0
                    && adu.cubes_b.cubes@.len() == 0),
                None => r == Err::<Adu, CodecError>(CodecError::Deserialize),
            },
    {
        if s.len() < 4 || s[0] >= 256 || s[1] >= 256 || s[2] >= 256 || s[3] >= 256 {
            return Err(CodecError::Deserialize);
        }
        let head_event_t: u32 = (s[0] as u32) * 0x100_0000 + (s[1] as u32) * 0x1_0000 + (
        s[2] as u32) * 0x100 + (s[3] as u32);
        let (cubes_r, behind_r) = match AduChannel::parse(s, 4) {
            Some(x) => x,
            None => {
                proof {
                    assert(spec_parse_channels(s@, 4, 1) is None);
                    if num_channels > 1 {
                        lemma_parse_channels_prefix(s@, 4, 1, 3);
                    }
                }
                return Err(CodecError::Deserialize);
            },
        };
        assert(spec_parse_channels(s@, 4, 1) == Some((seq![cubes_r@], behind_r as int))) by {
            assert(spec_parse_channels(s@, 4, 0) == Some((Seq::<Seq<CubeView>>::empty(), 4int)));
            assert(Seq::<Seq<CubeView>>::empty().push(cubes_r@) =~= seq![cubes_r@]);
        }
        if num_channels <= 1 {
            if behind_r != s.len() {
                return Err(CodecError::Deserialize);
            }
            return Ok(
                Adu {
                    head_event_t,
                    cubes_r,
                    cubes_g: AduChannel::new(),
                    cubes_b: AduChannel::new(),
                },
            );
        }
        let (cubes_g, behind_g) = match AduChannel::parse(s, behind_r) {
            Some(x) => x,
            None => {
                proof {
                    assert(spec_parse_channels(s@, 4, 2) is None);
                    lemma_parse_channels_prefix(s@, 4, 2, 3);
                }
                return Err(CodecError::Deserialize);
            },
        };
        assert(spec_parse_channels(s@, 4, 2) == Some((seq![cubes_r@, cubes_g@], behind_g as int))) by {
            assert(seq![cubes_r@].push(cubes_g@) =~= seq![cubes_r@, cubes_g@]);
        }
        let (cubes_b, behind_b) = match AduChannel::parse(s, behind_g) {
            Some(x) => x,
            None => {
                return Err(CodecError::Deserialize);
            },
        };
        assert(spec_parse_channels(s@, 4, 3) == Some(
            (seq![cubes_r@, cubes_g@, cubes_b@], behind_b as int),
        )) by {
            assert(seq![cubes_r@, cubes_g@].push(cubes_b@) =~= seq![cubes_r@, cubes_g@, cubes_b@]);
        }
        if behind_b != s.len() {
            return Err(CodecError::Deserialize);
        }
        Ok(Adu { head_event_t, cubes_r, cubes_g, cubes_b })
    }
}

/// Where `n` channels can be read, so can the first `k` of them.
pub proof fn lemma_parse_channels_prefix(s: Seq<usize>, pos: int, k: int, n: int)
    requires
        0 <= k <= n,
        spec_parse_channels(s, pos, k) is None,
    ensures
        spec_parse_channels(s, pos, n) is None,
    decreases n - k,
{
    if k < n {
        lemma_parse_channels_prefix(s, pos, k, n - 1);
    }
}

/// Writing an access unit as symbols and reading the symbols back gives an
/// access unit that carries the same head time, cubes, blocks and
/// residuals.
pub proof fn lemma_adu_symbols_round_trip(adu: Adu, num_channels: u8)
    requires
        adu.wf(),
    ensures
        spec_parse_adu(adu.view_with(num_channels).symbols(), if num_channels <= 1 {
            1int
        } else {
            3int
        }) == Some(adu.view_with(num_channels)),
{
    let view = adu.view_with(num_channels);
    adu.lemma_view_wf(num_channels);
    if num_channels <= 1 {
        assert(view.channels.len() == 1);
    } else {
        assert(view.channels.len() == 3);
    }
    crate::layout::lemma_adu_round_trip(view);
}

} // verus!
