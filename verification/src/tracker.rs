//! Which context the next symbol of an access unit is drawn from.
//!
//! The symbols of an access unit come without tags: what a symbol means
//! follows from where it stands. The tracker walks the layout one symbol at
//! a time, reading the counts of cubes and blocks as they pass, so that the
//! encoder and the decoder select the same context before every symbol. A
//! count above the bound the tracker was made with ends the walk: nothing
//! but the end-of-sequence mark can follow.

use crate::layout::{
    spec_channel_contexts,
    spec_channel_symbols,
    spec_channel_wf,
    spec_channels_contexts,
    spec_channels_symbols,
    spec_context_symbols,
    spec_cubes_contexts,
    spec_cubes_symbols,
    spec_inter_blocks_contexts,
    spec_inter_blocks_symbols,
    spec_u16_symbols,
    spec_u32_symbols,
    AduView,
    BlockBodyView,
    ContextKind,
    CubeView,
    IntraBlockView,
};
use crate::prediction::BLOCK_SIZE_AREA;
use vstd::prelude::*;

verus! {

/// The part of the layout that the next symbol belongs to.
#[derive(Clone, Copy, Debug, PartialEq, Eq, Structural)]
pub enum Phase {
    /// The four bytes of the access unit's head time.
    AduHead,
    /// The two bytes of a channel's cube count.
    ChannelCount,
    /// The six bytes of a cube's tile index and inter-block count.
    CubeHeader,
    /// The five bytes of an intra block's head event.
    IntraHead,
    /// The two header bytes and 512 residuals of a block.
    BlockBody,
    /// Behind the last channel: only the end-of-sequence mark can follow.
    End,
    /// Behind a symbol that no access unit within the bounds holds there.
    Failed,
}

/// A position in the layout of an access unit.
#[derive(Clone, Copy, Debug, PartialEq, Eq, Structural)]
pub struct LayoutTracker {
    pub phase: Phase,
    /// How many symbols of the current phase have passed.
    pub index: u16,
    /// How many channels follow the current one.
    pub channels_left: u8,
    /// How many cubes follow the current one in its channel.
    pub cubes_left: u16,
    /// How many inter blocks follow the current block in its cube.
    pub blocks_left: u16,
    /// The high byte of the count that is being read.
    pub acc: u16,
    /// The largest cube count a channel may announce.
    pub max_cubes: u16,
    /// The largest inter-block count a cube may announce.
    pub max_inter_blocks: u16,
}

/// Number of symbols in each phase.
pub open spec fn spec_phase_len(phase: Phase) -> int {
    match phase {
        Phase::AduHead => 4,
        Phase::ChannelCount => 2,
        Phase::CubeHeader => 6,
        Phase::IntraHead => 5,
        Phase::BlockBody => 514,
        Phase::End => 0,
        Phase::Failed => 0,
    }
}

impl LayoutTracker {
    /// The index lies inside the phase, and the byte of a count that is
    /// kept is a byte.
    pub open spec fn wf(&self) -> bool {
        &&& self.phase != Phase::End && self.phase != Phase::Failed ==> self.index
            < spec_phase_len(self.phase)
        &&& self.acc < 256
    }

    /// The tracker before the first symbol of an access unit of
    /// `num_channels` channels.
    pub open spec fn spec_new(num_channels: u8, max_cubes: u16, max_inter_blocks: u16) -> Self {
        LayoutTracker {
            phase: Phase::AduHead,
            index: 0,
            channels_left: num_channels,
            cubes_left: 0,
            blocks_left: 0,
            acc: 0,
            max_cubes,
            max_inter_blocks,
        }
    }

    /// The tracker before the first symbol of an access unit of
    /// `num_channels` channels.
    pub fn new(num_channels: u8, max_cubes: u16, max_inter_blocks: u16) -> (r: Self)
        ensures
            r == Self::spec_new(num_channels, max_cubes, max_inter_blocks),
            r.wf(),
    {
        LayoutTracker {
            phase: Phase::AduHead,
            index: 0,
            channels_left: num_channels,
            cubes_left: 0,
            blocks_left: 0,
            acc: 0,
            max_cubes,
            max_inter_blocks,
        }
    }

    /// The context the next symbol is drawn from.
    pub open spec fn spec_context(&self) -> ContextKind {
        match self.phase {
            Phase::AduHead => ContextKind::U8General,
            Phase::ChannelCount => ContextKind::U8General,
            Phase::CubeHeader => ContextKind::U8General,
            Phase::IntraHead => ContextKind::U8General,
            Phase::BlockBody => if self.index < 2 {
                ContextKind::U8General
            } else if self.index < 2 + BLOCK_SIZE_AREA {
                ContextKind::D
            } else {
                ContextKind::Dt
            },
            Phase::End => ContextKind::Eof,
            Phase::Failed => ContextKind::Eof,
        }
    }

    /// The context the next symbol is drawn from.
    pub fn context(&self) -> (r: ContextKind)
        ensures
            r == self.spec_context(),
    {
        match self.phase {
            Phase::AduHead => ContextKind::U8General,
            Phase::ChannelCount => ContextKind::U8General,
            Phase::CubeHeader => ContextKind::U8General,
            Phase::IntraHead => ContextKind::U8General,
            Phase::BlockBody => if self.index < 2 {
                ContextKind::U8General
            } else if self.index < 2 + BLOCK_SIZE_AREA as u16 {
                ContextKind::D
            } else {
                ContextKind::Dt
            },
            Phase::End => ContextKind::Eof,
            Phase::Failed => ContextKind::Eof,
        }
    }

    /// Whether the walk has reached the end of the access unit.
    pub fn is_complete(&self) -> (r: bool)
        ensures
            r == (self.phase == Phase::End),
    {
        self.phase == Phase::End
    }

    /// The tracker at the start of the next channel, or at the end where no
    /// channel is left.
    pub open spec fn spec_enter_channel(self) -> Self {
        if self.channels_left == 0 {
            LayoutTracker { phase: Phase::End, index: 0, ..self }
        } else {
            LayoutTracker {
                phase: Phase::ChannelCount,
                index: 0,
                channels_left: (self.channels_left - 1) as u8,
                ..self
            }
        }
    }

    /// The tracker at the start of the next cube of the channel, or of the
    /// next channel where no cube is left.
    pub open spec fn spec_enter_cube(self) -> Self {
        if self.cubes_left == 0 {
            self.spec_enter_channel()
        } else {
            LayoutTracker {
                phase: Phase::CubeHeader,
                index: 0,
                cubes_left: (self.cubes_left - 1) as u16,
                ..self
            }
        }
    }

    /// The tracker at the start of the cube's next block, or of the next
    /// cube where no block is left.
    pub open spec fn spec_enter_block(self) -> Self {
        if self.blocks_left == 0 {
            self.spec_enter_cube()
        } else {
            LayoutTracker {
                phase: Phase::BlockBody,
                index: 0,
                blocks_left: (self.blocks_left - 1) as u16,
                ..self
            }
        }
    }

    /// The tracker behind `symbol`. The end-of-sequence mark, or a symbol
    /// that is not a byte where a count is read, or a count above its
    /// bound, ends the walk.
    pub open spec fn spec_step(self, symbol: Option<usize>) -> Self {
        let failed = LayoutTracker { phase: Phase::Failed, index: 0, ..self };
        match symbol {
            None => if self.phase == Phase::End {
                self
            } else {
                failed
            },
            Some(v) => match self.phase {
                Phase::AduHead => if self.index + 1 < 4 {
                    LayoutTracker { index: (self.index + 1) as u16, ..self }
                } else {
                    self.spec_enter_channel()
                },
                Phase::ChannelCount => if v >= 256 {
                    failed
                } else if self.index == 0 {
                    LayoutTracker { index: 1, acc: v as u16, ..self }
                } else if self.acc * 256 + v > self.max_cubes {
                    failed
                } else {
                    (LayoutTracker {
                        cubes_left: (self.acc * 256 + v) as u16,
                        acc: 0,
                        ..self
                    }).spec_enter_cube()
                },
                Phase::CubeHeader => if self.index < 4 {
                    LayoutTracker { index: (self.index + 1) as u16, ..self }
                } else if v >= 256 {
                    failed
                } else if self.index == 4 {
                    LayoutTracker { index: 5, acc: v as u16, ..self }
                } else if self.acc * 256 + v > self.max_inter_blocks {
                    failed
                } else {
                    LayoutTracker {
                        phase: Phase::IntraHead,
                        index: 0,
                        blocks_left: (self.acc * 256 + v) as u16,
                        acc: 0,
                        ..self
                    }
                },
                Phase::IntraHead => if self.index + 1 < 5 {
                    LayoutTracker { index: (self.index + 1) as u16, ..self }
                } else {
                    LayoutTracker { phase: Phase::BlockBody, index: 0, ..self }
                },
                Phase::BlockBody => if self.index + 1 < 514 {
                    LayoutTracker { index: (self.index + 1) as u16, ..self }
                } else {
                    self.spec_enter_block()
                },
                Phase::End => failed,
                Phase::Failed => failed,
            },
        }
    }

    fn enter_channel(&mut self)
        requires
            old(self).acc < 256,
        ensures
            *final(self) == old(self).spec_enter_channel(),
            final(self).wf(),
    {
        self.index = 0;
        if self.channels_left == 0 {
            self.phase = Phase::End;
        } else {
            self.phase = Phase::ChannelCount;
            self.channels_left = self.channels_left - 1;
        }
    }

    fn enter_cube(&mut self)
        requires
            old(self).acc < 256,
        ensures
            *final(self) == old(self).spec_enter_cube(),
            final(self).wf(),
    {
        if self.cubes_left == 0 {
            self.enter_channel();
        } else {
            self.phase = Phase::CubeHeader;
            self.index = 0;
            self.cubes_left = self.cubes_left - 1;
        }
    }

    fn enter_block(&mut self)
        requires
            old(self).acc < 256,
        ensures
            *final(self) == old(self).spec_enter_block(),
            final(self).wf(),
    {
        if self.blocks_left == 0 {
            self.enter_cube();
        } else {
            self.phase = Phase::BlockBody;
            self.index = 0;
            self.blocks_left = self.blocks_left - 1;
        }
    }

    fn fail(&mut self)
        requires
            old(self).acc < 256,
        ensures
            *final(self) == (LayoutTracker { phase: Phase::Failed, index: 0, ..*old(self) }),
            final(self).wf(),
    {
        self.phase = Phase::Failed;
        self.index = 0;
    }

    /// Moves the tracker behind `symbol`.
    pub fn advance(&mut self, symbol: Option<usize>)
        requires
            old(self).wf(),
        ensures
            *final(self) == old(self).spec_step(symbol),
            final(self).wf(),
    {
        let v: usize = match symbol {
            Some(v) => v,
            None => {
                if self.phase != Phase::End {
                    self.fail();
                }
                return ;
            },
        };
        match self.phase {
            Phase::AduHead => {
                if self.index + 1 < 4 {
                    self.index = self.index + 1;
                } else {
                    self.enter_channel();
                }
            },
            Phase::ChannelCount => {
                if v >= 256 {
                    self.fail();
                } else if self.index == 0 {
                    self.index = 1;
                    self.acc = v as u16;
                } else {
                    let n: u32 = self.acc as u32 * 256 + v as u32;
                    if n > self.max_cubes as u32 {
                        self.fail();
                    } else {
                        self.cubes_left = n as u16;
                        self.acc = 0;
                        self.enter_cube();
                    }
                }
            },
            Phase::CubeHeader => {
                if self.index < 4 {
                    self.index = self.index + 1;
                } else if v >= 256 {
                    self.fail();
                } else if self.index == 4 {
                    self.index = 5;
                    self.acc = v as u16;
                } else {
                    let n: u32 = self.acc as u32 * 256 + v as u32;
                    if n > self.max_inter_blocks as u32 {
                        self.fail();
                    } else {
                        self.phase = Phase::IntraHead;
                        self.index = 0;
                        self.blocks_left = n as u16;
                        self.acc = 0;
                    }
                }
            },
            Phase::IntraHead => {
                if self.index + 1 < 5 {
                    self.index = self.index + 1;
                } else {
                    self.phase = Phase::BlockBody;
                    self.index = 0;
                }
            },
            Phase::BlockBody => {
                if self.index + 1 < 514 {
                    self.index = self.index + 1;
                } else {
                    self.enter_block();
                }
            },
            Phase::End => {
                self.fail();
            },
            Phase::Failed => {
                self.fail();
            },
        }
    }
}

/// The tracker behind the first `n` symbols of `s`.
pub open spec fn spec_walk(t: LayoutTracker, s: Seq<usize>, n: int) -> LayoutTracker
    decreases n,
{
    if n <= 0 {
        t
    } else {
        spec_walk(t, s, n - 1).spec_step(Some(s[n - 1]))
    }
}

/// A walk over `s` from `t` selects the contexts `contexts` one by one,
/// finds every symbol in the alphabet of its context, and ends in `end`.
pub open spec fn spec_walks(
    t: LayoutTracker,
    s: Seq<usize>,
    contexts: Seq<ContextKind>,
    end: LayoutTracker,
) -> bool {
    &&& s.len() == contexts.len()
    &&& forall|i: int|
        0 <= i < s.len() ==> (#[trigger] spec_walk(t, s, i)).spec_context() == contexts[i]
    &&& forall|i: int| 0 <= i < s.len() ==> #[trigger] s[i] < spec_context_symbols(contexts[i])
    &&& spec_walk(t, s, s.len() as int) == end
}

/// A channel announces no more cubes, and a cube no more inter blocks,
/// than the bounds allow.
pub open spec fn spec_channel_within(
    cubes: Seq<CubeView>,
    max_cubes: u16,
    max_inter_blocks: u16,
) -> bool {
    &&& cubes.len() <= max_cubes
    &&& forall|i: int|
        0 <= i < cubes.len() ==> (#[trigger] cubes[i]).inter_blocks.len() <= max_inter_blocks
}

/// Every channel of an access unit is within the bounds.
pub open spec fn spec_within(adu: AduView, max_cubes: u16, max_inter_blocks: u16) -> bool {
    forall|c: int|
        0 <= c < adu.channels.len() ==> spec_channel_within(
            #[trigger] adu.channels[c],
            max_cubes,
            max_inter_blocks,
        )
}

/// The tracker behind the last symbol of an access unit.
pub open spec fn spec_end(max_cubes: u16, max_inter_blocks: u16) -> LayoutTracker {
    LayoutTracker {
        phase: Phase::End,
        index: 0,
        channels_left: 0,
        cubes_left: 0,
        blocks_left: 0,
        acc: 0,
        max_cubes,
        max_inter_blocks,
    }
}

/// A walk over the first symbols of a sequence does not depend on what
/// follows them.
pub proof fn lemma_walk_prefix(t: LayoutTracker, a: Seq<usize>, b: Seq<usize>, k: int)
    requires
        0 <= k <= a.len(),
    ensures
        spec_walk(t, a + b, k) == spec_walk(t, a, k),
    decreases k,
{
    if k > 0 {
        lemma_walk_prefix(t, a, b, k - 1);
        assert((a + b)[k - 1] == a[k - 1]);
    }
}

/// A walk over two sequences, one behind the other, goes on over the
/// second from where the walk over the first has ended.
pub proof fn lemma_walk_suffix(t: LayoutTracker, a: Seq<usize>, b: Seq<usize>, k: int)
    requires
        0 <= k <= b.len(),
    ensures
        spec_walk(t, a + b, a.len() + k) == spec_walk(spec_walk(t, a, a.len() as int), b, k),
    decreases k,
{
    if k == 0 {
        lemma_walk_prefix(t, a, b, a.len() as int);
    } else {
        lemma_walk_suffix(t, a, b, k - 1);
        assert((a + b)[a.len() + k - 1] == b[k - 1]);
    }
}

/// Two walks, the second from where the first has ended, make one walk
/// over both sequences.
pub proof fn lemma_walks_concat(
    t: LayoutTracker,
    a: Seq<usize>,
    ca: Seq<ContextKind>,
    mid: LayoutTracker,
    b: Seq<usize>,
    cb: Seq<ContextKind>,
    end: LayoutTracker,
)
    requires
        spec_walks(t, a, ca, mid),
        spec_walks(mid, b, cb, end),
    ensures
        spec_walks(t, a + b, ca + cb, end),
{
    let s = a + b;
    let c = ca + cb;
    assert forall|i: int| 0 <= i < s.len() implies (#[trigger] spec_walk(t, s, i)).spec_context()
        == c[i] && s[i] < spec_context_symbols(c[i]) by {
        if i < a.len() {
            lemma_walk_prefix(t, a, b, i);
            assert(spec_walk(t, a, i).spec_context() == ca[i]);
            assert(a[i] < spec_context_symbols(ca[i]));
        } else {
            lemma_walk_suffix(t, a, b, i - a.len());
            assert(spec_walk(mid, b, i - a.len()).spec_context() == cb[i - a.len()]);
            assert(b[i - a.len()] < spec_context_symbols(cb[i - a.len()]));
        }
    }
    lemma_walk_suffix(t, a, b, b.len() as int);
}

/// Inside a block body the tracker counts the symbols that have passed.
proof fn lemma_walk_in_body(t: LayoutTracker, s: Seq<usize>, j: int)
    requires
        t.phase == Phase::BlockBody,
        t.index == 0,
        0 <= j < 514,
    ensures
        spec_walk(t, s, j) == (LayoutTracker { index: j as u16, ..t }),
    decreases j,
{
    if j > 0 {
        lemma_walk_in_body(t, s, j - 1);
    }
}

/// A walk over a block body selects the contexts of a block body and ends
/// at the start of what follows the block.
pub proof fn lemma_walk_block_body(t: LayoutTracker, body: BlockBodyView)
    requires
        t.phase == Phase::BlockBody,
        t.index == 0,
        body.wf(),
    ensures
        spec_walks(t, body.symbols(), BlockBodyView::contexts(), t.spec_enter_block()),
{
    let s = body.symbols();
    let c = BlockBodyView::contexts();
    assert forall|i: int| 0 <= i < s.len() implies (#[trigger] spec_walk(t, s, i)).spec_context()
        == c[i] && s[i] < spec_context_symbols(c[i]) by {
        lemma_walk_in_body(t, s, i);
        if 2 <= i < 2 + BLOCK_SIZE_AREA {
            assert(-255 <= body.d_residuals[i - 2] <= 256);
        }
    }
    lemma_walk_in_body(t, s, 513);
    assert(spec_walk(t, s, 514) == spec_walk(t, s, 513).spec_step(Some(s[513])));
}

/// Inside the head of an access unit or of an intra block the tracker
/// counts the bytes that have passed.
proof fn lemma_walk_in_head(t: LayoutTracker, s: Seq<usize>, j: int)
    requires
        t.index == 0,
        0 <= j,
        (t.phase == Phase::IntraHead && j < 5) || (t.phase == Phase::AduHead && j < 4),
    ensures
        spec_walk(t, s, j) == (LayoutTracker { index: j as u16, ..t }),
    decreases j,
{
    if j > 0 {
        lemma_walk_in_head(t, s, j - 1);
    }
}

/// A walk over the five bytes of an intra block's head ends at the block's
/// body.
proof fn lemma_walk_intra_head(t: LayoutTracker, head_d: u8, head_t: u32)
    requires
        t.phase == Phase::IntraHead,
        t.index == 0,
    ensures
        spec_walks(
            t,
            seq![head_d as usize] + spec_u32_symbols(head_t),
            Seq::new(5, |j: int| ContextKind::U8General),
            (LayoutTracker { phase: Phase::BlockBody, ..t }),
        ),
{
    let head = seq![head_d as usize] + spec_u32_symbols(head_t);
    assert(head.len() == 5);
    assert forall|i: int| 0 <= i < 5 implies (#[trigger] spec_walk(t, head, i)).spec_context()
        == ContextKind::U8General by {
        lemma_walk_in_head(t, head, i);
    }
    assert forall|i: int| 0 <= i < 5 implies #[trigger] head[i] < 256 by {
        if i > 0 {
            assert(head[i] == spec_u32_symbols(head_t)[i - 1]);
        }
    }
    lemma_walk_in_head(t, head, 4);
    assert(spec_walk(t, head, 5) == spec_walk(t, head, 4).spec_step(Some(head[4])));
}

/// A walk over the four bytes of an access unit's head ends at the start
/// of its first channel, or behind the unit where it has none.
proof fn lemma_walk_adu_head(t: LayoutTracker, head_t: u32)
    requires
        t.phase == Phase::AduHead,
        t.index == 0,
    ensures
        spec_walks(
            t,
            spec_u32_symbols(head_t),
            Seq::new(4, |j: int| ContextKind::U8General),
            t.spec_enter_channel(),
        ),
{
    let head = spec_u32_symbols(head_t);
    assert(head.len() == 4);
    assert forall|i: int| 0 <= i < 4 implies (#[trigger] spec_walk(t, head, i)).spec_context()
        == ContextKind::U8General by {
        lemma_walk_in_head(t, head, i);
    }
    lemma_walk_in_head(t, head, 3);
    assert(spec_walk(t, head, 4) == spec_walk(t, head, 3).spec_step(Some(head[3])));
}

/// A walk over the two bytes of a channel's cube count ends at the start
/// of its first cube, or behind the channel where it has none.
proof fn lemma_walk_channel_count(t: LayoutTracker, n: u16)
    requires
        t.phase == Phase::ChannelCount,
        t.index == 0,
        n <= t.max_cubes,
    ensures
        spec_walks(
            t,
            spec_u16_symbols(n),
            Seq::new(2, |j: int| ContextKind::U8General),
            (LayoutTracker { index: 1, cubes_left: n, acc: 0, ..t }).spec_enter_cube(),
        ),
{
    let count = spec_u16_symbols(n);
    let first = LayoutTracker { index: 1, acc: (n / 256) as u16, ..t };
    assert(count.len() == 2);
    assert(count[0] == (n / 256) as usize);
    assert(count[1] == (n % 256) as usize);
    assert((n / 256) * 256 + n % 256 == n);
    assert(spec_walk(t, count, 0) == t);
    assert(spec_walk(t, count, 1) == first);
    assert(spec_walk(t, count, 2) == first.spec_step(Some(count[1])));
    assert forall|i: int| 0 <= i < 2 implies (#[trigger] spec_walk(t, count, i)).spec_context()
        == ContextKind::U8General by {
        assert(i == 0 || i == 1);
    }
}

/// A walk over an intra block selects the contexts of an intra block and
/// ends at the start of what follows the block.
pub proof fn lemma_walk_intra_block(t: LayoutTracker, block: IntraBlockView)
    requires
        t.phase == Phase::IntraHead,
        t.index == 0,
        block.wf(),
    ensures
        spec_walks(
            t,
            block.symbols(),
            IntraBlockView::contexts(),
            (LayoutTracker { phase: Phase::BlockBody, ..t }).spec_enter_block(),
        ),
{
    let head = seq![block.head_event_d as usize] + spec_u32_symbols(block.head_event_t);
    let head_contexts = Seq::new(5, |j: int| ContextKind::U8General);
    let mid = LayoutTracker { phase: Phase::BlockBody, ..t };
    lemma_walk_intra_head(t, block.head_event_d, block.head_event_t);
    lemma_walk_block_body(mid, block.body);
    lemma_walks_concat(
        t,
        head,
        head_contexts,
        mid,
        block.body.symbols(),
        BlockBodyView::contexts(),
        mid.spec_enter_block(),
    );
}

/// A walk over the first `k` inter blocks of a cube selects their contexts
/// and ends at the start of the next one, or behind the cube.
pub proof fn lemma_walk_inter_blocks(t: LayoutTracker, blocks: Seq<BlockBodyView>, k: int)
    requires
        t.phase == Phase::BlockBody,
        t.index == 0,
        t.blocks_left == blocks.len(),
        0 <= k <= blocks.len(),
        forall|i: int| 0 <= i < blocks.len() ==> (#[trigger] blocks[i]).wf(),
    ensures
        spec_walks(
            t.spec_enter_block(),
            spec_inter_blocks_symbols(blocks, k),
            spec_inter_blocks_contexts(k),
            (LayoutTracker { blocks_left: (blocks.len() - k) as u16, ..t }).spec_enter_block(),
        ),
    decreases k,
{
    if k == 0 {
        assert(spec_inter_blocks_symbols(blocks, 0).len() == 0);
        assert(spec_inter_blocks_contexts(0).len() == 0);
    } else {
        lemma_walk_inter_blocks(t, blocks, k - 1);
        let mid = (LayoutTracker { blocks_left: (blocks.len() - k + 1) as u16, ..t }).spec_enter_block();
        assert(mid == LayoutTracker { blocks_left: (blocks.len() - k) as u16, ..t });
        lemma_walk_block_body(mid, blocks[k - 1]);
        lemma_walks_concat(
            t.spec_enter_block(),
            spec_inter_blocks_symbols(blocks, k - 1),
            spec_inter_blocks_contexts(k - 1),
            mid,
            blocks[k - 1].symbols(),
            BlockBodyView::contexts(),
            mid.spec_enter_block(),
        );
    }
}

/// A walk over the header of a cube ends at the head of its intra block,
/// with the number of inter blocks that the header announces.
proof fn lemma_walk_cube_header(t: LayoutTracker, idx_y: u16, idx_x: u16, n: u16)
    requires
        t.phase == Phase::CubeHeader,
        t.index == 0,
        n <= t.max_inter_blocks,
    ensures
        spec_walks(
            t,
            spec_u16_symbols(idx_y) + spec_u16_symbols(idx_x) + spec_u16_symbols(n),
            Seq::new(6, |j: int| ContextKind::U8General),
            (LayoutTracker { phase: Phase::IntraHead, blocks_left: n, acc: 0, ..t }),
        ),
{
    let header = spec_u16_symbols(idx_y) + spec_u16_symbols(idx_x) + spec_u16_symbols(n);
    let at_intra = LayoutTracker { phase: Phase::IntraHead, blocks_left: n, acc: 0, ..t };
    assert(header.len() == 6);
    assert(header[4] == (n / 256) as usize);
    assert(header[5] == (n % 256) as usize);
    assert((n / 256) * 256 + n % 256 == n);
    let t1 = LayoutTracker { index: 1, ..t };
    let t2 = LayoutTracker { index: 2, ..t };
    let t3 = LayoutTracker { index: 3, ..t };
    let t4 = LayoutTracker { index: 4, ..t };
    let t5 = LayoutTracker { index: 5, acc: (n / 256) as u16, ..t };
    assert(spec_walk(t, header, 0) == t);
    assert(spec_walk(t, header, 1) == t1);
    assert(spec_walk(t, header, 2) == t2);
    assert(spec_walk(t, header, 3) == t3);
    assert(spec_walk(t, header, 4) == t4);
    assert(spec_walk(t, header, 5) == t5);
    assert(spec_walk(t, header, 6) == at_intra);
    assert forall|i: int| 0 <= i < 6 implies (#[trigger] spec_walk(t, header, i)).spec_context()
        == ContextKind::U8General by {
        if i == 0 {
        } else if i == 1 {
        } else if i == 2 {
        } else if i == 3 {
        } else if i == 4 {
        } else {
        }
    }
}

/// A walk over a cube selects the contexts of the cube and ends at the
/// start of what follows it.
pub proof fn lemma_walk_cube(t: LayoutTracker, cube: CubeView)
    requires
        t.phase == Phase::CubeHeader,
        t.index == 0,
        cube.wf(),
        cube.inter_blocks.len() <= t.max_inter_blocks,
    ensures
        spec_walks(
            t,
            cube.symbols(),
            cube.contexts(),
            (LayoutTracker { blocks_left: 0, acc: 0, ..t }).spec_enter_cube(),
        ),
{
    let n = cube.inter_blocks.len() as u16;
    let header = spec_u16_symbols(cube.idx_y) + spec_u16_symbols(cube.idx_x) + spec_u16_symbols(n);
    let header_contexts = Seq::new(6, |j: int| ContextKind::U8General);
    let at_intra = LayoutTracker { phase: Phase::IntraHead, blocks_left: n, acc: 0, ..t };
    lemma_walk_cube_header(t, cube.idx_y, cube.idx_x, n);
    let at_body = LayoutTracker { phase: Phase::BlockBody, ..at_intra };
    lemma_walk_intra_block(at_intra, cube.intra_block);
    lemma_walks_concat(
        t,
        header,
        header_contexts,
        at_intra,
        cube.intra_block.symbols(),
        IntraBlockView::contexts(),
        at_body.spec_enter_block(),
    );
    lemma_walk_inter_blocks(at_body, cube.inter_blocks, n as int);
    lemma_walks_concat(
        t,
        header + cube.intra_block.symbols(),
        header_contexts + IntraBlockView::contexts(),
        at_body.spec_enter_block(),
        spec_inter_blocks_symbols(cube.inter_blocks, n as int),
        spec_inter_blocks_contexts(n as int),
        (LayoutTracker { blocks_left: 0, ..at_body }).spec_enter_block(),
    );
}

/// A walk over the first `k` cubes of a channel selects their contexts and
/// ends at the start of the next one, or behind the channel.
pub proof fn lemma_walk_cubes(t: LayoutTracker, cubes: Seq<CubeView>, k: int)
    requires
        t.cubes_left == cubes.len(),
        t.blocks_left == 0,
        t.acc == 0,
        0 <= k <= cubes.len(),
        spec_channel_wf(cubes),
        spec_channel_within(cubes, t.max_cubes, t.max_inter_blocks),
    ensures
        spec_walks(
            t.spec_enter_cube(),
            spec_cubes_symbols(cubes, k),
            spec_cubes_contexts(cubes, k),
            (LayoutTracker { cubes_left: (cubes.len() - k) as u16, ..t }).spec_enter_cube(),
        ),
    decreases k,
{
    if k == 0 {
        assert(spec_cubes_symbols(cubes, 0).len() == 0);
        assert(spec_cubes_contexts(cubes, 0).len() == 0);
    } else {
        lemma_walk_cubes(t, cubes, k - 1);
        let mid = (LayoutTracker { cubes_left: (cubes.len() - k + 1) as u16, ..t }).spec_enter_cube();
        assert(mid == LayoutTracker {
            phase: Phase::CubeHeader,
            index: 0,
            cubes_left: (cubes.len() - k) as u16,
            ..t
        });
        assert(cubes[k - 1].wf());
        lemma_walk_cube(mid, cubes[k - 1]);
        lemma_walks_concat(
            t.spec_enter_cube(),
            spec_cubes_symbols(cubes, k - 1),
            spec_cubes_contexts(cubes, k - 1),
            mid,
            cubes[k - 1].symbols(),
            cubes[k - 1].contexts(),
            mid.spec_enter_cube(),
        );
    }
}

/// A walk over a channel selects the contexts of the channel and ends at
/// the start of the next one, or behind the access unit.
pub proof fn lemma_walk_channel(t: LayoutTracker, cubes: Seq<CubeView>)
    requires
        t.phase == Phase::ChannelCount,
        t.index == 0,
        t.blocks_left == 0,
        spec_channel_wf(cubes),
        spec_channel_within(cubes, t.max_cubes, t.max_inter_blocks),
    ensures
        spec_walks(
            t,
            spec_channel_symbols(cubes),
            spec_channel_contexts(cubes),
            (LayoutTracker { cubes_left: 0, acc: 0, ..t }).spec_enter_channel(),
        ),
{
    let n = cubes.len() as u16;
    let count = spec_u16_symbols(n);
    let count_contexts = Seq::new(2, |j: int| ContextKind::U8General);
    let counted = LayoutTracker { index: 1, cubes_left: n, acc: 0, ..t };
    lemma_walk_channel_count(t, n);
    lemma_walk_cubes(counted, cubes, n as int);
    lemma_walks_concat(
        t,
        count,
        count_contexts,
        counted.spec_enter_cube(),
        spec_cubes_symbols(cubes, n as int),
        spec_cubes_contexts(cubes, n as int),
        (LayoutTracker { cubes_left: 0, ..counted }).spec_enter_cube(),
    );
}

/// A walk over the first `k` channels of an access unit selects their
/// contexts and ends at the start of the next one, or behind the access
/// unit.
pub proof fn lemma_walk_channels(t: LayoutTracker, channels: Seq<Seq<CubeView>>, k: int)
    requires
        t.channels_left == channels.len(),
        t.cubes_left == 0,
        t.blocks_left == 0,
        t.acc == 0,
        0 <= k <= channels.len(),
        forall|c: int| 0 <= c < channels.len() ==> spec_channel_wf(#[trigger] channels[c]),
        forall|c: int|
            0 <= c < channels.len() ==> spec_channel_within(
                #[trigger] channels[c],
                t.max_cubes,
                t.max_inter_blocks,
            ),
    ensures
        spec_walks(
            t.spec_enter_channel(),
            spec_channels_symbols(channels, k),
            spec_channels_contexts(channels, k),
            (LayoutTracker { channels_left: (channels.len() - k) as u8, ..t }).spec_enter_channel(),
        ),
    decreases k,
{
    if k == 0 {
        assert(spec_channels_symbols(channels, 0).len() == 0);
        assert(spec_channels_contexts(channels, 0).len() == 0);
    } else {
        lemma_walk_channels(t, channels, k - 1);
        let mid = (LayoutTracker {
            channels_left: (channels.len() - k + 1) as u8,
            ..t
        }).spec_enter_channel();
        assert(mid == LayoutTracker {
            phase: Phase::ChannelCount,
            index: 0,
            channels_left: (channels.len() - k) as u8,
            ..t
        });
        assert(spec_channel_wf(channels[k - 1]));
        lemma_walk_channel(mid, channels[k - 1]);
        lemma_walks_concat(
            t.spec_enter_channel(),
            spec_channels_symbols(channels, k - 1),
            spec_channels_contexts(channels, k - 1),
            mid,
            spec_channel_symbols(channels[k - 1]),
            spec_channel_contexts(channels[k - 1]),
            mid.spec_enter_channel(),
        );
    }
}

/// The tracker follows the layout: on the symbols of an access unit within
/// the bounds it selects, before every symbol, the context that the layout
/// gives to that symbol, every symbol belongs to the alphabet of its
/// context, and behind the last symbol the tracker is at the end, where
/// the end-of-sequence mark leaves it.
pub proof fn lemma_tracker_follows_layout(
    adu: AduView,
    num_channels: u8,
    max_cubes: u16,
    max_inter_blocks: u16,
)
    requires
        adu.wf(),
        adu.channels.len() == num_channels,
        spec_within(adu, max_cubes, max_inter_blocks),
    ensures
        spec_walks(
            LayoutTracker::spec_new(num_channels, max_cubes, max_inter_blocks),
            adu.symbols(),
            adu.contexts(),
            spec_end(max_cubes, max_inter_blocks),
        ),
        spec_end(max_cubes, max_inter_blocks).spec_context() == ContextKind::Eof,
        spec_end(max_cubes, max_inter_blocks).spec_step(None) == spec_end(
            max_cubes,
            max_inter_blocks,
        ),
{
    let t = LayoutTracker::spec_new(num_channels, max_cubes, max_inter_blocks);
    let head = spec_u32_symbols(adu.head_event_t);
    let head_contexts = Seq::new(4, |j: int| ContextKind::U8General);
    lemma_walk_adu_head(t, adu.head_event_t);
    lemma_walk_channels(t, adu.channels, num_channels as int);
    lemma_walks_concat(
        t,
        head,
        head_contexts,
        t.spec_enter_channel(),
        spec_channels_symbols(adu.channels, num_channels as int),
        spec_channels_contexts(adu.channels, num_channels as int),
        (LayoutTracker { channels_left: 0, ..t }).spec_enter_channel(),
    );
}

} // verus!
