//! The probability model handed to the arithmetic coder, and the calls
//! into the coder.
//!
//! The coder asks its model for the range of each symbol and tells it which
//! symbol went by. The model here answers from the histogram of the context
//! the symbol stands in: a single context for a plain sequence, or the
//! context that the layout of an access unit assigns to the position. Both
//! the encoder and the decoder start from equal models and show them the
//! same symbols, so both select the same context at every step.

use crate::fenwick::{
    lemma_sum_nonnegative,
    lemma_sum_part,
    spec_context_counts,
    spec_copied,
    spec_sum,
    FenwickModel,
    MAX_DENOMINATOR_LIMIT,
};
use crate::layout::{
    spec_context_symbols,
    AduView,
    ContextKind,
    DT_SYMBOLS,
    D_SYMBOLS,
    U8_SYMBOLS,
};
use crate::tracker::{
    lemma_tracker_follows_layout,
    spec_end,
    spec_walk,
    spec_walks,
    spec_within,
    LayoutTracker,
};
use crate::types::CodecError;
use arithmetic_coding::{Decoder, Encoder, Model};
use bitstream_io::{BigEndian, BitReader, BitWrite, BitWriter};
use std::ops::Range;
use vstd::prelude::*;

verus! {

/// The bound on every context's denominator.
pub const MAX_DENOMINATOR: u64 = 0x10_0000;

/// The error of the byte streams under the coder.
#[verifier::external_type_specification]
#[verifier::external_body]
pub struct ExIoError(std::io::Error);

/// The ids under which a model holds the four contexts of an access unit.
#[derive(Clone, Copy, Debug, PartialEq, Eq, Structural)]
pub struct Contexts {
    pub d_context: usize,
    pub dt_context: usize,
    pub u8_general_context: usize,
    pub eof_context: usize,
}

impl Contexts {
    /// The id of the context of a kind.
    pub open spec fn spec_id(&self, kind: ContextKind) -> usize {
        match kind {
            ContextKind::U8General => self.u8_general_context,
            ContextKind::D => self.d_context,
            ContextKind::Dt => self.dt_context,
            ContextKind::Eof => self.eof_context,
        }
    }

    /// Every id names a context of `model` whose alphabet is that of its
    /// kind.
    pub open spec fn fit(&self, model: &FenwickModel) -> bool {
        &&& self.d_context < model.contexts.len()
        &&& self.dt_context < model.contexts.len()
        &&& self.u8_general_context < model.contexts.len()
        &&& self.eof_context < model.contexts.len()
        &&& model.contexts[self.d_context as int].spec_symbols() == D_SYMBOLS
        &&& model.contexts[self.dt_context as int].spec_symbols() == DT_SYMBOLS
        &&& model.contexts[self.u8_general_context as int].spec_symbols() == U8_SYMBOLS
        &&& model.contexts[self.eof_context as int].spec_symbols() == 0
    }

    /// Adds the four contexts to `model`, each with every symbol counted
    /// once, and returns their ids.
    pub fn new(model: &mut FenwickModel) -> (r: Self)
        requires
            old(model).wf(),
            old(model).max_denominator > DT_SYMBOLS,
        ensures
            final(model).wf(),
            r.fit(final(model)),
            r.d_context == old(model).contexts.len(),
            r.dt_context == old(model).contexts.len() + 1,
            r.u8_general_context == old(model).contexts.len() + 2,
            r.eof_context == old(model).contexts.len() + 3,
            final(model).contexts.len() == old(model).contexts.len() + 4,
            final(model).current_context == old(model).current_context,
            final(model).max_denominator == old(model).max_denominator,
            forall|c: int|
                0 <= c < old(model).contexts.len() ==> final(model).contexts[c] == old(
                    model,
                ).contexts[c],
            forall|c: int, i: int|
                old(model).contexts.len() <= c < final(model).contexts.len() && 0 <= i
                    < final(model).contexts[c]@.len() ==> final(model).contexts[c]@[i] == 1,
    {
        let d_context = model.push_context(D_SYMBOLS);
        let dt_context = model.push_context(DT_SYMBOLS);
        let u8_general_context = model.push_context(U8_SYMBOLS);
        let eof_context = model.push_context(0);
        Contexts { d_context, dt_context, u8_general_context, eof_context }
    }

    /// The id of the context of a kind.
    pub fn id(&self, kind: ContextKind) -> (r: usize)
        ensures
            r == self.spec_id(kind),
    {
        match kind {
            ContextKind::U8General => self.u8_general_context,
            ContextKind::D => self.d_context,
            ContextKind::Dt => self.dt_context,
            ContextKind::Eof => self.eof_context,
        }
    }
}

/// The number of channels that an access unit carries for a plane of
/// `num_channels` colors: one for a single color, three otherwise.
pub open spec fn spec_channel_count(num_channels: u8) -> u8 {
    if num_channels <= 1 {
        1
    } else {
        3
    }
}

/// How a coder model selects the context of the next symbol.
#[derive(Clone, Copy, Debug, PartialEq, Eq, Structural)]
pub enum CoderMode {
    /// A plain sequence of at most `remaining` more symbols, all drawn from
    /// the context `context`; behind them only the end-of-sequence mark can
    /// follow, which `eof_context` serves.
    Plain { context: usize, eof_context: usize, remaining: usize },
    /// An access unit: the context follows from the position in its layout.
    Layout { contexts: Contexts, tracker: LayoutTracker },
}

impl CoderMode {
    /// The id of the context that serves the next symbol.
    pub open spec fn spec_context(self) -> usize {
        match self {
            CoderMode::Plain { context, eof_context, remaining } => if remaining > 0 {
                context
            } else {
                eof_context
            },
            CoderMode::Layout { contexts, tracker } => contexts.spec_id(tracker.spec_context()),
        }
    }

    /// The mode behind `symbol`: one symbol fewer to come in a plain
    /// sequence (none after the end-of-sequence mark), the tracker moved on
    /// in an access unit.
    pub open spec fn spec_step(self, symbol: Option<usize>) -> CoderMode {
        match self {
            CoderMode::Plain { context, eof_context, remaining } => CoderMode::Plain {
                context,
                eof_context,
                remaining: if symbol is Some && remaining > 0 {
                    (remaining - 1) as usize
                } else {
                    0
                },
            },
            CoderMode::Layout { contexts, tracker } => CoderMode::Layout {
                contexts,
                tracker: tracker.spec_step(symbol),
            },
        }
    }

    /// The ids name contexts of `model`, with the alphabets the mode relies
    /// on: none but the end-of-sequence mark in every end context.
    pub open spec fn fit(self, model: &FenwickModel) -> bool {
        match self {
            CoderMode::Plain { context, eof_context, remaining } => {
                &&& context < model.contexts.len()
                &&& eof_context < model.contexts.len()
                &&& model.contexts[eof_context as int].spec_symbols() == 0
            },
            CoderMode::Layout { contexts, tracker } => contexts.fit(model) && tracker.wf(),
        }
    }

    /// The id of the context that serves the next symbol.
    pub fn context(&self) -> (r: usize)
        ensures
            r == self.spec_context(),
    {
        match self {
            CoderMode::Plain { context, eof_context, remaining } => if *remaining > 0 {
                *context
            } else {
                *eof_context
            },
            CoderMode::Layout { contexts, tracker } => contexts.id(tracker.context()),
        }
    }

    /// The mode behind `symbol`.
    pub fn step(&self, symbol: Option<usize>) -> (r: CoderMode)
        requires
            self matches CoderMode::Layout { contexts, tracker } ==> tracker.wf(),
        ensures
            r == self.spec_step(symbol),
            r matches CoderMode::Layout { contexts, tracker } ==> tracker.wf(),
    {
        match self {
            CoderMode::Plain { context, eof_context, remaining } => CoderMode::Plain {
                context: *context,
                eof_context: *eof_context,
                remaining: if symbol.is_some() && *remaining > 0 {
                    *remaining - 1
                } else {
                    0
                },
            },
            CoderMode::Layout { contexts, tracker } => {
                let mut t = *tracker;
                t.advance(symbol);
                CoderMode::Layout { contexts: *contexts, tracker: t }
            },
        }
    }
}

/// What a coder model is made of: the counts of every context, the context
/// that serves the next symbol, the bound on the denominators, and the way
/// the context of each next symbol is selected.
pub struct CoderModelView {
    pub counts: Seq<Seq<u64>>,
    pub current_context: usize,
    pub max_denominator: u64,
    pub mode: CoderMode,
}

/// The model the arithmetic coder is driven by.
pub struct CoderModel {
    model: FenwickModel,
    mode: CoderMode,
}

impl View for CoderModel {
    type V = CoderModelView;

    closed spec fn view(&self) -> CoderModelView {
        CoderModelView {
            counts: spec_context_counts(self.model.contexts@),
            current_context: self.model.current_context,
            max_denominator: self.model.max_denominator,
            mode: self.mode,
        }
    }
}

impl CoderModel {
    /// The histograms are well formed, and the mode's contexts are among
    /// them.
    #[verifier::type_invariant]
    closed spec fn inv(&self) -> bool {
        &&& self.model.wf()
        &&& self.mode.fit(&self.model)
    }

    /// What the model of a plain sequence is made of: the counts of
    /// `counts` and behind them an end context; the selected context of
    /// `counts` serving the next `budget` symbols.
    pub open spec fn spec_plain(
        counts: Seq<Seq<u64>>,
        current_context: usize,
        max_denominator: u64,
        budget: usize,
    ) -> CoderModelView {
        let mode = CoderMode::Plain {
            context: current_context,
            eof_context: counts.len() as usize,
            remaining: budget,
        };
        CoderModelView {
            counts: counts.push(seq![1u64]),
            current_context: mode.spec_context(),
            max_denominator,
            mode,
        }
    }

    /// The model of a plain sequence of at most `budget` symbols, all drawn
    /// from the context that `model` has selected, with the counts that
    /// `model` has gathered.
    pub fn plain(model: FenwickModel, budget: usize) -> (r: Self)
        requires
            model.wf(),
        ensures
            r@ == Self::spec_plain(
                spec_context_counts(model.contexts@),
                model.current_context,
                model.max_denominator,
                budget,
            ),
    {
        let mut model = model;
        let ghost before = spec_context_counts(model.contexts@);
        let context: usize = model.current_context;
        proof {
            crate::fenwick::lemma_sum_at_least_length(
                model.current()@,
                0,
                model.current()@.len() as int,
            );
        }
        let eof_context: usize = model.push_context(0);
        let mode = CoderMode::Plain { context, eof_context, remaining: budget };
        model.set_context(mode.context());
        let r = CoderModel { model, mode };
        proof {
            let want = before.push(seq![1u64]);
            assert(r@.counts.len() == want.len());
            assert forall|c: int| 0 <= c < want.len() implies #[trigger] r@.counts[c] == want[c] by {
                if c == eof_context {
                    assert(r.model.contexts[c]@ =~= seq![1u64]);
                }
            }
            assert(r@.counts =~= want);
        }
        r
    }

    /// What a fresh model of an access unit is made of: an unused first
    /// context, then the contexts of decimation residuals, time residuals,
    /// bytes and the end mark, every symbol counted once; the byte context
    /// selected; the tracker before the first symbol of a unit of one
    /// channel for a plane of a single color, of three otherwise.
    pub open spec fn spec_for_adu(
        num_channels: u8,
        max_cubes: u16,
        max_inter_blocks: u16,
    ) -> CoderModelView {
        CoderModelView {
            counts: seq![
                Seq::new(1, |i: int| 1u64),
                Seq::new((D_SYMBOLS + 1) as nat, |i: int| 1u64),
                Seq::new((DT_SYMBOLS + 1) as nat, |i: int| 1u64),
                Seq::new((U8_SYMBOLS + 1) as nat, |i: int| 1u64),
                Seq::new(1, |i: int| 1u64),
            ],
            current_context: 3,
            max_denominator: MAX_DENOMINATOR,
            mode: CoderMode::Layout {
                contexts: Contexts {
                    d_context: 1,
                    dt_context: 2,
                    u8_general_context: 3,
                    eof_context: 4,
                },
                tracker: LayoutTracker::spec_new(
                    spec_channel_count(num_channels),
                    max_cubes,
                    max_inter_blocks,
                ),
            },
        }
    }

    /// A fresh model of an access unit for a plane of `num_channels` colors,
    /// whose channels announce at most `max_cubes` cubes and whose cubes at
    /// most `max_inter_blocks` inter blocks.
    pub fn for_adu(num_channels: u8, max_cubes: u16, max_inter_blocks: u16) -> (r: Self)
        ensures
            r@ == Self::spec_for_adu(num_channels, max_cubes, max_inter_blocks),
    {
        let mut model = FenwickModel::with_symbols(0, MAX_DENOMINATOR);
        let contexts = Contexts::new(&mut model);
        let channels: u8 = if num_channels <= 1 {
            1
        } else {
            3
        };
        let tracker = LayoutTracker::new(channels, max_cubes, max_inter_blocks);
        let mode = CoderMode::Layout { contexts, tracker };
        model.set_context(mode.context());
        let r = CoderModel { model, mode };
        proof {
            let want = Self::spec_for_adu(num_channels, max_cubes, max_inter_blocks);
            assert(r@.counts.len() == 5);
            assert forall|c: int| 0 <= c < 5 implies #[trigger] r@.counts[c] =~= want.counts[c] by {
                assert(r.model.contexts[c].wf());
            }
            assert(r@.counts =~= want.counts);
        }
        r
    }

    /// The range of cumulative counts that stands for `symbol` in the
    /// context that serves the next symbol, or `None` for a symbol outside
    /// that context's alphabet.
    pub fn range_of(&self, symbol: Option<&usize>) -> (r: Option<Range<u64>>)
        ensures
            r == self@.spec_range_of(spec_copied(symbol)),
            r matches Some(p) ==> p.start < p.end <= self@.spec_denominator(),
    {
        proof {
            use_type_invariant(self);
            let h = self.model.current();
            assert(h.wf());
            assert(h@ == self@.counts[self@.current_context as int]);
            match symbol {
                Some(s) => {
                    if *s < h.spec_symbols() {
                        lemma_sum_nonnegative(h@, 0, *s as int);
                        lemma_sum_part(h@, 0, 0, *s as int, h@.len() as int);
                        lemma_sum_part(h@, 0, 0, *s + 1, h@.len() as int);
                    }
                },
                None => {
                    lemma_sum_nonnegative(h@, 0, h@.len() - 1);
                    lemma_sum_part(h@, 0, 0, h@.len() - 1, h@.len() as int);
                },
            }
        }
        match self.model.probability(symbol) {
            Ok(p) => Some(p),
            Err(_) => None,
        }
    }

    /// The sum of all counts of the context that serves the next symbol.
    pub fn total(&self) -> (r: u64)
        ensures
            r == self@.spec_denominator(),
            0 < r <= self@.max_denominator,
    {
        proof {
            use_type_invariant(self);
            assert(self.model.current()@ == self@.counts[self@.current_context as int]);
        }
        self.model.denominator()
    }

    /// The bound on the sum of all counts of any context.
    pub fn bound(&self) -> (r: u64)
        ensures
            r == self@.max_denominator,
            0 < r <= MAX_DENOMINATOR_LIMIT,
    {
        proof {
            use_type_invariant(self);
            crate::fenwick::lemma_sum_at_least_length(
                self.model.current()@,
                0,
                self.model.current()@.len() as int,
            );
        }
        self.model.max_denominator()
    }

    /// The symbol whose range holds the cumulative value `value`: `None`
    /// for the end-of-sequence mark and for a value at or above the
    /// denominator.
    pub fn symbol_at(&self, value: u64) -> (r: Option<usize>)
        ensures
            value >= self@.spec_denominator() ==> r is None,
            value < self@.spec_denominator() ==> (self@.spec_range_of(r) matches Some(p)
                && p.start <= value < p.end),
    {
        proof {
            use_type_invariant(self);
            assert(self.model.current()@ == self@.counts[self@.current_context as int]);
        }
        let r = self.model.symbol(value);
        proof {
            if value < self@.spec_denominator() {
                let h = self.model.current();
                match r {
                    Some(s) => {
                        lemma_sum_nonnegative(h@, 0, s as int);
                        lemma_sum_part(h@, 0, 0, s as int, h@.len() as int);
                        lemma_sum_part(h@, 0, 0, s + 1, h@.len() as int);
                    },
                    None => {
                        lemma_sum_nonnegative(h@, 0, h@.len() - 1);
                        lemma_sum_part(h@, 0, 0, h@.len() - 1, h@.len() as int);
                    },
                }
            }
        }
        r
    }

    /// Counts `symbol` in the context that served it, and selects the
    /// context of the symbol that follows.
    pub fn observe(&mut self, symbol: Option<&usize>)
        ensures
            final(self)@ == old(self)@.spec_observed(spec_copied(symbol)),
    {
        proof {
            use_type_invariant(&*self);
        }
        let ghost before = self@;
        let ghost cur = self.model.current_context as int;
        self.model.update(symbol);
        proof {
            let after = spec_context_counts(self.model.contexts@);
            let want = before.spec_counted(spec_copied(symbol));
            assert(after.len() == want.len());
            assert forall|c: int| 0 <= c < after.len() implies #[trigger] after[c] == want[c] by {
                if c != cur {
                    assert(self.model.contexts[c] == old(self).model.contexts[c]);
                }
            }
            assert(after =~= want);
        }
        let next = self.mode.step(
            match symbol {
                Some(s) => Some(*s),
                None => None,
            },
        );
        self.model.set_context(next.context());
        self.mode = next;
    }
}

impl CoderModelView {
    /// The counts of the context that serves the next symbol.
    pub open spec fn spec_current(self) -> Seq<u64> {
        self.counts[self.current_context as int]
    }

    /// The sum of all counts of the context that serves the next symbol.
    pub open spec fn spec_denominator(self) -> int {
        spec_sum(self.spec_current(), 0, self.spec_current().len() as int)
    }

    /// The slot of the current context that `symbol` is counted in, the
    /// last one being that of the end-of-sequence mark; `None` for a symbol
    /// outside the alphabet.
    pub open spec fn spec_slot(self, symbol: Option<usize>) -> Option<int> {
        match symbol {
            Some(s) => if s < self.spec_current().len() - 1 {
                Some(s as int)
            } else {
                None
            },
            None => Some(self.spec_current().len() - 1),
        }
    }

    /// The range of cumulative counts that stands for `symbol`: from the
    /// sum of the counts below its slot up to that sum plus its own count.
    pub open spec fn spec_range_of(self, symbol: Option<usize>) -> Option<Range<u64>> {
        match self.spec_slot(symbol) {
            Some(slot) => Some(
                Range {
                    start: spec_sum(self.spec_current(), 0, slot) as u64,
                    end: spec_sum(self.spec_current(), 0, slot + 1) as u64,
                },
            ),
            None => None,
        }
    }

    /// The counts after `symbol` went by: its slot counted once more in the
    /// current context, unless the context has reached the bound or the
    /// symbol is outside the alphabet.
    pub open spec fn spec_counted(self, symbol: Option<usize>) -> Seq<Seq<u64>> {
        match self.spec_slot(symbol) {
            Some(slot) => if self.spec_denominator() < self.max_denominator {
                self.counts.update(
                    self.current_context as int,
                    self.spec_current().update(slot, (self.spec_current()[slot] + 1) as u64),
                )
            } else {
                self.counts
            },
            None => self.counts,
        }
    }

    /// The model after `symbol` went by: the symbol counted, and the
    /// context of the next position selected.
    pub open spec fn spec_observed(self, symbol: Option<usize>) -> CoderModelView {
        CoderModelView {
            counts: self.spec_counted(symbol),
            current_context: self.mode.spec_step(symbol).spec_context(),
            max_denominator: self.max_denominator,
            mode: self.mode.spec_step(symbol),
        }
    }
}

/// The error that the coder is answered with for a symbol outside the
/// alphabet: an `std::io::Error` of the kind `InvalidInput`. Nothing is
/// claimed of it; it only has to exist.
#[verifier::external_body]
pub(crate) fn invalid_symbol_error() -> std::io::Error {
    std::io::Error::from(std::io::ErrorKind::InvalidInput)
}

impl Model for CoderModel {
    type Symbol = usize;

    type ValueError = std::io::Error;

    type B = u64;

    /// The range that stands for `symbol`; an error for a symbol outside
    /// the alphabet of the context that serves the next symbol.
    fn probability(&self, symbol: Option<&usize>) -> (r: Result<Range<u64>, std::io::Error>)
        ensures
            r is Ok <==> self@.spec_range_of(spec_copied(symbol)) is Some,
            r matches Ok(p) ==> self@.spec_range_of(spec_copied(symbol)) == Some(p) && p.start
                < p.end <= self@.spec_denominator(),
    {
        match self.range_of(symbol) {
            Some(p) => Ok(p),
            None => Err(invalid_symbol_error()),
        }
    }

    fn denominator(&self) -> (r: u64)
        ensures
            r == self@.spec_denominator(),
            0 < r <= self@.max_denominator,
    {
        self.total()
    }

    fn max_denominator(&self) -> (r: u64)
        ensures
            r == self@.max_denominator,
            0 < r <= MAX_DENOMINATOR_LIMIT,
    {
        self.bound()
    }

    fn symbol(&self, value: u64) -> (r: Option<usize>)
        ensures
            value >= self@.spec_denominator() ==> r is None,
            value < self@.spec_denominator() ==> (self@.spec_range_of(r) matches Some(p)
                && p.start <= value < p.end),
    {
        self.symbol_at(value)
    }

    fn update(&mut self, symbol: Option<&usize>)
        ensures
            final(self)@ == old(self)@.spec_observed(spec_copied(symbol)),
    {
        self.observe(symbol)
    }
}

/// The model after the first `n` of `symbols` went by.
pub open spec fn spec_after(model: CoderModelView, symbols: Seq<usize>, n: int) -> CoderModelView
    decreases n,
{
    if n <= 0 {
        model
    } else {
        spec_after(model, symbols, n - 1).spec_observed(Some(symbols[n - 1]))
    }
}

/// Every one of the first `n` of `symbols` has a range in the context that
/// serves it.
pub open spec fn spec_accepted(model: CoderModelView, symbols: Seq<usize>, n: int) -> bool
    decreases n,
{
    if n <= 0 {
        true
    } else {
        spec_accepted(model, symbols, n - 1) && spec_after(model, symbols, n - 1).spec_range_of(
            Some(symbols[n - 1]),
        ) is Some
    }
}

/// The bytes that the arithmetic coder writes for `symbols` and the
/// end-of-sequence mark, when it is driven by a model made of `model`,
/// padded with zero bits to whole bytes.
pub uninterp spec fn spec_arithmetic_encoding(model: CoderModelView, symbols: Seq<usize>) -> Seq<
    u8,
>;

/// The symbols that the arithmetic coder reads from `bytes` up to the first
/// end-of-sequence mark, when it is driven by a model made of `model`.
pub uninterp spec fn spec_arithmetic_decoding(model: CoderModelView, bytes: Seq<u8>) -> Seq<usize>;

/// Runs `arithmetic_coding::Encoder::encode_all` on a `bitstream_io`
/// writer over a byte vector, and pads the vector to whole bytes.
///
/// The coder asks the model for the range of every symbol in turn and
/// fails only where the model has none, or where its writer fails, which a
/// byte vector does not: it succeeds exactly on the sequences whose
/// symbols all have a range, and fails with `MalformedEncoder` on the
/// others. It is deterministic, so the bytes are those that
/// `spec_arithmetic_encoding` names.
#[verifier::external_body]
fn arithmetic_encode(model: CoderModel, symbols: Vec<usize>) -> (r: Result<Vec<u8>, CodecError>)
    ensures
        r is Ok ==> spec_accepted(model@, symbols@, symbols@.len() as int),
        spec_accepted(model@, symbols@, symbols@.len() as int) ==> r is Ok,
        r matches Err(e) ==> e == CodecError::MalformedEncoder,
        r matches Ok(bytes) ==> bytes@ == spec_arithmetic_encoding(model@, symbols@),
{
    let mut writer = BitWriter::endian(Vec::new(), BigEndian);
    let coded = Encoder::new(model, &mut writer).encode_all(symbols);
    let aligned = writer.byte_align();
    match (coded, aligned) {
        (Ok(()), Ok(())) => Ok(writer.into_writer()),
        _ => Err(CodecError::MalformedEncoder),
    }
}

/// Runs `arithmetic_coding::Decoder::decode_all` on a `bitstream_io`
/// reader over `bytes` and gathers the symbols up to the first
/// end-of-sequence mark.
///
/// The decoder reads the end of its input as bits of zero, so it fails on
/// no byte slice. It is deterministic, so the symbols are those that
/// `spec_arithmetic_decoding` names.
#[verifier::external_body]
fn arithmetic_decode(model: CoderModel, bytes: &Vec<u8>) -> (r: Result<Vec<usize>, CodecError>)
    ensures
        r is Ok,
        r matches Ok(symbols) ==> symbols@ == spec_arithmetic_decoding(model@, bytes@),
{
    let reader = BitReader::endian(bytes.as_slice(), BigEndian);
    let mut decoder = Decoder::new(model, reader);
    match decoder.decode_all().collect::<Result<Vec<usize>, std::io::Error>>() {
        Ok(symbols) => Ok(symbols),
        Err(_) => Err(CodecError::IoError),
    }
}

/// Entropy codes `symbols`, followed by the end-of-sequence mark, with the
/// given model. Fails with `MalformedEncoder` exactly where a symbol has no
/// range in the context that serves it.
pub fn encode_symbols(model: CoderModel, symbols: Vec<usize>) -> (r: Result<Vec<u8>, CodecError>)
    ensures
        r is Ok <==> spec_accepted(model@, symbols@, symbols@.len() as int),
        r is Err ==> r == Err::<Vec<u8>, CodecError>(CodecError::MalformedEncoder),
        r matches Ok(bytes) ==> bytes@ == spec_arithmetic_encoding(model@, symbols@),
{
    arithmetic_encode(model, symbols)
}

/// Entropy decodes the symbols that `bytes` hold up to the first
/// end-of-sequence mark, with the given model. It fails on no input.
pub fn decode_symbols(model: CoderModel, bytes: &Vec<u8>) -> (r: Result<Vec<usize>, CodecError>)
    ensures
        r matches Ok(symbols) && symbols@ == spec_arithmetic_decoding(model@, bytes@),
{
    arithmetic_decode(model, bytes)
}

/// A plain model accepts every sequence within its budget whose symbols
/// belong to the alphabet of its context.
pub proof fn lemma_plain_accepts(
    counts: Seq<Seq<u64>>,
    context: usize,
    max_denominator: u64,
    budget: usize,
    symbols: Seq<usize>,
    n: int,
)
    requires
        context < counts.len(),
        counts.len() < usize::MAX,
        0 <= n <= symbols.len() <= budget,
        forall|i: int| 0 <= i < symbols.len() ==> #[trigger] symbols[i] < counts[context as int].len() - 1,
    ensures
        spec_accepted(
            CoderModel::spec_plain(counts, context, max_denominator, budget),
            symbols,
            n,
        ),
        spec_after(
            CoderModel::spec_plain(counts, context, max_denominator, budget),
            symbols,
            n,
        ).mode == (CoderMode::Plain {
            context,
            eof_context: counts.len() as usize,
            remaining: (budget - n) as usize,
        }),
        spec_after(
            CoderModel::spec_plain(counts, context, max_denominator, budget),
            symbols,
            n,
        ).counts.len() == counts.len() + 1,
        spec_after(
            CoderModel::spec_plain(counts, context, max_denominator, budget),
            symbols,
            n,
        ).counts[context as int].len() == counts[context as int].len(),
        n < budget ==> spec_after(
            CoderModel::spec_plain(counts, context, max_denominator, budget),
            symbols,
            n,
        ).current_context == context,
    decreases n,
{
    if n > 0 {
        lemma_plain_accepts(counts, context, max_denominator, budget, symbols, n - 1);
        assert(symbols[n - 1] < counts[context as int].len() - 1);
    }
}

/// The model of an access unit accepts the symbols of every unit within
/// its bounds: the tracker selects for every symbol the context whose
/// alphabet holds it.
pub proof fn lemma_unit_accepted(
    adu: AduView,
    num_channels: u8,
    max_cubes: u16,
    max_inter_blocks: u16,
)
    requires
        adu.wf(),
        adu.channels.len() == spec_channel_count(num_channels),
        spec_within(adu, max_cubes, max_inter_blocks),
    ensures
        spec_accepted(
            CoderModel::spec_for_adu(num_channels, max_cubes, max_inter_blocks),
            adu.symbols(),
            adu.symbols().len() as int,
        ),
{
    lemma_tracker_follows_layout(adu, spec_channel_count(num_channels), max_cubes, max_inter_blocks);
    lemma_walk_accepted(
        adu.symbols(),
        adu.contexts(),
        num_channels,
        max_cubes,
        max_inter_blocks,
        adu.symbols().len() as int,
    );
}

/// Along a walk that finds every symbol in the alphabet of its context,
/// the model keeps its alphabets, follows the tracker, and accepts every
/// symbol.
proof fn lemma_walk_accepted(
    symbols: Seq<usize>,
    contexts: Seq<ContextKind>,
    num_channels: u8,
    max_cubes: u16,
    max_inter_blocks: u16,
    n: int,
)
    requires
        0 <= n <= symbols.len(),
        spec_walks(
            LayoutTracker::spec_new(spec_channel_count(num_channels), max_cubes, max_inter_blocks),
            symbols,
            contexts,
            spec_end(max_cubes, max_inter_blocks),
        ),
    ensures
        spec_accepted(
            CoderModel::spec_for_adu(num_channels, max_cubes, max_inter_blocks),
            symbols,
            n,
        ),
        spec_after(
            CoderModel::spec_for_adu(num_channels, max_cubes, max_inter_blocks),
            symbols,
            n,
        ).mode == (CoderMode::Layout {
            contexts: Contexts {
                d_context: 1,
                dt_context: 2,
                u8_general_context: 3,
                eof_context: 4,
            },
            tracker: spec_walk(
                LayoutTracker::spec_new(
                    spec_channel_count(num_channels),
                    max_cubes,
                    max_inter_blocks,
                ),
                symbols,
                n,
            ),
        }),
        spec_alphabets(
            spec_after(
                CoderModel::spec_for_adu(num_channels, max_cubes, max_inter_blocks),
                symbols,
                n,
            ),
        ),
    decreases n,
{
    let start = LayoutTracker::spec_new(
        spec_channel_count(num_channels),
        max_cubes,
        max_inter_blocks,
    );
    if n > 0 {
        lemma_walk_accepted(symbols, contexts, num_channels, max_cubes, max_inter_blocks, n - 1);
        let before = spec_after(
            CoderModel::spec_for_adu(num_channels, max_cubes, max_inter_blocks),
            symbols,
            n - 1,
        );
        assert(spec_walk(start, symbols, n - 1).spec_context() == contexts[n - 1]);
        assert(symbols[n - 1] < spec_context_symbols(contexts[n - 1]));
    }
}

/// The model holds the five contexts of an access unit with their
/// alphabets, and has selected the one that its tracker names.
pub open spec fn spec_alphabets(model: CoderModelView) -> bool {
    &&& model.counts.len() == 5
    &&& model.counts[1].len() == D_SYMBOLS + 1
    &&& model.counts[2].len() == DT_SYMBOLS + 1
    &&& model.counts[3].len() == U8_SYMBOLS + 1
    &&& model.counts[4].len() == 1
    &&& model.current_context == model.mode.spec_context()
}

} // verus!
