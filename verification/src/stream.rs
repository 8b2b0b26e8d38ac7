//! Compressed streams: access units that are coded and framed one behind
//! the other as events come in, and read back one by one as events are
//! asked for.

use crate::adu::Adu;
use crate::coder::{
    decode_symbols,
    encode_symbols,
    lemma_unit_accepted,
    spec_accepted,
    spec_arithmetic_decoding,
    spec_arithmetic_encoding,
    CoderModel,
};
use crate::tracker::spec_within;
use crate::event_adu::{
    lemma_coded_channel_readable,
    lemma_unit_events_match,
    spec_same_events,
    spec_unit_stored_events,
    lemma_events_of_view,
    spec_all_codable,
    spec_channel_of,
    spec_channels_events,
    spec_channels_readable,
    spec_empty_block,
    spec_pixel_of,
    EventAdu,
};
use crate::options::EncoderOptions;
use crate::framing::{
    lemma_read_frame,
    read_frame,
    spec_frame,
    spec_read_frame,
    write_frame,
    FrameAt,
};
use crate::layout::{lemma_adu_round_trip, spec_parse_adu};
use crate::types::{
    AbsoluteT,
    CodecError,
    CodecMetadata,
    DeltaT,
    Event,
    EventCoordless,
    Mode,
    PlaneSize,
};
use vstd::prelude::*;

verus! {

/// The bytes that open a file of compressed events.
pub const MAGIC_COMPRESSED: [u8; 5] = [97, 100, 100, 101, 99];

/// The number of tiles of 16x16 pixels that cover a plane, in one color
/// plane, as far as a 16-bit count holds it.
pub open spec fn spec_max_cubes(plane: PlaneSize) -> u16 {
    let tiles = ((plane.width + 15) / 16) * ((plane.height + 15) / 16);
    if tiles > u16::MAX {
        u16::MAX
    } else {
        tiles as u16
    }
}

/// The number of tiles of 16x16 pixels that cover a plane, in one color
/// plane, as far as a 16-bit count holds it.
pub fn max_cubes(plane: &PlaneSize) -> (r: u16)
    ensures
        r == spec_max_cubes(*plane),
{
    let w: u32 = (plane.width as u32 + 15) / 16;
    let h: u32 = (plane.height as u32 + 15) / 16;
    assert(w * h <= 4096 * 4096) by (nonlinear_arith)
        requires
            w <= 4096,
            h <= 4096,
    ;
    let tiles: u32 = w * h;
    if tiles > u16::MAX as u32 {
        u16::MAX
    } else {
        tiles as u16
    }
}

/// The largest number of inter blocks a cube holds in a stream whose
/// access units span `adu_interval` reference intervals: sixteen per
/// interval, at least sixteen, and one less than a 16-bit count at most.
pub open spec fn spec_max_inter_blocks(adu_interval: usize) -> u16 {
    if adu_interval <= 1 {
        16
    } else if adu_interval >= 4095 {
        (u16::MAX - 1) as u16
    } else {
        (adu_interval * 16) as u16
    }
}

/// The largest number of inter blocks a cube holds in a stream whose
/// access units span `adu_interval` reference intervals.
pub fn max_inter_blocks(adu_interval: usize) -> (r: u16)
    ensures
        r == spec_max_inter_blocks(adu_interval),
        r < u16::MAX,
{
    if adu_interval <= 1 {
        16
    } else if adu_interval >= 4095 {
        u16::MAX - 1
    } else {
        (adu_interval * 16) as u16
    }
}

/// The bytes of a coded access unit: its symbols, entropy coded with a
/// fresh model.
pub open spec fn spec_adu_payload(
    adu: &Adu,
    num_channels: u8,
    max_cubes: u16,
    max_inter_blocks: u16,
) -> Seq<u8> {
    spec_arithmetic_encoding(
        CoderModel::spec_for_adu(num_channels, max_cubes, max_inter_blocks),
        adu.view_with(num_channels).symbols(),
    )
}

/// The model of an access unit accepts every symbol of the unit.
pub open spec fn spec_adu_accepted(
    adu: &Adu,
    num_channels: u8,
    max_cubes: u16,
    max_inter_blocks: u16,
) -> bool {
    spec_accepted(
        CoderModel::spec_for_adu(num_channels, max_cubes, max_inter_blocks),
        adu.view_with(num_channels).symbols(),
        adu.view_with(num_channels).symbols().len() as int,
    )
}

/// Entropy codes an access unit with a fresh model: the unit depends on no
/// unit before it. Fails with `MalformedEncoder` exactly where the model
/// does not accept the unit; it accepts every unit whose channels announce
/// at most `max_cubes` cubes and whose cubes at most `max_inter_blocks`
/// inter blocks.
pub fn compress_adu(adu: &Adu, num_channels: u8, max_cubes: u16, max_inter_blocks: u16) -> (r:
    Result<Vec<u8>, CodecError>)
    requires
        adu.wf(),
    ensures
        r is Ok <==> spec_adu_accepted(adu, num_channels, max_cubes, max_inter_blocks),
        spec_within(adu.view_with(num_channels), max_cubes, max_inter_blocks) ==> r is Ok,
        r is Err ==> r == Err::<Vec<u8>, CodecError>(CodecError::MalformedEncoder),
        r matches Ok(bytes) ==> bytes@ == spec_adu_payload(
            adu,
            num_channels,
            max_cubes,
            max_inter_blocks,
        ),
{
    proof {
        if spec_within(adu.view_with(num_channels), max_cubes, max_inter_blocks) {
            adu.lemma_view_wf(num_channels);
            lemma_unit_accepted(adu.view_with(num_channels), num_channels, max_cubes, max_inter_blocks);
        }
    }
    let symbols = adu.to_symbols(num_channels);
    let model = CoderModel::for_adu(num_channels, max_cubes, max_inter_blocks);
    encode_symbols(model, symbols)
}

/// Entropy decodes an access unit with a fresh model and reads it from the
/// symbols. Symbols that spell no access unit are answered with
/// `Deserialize`.
pub fn decompress_adu(bytes: &Vec<u8>, num_channels: u8, max_cubes: u16, max_inter_blocks: u16) -> (r:
    Result<Adu, CodecError>)
    ensures
        match spec_parse_adu(
            spec_arithmetic_decoding(
                CoderModel::spec_for_adu(num_channels, max_cubes, max_inter_blocks),
                bytes@,
            ),
            if num_channels <= 1 {
                1int
            } else {
                3int
            },
        ) {
            Some(view) => r matches Ok(adu) && adu.wf() && adu.view_with(num_channels) == view && (
            num_channels <= 1 ==> adu.cubes_g.cubes@.len() == 0 && adu.cubes_b.cubes@.len() == 0),
            None => r == Err::<Adu, CodecError>(CodecError::Deserialize),
        },
{
    let model = CoderModel::for_adu(num_channels, max_cubes, max_inter_blocks);
    let symbols = match decode_symbols(model, bytes) {
        Ok(symbols) => symbols,
        Err(e) => {
            return Err(e);
        },
    };
    Adu::from_symbols(&symbols, num_channels)
}

/// Write compressed events to a byte stream.
pub struct CompressedOutput {
    pub meta: CodecMetadata,
    /// The events of the access unit that is being gathered.
    pub adu: EventAdu,
    /// The bytes written so far.
    pub stream: Vec<u8>,
    pub options: EncoderOptions,
}

impl CompressedOutput {
    /// The access unit that is being gathered follows the metadata.
    pub open spec fn wf(&self) -> bool {
        &&& self.adu.wf()
        &&& self.adu.plane == self.meta.plane
        &&& self.adu.dt_ref == self.meta.ref_interval
        &&& self.adu.dtm == self.meta.delta_t_max
        &&& self.adu.num_intervals == self.meta.adu_interval
        &&& self.adu.max_inter_blocks == spec_max_inter_blocks(self.meta.adu_interval)
    }

    /// The time at which the window of the current access unit ends.
    pub open spec fn spec_window_end(&self) -> int {
        self.adu.start_t + self.adu.dt_ref * self.adu.num_intervals
    }

    /// A stream without bytes, whose first access unit begins at time 0,
    /// with the default encoder settings for the plane.
    pub fn new(meta: CodecMetadata) -> (r: Self)
        ensures
            r.wf(),
            r.meta == meta,
            r.stream@.len() == 0,
            r.adu.cubes@.len() == 0,
            r.adu.num_events == 0,
            r.adu.start_t == 0,
            r.adu.mode == Mode::Continuous,
            r.options.wf(),
            r.options.plane == meta.plane,
            r.options.crf_quality == crate::options::DEFAULT_CRF_QUALITY,
    {
        let mut adu = EventAdu::new(meta.plane, 0, meta.ref_interval, meta.adu_interval);
        adu.max_inter_blocks = max_inter_blocks(meta.adu_interval);
        adu.dtm = meta.delta_t_max;
        CompressedOutput { meta, adu, stream: Vec::new(), options: EncoderOptions::default(meta.plane) }
    }

    /// Replaces the encoder settings.
    pub fn with_options(&mut self, options: EncoderOptions)
        ensures
            final(self).options == options,
            final(self).meta == old(self).meta,
            final(self).adu == old(self).adu,
            final(self).stream == old(self).stream,
    {
        self.options = options;
    }

    /// The bytes that open a file of compressed events.
    pub fn magic(&self) -> (r: [u8; 5])
        ensures
            r == MAGIC_COMPRESSED,
    {
        MAGIC_COMPRESSED
    }

    pub fn meta(&self) -> (r: &CodecMetadata)
        ensures
            *r == self.meta,
    {
        &self.meta
    }

    /// Appends bytes to the stream as they are.
    pub fn write_bytes(&mut self, bytes: &Vec<u8>)
        requires
            old(self).wf(),
        ensures
            final(self).wf(),
            final(self).meta == old(self).meta,
            final(self).adu == old(self).adu,
            final(self).stream@ == old(self).stream@ + bytes@,
    {
        let mut i: usize = 0;
        while i < bytes.len()
            invariant
                i <= bytes.len(),
                self.meta == old(self).meta,
                self.adu == old(self).adu,
                self.stream@ == old(self).stream@ + bytes@.subrange(0, i as int),
            decreases bytes.len() - i,
        {
            self.stream.push(bytes[i]);
            i += 1;
            assert(self.stream@ =~= old(self).stream@ + bytes@.subrange(0, i as int));
        }
        assert(bytes@.subrange(0, bytes.len() as int) =~= bytes@);
    }

    /// The bytes written so far; the stream is left without bytes.
    pub fn into_writer(&mut self) -> (r: Vec<u8>)
        ensures
            r@ == old(self).stream@,
            final(self).stream@.len() == 0,
            final(self).meta == old(self).meta,
            final(self).adu == old(self).adu,
    {
        let mut out: Vec<u8> = Vec::new();
        std::mem::swap(&mut out, &mut self.stream);
        out
    }

    /// The start of the window in which an event at `t` is gathered: that
    /// of the current window where it does not end before `t`; else the
    /// first one, counted on from there in steps of the window's length,
    /// that does not end before `t`.
    pub open spec fn spec_next_start(&self, t: AbsoluteT) -> int {
        let start = self.adu.start_t as int;
        let window = self.adu.dt_ref * self.adu.num_intervals;
        if t <= start + window {
            start
        } else if window == 0 {
            t as int
        } else {
            start + ((t - start - 1) / window) * window
        }
    }

    /// The unit that is being gathered holds nothing but `event`, under
    /// the time `t`.
    pub open spec fn spec_holds_only(&self, event: Event, t: int) -> bool {
        &&& self.adu.num_events == 1
        &&& self.adu.cubes.len() == 1
        &&& self.adu.cubes[0].idx_y == event.coord.y / 16
        &&& self.adu.cubes[0].idx_x == event.coord.x / 16
        &&& self.adu.cubes[0].channel == spec_channel_of(event.coord)
        &&& self.adu.cubes[0].blocks.len() == 1
        &&& self.adu.cubes[0].blocks[0]@ == spec_empty_block().update(
            spec_pixel_of(event.coord),
            Some(EventCoordless { d: event.d, delta_t: t as u32 }),
        )
    }

    /// The bytes written for the access unit that is being gathered.
    pub open spec fn spec_payload(&self) -> Seq<u8> {
        spec_arithmetic_encoding(
            CoderModel::spec_for_adu(
                self.meta.plane.channels,
                spec_max_cubes(self.meta.plane),
                self.adu.max_inter_blocks,
            ),
            self.adu.spec_coded_view(self.meta.plane.channels).symbols(),
        )
    }

    /// The access unit that is being gathered can be written: every cube
    /// can be coded, the model accepts every symbol, and the coded unit
    /// fits the length field of a frame.
    pub open spec fn spec_writable(&self) -> bool {
        &&& crate::event_adu::spec_all_codable(
            self.adu.cubes@,
            self.adu.mode,
            self.adu.dtm,
            self.adu.dt_ref,
            self.adu.cubes@.len() as int,
        )
        &&& spec_accepted(
            CoderModel::spec_for_adu(
                self.meta.plane.channels,
                spec_max_cubes(self.meta.plane),
                self.adu.max_inter_blocks,
            ),
            self.adu.spec_coded_view(self.meta.plane.channels).symbols(),
            self.adu.spec_coded_view(self.meta.plane.channels).symbols().len() as int,
        )
        &&& self.spec_payload().len() <= u32::MAX
    }

    /// Codes the access unit that was gathered, with or without events,
    /// writes it behind its length, and begins an access unit without
    /// events at `next_start`.
    ///
    /// Fails with `MalformedEncoder` exactly where the unit cannot be
    /// written; nothing is written then, and its events are dropped. A
    /// unit whose cubes can be coded, whose channels hold no more cubes and
    /// whose cubes no more inter blocks than the stream allows, and whose
    /// coded bytes fit the length field, is written.
    pub fn flush(&mut self, next_start: AbsoluteT) -> (r: Result<(), CodecError>)
        requires
            old(self).wf(),
        ensures
            final(self).wf(),
            final(self).meta == old(self).meta,
            final(self).adu.cubes@.len() == 0,
            final(self).adu.num_events == 0,
            final(self).adu.start_t == next_start,
            final(self).adu.mode == old(self).adu.mode,
            final(self).adu.dtm == old(self).adu.dtm,
            final(self).adu.decoded@ == old(self).adu.decoded@,
            final(self).adu.next_decoded == old(self).adu.next_decoded,
            r is Ok <==> old(self).spec_writable(),
            r is Ok ==> final(self).stream@ == old(self).stream@ + spec_frame(
                old(self).spec_payload(),
            ),
            r is Err ==> r == Err::<(), CodecError>(CodecError::MalformedEncoder)
                && final(self).stream@ == old(self).stream@,
            crate::event_adu::spec_all_codable(
                old(self).adu.cubes@,
                old(self).adu.mode,
                old(self).adu.dtm,
                old(self).adu.dt_ref,
                old(self).adu.cubes@.len() as int,
            ) && spec_within(
                old(self).adu.spec_coded_view(old(self).meta.plane.channels),
                spec_max_cubes(old(self).meta.plane),
                old(self).adu.max_inter_blocks,
            ) && old(self).spec_payload().len() <= u32::MAX ==> r is Ok,
    {
        let coded = self.adu.compress();
        let channels: u8 = self.meta.plane.channels;
        let cubes: u16 = max_cubes(&self.meta.plane);
        let blocks: u16 = self.adu.max_inter_blocks;
        self.adu.reset(next_start);
        let adu = match coded {
            Ok(adu) => adu,
            Err(_) => {
                return Err(CodecError::MalformedEncoder);
            },
        };
        let payload = match compress_adu(&adu, channels, cubes, blocks) {
            Ok(payload) => payload,
            Err(e) => {
                return Err(e);
            },
        };
        write_frame(&payload, &mut self.stream)
    }

    /// Takes in an event. An event outside the plane is refused. An event
    /// within the window of the current access unit is stored in it and
    /// nothing is written; where the unit cannot store it, the event is
    /// refused and the unit stays as it was. An event behind the window has
    /// the unit coded and written, with or without events, and is then
    /// stored in a fresh unit: one whose window holds the event. Where the
    /// times are aligned to a frame interval of zero, no unit stores an
    /// event.
    pub fn ingest_event(&mut self, event: Event) -> (r: Result<(), CodecError>)
        requires
            old(self).wf(),
        ensures
            final(self).wf(),
            final(self).meta == old(self).meta,
            final(self).adu.mode == old(self).adu.mode,
            final(self).adu.dtm == old(self).adu.dtm,
            r is Err ==> r == Err::<(), CodecError>(CodecError::MalformedEncoder),
            !old(self).adu.spec_accepts(event.coord) ==> r is Err && final(self).stream@ == old(self).stream@ && final(self).adu == old(self).adu,
            old(self).adu.spec_accepts(event.coord) ==> final(self).adu.start_t == old(self).spec_next_start(event.t),
            old(self).adu.spec_accepts(event.coord) && event.t <= old(self).spec_window_end() ==> {
                &&& final(self).stream@ == old(self).stream@
                &&& r is Ok <==> old(self).adu.spec_can_store(event)
                &&& r is Ok ==> old(self).adu.spec_ingested(&final(self).adu, event)
                &&& r is Err ==> final(self).adu.cubes@ == old(self).adu.cubes@ && final(self).adu.num_events == old(self).adu.num_events
            },
            old(self).adu.spec_accepts(event.coord) && event.t > old(self).spec_window_end() ==> {
                &&& r is Ok <==> old(self).spec_writable() && !(old(self).adu.mode
                    == Mode::FramePerfect && old(self).adu.dt_ref == 0)
                &&& old(self).spec_writable() ==> final(self).stream@ == old(self).stream@
                    + spec_frame(old(self).spec_payload())
                &&& !old(self).spec_writable() ==> final(self).stream@ == old(self).stream@
                &&& if old(self).adu.mode == Mode::FramePerfect && old(self).adu.dt_ref == 0 {
                    final(self).adu.num_events == 0 && final(self).adu.cubes@.len() == 0
                } else {
                    final(self).spec_holds_only(
                        event,
                        if event.t < old(self).spec_next_start(event.t) {
                            old(self).spec_next_start(event.t)
                        } else {
                            event.t as int
                        },
                    )
                }
            },
    {
        if !self.adu.accepts(&event.coord) {
            return Err(CodecError::MalformedEncoder);
        }
        assert(self.adu.dt_ref * self.adu.num_intervals <= 0xffff_ffff
            * 0xffff_ffff_ffff_ffff) by (nonlinear_arith)
            requires
                self.adu.dt_ref <= 0xffff_ffff,
                self.adu.num_intervals <= 0xffff_ffff_ffff_ffff,
        ;
        let window: u128 = self.adu.dt_ref as u128 * self.adu.num_intervals as u128;
        let end: u128 = self.adu.start_t as u128 + window;
        let start: AbsoluteT = self.adu.start_t;
        if (event.t as u128) <= end {
            if self.adu.ingest_event(event) {
                return Ok(());
            }
            return Err(CodecError::MalformedEncoder);
        }
        let next: AbsoluteT = if window == 0 {
            event.t
        } else {
            let gap: u128 = event.t as u128 - start as u128 - 1;
            let steps: u128 = gap / window;
            assert(steps * window <= gap) by (nonlinear_arith)
                requires
                    steps == gap / window,
                    window > 0,
                    gap >= 0,
            ;
            (start as u128 + steps * window) as AbsoluteT
        };
        let flushed = self.flush(next);
        let stored = self.adu.ingest_event(event);
        match flushed {
            Ok(()) => if stored {
                Ok(())
            } else {
                Err(CodecError::MalformedEncoder)
            },
            Err(e) => Err(e),
        }
    }
}

/// Read compressed events from a byte stream.
pub struct CompressedInput {
    pub meta: CodecMetadata,
    /// The events of the access unit that was read last.
    pub adu: Option<EventAdu>,
}

impl CompressedInput {
    pub open spec fn wf(&self) -> bool {
        self.adu matches Some(adu) ==> adu.wf()
    }

    /// A reader of a stream with the given tick bound, reference interval
    /// and number of reference intervals per access unit. The plane is a
    /// single pixel until the metadata is set.
    pub fn new(delta_t_max: DeltaT, ref_interval: DeltaT, adu_interval: usize) -> (r: Self)
        ensures
            r.wf(),
            r.adu is None,
            r.meta.delta_t_max == delta_t_max,
            r.meta.ref_interval == ref_interval,
            r.meta.adu_interval == adu_interval,
            r.meta.codec_version == 0,
            r.meta.header_size == 0,
            r.meta.tps == 0,
            r.meta.event_size == 0,
            r.meta.plane == (PlaneSize { width: 1, height: 1, channels: 1 }),
            r.meta.time_mode == crate::types::TimeMode::DeltaT,
            r.meta.source_camera == crate::types::SourceCamera::FramedU8,
    {
        CompressedInput {
            meta: CodecMetadata {
                codec_version: 0,
                header_size: 0,
                time_mode: crate::types::TimeMode::DeltaT,
                plane: PlaneSize { width: 1, height: 1, channels: 1 },
                tps: 0,
                ref_interval,
                delta_t_max,
                event_size: 0,
                source_camera: crate::types::SourceCamera::FramedU8,
                adu_interval,
            },
            adu: None,
        }
    }

    /// The bytes that open a file of compressed events.
    pub fn magic(&self) -> (r: [u8; 5])
        ensures
            r == MAGIC_COMPRESSED,
    {
        MAGIC_COMPRESSED
    }

    pub fn meta(&self) -> (r: &CodecMetadata)
        ensures
            *r == self.meta,
    {
        &self.meta
    }

    /// Whether a byte offset lies on an event boundary: a whole number of
    /// events behind the header (or before its end).
    pub open spec fn spec_seekable(&self, pos: u64) -> bool {
        let behind = if pos < self.meta.header_size {
            0
        } else {
            pos - self.meta.header_size
        };
        behind % self.meta.event_size as int == 0
    }

    /// Tells whether the stream may be positioned at a byte offset: `Seek`
    /// where the offset does not lie on an event boundary.
    pub fn check_seek_position(&self, pos: u64) -> (r: Result<(), CodecError>)
        requires
            self.meta.event_size > 0,
        ensures
            self.spec_seekable(pos) ==> r is Ok,
            !self.spec_seekable(pos) ==> r == Err::<(), CodecError>(CodecError::Seek),
    {
        let header: u64 = self.meta.header_size as u64;
        let behind: u64 = if pos < header {
            0
        } else {
            pos - header
        };
        if behind % (self.meta.event_size as u64) != 0 {
            Err(CodecError::Seek)
        } else {
            Ok(())
        }
    }

    /// How the source of the stream aligns its event times: as the access
    /// unit that was read last was told, and continuous before any was
    /// read.
    pub open spec fn spec_mode(&self) -> Mode {
        match self.adu {
            Some(adu) => adu.mode,
            None => Mode::Continuous,
        }
    }

    /// Whether an event of the access unit that was read last is still to
    /// be handed out.
    pub open spec fn spec_has_buffered(&self) -> bool {
        self.adu is Some && self.adu->0.next_decoded < self.adu->0.decoded.len()
    }

    /// What reading on from `pos` finds, for a stream of the metadata and
    /// mode of this reader.
    pub open spec fn spec_digest(&self, stream: Seq<u8>, pos: int) -> Digest {
        spec_digest(
            stream,
            pos,
            self.meta.plane.channels,
            spec_max_cubes(self.meta.plane),
            spec_max_inter_blocks(self.meta.adu_interval),
            self.spec_mode(),
            self.meta.delta_t_max,
            self.meta.ref_interval,
        )
    }

    /// Hands out the next event of the stream. Where an event of the access
    /// unit that was read last is left, it is that one. Else access units
    /// are read from `position` on until one holds an event; `position`
    /// moves behind it, and its first event is handed out. A stream that
    /// ends where an access unit could begin is answered with `Eof`, one
    /// that ends inside an access unit or holds one that cannot be read,
    /// with `Deserialize`.
    pub fn digest_event(&mut self, stream: &Vec<u8>, position: &mut usize) -> (r: Result<
        Event,
        CodecError,
    >)
        requires
            old(self).wf(),
        ensures
            final(self).wf(),
            final(self).meta == old(self).meta,
            final(self).spec_mode() == old(self).spec_mode(),
            old(self).spec_has_buffered() ==> r == Ok::<Event, CodecError>(
                old(self).adu->0.decoded[old(self).adu->0.next_decoded as int],
            ) && *final(position) == *old(position) && final(self).adu is Some && final(self).adu->0.decoded@ == old(self).adu->0.decoded@ && final(self).adu->0.next_decoded
                == old(self).adu->0.next_decoded + 1,
            !old(self).spec_has_buffered() ==> (match old(self).spec_digest(
                stream@,
                *old(position) as int,
            ) {
                Digest::Event { event, position: behind, queue } => r == Ok::<Event, CodecError>(
                    event,
                ) && *final(position) == behind && final(self).adu is Some && final(self).adu->0.decoded@ == queue && final(self).adu->0.next_decoded == 1,
                Digest::Fails { error } => r == Err::<Event, CodecError>(error),
            }),
    {
        let mut adu: EventAdu = match self.adu.take() {
            Some(adu) => adu,
            None => EventAdu::new(self.meta.plane, 0, self.meta.ref_interval, self.meta.adu_interval),
        };
        match adu.digest_event() {
            Ok(event) => {
                self.adu = Some(adu);
                return Ok(event);
            },
            Err(_) => {},
        }
        adu.plane = self.meta.plane;
        adu.dt_ref = self.meta.ref_interval;
        adu.num_intervals = self.meta.adu_interval;
        adu.dtm = self.meta.delta_t_max;
        adu.max_inter_blocks = max_inter_blocks(self.meta.adu_interval);
        let cubes: u16 = max_cubes(&self.meta.plane);
        let ghost mode = adu.mode;
        let ghost want = old(self).spec_digest(stream@, *old(position) as int);
        loop
            invariant
                !old(self).spec_has_buffered(),
                want == old(self).spec_digest(stream@, *old(position) as int),
                adu.wf(),
                adu.mode == mode,
                mode == old(self).spec_mode(),
                adu.plane == self.meta.plane,
                adu.dt_ref == self.meta.ref_interval,
                adu.dtm == self.meta.delta_t_max,
                adu.max_inter_blocks == spec_max_inter_blocks(self.meta.adu_interval),
                cubes == spec_max_cubes(self.meta.plane),
                self.meta == old(self).meta,
                self.adu is None,
                want == spec_digest(
                    stream@,
                    *position as int,
                    self.meta.plane.channels,
                    cubes,
                    adu.max_inter_blocks,
                    mode,
                    self.meta.delta_t_max,
                    self.meta.ref_interval,
                ),
            decreases stream.len() - *position,
        {
            let next = match read_unit(&mut adu, stream, *position, cubes) {
                Ok(next) => next,
                Err(e) => {
                    self.adu = Some(adu);
                    return Err(e);
                },
            };
            *position = next;
            match adu.digest_event() {
                Ok(event) => {
                    self.adu = Some(adu);
                    return Ok(event);
                },
                Err(_) => {},
            }
        }
    }
}

/// What reading the access unit at `pos` finds.
pub enum UnitAt {
    /// An access unit: its events in the order they are handed out, and the
    /// position behind it.
    Unit { queue: Seq<Event>, position: int },
    /// No access unit.
    Fails { error: CodecError },
}

/// What reading the access unit at `pos` finds: its events, `Eof` where
/// the stream ends at `pos`, `Deserialize` where it ends inside the unit or
/// the unit cannot be read.
pub open spec fn spec_unit_at(
    stream: Seq<u8>,
    pos: int,
    colors: u8,
    cubes: u16,
    blocks: u16,
    mode: Mode,
    dtm: DeltaT,
    dt_ref: DeltaT,
) -> UnitAt {
    match spec_read_frame(stream, pos) {
        FrameAt::End => UnitAt::Fails { error: CodecError::Eof },
        FrameAt::Truncated => UnitAt::Fails { error: CodecError::Deserialize },
        FrameAt::Frame(payload, next) => match spec_parse_adu(
            spec_arithmetic_decoding(CoderModel::spec_for_adu(colors, cubes, blocks), payload),
            if colors <= 1 {
                1int
            } else {
                3int
            },
        ) {
            None => UnitAt::Fails { error: CodecError::Deserialize },
            Some(view) => if !spec_channels_readable(
                view.channels,
                mode,
                dtm,
                dt_ref,
                view.channels.len() as int,
            ) {
                UnitAt::Fails { error: CodecError::Deserialize }
            } else {
                UnitAt::Unit {
                    queue: spec_channels_events(
                        view.channels,
                        colors,
                        mode,
                        dtm,
                        dt_ref,
                        view.channels.len() as int,
                    ),
                    position: next,
                }
            },
        },
    }
}

/// Reads the access unit that begins at `pos` into `adu`: its events are
/// those handed out next. Returns the position behind the unit.
pub fn read_unit(adu: &mut EventAdu, stream: &Vec<u8>, pos: usize, cubes: u16) -> (r: Result<
    usize,
    CodecError,
>)
    requires
        old(adu).wf(),
    ensures
        final(adu).wf(),
        final(adu).plane == old(adu).plane,
        final(adu).dt_ref == old(adu).dt_ref,
        final(adu).num_intervals == old(adu).num_intervals,
        final(adu).mode == old(adu).mode,
        final(adu).dtm == old(adu).dtm,
        final(adu).max_inter_blocks == old(adu).max_inter_blocks,
        final(adu).cubes@ == old(adu).cubes@,
        final(adu).num_events == old(adu).num_events,
        (match spec_unit_at(
            stream@,
            pos as int,
            old(adu).plane.channels,
            cubes,
            old(adu).max_inter_blocks,
            old(adu).mode,
            old(adu).dtm,
            old(adu).dt_ref,
        ) {
            UnitAt::Unit { queue, position } => r == Ok::<usize, CodecError>(position as usize)
                && pos < position <= stream.len() && final(adu).decoded@ == queue && final(adu).next_decoded == 0,
            UnitAt::Fails { error } => r == Err::<usize, CodecError>(error),
        }),
{
    let channels: u8 = adu.plane.channels;
    let (payload, next) = match read_frame(stream, pos) {
        Ok(frame) => frame,
        Err(e) => {
            return Err(e);
        },
    };
    let coded = match decompress_adu(&payload, channels, cubes, adu.max_inter_blocks) {
        Ok(coded) => coded,
        Err(e) => {
            return Err(e);
        },
    };
    adu.start_t = coded.head_event_t;
    proof {
        lemma_events_of_view(*adu, coded, channels);
    }
    match adu.decompress(&coded) {
        Ok(()) => Ok(next),
        Err(e) => Err(e),
    }
}

/// What reading a stream from a position on finds.
pub enum Digest {
    /// An access unit with events begins at the position or behind access
    /// units without events: its first event, the position behind it, and
    /// all its events in the order they are handed out.
    Event { event: Event, position: int, queue: Seq<Event> },
    /// No event can be handed out.
    Fails { error: CodecError },
}

/// What reading a stream from `pos` on finds: the first event of the first
/// access unit that holds one, or the failure that reading an access unit
/// before it meets.
pub open spec fn spec_digest(
    stream: Seq<u8>,
    pos: int,
    colors: u8,
    cubes: u16,
    blocks: u16,
    mode: Mode,
    dtm: DeltaT,
    dt_ref: DeltaT,
) -> Digest
    decreases stream.len() - pos,
{
    match spec_unit_at(stream, pos, colors, cubes, blocks, mode, dtm, dt_ref) {
        UnitAt::Fails { error } => Digest::Fails { error },
        UnitAt::Unit { queue, position } => if queue.len() > 0 {
            Digest::Event { event: queue[0], position, queue }
        } else if pos < position <= stream.len() {
            spec_digest(stream, position, colors, cubes, blocks, mode, dtm, dt_ref)
        } else {
            Digest::Fails { error: CodecError::Deserialize }
        },
    }
}

/// An access unit is read from its own bytes alone: wherever its frame
/// stands in a stream, behind access units of the same session or of
/// another, the events found there are those found in the frame by itself,
/// and the position behind it is that much further on.
pub proof fn lemma_unit_stands_alone(
    stream: Seq<u8>,
    pos: int,
    payload: Seq<u8>,
    colors: u8,
    cubes: u16,
    blocks: u16,
    mode: Mode,
    dtm: DeltaT,
    dt_ref: DeltaT,
)
    requires
        0 <= pos,
        payload.len() <= u32::MAX,
        pos + spec_frame(payload).len() <= stream.len(),
        stream.subrange(pos, pos + spec_frame(payload).len()) == spec_frame(payload),
    ensures
        spec_unit_at(stream, pos, colors, cubes, blocks, mode, dtm, dt_ref) == (match spec_unit_at(
            spec_frame(payload),
            0,
            colors,
            cubes,
            blocks,
            mode,
            dtm,
            dt_ref,
        ) {
            UnitAt::Unit { queue, position } => UnitAt::Unit { queue, position: pos + position },
            UnitAt::Fails { error } => UnitAt::Fails { error },
        }),
{
    let frame = spec_frame(payload);
    lemma_read_frame(stream, pos, payload);
    assert(frame.subrange(0, frame.len() as int) =~= frame);
    lemma_read_frame(frame, 0, payload);
}

/// From the events of a unit to the events a reader hands out, through
/// every layer: where the entropy decoder gives back the symbols that the
/// entropy coder was given for a unit, the frame that `flush` writes for
/// the unit is read as an access unit whose events are those that a
/// decoder finds in the coded cubes, color plane by color plane, and the
/// reader stands behind the frame. Those events are the events that the
/// unit holds, in the same order, at the same pixels and with the same
/// decimations: every pixel has as many of them as it had in the unit.
pub proof fn lemma_stream_round_trip(unit: EventAdu, adu: Adu, colors: u8, cubes: u16)
    requires
        unit.wf(),
        spec_all_codable(unit.cubes@, unit.mode, unit.dtm, unit.dt_ref, unit.cubes.len() as int),
        adu.wf(),
        adu.view_with(colors) == unit.spec_coded_view(colors),
        spec_adu_payload(&adu, colors, cubes, unit.max_inter_blocks).len() <= u32::MAX,
        spec_arithmetic_decoding(
            CoderModel::spec_for_adu(colors, cubes, unit.max_inter_blocks),
            spec_adu_payload(&adu, colors, cubes, unit.max_inter_blocks),
        ) == adu.view_with(colors).symbols(),
    ensures
        spec_unit_at(
            spec_frame(spec_adu_payload(&adu, colors, cubes, unit.max_inter_blocks)),
            0,
            colors,
            cubes,
            unit.max_inter_blocks,
            unit.mode,
            unit.dtm,
            unit.dt_ref,
        ) == (UnitAt::Unit {
            queue: spec_channels_events(
                unit.spec_coded_view(colors).channels,
                colors,
                unit.mode,
                unit.dtm,
                unit.dt_ref,
                unit.spec_coded_view(colors).channels.len() as int,
            ),
            position: 4 + spec_adu_payload(&adu, colors, cubes, unit.max_inter_blocks).len() as int,
        }),
        spec_same_events(
            spec_channels_events(
                unit.spec_coded_view(colors).channels,
                colors,
                unit.mode,
                unit.dtm,
                unit.dt_ref,
                unit.spec_coded_view(colors).channels.len() as int,
            ),
            spec_unit_stored_events(unit.cubes@, colors),
        ),
{
    lemma_unit_events_match(unit, colors);
    let payload = spec_adu_payload(&adu, colors, cubes, unit.max_inter_blocks);
    let frame = spec_frame(payload);
    let view = unit.spec_coded_view(colors);
    let n = unit.cubes.len() as int;
    assert(frame.subrange(0, frame.len() as int) =~= frame);
    lemma_read_frame(frame, 0, payload);
    adu.lemma_view_wf(colors);
    lemma_adu_round_trip(view);
    lemma_coded_channel_readable(unit.cubes@, 0, unit.mode, unit.dtm, unit.dt_ref, n);
    lemma_coded_channel_readable(unit.cubes@, 1, unit.mode, unit.dtm, unit.dt_ref, n);
    lemma_coded_channel_readable(unit.cubes@, 2, unit.mode, unit.dtm, unit.dt_ref, n);
    assert(spec_channels_readable(
        view.channels,
        unit.mode,
        unit.dtm,
        unit.dt_ref,
        view.channels.len() as int,
    )) by {
        reveal_with_fuel(spec_channels_readable, 4);
    }
}

/// What reading a unit finds, with the position behind it moved on by
/// `by`.
pub open spec fn spec_unit_moved(unit: UnitAt, by: int) -> UnitAt {
    match unit {
        UnitAt::Unit { queue, position } => UnitAt::Unit { queue, position: position + by },
        UnitAt::Fails { error } => UnitAt::Fails { error },
    }
}

/// What reading a stream finds, with the position behind the unit moved on
/// by `by`.
pub open spec fn spec_digest_moved(digest: Digest, by: int) -> Digest {
    match digest {
        Digest::Event { event, position, queue } => Digest::Event {
            event,
            position: position + by,
            queue,
        },
        Digest::Fails { error } => Digest::Fails { error },
    }
}

/// A unit of a stream that stands behind another stream is read as it is
/// read in its own stream.
pub proof fn lemma_unit_joined(
    a: Seq<u8>,
    b: Seq<u8>,
    pos: int,
    colors: u8,
    cubes: u16,
    blocks: u16,
    mode: Mode,
    dtm: DeltaT,
    dt_ref: DeltaT,
)
    requires
        0 <= pos,
    ensures
        spec_unit_at(a + b, a.len() + pos, colors, cubes, blocks, mode, dtm, dt_ref)
            == spec_unit_moved(
            spec_unit_at(b, pos, colors, cubes, blocks, mode, dtm, dt_ref),
            a.len() as int,
        ),
{
    let s = a + b;
    let at = a.len() + pos;
    if pos + 4 <= b.len() {
        assert(s[at] == b[pos]);
        assert(s[at + 1] == b[pos + 1]);
        assert(s[at + 2] == b[pos + 2]);
        assert(s[at + 3] == b[pos + 3]);
        let n = crate::framing::spec_be_value(b[pos], b[pos + 1], b[pos + 2], b[pos + 3]);
        if pos + 4 + n <= b.len() {
            assert(s.subrange(at + 4, at + 4 + n) =~= b.subrange(pos + 4, pos + 4 + n));
        }
    }
}

/// A stream that stands behind another is read as it is read alone: from
/// the place where it begins, a reader of the joined streams finds the
/// event, the failure or the end that a reader of the second stream finds,
/// every position further on by the length of the first. So the units of
/// separate sessions, put one behind the other, are read as those
/// sessions' units in turn.
pub proof fn lemma_digest_joined(
    a: Seq<u8>,
    b: Seq<u8>,
    pos: int,
    colors: u8,
    cubes: u16,
    blocks: u16,
    mode: Mode,
    dtm: DeltaT,
    dt_ref: DeltaT,
)
    requires
        0 <= pos,
    ensures
        spec_digest(a + b, a.len() + pos, colors, cubes, blocks, mode, dtm, dt_ref)
            == spec_digest_moved(
            spec_digest(b, pos, colors, cubes, blocks, mode, dtm, dt_ref),
            a.len() as int,
        ),
    decreases b.len() - pos,
{
    lemma_unit_joined(a, b, pos, colors, cubes, blocks, mode, dtm, dt_ref);
    match spec_unit_at(b, pos, colors, cubes, blocks, mode, dtm, dt_ref) {
        UnitAt::Unit { queue, position } => {
            if queue.len() == 0 && pos < position <= b.len() {
                lemma_digest_joined(a, b, position, colors, cubes, blocks, mode, dtm, dt_ref);
            }
        },
        UnitAt::Fails { error } => {},
    }
}

} // verus!
