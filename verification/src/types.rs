//! Value types shared by every layer of the codec: events, plane geometry,
//! stream metadata and the error kinds surfaced at the codec boundary.

use vstd::prelude::*;

verus! {

/// Decimation value; a pixel's log2-scale sensitivity.
pub type D = u8;

/// Number of ticks elapsed since a pixel last fired.
pub type DeltaT = u32;

/// Absolute tick timestamp.
pub type AbsoluteT = u32;

/// Pixel x- or y-coordinate.
pub type PixelAddress = u16;

/// Largest decimation a pixel may reach.
pub const D_MAX: D = 127;

/// Decimation tag of an event that was forced out of a pixel whose
/// integration was zero.
pub const D_ZERO_INTEGRATION: D = 254;

/// Decimation tag of an event that carries elapsed time only.
pub const D_EMPTY: D = 255;

/// Version written into new stream headers.
pub const LATEST_CODEC_VERSION: u8 = 2;

/// How a source integrates intensity across its reference intervals.
#[derive(Clone, Copy, Debug, PartialEq, Eq, Structural)]
pub enum Mode {
    /// Event times are aligned to reference-interval boundaries and the
    /// intensity left over at a threshold crossing is dropped.
    FramePerfect,
    /// Intensity left over at a threshold crossing is carried into the next
    /// node.
    Continuous,
}

/// How the `t` field of an event is to be read.
#[derive(Clone, Copy, Debug, PartialEq, Eq, Structural)]
pub enum TimeMode {
    /// Ticks since the pixel's previous event.
    DeltaT,
    /// Absolute tick timestamp.
    AbsoluteT,
    /// Treated as [`TimeMode::AbsoluteT`] by the codec core.
    Mixed,
}

impl Default for TimeMode {
    fn default() -> (r: Self)
        ensures
            r == TimeMode::DeltaT,
    {
        TimeMode::DeltaT
    }
}

/// The kind of camera a stream was captured from.
#[derive(Clone, Copy, Debug, PartialEq, Eq, Structural)]
pub enum SourceCamera {
    FramedU8,
    FramedU16,
    FramedU32,
    FramedU64,
    FramedF32,
    FramedF64,
    Dvs,
    DavisU8,
    Atis,
    Asint,
}

impl Default for SourceCamera {
    fn default() -> (r: Self)
        ensures
            r == SourceCamera::FramedU8,
    {
        SourceCamera::FramedU8
    }
}

/// Spatial address of a pixel, with its color channel where the plane has
/// more than one.
#[derive(Clone, Copy, Debug, PartialEq, Eq, Structural)]
pub struct Coord {
    pub x: PixelAddress,
    pub y: PixelAddress,
    pub c: Option<u8>,
}

/// One event: a pixel accumulated `2^d` intensity-ticks by time `t`.
#[derive(Clone, Copy, Debug, PartialEq, Eq, Structural)]
pub struct Event {
    pub coord: Coord,
    pub d: D,
    pub t: AbsoluteT,
}

/// The content of an event that per-pixel memory retains.
#[derive(Clone, Copy, Debug, PartialEq, Eq, Structural)]
pub struct EventCoordless {
    pub d: D,
    pub delta_t: DeltaT,
}

impl EventCoordless {
    /// The time field, whichever way the stream's time mode reads it.
    pub fn t(&self) -> (r: AbsoluteT)
        ensures
            r == self.delta_t,
    {
        self.delta_t
    }
}

impl Default for EventCoordless {
    fn default() -> (r: Self)
        ensures
            r == (EventCoordless { d: 0, delta_t: 0 }),
    {
        EventCoordless { d: 0, delta_t: 0 }
    }
}

/// A plane was described with a dimension of zero.
#[derive(Clone, Copy, Debug, PartialEq, Eq, Structural)]
pub struct PlaneError {
    pub width: u16,
    pub height: u16,
    pub channels: u8,
}

/// Width, height and channel count of the pixel plane.
#[derive(Clone, Copy, Debug, PartialEq, Eq, Structural)]
pub struct PlaneSize {
    pub width: u16,
    pub height: u16,
    pub channels: u8,
}

impl PlaneSize {
    /// A plane of the given size; every dimension has to be at least 1.
    pub fn new(width: u16, height: u16, channels: u8) -> (r: Result<PlaneSize, PlaneError>)
        ensures
            width > 0 && height > 0 && channels > 0 ==> r == Ok::<PlaneSize, PlaneError>(
                PlaneSize { width, height, channels },
            ),
            width == 0 || height == 0 || channels == 0 ==> r == Err::<PlaneSize, PlaneError>(
                PlaneError { width, height, channels },
            ),
    {
        if width == 0 || height == 0 || channels == 0 {
            Err(PlaneError { width, height, channels })
        } else {
            Ok(PlaneSize { width, height, channels })
        }
    }

    pub fn w(&self) -> (r: u16)
        ensures
            r == self.width,
    {
        self.width
    }

    pub fn h(&self) -> (r: u16)
        ensures
            r == self.height,
    {
        self.height
    }

    pub fn c(&self) -> (r: u8)
        ensures
            r == self.channels,
    {
        self.channels
    }

    /// Number of pixels in one channel.
    pub fn area_wh(&self) -> (r: usize)
        ensures
            r == self.width * self.height,
    {
        assert(self.width * self.height <= 0xffff * 0xffff) by (nonlinear_arith)
            requires
                self.width <= 0xffff,
                self.height <= 0xffff,
        ;
        let a: u32 = self.width as u32 * self.height as u32;
        a as usize
    }
}

impl Default for PlaneSize {
    fn default() -> (r: Self)
        ensures
            r == (PlaneSize { width: 1, height: 1, channels: 1 }),
    {
        PlaneSize { width: 1, height: 1, channels: 1 }
    }
}

/// The metadata which stays the same over the course of a stream.
#[derive(Clone, Copy, Debug, PartialEq, Eq, Structural)]
pub struct CodecMetadata {
    pub codec_version: u8,
    pub header_size: usize,
    pub time_mode: TimeMode,
    pub plane: PlaneSize,
    pub tps: DeltaT,
    pub ref_interval: DeltaT,
    pub delta_t_max: DeltaT,
    pub event_size: u8,
    pub source_camera: SourceCamera,
    pub adu_interval: usize,
}

impl Default for CodecMetadata {
    fn default() -> (r: Self)
        ensures
            r == (CodecMetadata {
                codec_version: LATEST_CODEC_VERSION,
                header_size: 24,
                time_mode: TimeMode::DeltaT,
                plane: PlaneSize { width: 1, height: 1, channels: 1 },
                tps: 2550,
                ref_interval: 255,
                delta_t_max: 255,
                event_size: 9,
                source_camera: SourceCamera::FramedU8,
                adu_interval: 1,
            }),
    {
        CodecMetadata {
            codec_version: LATEST_CODEC_VERSION,
            header_size: 24,
            time_mode: TimeMode::DeltaT,
            plane: PlaneSize { width: 1, height: 1, channels: 1 },
            tps: 2550,
            ref_interval: 255,
            delta_t_max: 255,
            event_size: 9,
            source_camera: SourceCamera::FramedU8,
            adu_interval: 1,
        }
    }
}

/// The failures a codec operation can report.
#[derive(Clone, Copy, Debug, PartialEq, Eq, Structural)]
pub enum CodecError {
    /// An operation was attempted before the stream was set up.
    UninitializedStream,
    /// The stream ended where an access unit could have begun.
    Eof,
    /// The stream ended, or held impossible values, inside an access unit.
    Deserialize,
    /// The file is not formatted as a stream of this codec.
    BadFile,
    /// The file holds the other (raw or compressed) representation.
    WrongMagic,
    /// A seek target does not fall on an event boundary.
    Seek,
    /// The stream was written by a later codec version.
    UnsupportedVersion(u8),
    /// The encoder was handed values it cannot represent.
    MalformedEncoder,
    /// The byte sink or source under the entropy coder failed.
    IoError,
    /// The plane description is invalid.
    PlaneError(PlaneError),
    /// The event queue of the current access unit is drained.
    NoMoreEvents,
}

/// `2^d`, the integration threshold a decimation `d` stands for.
pub open spec fn spec_d_shift(d: D) -> nat {
    vstd::arithmetic::power2::pow2(d as nat)
}

/// The integration threshold `2^d` of a decimation `d <= D_MAX`.
pub fn d_shift(d: D) -> (r: u128)
    requires
        d <= D_MAX,
    ensures
        r == spec_d_shift(d),
{
    let mut r: u128 = 1;
    let mut i: u8 = 0;
    proof {
        vstd::arithmetic::power2::lemma2_to64();
    }
    while i < d
        invariant
            i <= d <= D_MAX,
            r == vstd::arithmetic::power2::pow2(i as nat),
        decreases d - i,
    {
        proof {
            vstd::arithmetic::power2::lemma_pow2_unfold((i + 1) as nat);
            if i + 1 < 127 {
                vstd::arithmetic::power2::lemma_pow2_strictly_increases((i + 1) as nat, 127);
            }
            vstd::arithmetic::power2::lemma2_to64_rest();
            vstd::arithmetic::power2::lemma_pow2_adds(64, 63);
            assert(vstd::arithmetic::power2::pow2(127) == 0x10000000000000000 * 0x8000000000000000);
        }
        r = r * 2;
        i = i + 1;
    }
    r
}

/// `t` rounded up to the next multiple of `interval`.
pub open spec fn spec_round_up(t: int, interval: int) -> int {
    if t % interval == 0 {
        t
    } else {
        (t / interval + 1) * interval
    }
}

/// The rounded time is the least multiple of `interval` that is not below
/// `t`.
pub proof fn lemma_round_up(t: int, interval: int)
    requires
        0 <= t,
        0 < interval,
    ensures
        spec_round_up(t, interval) % interval == 0,
        t <= spec_round_up(t, interval) < t + interval,
        forall|m: int| t <= m && #[trigger] (m % interval) == 0 ==> spec_round_up(t, interval) <= m,
{
    let q = t / interval;
    let r = spec_round_up(t, interval);
    vstd::arithmetic::div_mod::lemma_fundamental_div_mod(t, interval);
    vstd::arithmetic::div_mod::lemma_mod_multiples_basic(q + 1, interval);
    assert(interval * q == q * interval) by (nonlinear_arith);
    assert((q + 1) * interval == q * interval + interval) by (nonlinear_arith);
    assert forall|m: int| t <= m && #[trigger] (m % interval) == 0 implies r <= m by {
        vstd::arithmetic::div_mod::lemma_fundamental_div_mod(m, interval);
        let k = m / interval;
        assert(m == interval * k);
        if t % interval != 0 {
            if k <= q {
                assert(interval * k <= interval * q) by (nonlinear_arith)
                    requires
                        k <= q,
                        0 < interval,
                ;
            } else {
                assert(interval * k >= interval * (q + 1)) by (nonlinear_arith)
                    requires
                        k >= q + 1,
                        0 < interval,
                ;
                assert(interval * (q + 1) == (q + 1) * interval) by (nonlinear_arith);
            }
        }
    }
}

/// Rounds `t` up to the next multiple of `interval`, as a frame-aligned
/// source does with every time it commits to memory.
pub fn round_up_to_interval(t: AbsoluteT, interval: DeltaT) -> (r: AbsoluteT)
    requires
        interval > 0,
        spec_round_up(t as int, interval as int) <= u32::MAX,
    ensures
        r == spec_round_up(t as int, interval as int),
{
    if t % interval == 0 {
        t
    } else {
        let q: u64 = (t / interval) as u64 + 1;
        let m: u64 = q * interval as u64;
        m as u32
    }
}

} // verus!
