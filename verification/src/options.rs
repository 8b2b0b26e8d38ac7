//! Encoder configuration: the plane, and the quality level that selects the
//! contrast thresholds, the tick bound and the feature radius of a
//! transcode.

use crate::types::PlaneSize;
use vstd::prelude::*;

verus! {

/// The quality level an encoder has where none is chosen.
pub const DEFAULT_CRF_QUALITY: u8 = 3;

/// The highest quality level, which is the lossiest.
pub const MAX_CRF_QUALITY: u8 = 9;

/// What a quality level stands for.
#[derive(Clone, Copy, Debug, PartialEq, Eq, Structural)]
pub struct CrfParameters {
    /// The contrast threshold every pixel starts from.
    pub c_thresh_baseline: u8,
    /// The contrast threshold no pixel exceeds.
    pub c_thresh_max: u8,
    /// The tick bound, in reference intervals.
    pub dtm_multiplier: u32,
    /// The number of reference intervals after which a stable pixel's
    /// contrast threshold rises by one.
    pub c_increase_velocity: u8,
    /// The radius around a feature, in pixels, within which contrast
    /// thresholds are held down.
    pub feature_c_radius: u16,
}

/// The baseline contrast threshold of a quality level.
pub open spec fn spec_c_thresh_baseline(quality: u8) -> u8 {
    if quality <= 1 {
        0
    } else {
        (2 * quality - 3) as u8
    }
}

/// The maximum contrast threshold of a quality level.
pub open spec fn spec_c_thresh_max(quality: u8) -> u8 {
    if quality == 0 {
        0
    } else if quality <= 4 {
        (2 * quality + 1) as u8
    } else if quality == 5 {
        10
    } else if quality == 6 {
        15
    } else if quality == 7 {
        20
    } else if quality == 8 {
        30
    } else {
        40
    }
}

/// The part of the plane's smaller side that the feature radius of a
/// quality level takes: one in so many, or none for 0.
pub open spec fn spec_feature_radius_divisor(quality: u8) -> int {
    if quality == 0 {
        0
    } else if quality == 1 {
        12
    } else if quality == 2 {
        15
    } else if quality == 3 {
        18
    } else if quality == 4 {
        20
    } else if quality == 5 {
        23
    } else if quality == 6 {
        26
    } else if quality == 7 {
        30
    } else if quality == 8 {
        35
    } else {
        40
    }
}

/// What the quality level `quality <= 9` stands for on a plane.
pub open spec fn spec_crf_parameters(quality: u8, plane: PlaneSize) -> CrfParameters {
    let side = if plane.width < plane.height {
        plane.width
    } else {
        plane.height
    };
    CrfParameters {
        c_thresh_baseline: spec_c_thresh_baseline(quality),
        c_thresh_max: spec_c_thresh_max(quality),
        dtm_multiplier: (20 + 5 * quality) as u32,
        c_increase_velocity: (10 - quality) as u8,
        feature_c_radius: if quality == 0 {
            0
        } else {
            (side as int / spec_feature_radius_divisor(quality)) as u16
        },
    }
}

/// What a quality level stands for on a plane; `None` for a level above 9.
pub fn crf_parameters(quality: u8, plane: &PlaneSize) -> (r: Option<CrfParameters>)
    ensures
        quality > MAX_CRF_QUALITY ==> r is None,
        quality <= MAX_CRF_QUALITY ==> r == Some(spec_crf_parameters(quality, *plane)),
{
    if quality > MAX_CRF_QUALITY {
        return None;
    }
    let baseline: [u8; 10] = [0, 0, 1, 3, 5, 7, 9, 11, 13, 15];
    let max: [u8; 10] = [0, 3, 5, 7, 9, 10, 15, 20, 30, 40];
    let divisor: [u16; 10] = [0, 12, 15, 18, 20, 23, 26, 30, 35, 40];
    let q: usize = quality as usize;
    let side: u16 = if plane.width < plane.height {
        plane.width
    } else {
        plane.height
    };
    Some(
        CrfParameters {
            c_thresh_baseline: baseline[q],
            c_thresh_max: max[q],
            dtm_multiplier: 20 + 5 * quality as u32,
            c_increase_velocity: 10 - quality,
            feature_c_radius: if quality == 0 {
                0
            } else {
                side / divisor[q]
            },
        },
    )
}

/// The settings of an encoder.
#[derive(Clone, Copy, Debug, PartialEq, Eq, Structural)]
pub struct EncoderOptions {
    pub plane: PlaneSize,
    /// The quality level, `0..=9`.
    pub crf_quality: u8,
    pub crf_parameters: CrfParameters,
}

impl EncoderOptions {
    /// The quality level is in range, and the parameters are those it
    /// stands for on the plane.
    pub open spec fn wf(&self) -> bool {
        &&& self.crf_quality <= MAX_CRF_QUALITY
        &&& self.crf_parameters == spec_crf_parameters(self.crf_quality, self.plane)
    }

    /// The settings for a plane at the default quality level.
    pub fn default(plane: PlaneSize) -> (r: Self)
        ensures
            r.wf(),
            r.plane == plane,
            r.crf_quality == DEFAULT_CRF_QUALITY,
    {
        EncoderOptions {
            plane,
            crf_quality: DEFAULT_CRF_QUALITY,
            crf_parameters: match crf_parameters(DEFAULT_CRF_QUALITY, &plane) {
                Some(p) => p,
                None => CrfParameters {
                    c_thresh_baseline: 0,
                    c_thresh_max: 0,
                    dtm_multiplier: 0,
                    c_increase_velocity: 0,
                    feature_c_radius: 0,
                },
            },
        }
    }

    /// The settings for a plane at a quality level; `None` for a level
    /// above 9.
    pub fn with_quality(plane: PlaneSize, quality: u8) -> (r: Option<Self>)
        ensures
            quality > MAX_CRF_QUALITY ==> r is None,
            quality <= MAX_CRF_QUALITY ==> (r matches Some(o) && o.wf() && o.plane == plane
                && o.crf_quality == quality),
    {
        match crf_parameters(quality, &plane) {
            Some(p) => Some(EncoderOptions { plane, crf_quality: quality, crf_parameters: p }),
            None => None,
        }
    }

    /// The parameters of the quality level.
    pub fn get_parameters(&self) -> (r: &CrfParameters)
        ensures
            *r == self.crf_parameters,
    {
        &self.crf_parameters
    }
}

} // verus!
