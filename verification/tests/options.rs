use adder_codec::options::{
    crf_parameters, CrfParameters, EncoderOptions, DEFAULT_CRF_QUALITY, MAX_CRF_QUALITY,
};
use adder_codec::pixel::{must_pop_top, raise_decimation};
use adder_codec::types::{
    d_shift, round_up_to_interval, CodecMetadata, EventCoordless, PlaneError, PlaneSize,
    SourceCamera, TimeMode, D_EMPTY, D_MAX, D_ZERO_INTEGRATION, LATEST_CODEC_VERSION,
};

#[test]
fn quality_levels_follow_the_table() {
    let plane = PlaneSize::new(640, 360, 1).unwrap();
    // baseline, max, tick bound multiplier, velocity, divisor of the feature radius
    let table: [(u8, u8, u32, u8, u16); 10] = [
        (0, 0, 20, 10, 0),
        (0, 3, 25, 9, 12),
        (1, 5, 30, 8, 15),
        (3, 7, 35, 7, 18),
        (5, 9, 40, 6, 20),
        (7, 10, 45, 5, 23),
        (9, 15, 50, 4, 26),
        (11, 20, 55, 3, 30),
        (13, 30, 60, 2, 35),
        (15, 40, 65, 1, 40),
    ];
    for (quality, row) in table.iter().enumerate() {
        let got = crf_parameters(quality as u8, &plane).unwrap();
        assert_eq!(
            got,
            CrfParameters {
                c_thresh_baseline: row.0,
                c_thresh_max: row.1,
                dtm_multiplier: row.2,
                c_increase_velocity: row.3,
                feature_c_radius: if row.4 == 0 { 0 } else { 360 / row.4 },
            }
        );
    }
    assert_eq!(crf_parameters(3, &plane).unwrap().feature_c_radius, 20);
    assert_eq!(crf_parameters(10, &plane), None);
    assert_eq!(crf_parameters(255, &plane), None);
}

#[test]
fn feature_radius_follows_the_smaller_side() {
    let wide = PlaneSize::new(1000, 36, 3).unwrap();
    let tall = PlaneSize::new(36, 1000, 3).unwrap();
    assert_eq!(crf_parameters(1, &wide).unwrap().feature_c_radius, 3);
    assert_eq!(crf_parameters(1, &tall).unwrap().feature_c_radius, 3);
    assert_eq!(crf_parameters(9, &tall).unwrap().feature_c_radius, 0);
}

#[test]
fn default_options_have_quality_3() {
    let plane = PlaneSize::new(64, 64, 1).unwrap();
    let options = EncoderOptions::default(plane);
    assert_eq!(DEFAULT_CRF_QUALITY, 3);
    assert_eq!(MAX_CRF_QUALITY, 9);
    assert_eq!(options.crf_quality, 3);
    assert_eq!(options.plane, plane);
    assert_eq!(
        *options.get_parameters(),
        CrfParameters {
            c_thresh_baseline: 3,
            c_thresh_max: 7,
            dtm_multiplier: 35,
            c_increase_velocity: 7,
            feature_c_radius: 3,
        }
    );
    assert_eq!(EncoderOptions::with_quality(plane, 3), Some(options));
    assert_eq!(EncoderOptions::with_quality(plane, 10), None);
    assert_eq!(
        EncoderOptions::with_quality(plane, 9).unwrap().crf_parameters.c_thresh_max,
        40
    );
}

#[test]
fn plane_needs_every_dimension() {
    assert_eq!(
        PlaneSize::new(16, 30, 1),
        Ok(PlaneSize {
            width: 16,
            height: 30,
            channels: 1
        })
    );
    assert_eq!(
        PlaneSize::new(0, 30, 1),
        Err(PlaneError {
            width: 0,
            height: 30,
            channels: 1
        })
    );
    assert!(PlaneSize::new(16, 0, 1).is_err());
    assert!(PlaneSize::new(16, 30, 0).is_err());
    let plane = PlaneSize::new(640, 480, 3).unwrap();
    assert_eq!((plane.w(), plane.h(), plane.c()), (640, 480, 3));
    assert_eq!(plane.area_wh(), 307_200);
    assert_eq!(
        PlaneSize::default(),
        PlaneSize {
            width: 1,
            height: 1,
            channels: 1
        }
    );
}

#[test]
fn default_metadata() {
    let meta = CodecMetadata::default();
    assert_eq!(meta.codec_version, LATEST_CODEC_VERSION);
    assert_eq!(meta.header_size, 24);
    assert_eq!(meta.time_mode, TimeMode::DeltaT);
    assert_eq!(meta.plane, PlaneSize::default());
    assert_eq!(meta.tps, 2550);
    assert_eq!(meta.ref_interval, 255);
    assert_eq!(meta.delta_t_max, 255);
    assert_eq!(meta.event_size, 9);
    assert_eq!(meta.source_camera, SourceCamera::FramedU8);
    assert_eq!(meta.adu_interval, 1);
    assert_eq!(TimeMode::default(), TimeMode::DeltaT);
    assert_eq!(SourceCamera::default(), SourceCamera::FramedU8);
    assert_eq!(
        EventCoordless::default(),
        EventCoordless { d: 0, delta_t: 0 }
    );
    assert_eq!(EventCoordless { d: 3, delta_t: 99 }.t(), 99);
}

#[test]
fn decimation_thresholds_are_powers_of_two() {
    assert_eq!((D_MAX, D_ZERO_INTEGRATION, D_EMPTY), (127, 254, 255));
    assert_eq!(d_shift(0), 1);
    assert_eq!(d_shift(1), 2);
    assert_eq!(d_shift(6), 64);
    assert_eq!(d_shift(64), 1 << 64);
    assert_eq!(d_shift(127), 1 << 127);
}

#[test]
fn times_round_up_to_the_interval() {
    assert_eq!(round_up_to_interval(0, 255), 0);
    assert_eq!(round_up_to_interval(1, 255), 255);
    assert_eq!(round_up_to_interval(255, 255), 255);
    assert_eq!(round_up_to_interval(256, 255), 510);
    assert_eq!(round_up_to_interval(74, 30), 90);
    assert_eq!(round_up_to_interval(12_345, 1), 12_345);
}

#[test]
fn decimation_rises_past_the_integration() {
    // a node that fired at 6 with 101 integrated waits for 128
    assert_eq!(raise_decimation(6, 101), 7);
    assert_eq!(raise_decimation(6, 127), 7);
    assert_eq!(raise_decimation(6, 128), 8);
    assert_eq!(raise_decimation(6, 200), 8);
    assert_eq!(raise_decimation(8, 256), 9);
    // at least one step
    assert_eq!(raise_decimation(6, 0), 7);
    assert_eq!(raise_decimation(126, (1 << 127) - 1), 127);
    assert_eq!(raise_decimation(0, (1 << 126) + 5), 127);
}

#[test]
fn top_event_is_due_at_the_largest_decimation_or_tick_bound() {
    assert!(!must_pop_top(126, 239_999, 240_000));
    assert!(must_pop_top(127, 0, 240_000));
    assert!(must_pop_top(6, 240_000, 240_000));
    assert!(must_pop_top(6, 240_001, 240_000));
}
