use adder_codec::prediction::{
    choose_sparam, commit_time, d_residual, delta_t_residual, mark_intra_head, predict_delta_t,
    t_residual, update_values_from_prediction, BlockEvents, PredictionModel, BLOCK_SIZE_AREA,
    D_ENCODE_NO_EVENT,
};
use adder_codec::types::{CodecError, EventCoordless, Mode};

fn empty_block() -> BlockEvents {
    [None; BLOCK_SIZE_AREA]
}

fn ev(d: u8, t: u32) -> Option<EventCoordless> {
    Some(EventCoordless { d, delta_t: t })
}

#[test]
fn residual_helpers() {
    assert_eq!(d_residual(7, 5), -2);
    assert_eq!(d_residual(0, 255), 255);
    assert_eq!(d_residual(255, 0), -255);
    assert_eq!(t_residual(100, 350), 250);
    assert_eq!(delta_t_residual(-40, 60), 100);
}

#[test]
fn predict_delta_t_scales_with_decimation() {
    let mem = EventCoordless { d: 7, delta_t: 100 };
    // unchanged decimation: the previous tick count
    assert_eq!(predict_delta_t(&mem, 0, 10_000), 100);
    // doubled per step up
    assert_eq!(predict_delta_t(&mem, 1, 10_000), 200);
    assert_eq!(predict_delta_t(&mem, 2, 10_000), 400);
    assert_eq!(predict_delta_t(&mem, 6, 10_000), 6400);
    // halved per step down
    assert_eq!(predict_delta_t(&mem, -1, 10_000), 50);
    assert_eq!(predict_delta_t(&mem, -3, 10_000), 12);
    assert_eq!(predict_delta_t(&mem, -7, 10_000), 0);
    // changes of 8 steps and more are not followed
    assert_eq!(predict_delta_t(&mem, 8, 1_000_000), 100);
    assert_eq!(predict_delta_t(&mem, -8, 1_000_000), 100);
    assert_eq!(predict_delta_t(&mem, 200, 1_000_000), 100);
    // a prediction above the bound falls back to the previous tick count
    assert_eq!(predict_delta_t(&mem, 7, 10_000), 100);
    assert_eq!(predict_delta_t(&mem, 7, 12_800), 12_800);
}

#[test]
fn predict_delta_t_doubles_in_32_bits() {
    let mem = EventCoordless {
        d: 7,
        delta_t: 0x8000_0001,
    };
    // the top bit is shifted out
    assert_eq!(predict_delta_t(&mem, 1, u32::MAX), 2);
    let mem = EventCoordless {
        d: 7,
        delta_t: 0x4000_0000,
    };
    assert_eq!(predict_delta_t(&mem, 1, u32::MAX), 0x8000_0000);
    assert_eq!(predict_delta_t(&mem, 2, u32::MAX), 0);
}

#[test]
fn sparam_is_raised_as_far_as_needed() {
    assert_eq!(choose_sparam(0, 0), 0);
    assert_eq!(choose_sparam(0, 32_767), 0);
    assert_eq!(choose_sparam(0, 32_768), 1);
    assert_eq!(choose_sparam(0, 65_535), 1);
    assert_eq!(choose_sparam(0, 65_536), 2);
    assert_eq!(choose_sparam(0, 1 << 40), 26);
    // an offered shift that suffices is kept
    assert_eq!(choose_sparam(5, 40_000), 5);
    assert_eq!(choose_sparam(48, 1 << 20), 48);
    assert_eq!(choose_sparam(1, 1 << 20), 6);
}

#[test]
fn commit_time_aligns_frame_perfect_times() {
    assert_eq!(commit_time(510, 255, Mode::FramePerfect), Some(510));
    assert_eq!(commit_time(511, 255, Mode::FramePerfect), Some(765));
    assert_eq!(commit_time(0, 255, Mode::FramePerfect), Some(0));
    assert_eq!(commit_time(1, 255, Mode::FramePerfect), Some(255));
    assert_eq!(commit_time(511, 255, Mode::Continuous), Some(511));
    assert_eq!(commit_time(u32::MAX, 255, Mode::Continuous), Some(u32::MAX));
    // 4294967295 = 255 * 16843009 is aligned; one less rounds up to it
    assert_eq!(
        commit_time(u32::MAX - 1, 255, Mode::FramePerfect),
        Some(u32::MAX)
    );
    assert_eq!(commit_time(u32::MAX, 1000, Mode::FramePerfect), None);
}

#[test]
fn new_model_has_no_memory() {
    let model = PredictionModel::new(Mode::FramePerfect);
    assert_eq!(model.time_modulation_mode, Mode::FramePerfect);
    assert_eq!(model.t_memory, [0; BLOCK_SIZE_AREA]);
    assert_eq!(model.t_recon, [0; BLOCK_SIZE_AREA]);
    assert_eq!(
        model.event_memory,
        [EventCoordless { d: 0, delta_t: 0 }; BLOCK_SIZE_AREA]
    );
    assert_eq!(model.d_residuals, [D_ENCODE_NO_EVENT; BLOCK_SIZE_AREA]);
    assert_eq!(model.dt_pred_residuals, [0; BLOCK_SIZE_AREA]);
    assert_eq!(model.dt_pred_residuals_i16, [0; BLOCK_SIZE_AREA]);
}

#[test]
fn override_memory_replaces_reconstructed_state_only() {
    let mut model = PredictionModel::new(Mode::Continuous);
    let mut events = empty_block();
    events[5] = ev(7, 900);
    model.forward_intra_prediction(0, 255, 2550, &events).unwrap();
    let t_memory = model.t_memory;
    let d_residuals = model.d_residuals;

    let mut event_memory = [EventCoordless { d: 0, delta_t: 0 }; BLOCK_SIZE_AREA];
    event_memory[9] = EventCoordless { d: 3, delta_t: 44 };
    let mut t_recon = [0; BLOCK_SIZE_AREA];
    t_recon[9] = 1234;
    model.override_memory(event_memory, t_recon);

    assert_eq!(model.event_memory, event_memory);
    assert_eq!(model.t_recon, t_recon);
    assert_eq!(model.t_memory, t_memory);
    assert_eq!(model.d_residuals, d_residuals);
}

#[test]
fn intra_block_is_coded_against_its_first_event() {
    let mut model = PredictionModel::new(Mode::Continuous);
    let mut events = empty_block();
    events[3] = ev(7, 1000);
    events[10] = ev(5, 1300);
    events[200] = ev(9, 700);

    let (head_t, head_d, sparam) = model
        .forward_intra_prediction(0, 255, 2550, &events)
        .unwrap();
    assert_eq!((head_t, head_d, sparam), (1000, 7, 0));

    for i in 0..BLOCK_SIZE_AREA {
        match i {
            3 => {
                // the head's own slot keeps the no-event mark
                assert_eq!(model.d_residuals[i], D_ENCODE_NO_EVENT);
                assert_eq!(model.dt_pred_residuals[i], 0);
                assert_eq!(model.dt_pred_residuals_i16[i], 0);
                assert_eq!(model.t_memory[i], 1000);
                assert_eq!(model.t_recon[i], 1000);
            }
            10 => {
                assert_eq!(model.d_residuals[i], -2);
                assert_eq!(model.dt_pred_residuals[i], 300);
                assert_eq!(model.dt_pred_residuals_i16[i], 300);
                assert_eq!(model.t_memory[i], 1300);
                assert_eq!(model.t_recon[i], 1300);
            }
            200 => {
                assert_eq!(model.d_residuals[i], 2);
                assert_eq!(model.dt_pred_residuals[i], -300);
                assert_eq!(model.dt_pred_residuals_i16[i], -300);
                assert_eq!(model.t_memory[i], 700);
                assert_eq!(model.t_recon[i], 700);
            }
            _ => {
                assert_eq!(model.d_residuals[i], D_ENCODE_NO_EVENT);
                assert_eq!(model.dt_pred_residuals[i], 0);
                assert_eq!(model.dt_pred_residuals_i16[i], 0);
                assert_eq!(model.t_memory[i], 0);
                assert_eq!(model.t_recon[i], 0);
            }
        }
        assert_eq!(model.event_memory[i], EventCoordless { d: 0, delta_t: 0 });
    }
}

#[test]
fn intra_block_of_three_events() {
    let mut model = PredictionModel::new(Mode::Continuous);
    let mut events = empty_block();
    events[0] = ev(5, 100);
    events[1] = ev(7, 150);
    events[2] = ev(8, 130);
    let out = model
        .forward_intra_prediction(0, 255, 2550, &events)
        .unwrap();
    assert_eq!(out, (100, 5, 0));
    assert_eq!(model.d_residuals[0], D_ENCODE_NO_EVENT);
    assert_eq!(model.d_residuals[1], 2);
    assert_eq!(model.d_residuals[2], 3);
    assert_eq!(model.dt_pred_residuals_i16[1], 50);
    assert_eq!(model.dt_pred_residuals_i16[2], 30);
    for i in 3..BLOCK_SIZE_AREA {
        assert_eq!(model.d_residuals[i], D_ENCODE_NO_EVENT);
        assert_eq!(model.dt_pred_residuals_i16[i], 0);
    }
    // what is written has zero in the head's slot, by which a reader finds its pixel
    let written = mark_intra_head(&model.d_residuals, &events);
    assert_eq!(written[0], 0);
    assert_eq!(&written[1..], &model.d_residuals[1..]);
    assert_eq!(
        mark_intra_head(&[D_ENCODE_NO_EVENT; BLOCK_SIZE_AREA], &empty_block()),
        [D_ENCODE_NO_EVENT; BLOCK_SIZE_AREA]
    );
}

#[test]
fn empty_intra_block_has_the_zero_head() {
    let mut model = PredictionModel::new(Mode::Continuous);
    let events = empty_block();
    let out = model
        .forward_intra_prediction(0, 255, 2550, &events)
        .unwrap();
    assert_eq!(out, (0, 0, 0));
    assert_eq!(model.d_residuals, [D_ENCODE_NO_EVENT; BLOCK_SIZE_AREA]);
}

#[test]
fn intra_round_trip_is_exact_without_shift() {
    let mut encoder = PredictionModel::new(Mode::Continuous);
    let mut events = empty_block();
    for i in 0..BLOCK_SIZE_AREA {
        if i % 3 != 1 {
            events[i] = ev((i % 40) as u8, 5000 + (i as u32 * 37) % 2000);
        }
    }
    let (head_t, head_d, sparam) = encoder
        .forward_intra_prediction(0, 255, 2550, &events)
        .unwrap();
    assert_eq!(sparam, 0);

    let mut decoder = PredictionModel::new(Mode::Continuous);
    decoder.load_residuals(
        mark_intra_head(&encoder.d_residuals, &events),
        encoder.dt_pred_residuals_i16,
    );
    let decoded = decoder
        .inverse_intra_prediction(head_t, head_d, sparam, 255)
        .unwrap();
    assert_eq!(decoded, events);
    assert_eq!(decoder.t_recon, encoder.t_recon);
    assert_eq!(decoder.event_memory, encoder.event_memory);
}

#[test]
fn intra_shift_loses_less_than_its_granularity() {
    let mut encoder = PredictionModel::new(Mode::Continuous);
    let mut events = empty_block();
    events[0] = ev(7, 1_000);
    events[1] = ev(8, 101_003);
    events[2] = ev(6, 1_007);
    // the largest residual, 100003, has 17 binary digits: the shift is 2
    let (head_t, head_d, sparam) = encoder
        .forward_intra_prediction(0, 255, 200_000, &events)
        .unwrap();
    assert_eq!((head_t, head_d, sparam), (1_000, 7, 2));
    assert_eq!(encoder.dt_pred_residuals_i16[1], 25_000);
    assert_eq!(encoder.dt_pred_residuals_i16[2], 1);
    // memory keeps the true times beside the rebuilt ones
    assert_eq!(encoder.t_memory[1], 101_003);
    assert_eq!(encoder.t_recon[1], 101_000);
    assert_eq!(encoder.t_recon[2], 1_004);

    let mut decoder = PredictionModel::new(Mode::Continuous);
    decoder.load_residuals(
        mark_intra_head(&encoder.d_residuals, &events),
        encoder.dt_pred_residuals_i16,
    );
    let decoded = decoder
        .inverse_intra_prediction(head_t, head_d, sparam, 255)
        .unwrap();
    assert_eq!(decoded[0], ev(7, 1_000));
    assert_eq!(decoded[1], ev(8, 101_000));
    assert_eq!(decoded[2], ev(6, 1_004));
    assert_eq!(decoded[3], None);
    assert_eq!(decoder.t_recon, encoder.t_recon);
}

#[test]
fn intra_residual_above_the_bound_is_refused() {
    let mut model = PredictionModel::new(Mode::Continuous);
    let mut events = empty_block();
    events[0] = ev(7, 1_000);
    events[1] = ev(7, 4_000);
    let r = model.forward_intra_prediction(0, 255, 2_999, &events);
    assert_eq!(r, Err(CodecError::MalformedEncoder));
    assert_eq!(model.d_residuals, [D_ENCODE_NO_EVENT; BLOCK_SIZE_AREA]);
    assert_eq!(model.t_memory, [0; BLOCK_SIZE_AREA]);
    // at the bound it is coded
    let r = model.forward_intra_prediction(0, 255, 3_000, &events);
    assert_eq!(r, Ok((1_000, 7, 0)));
    // a shift above 48 is refused
    let r = model.forward_intra_prediction(49, 255, 3_000, &events);
    assert_eq!(r, Err(CodecError::MalformedEncoder));
    // frame-perfect without a frame interval is refused
    let mut model = PredictionModel::new(Mode::FramePerfect);
    let r = model.forward_intra_prediction(0, 0, 3_000, &events);
    assert_eq!(r, Err(CodecError::MalformedEncoder));
}

fn two_block_models() -> (PredictionModel, PredictionModel, BlockEvents, BlockEvents) {
    let mut first = empty_block();
    first[0] = ev(7, 1_000);
    first[1] = ev(5, 1_010);
    first[2] = ev(6, 1_020);
    let mut second = empty_block();
    second[0] = ev(8, 1_200);
    second[2] = ev(6, 1_500);

    let mut encoder = PredictionModel::new(Mode::Continuous);
    let (head_t, head_d, sparam) = encoder
        .forward_intra_prediction(0, 255, 2550, &first)
        .unwrap();
    let mut decoder = PredictionModel::new(Mode::Continuous);
    decoder.load_residuals(
        mark_intra_head(&encoder.d_residuals, &first),
        encoder.dt_pred_residuals_i16,
    );
    decoder
        .inverse_intra_prediction(head_t, head_d, sparam, 255)
        .unwrap();
    (encoder, decoder, first, second)
}

#[test]
fn inter_block_is_coded_against_memory() {
    let (mut encoder, mut decoder, _, second) = two_block_models();

    let sparam = encoder
        .forward_inter_prediction(0, 2550, 255, &second)
        .unwrap();
    assert_eq!(sparam, 0);
    // memory behind an intra block remembers no event: decimation 0, tick count 0
    assert_eq!(encoder.d_residuals[0], 8);
    assert_eq!(encoder.d_residuals[1], D_ENCODE_NO_EVENT);
    assert_eq!(encoder.d_residuals[2], 6);
    // the prediction from a tick count of 0 is 0: the residual is the tick count
    assert_eq!(encoder.dt_pred_residuals[0], 200);
    assert_eq!(encoder.dt_pred_residuals[1], 0);
    assert_eq!(encoder.dt_pred_residuals[2], 480);
    assert_eq!(encoder.dt_pred_residuals_i16[0], 200);
    assert_eq!(encoder.dt_pred_residuals_i16[2], 480);
    assert_eq!(encoder.t_memory[0], 1_200);
    assert_eq!(encoder.t_memory[1], 1_010);
    assert_eq!(encoder.t_memory[2], 1_500);
    assert_eq!(encoder.event_memory[0], EventCoordless { d: 8, delta_t: 200 });
    assert_eq!(encoder.event_memory[1], EventCoordless { d: 0, delta_t: 0 });
    assert_eq!(encoder.event_memory[2], EventCoordless { d: 6, delta_t: 480 });
    assert_eq!(encoder.t_recon[0], 1_200);
    assert_eq!(encoder.t_recon[2], 1_500);

    decoder.load_residuals(encoder.d_residuals, encoder.dt_pred_residuals_i16);
    let decoded = decoder.inverse_inter_prediction(sparam, 2550, 255).unwrap();
    assert_eq!(decoded, second);
    assert_eq!(decoder.event_memory, encoder.event_memory);
    assert_eq!(decoder.t_recon, encoder.t_recon);
}

#[test]
fn second_inter_block_predicts_from_the_change_in_decimation() {
    let (mut encoder, mut decoder, _, second) = two_block_models();
    let sparam = encoder
        .forward_inter_prediction(0, 2550, 255, &second)
        .unwrap();
    decoder.load_residuals(encoder.d_residuals, encoder.dt_pred_residuals_i16);
    decoder.inverse_inter_prediction(sparam, 2550, 255).unwrap();

    let mut third = empty_block();
    // pixel 0 remembers (8, 200): one step up predicts 400 ticks
    third[0] = ev(9, 1_650);
    // pixel 2 remembers (6, 480): two steps down predict 120 ticks
    third[2] = ev(4, 1_600);
    let sparam = encoder
        .forward_inter_prediction(0, 2550, 255, &third)
        .unwrap();
    assert_eq!(sparam, 0);
    assert_eq!(encoder.d_residuals[0], 1);
    assert_eq!(encoder.dt_pred_residuals[0], 450 - 400);
    assert_eq!(encoder.d_residuals[2], -2);
    assert_eq!(encoder.dt_pred_residuals[2], 100 - 120);
    assert_eq!(encoder.event_memory[0], EventCoordless { d: 9, delta_t: 450 });
    assert_eq!(encoder.event_memory[2], EventCoordless { d: 4, delta_t: 100 });

    decoder.load_residuals(encoder.d_residuals, encoder.dt_pred_residuals_i16);
    let decoded = decoder.inverse_inter_prediction(sparam, 2550, 255).unwrap();
    assert_eq!(decoded, third);
    assert_eq!(decoder.event_memory, encoder.event_memory);
    assert_eq!(decoder.t_recon, encoder.t_recon);
}

#[test]
fn inter_block_beyond_the_tick_bound_is_refused() {
    let (mut encoder, _, _, _) = two_block_models();
    let before_events = encoder.event_memory;
    let before_t = encoder.t_memory;
    let before_recon = encoder.t_recon;

    // an event more than the bound after its pixel's last one is for the caller to keep out
    let mut late = empty_block();
    late[0] = ev(7, 1_000 + 2_551);
    assert!(!encoder.fits_tick_bound(&late, 2550));
    assert!(encoder.fits_tick_bound(&late, 2551));
    assert!(encoder.fits_tick_bound(&empty_block(), 0));

    // an event before its pixel's last one is refused
    let mut early = empty_block();
    early[1] = ev(7, 1_009);
    assert!(encoder.fits_tick_bound(&early, 2550));
    assert_eq!(
        encoder.forward_inter_prediction(0, 2550, 255, &early),
        Err(CodecError::MalformedEncoder)
    );
    assert_eq!(encoder.event_memory, before_events);
    assert_eq!(encoder.t_memory, before_t);
    assert_eq!(encoder.t_recon, before_recon);
    assert_eq!(encoder.d_residuals, [D_ENCODE_NO_EVENT; BLOCK_SIZE_AREA]);

    // at the bound the block is coded
    late[0] = ev(7, 1_000 + 2_550);
    assert!(encoder.fits_tick_bound(&late, 2550));
    assert_eq!(encoder.forward_inter_prediction(0, 2550, 255, &late), Ok(0));
}

#[test]
fn inverse_inter_refuses_what_no_encoder_writes() {
    let (encoder, mut decoder, _, _) = two_block_models();
    let before = (decoder.event_memory, decoder.t_recon);

    // a decimation above 255
    let mut d = [D_ENCODE_NO_EVENT; BLOCK_SIZE_AREA];
    let t = [0i16; BLOCK_SIZE_AREA];
    d[0] = 255;
    d[1] = 1;
    decoder.override_memory(
        {
            let mut m = encoder.event_memory;
            m[1] = EventCoordless { d: 255, delta_t: 0 };
            m
        },
        encoder.t_recon,
    );
    decoder.load_residuals(d, t);
    assert_eq!(
        decoder.inverse_inter_prediction(0, 2550, 255),
        Err(CodecError::Deserialize)
    );
    decoder.override_memory(before.0, before.1);

    // a tick count below zero
    let mut d = [D_ENCODE_NO_EVENT; BLOCK_SIZE_AREA];
    let mut t = [0i16; BLOCK_SIZE_AREA];
    d[0] = 0;
    t[0] = -1;
    decoder.load_residuals(d, t);
    assert_eq!(
        decoder.inverse_inter_prediction(0, 2550, 255),
        Err(CodecError::Deserialize)
    );
    assert_eq!((decoder.event_memory, decoder.t_recon), before);

    // a tick count above the bound
    t[0] = 2_551;
    decoder.load_residuals(d, t);
    assert_eq!(
        decoder.inverse_inter_prediction(0, 2550, 255),
        Err(CodecError::Deserialize)
    );
    t[0] = 2_550;
    decoder.load_residuals(d, t);
    let decoded = decoder.inverse_inter_prediction(0, 2550, 255).unwrap();
    // memory behind an intra block remembers decimation 0
    assert_eq!(decoded[0], ev(0, 1_000 + 2_550));

    // a shift above 48
    decoder.load_residuals(d, t);
    assert_eq!(
        decoder.inverse_inter_prediction(49, 2550, 255),
        Err(CodecError::Deserialize)
    );
}

#[test]
fn inverse_intra_refuses_what_no_encoder_writes() {
    let mut decoder = PredictionModel::new(Mode::Continuous);
    let mut d = [D_ENCODE_NO_EVENT; BLOCK_SIZE_AREA];
    let mut t = [0i16; BLOCK_SIZE_AREA];
    d[0] = -1;
    decoder.load_residuals(d, t);
    // decimation 0 - 1
    assert_eq!(
        decoder.inverse_intra_prediction(100, 0, 0, 255),
        Err(CodecError::Deserialize)
    );
    d[0] = 0;
    t[0] = -101;
    decoder.load_residuals(d, t);
    // time 100 - 101
    assert_eq!(
        decoder.inverse_intra_prediction(100, 0, 0, 255),
        Err(CodecError::Deserialize)
    );
    t[0] = -100;
    decoder.load_residuals(d, t);
    let decoded = decoder.inverse_intra_prediction(100, 0, 0, 255).unwrap();
    assert_eq!(decoded[0], ev(0, 0));
    assert_eq!(decoded[1], None);
}

#[test]
fn frame_perfect_memory_is_aligned() {
    let dt_ref = 255;
    let mut encoder = PredictionModel::new(Mode::FramePerfect);
    let mut first = empty_block();
    first[0] = ev(7, 510);
    first[1] = ev(7, 600);
    let (head_t, head_d, sparam) = encoder
        .forward_intra_prediction(0, dt_ref, 2550, &first)
        .unwrap();
    assert_eq!(encoder.t_memory[0], 510);
    assert_eq!(encoder.t_memory[1], 765);
    assert_eq!(encoder.t_recon[1], 765);

    let mut decoder = PredictionModel::new(Mode::FramePerfect);
    decoder.load_residuals(
        mark_intra_head(&encoder.d_residuals, &first),
        encoder.dt_pred_residuals_i16,
    );
    let decoded = decoder
        .inverse_intra_prediction(head_t, head_d, sparam, dt_ref)
        .unwrap();
    assert_eq!(decoded, first);

    let mut second = empty_block();
    second[0] = ev(7, 1_020);
    second[1] = ev(8, 1_000);
    let sparam = encoder
        .forward_inter_prediction(0, 2550, dt_ref, &second)
        .unwrap();
    // ticks are counted from the aligned time of the last event
    assert_eq!(encoder.dt_pred_residuals[0], 510);
    assert_eq!(encoder.dt_pred_residuals[1], 235);
    decoder.load_residuals(encoder.d_residuals, encoder.dt_pred_residuals_i16);
    let decoded = decoder
        .inverse_inter_prediction(sparam, 2550, dt_ref)
        .unwrap();
    assert_eq!(decoded, second);
    for i in 0..2 {
        assert_eq!(decoder.t_recon[i] % dt_ref, 0);
        assert_eq!(encoder.t_memory[i] % dt_ref, 0);
        assert!(decoder.event_memory[i].delta_t <= 2550);
    }
    assert_eq!(decoder.t_recon[0], 1_020);
    assert_eq!(decoder.t_recon[1], 1_020);
    // an event on a multiple of the interval is decoded on it
    assert_eq!(decoded[0].unwrap().delta_t % dt_ref, 0);
}

#[test]
fn inter_shift_loses_less_than_its_granularity() {
    let dtm = 1_000_000;
    let mut encoder = PredictionModel::new(Mode::Continuous);
    let mut first = empty_block();
    first[0] = ev(7, 10);
    first[1] = ev(7, 20);
    encoder
        .forward_intra_prediction(0, 255, dtm, &first)
        .unwrap();
    let mut decoder = PredictionModel::new(Mode::Continuous);
    decoder.load_residuals(
        mark_intra_head(&encoder.d_residuals, &first),
        encoder.dt_pred_residuals_i16,
    );
    decoder.inverse_intra_prediction(10, 7, 0, 255).unwrap();

    let mut second = empty_block();
    second[0] = ev(7, 10 + 131_075);
    second[1] = ev(7, 20 + 1_001);
    // 131075 has 18 binary digits: the shift is 3
    let sparam = encoder
        .forward_inter_prediction(0, dtm, 255, &second)
        .unwrap();
    assert_eq!(sparam, 3);
    assert_eq!(encoder.dt_pred_residuals_i16[0], 16_384);
    assert_eq!(encoder.dt_pred_residuals_i16[1], 125);
    decoder.load_residuals(encoder.d_residuals, encoder.dt_pred_residuals_i16);
    let decoded = decoder.inverse_inter_prediction(sparam, dtm, 255).unwrap();
    assert_eq!(decoded[0], ev(7, 10 + 131_072));
    assert_eq!(decoded[1], ev(7, 20 + 1_000));
    assert_eq!(decoder.event_memory, encoder.event_memory);
    assert_eq!(decoder.t_recon, encoder.t_recon);
    // the true times stay in the encoder's memory
    assert_eq!(encoder.t_memory[0], 10 + 131_075);
    assert_eq!(encoder.t_recon[0], 10 + 131_072);
}

#[test]
fn reconstruct_folds_residuals_into_memory() {
    let (mut encoder, _, _, _) = two_block_models();
    let mut d = [D_ENCODE_NO_EVENT; BLOCK_SIZE_AREA];
    let mut t = [0i16; BLOCK_SIZE_AREA];
    d[1] = 3;
    t[1] = 77;
    encoder.load_residuals(d, t);
    assert_eq!(encoder.reconstruct_t_values(0, 2550, 255), Ok(()));
    // the decimation in memory is left to the caller
    assert_eq!(encoder.event_memory[1], EventCoordless { d: 0, delta_t: 77 });
    assert_eq!(encoder.t_recon[1], 1_010 + 77);
    assert_eq!(encoder.t_recon[0], 1_000);

    // the pixel now remembers 77 ticks: three steps up predict 616
    t[1] = -617;
    encoder.load_residuals(d, t);
    let before = (encoder.event_memory, encoder.t_recon);
    assert_eq!(
        encoder.reconstruct_t_values(0, 2550, 255),
        Err(CodecError::MalformedEncoder)
    );
    assert_eq!((encoder.event_memory, encoder.t_recon), before);
    t[1] = -616;
    encoder.load_residuals(d, t);
    assert_eq!(encoder.reconstruct_t_values(0, 2550, 255), Ok(()));
    assert_eq!(encoder.event_memory[1], EventCoordless { d: 0, delta_t: 0 });
    assert_eq!(encoder.t_recon[1], 1_010 + 77);
}

#[test]
fn update_values_moves_memory_by_the_rebuilt_count() {
    let mut memory = EventCoordless { d: 4, delta_t: 9 };
    let mut t_recon = 1_000;
    update_values_from_prediction(&mut memory, &mut t_recon, 300, -20, 2550);
    assert_eq!(memory, EventCoordless { d: 4, delta_t: 280 });
    assert_eq!(t_recon, 1_280);
}
