use adder_codec::residual_models::{
    d_index, d_symbol_at, dt_index, dt_symbol_at, frame_block, predicted_delta_t, split_block,
    BlockDResidualModel,
    BlockDeltaTResidualModel, BlockIntraPredictionContextModel, Error, D_RESIDUAL_NO_EVENT,
    DELTA_T_RESIDUAL_NO_EVENT,
};
use adder_codec::types::{CodecError, EventCoordless, TimeMode};

#[test]
fn decimation_alphabet() {
    assert_eq!(d_index(-255), Some(0));
    assert_eq!(d_index(0), Some(255));
    assert_eq!(d_index(255), Some(510));
    assert_eq!(d_index(D_RESIDUAL_NO_EVENT), Some(511));
    assert_eq!(d_index(256), None);
    assert_eq!(d_index(-256), None);
    assert_eq!(d_symbol_at(0), -255);
    assert_eq!(d_symbol_at(510), 255);
    assert_eq!(d_symbol_at(511), D_RESIDUAL_NO_EVENT);
    assert_eq!(Error(200), Error(200));
}

#[test]
fn tick_alphabet() {
    assert_eq!(dt_index(-2550, 2550), Some(0));
    assert_eq!(dt_index(0, 2550), Some(2550));
    assert_eq!(dt_index(2550, 2550), Some(5100));
    assert_eq!(dt_index(DELTA_T_RESIDUAL_NO_EVENT, 2550), Some(5101));
    assert_eq!(dt_index(2551, 2550), None);
    assert_eq!(dt_index(-2551, 2550), None);
    assert_eq!(dt_symbol_at(0, 2550), -2550);
    assert_eq!(dt_symbol_at(5100, 2550), 2550);
    assert_eq!(dt_symbol_at(5101, 2550), DELTA_T_RESIDUAL_NO_EVENT);
}

#[test]
fn models_start_with_every_symbol_counted_once() {
    let model = BlockDResidualModel::new();
    assert_eq!(model.total(), 513);
    assert_eq!(model.range_of(Some(&-255)), Some(0..1));
    assert_eq!(model.range_of(Some(&255)), Some(510..511));
    assert_eq!(model.range_of(Some(&D_RESIDUAL_NO_EVENT)), Some(511..512));
    assert_eq!(model.range_of(None), Some(512..513));
    // a residual outside the alphabet has the range of the end-of-sequence mark
    assert_eq!(model.range_of(Some(&256)), Some(512..513));
    assert_eq!(model.range_of(Some(&-256)), Some(512..513));
    assert_eq!(model.symbol_at(0), Some(-255));
    assert_eq!(model.symbol_at(510), Some(255));
    assert_eq!(model.symbol_at(511), Some(D_RESIDUAL_NO_EVENT));
    assert_eq!(model.symbol_at(512), None);

    let model = BlockDeltaTResidualModel::new(10);
    assert_eq!(model.delta_t_max(), 10);
    assert_eq!(model.total(), 23);
    assert_eq!(model.range_of(Some(&-10)), Some(0..1));
    assert_eq!(model.range_of(Some(&10)), Some(20..21));
    assert_eq!(
        model.range_of(Some(&DELTA_T_RESIDUAL_NO_EVENT)),
        Some(21..22)
    );
    assert_eq!(model.range_of(None), Some(22..23));
    assert_eq!(model.range_of(Some(&11)), Some(22..23));
    assert_eq!(model.range_of(Some(&-11)), Some(22..23));
    assert_eq!(model.symbol_at(20), Some(10));
    assert_eq!(model.symbol_at(22), None);
}

#[test]
fn models_adapt_to_what_they_observe() {
    let mut model = BlockDResidualModel::new();
    model.observe(Some(&0));
    model.observe(Some(&0));
    // a residual outside the alphabet is counted as the end-of-sequence mark
    model.observe(Some(&300));
    assert_eq!(model.total(), 516);
    assert_eq!(model.range_of(Some(&0)), Some(255..258));
    assert_eq!(model.range_of(Some(&1)), Some(258..259));
    assert_eq!(model.range_of(None), Some(514..516));
    assert_eq!(model.range_of(Some(&300)), Some(514..516));
    let copy = model.clone();
    model.observe(None);
    assert_eq!(model.total(), 517);
    assert_eq!(copy.total(), 516);

    let mut model = BlockDeltaTResidualModel::new(10);
    model.observe(Some(&-10));
    assert_eq!(model.range_of(Some(&-10)), Some(0..2));
    assert_eq!(model.symbol_at(1), Some(-10));
    assert_eq!(model.symbol_at(2), Some(-9));
}

#[test]
fn tick_prediction_follows_a_rise_in_decimation() {
    // unchanged or falling decimation: the previous tick count
    assert_eq!(predicted_delta_t(100, 0, 2550), 100);
    assert_eq!(predicted_delta_t(100, -3, 2550), 100);
    // 100 has 25 leading zero bits: up to 12 steps are followed
    assert_eq!(predicted_delta_t(100, 1, 2550), 200);
    assert_eq!(predicted_delta_t(100, 4, 2550), 1600);
    assert_eq!(predicted_delta_t(100, 5, 2550), 2550);
    assert_eq!(predicted_delta_t(100, 12, 1_000_000), 409_600);
    assert_eq!(predicted_delta_t(100, 13, 1_000_000), 100);
    // 65536 has 15 leading zero bits: up to 7 steps are followed
    assert_eq!(predicted_delta_t(65_536, 7, i64::MAX), 8_388_608);
    assert_eq!(predicted_delta_t(65_536, 8, i64::MAX), 65_536);
    assert_eq!(predicted_delta_t(0, 16, 2550), 0);
    assert_eq!(predicted_delta_t(0, 17, 2550), 0);
    assert_eq!(predicted_delta_t(u32::MAX, 1, i64::MAX), u32::MAX as i64);
}

#[test]
fn first_event_goes_in_as_it_is() {
    let mut coder = BlockIntraPredictionContextModel::new(2550);
    assert_eq!(coder.prediction_mode, TimeMode::AbsoluteT);
    assert_eq!(coder.prev_coded_event, None);
    assert_eq!(
        coder.encode_event(None),
        (D_RESIDUAL_NO_EVENT, DELTA_T_RESIDUAL_NO_EVENT)
    );
    assert_eq!(coder.prev_coded_event, None);
    let first = EventCoordless { d: 7, delta_t: 100 };
    assert_eq!(coder.encode_event(Some(&first)), (7, 100));
    assert_eq!(coder.prev_coded_event, Some(first));
    // later events go in as their change against the event before
    let second = EventCoordless { d: 9, delta_t: 390 };
    assert_eq!(coder.encode_event(Some(&second)), (2, 390 - 400));
    assert_eq!(
        coder.encode_event(None),
        (D_RESIDUAL_NO_EVENT, DELTA_T_RESIDUAL_NO_EVENT)
    );
    assert_eq!(coder.prev_coded_event, Some(second));
    let third = EventCoordless { d: 4, delta_t: 50 };
    assert_eq!(coder.encode_event(Some(&third)), (-5, 50 - 390));

    let mut decoder = BlockIntraPredictionContextModel::new(2550);
    assert_eq!(
        decoder.decode_event(D_RESIDUAL_NO_EVENT, DELTA_T_RESIDUAL_NO_EVENT),
        Ok(None)
    );
    assert_eq!(decoder.decode_event(7, 100), Ok(Some(first)));
    assert_eq!(decoder.decode_event(2, -10), Ok(Some(second)));
    assert_eq!(decoder.decode_event(D_RESIDUAL_NO_EVENT, 0), Ok(None));
    assert_eq!(decoder.decode_event(-5, -340), Ok(Some(third)));
    // residuals that stand for no event
    assert_eq!(decoder.decode_event(-5, 0), Err(CodecError::Deserialize));
    assert_eq!(decoder.decode_event(0, -51), Err(CodecError::Deserialize));
    assert_eq!(decoder.decode_event(252, 0), Err(CodecError::Deserialize));
    assert_eq!(decoder.prev_coded_event, Some(third));
    assert_eq!(
        decoder.decode_event(251, 0),
        Ok(Some(EventCoordless {
            d: 255,
            delta_t: 50
        }))
    );
}

#[test]
fn block_is_two_streams_behind_the_length_of_the_first() {
    let events = vec![
        Some(EventCoordless { d: 7, delta_t: 100 }),
        None,
        Some(EventCoordless { d: 8, delta_t: 210 }),
        Some(EventCoordless { d: 8, delta_t: 190 }),
        None,
    ];
    let mut coder = BlockIntraPredictionContextModel::new(2550);
    let written = coder.encode_block(&events).unwrap();
    let d_len = written[0] as usize * 256 + written[1] as usize;
    assert!(d_len > 0);
    assert!(written.len() > 2 + d_len);
    assert_eq!(coder.prev_coded_event, events[3]);

    let mut decoder = BlockIntraPredictionContextModel::new(2550);
    assert_eq!(decoder.decode_block(&written, 5), Ok(events.clone()));
    // asked for fewer events than were written: the first ones
    assert_eq!(
        decoder.decode_block(&written, 4),
        Ok(events[..4].to_vec())
    );
    // asked for more than were written
    assert_eq!(
        decoder.decode_block(&written, 6),
        Err(CodecError::Deserialize)
    );
    // shorter than the length it announces
    assert_eq!(
        decoder.decode_block(&written[..1 + d_len].to_vec(), 5),
        Err(CodecError::Deserialize)
    );
    assert_eq!(
        decoder.decode_block(&vec![0], 5),
        Err(CodecError::Deserialize)
    );
    // a decoder with another tick bound reads other events or none
    let mut other = BlockIntraPredictionContextModel::new(100);
    assert_ne!(other.decode_block(&written, 5), Ok(events));
}

#[test]
fn tick_residual_outside_the_alphabet_is_refused() {
    let mut coder = BlockIntraPredictionContextModel::new(100);
    let events = vec![
        Some(EventCoordless { d: 7, delta_t: 100 }),
        Some(EventCoordless { d: 7, delta_t: 201 }),
    ];
    assert_eq!(
        coder.encode_block(&events),
        Err(CodecError::MalformedEncoder)
    );
    let events = vec![
        Some(EventCoordless { d: 7, delta_t: 100 }),
        Some(EventCoordless { d: 7, delta_t: 200 }),
    ];
    assert!(coder.encode_block(&events).is_ok());
    let events = vec![Some(EventCoordless { d: 7, delta_t: 101 })];
    assert_eq!(
        coder.encode_block(&events),
        Err(CodecError::MalformedEncoder)
    );
    assert!(coder.encode_block(&vec![]).is_ok());
}

#[test]
fn residual_streams_hold_the_places_of_the_residuals() {
    let events = vec![
        Some(EventCoordless { d: 7, delta_t: 100 }),
        None,
        Some(EventCoordless { d: 8, delta_t: 210 }),
        Some(EventCoordless { d: 8, delta_t: 190 }),
        None,
    ];
    let mut coder = BlockIntraPredictionContextModel::new(2550);
    coder.prev_coded_event = Some(EventCoordless { d: 1, delta_t: 1 });
    let (d_stream, dt_stream) = coder.residual_streams(&events).unwrap();
    // the first event as it is; the third against a doubled tick count; the fourth against
    // the same tick count
    assert_eq!(d_stream, vec![255 + 7, 511, 255 + 1, 255, 511]);
    assert_eq!(
        dt_stream,
        vec![2550 + 100, 5101, 2550 + 10, 2550 - 20, 5101]
    );
    assert_eq!(coder.prev_coded_event, events[3]);

    let mut decoder = BlockIntraPredictionContextModel::new(2550);
    decoder.prev_coded_event = Some(EventCoordless { d: 1, delta_t: 1 });
    assert_eq!(
        decoder.events_from_streams(&d_stream, &dt_stream, 5),
        Ok(events.clone())
    );
    assert_eq!(decoder.prev_coded_event, events[3]);

    // a tick residual outside the alphabet
    let late = vec![
        Some(EventCoordless { d: 7, delta_t: 100 }),
        Some(EventCoordless {
            d: 7,
            delta_t: 2651,
        }),
    ];
    assert_eq!(
        coder.residual_streams(&late),
        Err(CodecError::MalformedEncoder)
    );
    let (d_stream, dt_stream) = coder.residual_streams(&vec![]).unwrap();
    assert!(d_stream.is_empty() && dt_stream.is_empty());
    assert_eq!(coder.prev_coded_event, None);
}

#[test]
fn streams_that_stand_for_no_events_are_refused() {
    let mut decoder = BlockIntraPredictionContextModel::new(10);
    let ok = |d: usize, dt: usize| (vec![255 + 7, d], vec![10 + 5, dt]);
    let (d, dt) = ok(255 + 1, 10 - 3);
    assert_eq!(
        decoder.events_from_streams(&d, &dt, 2),
        Ok(vec![
            Some(EventCoordless { d: 7, delta_t: 5 }),
            Some(EventCoordless { d: 8, delta_t: 7 })
        ])
    );
    // another number of places than was asked for
    assert_eq!(
        decoder.events_from_streams(&d, &dt, 1),
        Err(CodecError::Deserialize)
    );
    assert_eq!(
        decoder.events_from_streams(&d, &dt[..1].to_vec(), 2),
        Err(CodecError::Deserialize)
    );
    // a place outside its alphabet
    let (d, dt) = ok(512, 10);
    assert_eq!(
        decoder.events_from_streams(&d, &dt, 2),
        Err(CodecError::Deserialize)
    );
    let (d, dt) = ok(255, 22);
    assert_eq!(
        decoder.events_from_streams(&d, &dt, 2),
        Err(CodecError::Deserialize)
    );
    // the end-of-sequence place of the tick alphabet stands for no residual either
    let (d, dt) = ok(255, 21);
    assert_eq!(
        decoder.events_from_streams(&d, &dt, 2),
        Err(CodecError::Deserialize)
    );
    // a decimation below zero; a tick count below zero
    let (d, dt) = ok(255 - 8, 10);
    assert_eq!(
        decoder.events_from_streams(&d, &dt, 2),
        Err(CodecError::Deserialize)
    );
    let (d, dt) = ok(255, 10 - 6);
    assert_eq!(
        decoder.events_from_streams(&d, &dt, 2),
        Err(CodecError::Deserialize)
    );
    // no event behind a residual that is ignored
    let (d, dt) = ok(511, 0);
    assert_eq!(
        decoder.events_from_streams(&d, &dt, 2),
        Ok(vec![Some(EventCoordless { d: 7, delta_t: 5 }), None])
    );
    assert_eq!(decoder.events_from_streams(&vec![], &vec![], 0), Ok(vec![]));
}

#[test]
fn block_frame_is_the_length_of_the_first_stream_and_both_streams() {
    assert_eq!(
        frame_block(&vec![1, 2, 3], &vec![9]),
        Ok(vec![0, 3, 1, 2, 3, 9])
    );
    assert_eq!(frame_block(&vec![], &vec![]), Ok(vec![0, 0]));
    let long = vec![7u8; 65_535];
    let framed = frame_block(&long, &vec![1, 2]).unwrap();
    assert_eq!(&framed[..2], &[255, 255]);
    assert_eq!(framed.len(), 2 + 65_535 + 2);
    assert_eq!(split_block(&framed), Ok((long, vec![1, 2])));
    assert_eq!(
        frame_block(&vec![7u8; 65_536], &vec![]),
        Err(CodecError::MalformedEncoder)
    );

    assert_eq!(
        split_block(&vec![0, 3, 1, 2, 3, 9]),
        Ok((vec![1, 2, 3], vec![9]))
    );
    assert_eq!(split_block(&vec![1, 2, 0]), Err(CodecError::Deserialize));
    assert_eq!(split_block(&vec![0, 3, 1, 2]), Err(CodecError::Deserialize));
    assert_eq!(split_block(&vec![0]), Err(CodecError::Deserialize));
    assert_eq!(split_block(&vec![]), Err(CodecError::Deserialize));
    assert_eq!(split_block(&vec![0, 0]), Ok((vec![], vec![])));
}
