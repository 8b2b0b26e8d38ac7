use adder_codec::stream::{CompressedInput, CompressedOutput};
use adder_codec::types::{
    CodecError, CodecMetadata, Coord, Event, PlaneSize, SourceCamera, TimeMode,
};
use std::cmp::min;

fn meta(plane: PlaneSize, dt_ref: u32, num_intervals: u32) -> CodecMetadata {
    CodecMetadata {
        codec_version: 0,
        header_size: 0,
        time_mode: TimeMode::AbsoluteT,
        plane,
        tps: 7650,
        ref_interval: dt_ref,
        delta_t_max: dt_ref * num_intervals,
        event_size: 0,
        source_camera: SourceCamera::FramedU8,
        adu_interval: num_intervals as usize,
    }
}

/// Events are written to a stream, but never past the time at which the
/// first access unit is complete: nothing is written.
#[test]
fn test_compress_empty() {
    let start_t = 0;
    let dt_ref = 255;
    let num_intervals = 10;

    let mut compressed_output = CompressedOutput::new(meta(
        PlaneSize {
            width: 16,
            height: 32,
            channels: 1,
        },
        dt_ref,
        num_intervals,
    ));

    let mut counter = 0;
    for y in 0..30 {
        for x in 0..16 {
            compressed_output
                .ingest_event(Event {
                    coord: Coord { x, y, c: None },
                    t: min(280 + counter, start_t + dt_ref * num_intervals as u32),
                    d: 7,
                })
                .unwrap();
            if 280 + counter > start_t + dt_ref * num_intervals as u32 {
                break;
            } else {
                counter += 1;
            }
        }
    }

    let output = compressed_output.into_writer();
    assert!(output.is_empty());
}

#[test]
fn test_compress_decompress_barely_full() {
    let plane = PlaneSize::new(16, 30, 1).unwrap();
    let start_t = 0;
    let dt_ref = 255;
    let num_intervals = 10;

    // A candidate pixel to check that its events match
    let candidate_px_idx = (7, 12);
    let mut input_px_events = Vec::new();
    let mut output_px_events = Vec::new();

    let mut compressed_output = CompressedOutput::new(meta(
        PlaneSize {
            width: 16,
            height: 32,
            channels: 1,
        },
        dt_ref,
        num_intervals,
    ));

    let mut counter = 0;
    for y in 0..30 {
        for x in 0..16 {
            let event = Event {
                coord: Coord { x, y, c: None },
                t: min(280 + counter, start_t + dt_ref * num_intervals as u32),
                d: 7,
            };
            if y == candidate_px_idx.0 && x == candidate_px_idx.1 {
                input_px_events.push(event);
            }
            compressed_output.ingest_event(event).unwrap();
            if 280 + counter > start_t + dt_ref * num_intervals as u32 {
                break;
            } else {
                counter += 1;
            }
        }
    }

    // Ingest one more event which is in the next access unit's time span
    compressed_output
        .ingest_event(Event {
            coord: Coord {
                x: 0,
                y: 0,
                c: None,
            },
            t: start_t + dt_ref * num_intervals as u32 + 1,
            d: 7,
        })
        .unwrap();
    counter += 1;

    let output = compressed_output.into_writer();
    assert!(!output.is_empty());
    // Check that the size is less than the raw events
    assert!((output.len() as u32) < counter * 9);

    let mut compressed_input = CompressedInput::new(
        dt_ref * num_intervals as u32,
        dt_ref,
        num_intervals as usize,
    );
    compressed_input.meta.plane = plane;
    let mut position = 0;
    for _ in 0..counter - 1 {
        let event = compressed_input
            .digest_event(&output, &mut position)
            .unwrap();
        if event.coord.y == candidate_px_idx.0 && event.coord.x == candidate_px_idx.1 {
            output_px_events.push(event);
        }
    }

    assert_eq!(input_px_events, output_px_events);
}

#[test]
fn test_compress_decompress_several() {
    let plane = PlaneSize::new(16, 30, 1).unwrap();
    let dt_ref = 255;
    let num_intervals = 5;

    let candidate_px_idx = (7, 12);
    let mut input_px_events = Vec::new();
    let mut output_px_events = Vec::new();

    let mut compressed_output = CompressedOutput::new(meta(
        PlaneSize {
            width: 16,
            height: 32,
            channels: 1,
        },
        dt_ref,
        num_intervals,
    ));

    let mut counter = 0;
    for _ in 0..10 {
        for y in 0..30 {
            for x in 0..16 {
                let event = Event {
                    coord: Coord { x, y, c: None },
                    t: 280 + counter,
                    d: 7,
                };
                if y == candidate_px_idx.0 && x == candidate_px_idx.1 {
                    input_px_events.push(event);
                }
                compressed_output.ingest_event(event).unwrap();

                counter += 1;
            }
        }
    }

    let output = compressed_output.into_writer();
    assert!(!output.is_empty());
    // Check that the size is less than the raw events
    assert!((output.len() as u32) < counter * 9);

    let mut compressed_input = CompressedInput::new(
        dt_ref * num_intervals as u32,
        dt_ref,
        num_intervals as usize,
    );
    compressed_input.meta.plane = plane;
    let mut position = 0;
    for _ in 0..counter - 1 {
        match compressed_input.digest_event(&output, &mut position) {
            Ok(event) => {
                if event.coord.y == candidate_px_idx.0 && event.coord.x == candidate_px_idx.1 {
                    output_px_events.push(event);
                }
            }
            Err(CodecError::Eof) => break,
            Err(e) => panic!("{:?}", e),
        }
    }

    assert!(input_px_events.len() >= output_px_events.len());
    assert!(!output_px_events.is_empty());
    for i in 0..output_px_events.len() {
        // Have some slack in the comparison of the time, since there could be some slight loss
        let a = input_px_events[i].t - 5..input_px_events[i].t + 5;
        let comp_t = output_px_events[i].t;
        assert!(a.contains(&comp_t));
        assert_eq!(input_px_events[i].d, output_px_events[i].d);
    }
}

#[test]
fn test_compress_decompress_several_single() {
    let plane = PlaneSize::new(32, 16, 1).unwrap();
    let dt_ref = 255;
    let num_intervals = 5;

    let candidate_px_idx = (7, 12);
    let mut input_px_events = Vec::new();
    let mut output_px_events = Vec::new();

    let mut compressed_output = CompressedOutput::new(meta(plane, dt_ref, num_intervals));

    let mut counter = 0;
    for i in 0..60 {
        let event = Event {
            coord: Coord {
                x: 12,
                y: 7,
                c: None,
            },
            t: 280 + i * 100 + counter,
            d: 7,
        };

        input_px_events.push(event);

        compressed_output.ingest_event(event).unwrap();

        counter += 1;
    }

    // Much later, integrate an event with a timestamp far in the past:
    let late_event = Event {
        coord: Coord {
            x: 19,
            y: 14,
            c: None,
        },
        t: 280,
        d: 7,
    };
    compressed_output.ingest_event(late_event).unwrap();

    for i in 60..70 {
        let event = Event {
            coord: Coord {
                x: 12,
                y: 7,
                c: None,
            },
            t: 280 + i * 100 + counter,
            d: 7,
        };

        input_px_events.push(event);

        compressed_output.ingest_event(event).unwrap();

        counter += 1;
    }

    let output = compressed_output.into_writer();
    assert!(!output.is_empty());

    let mut compressed_input = CompressedInput::new(
        dt_ref * num_intervals as u32,
        dt_ref,
        num_intervals as usize,
    );
    compressed_input.meta.plane = plane;
    let mut position = 0;
    for _ in 0..counter + 1 {
        match compressed_input.digest_event(&output, &mut position) {
            Ok(event) => {
                if event.coord.y == candidate_px_idx.0 && event.coord.x == candidate_px_idx.1 {
                    output_px_events.push(event);
                }
            }
            Err(CodecError::Eof) => break,
            Err(e) => panic!("{:?}", e),
        }
    }

    assert!(input_px_events.len() >= output_px_events.len());
    assert!(!output_px_events.is_empty());
    for i in 0..output_px_events.len() {
        let span = input_px_events[i].t - 5..input_px_events[i].t + 5;
        let t = output_px_events[i].t;
        assert!(span.contains(&t));
    }
}

#[test]
fn test_compress_decompress_several_with_skip() {
    let plane = PlaneSize::new(30, 30, 1).unwrap();
    let dt_ref = 255;
    let num_intervals = 10;

    let candidate_px_idx = (7, 12);
    let mut input_px_events = Vec::new();
    let mut output_px_events = Vec::new();

    let mut compressed_output = CompressedOutput::new(meta(plane, dt_ref, num_intervals));

    let mut counter = 0;
    for i in 0..10 {
        for y in 0..30 {
            for x in 0..30 {
                // Make the top left cube a skip cube half the time, and skip pixel (14, 14)
                if !(y == 14 && x == 14 || i % 3 == 0 && y >= 16 && x < 16) {
                    let event = Event {
                        coord: Coord { x, y, c: None },
                        t: 280 + counter,
                        d: 7,
                    };
                    if y == candidate_px_idx.0 && x == candidate_px_idx.1 {
                        input_px_events.push(event);
                    }
                    compressed_output.ingest_event(event).unwrap();

                    counter += 1;
                }
            }
        }
    }

    // Much later, integrate an event with a timestamp far in the past:
    let late_event = Event {
        coord: Coord {
            x: 14,
            y: 14,
            c: None,
        },
        t: 280,
        d: 7,
    };
    compressed_output.ingest_event(late_event).unwrap();

    for i in 0..10 {
        for y in 0..30 {
            for x in 0..30 {
                if !(y == 14 && x == 14 || i % 3 == 0 && y >= 16 && x < 16) {
                    let event = Event {
                        coord: Coord { x, y, c: None },
                        t: 280 + counter,
                        d: 7,
                    };
                    if y == candidate_px_idx.0 && x == candidate_px_idx.1 {
                        input_px_events.push(event);
                    }
                    compressed_output.ingest_event(event).unwrap();

                    counter += 1;
                }
            }
        }
    }

    let output = compressed_output.into_writer();
    assert!(!output.is_empty());
    // Check that the size is less than the raw events
    assert!((output.len() as u32) < counter * 9);

    let mut compressed_input = CompressedInput::new(
        dt_ref * num_intervals as u32,
        dt_ref,
        num_intervals as usize,
    );
    compressed_input.meta.plane = plane;
    let mut position = 0;
    loop {
        match compressed_input.digest_event(&output, &mut position) {
            Ok(event) => {
                if event.coord.y == candidate_px_idx.0 && event.coord.x == candidate_px_idx.1 {
                    output_px_events.push(event);
                }
            }
            Err(CodecError::Eof) => break,
            Err(e) => panic!("{:?}", e),
        }
    }

    assert!(input_px_events.len() >= output_px_events.len());
    assert!(!output_px_events.is_empty());
    for i in 0..output_px_events.len() {
        let a = input_px_events[i].t - 5..input_px_events[i].t + 5;
        let comp_t = output_px_events[i].t;
        assert!(a.contains(&comp_t));
        assert_eq!(input_px_events[i].d, output_px_events[i].d);
    }
}
