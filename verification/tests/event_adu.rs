use adder_codec::event_adu::{EventAdu, EventCube};
use adder_codec::stream::{
    max_cubes, max_inter_blocks, read_unit, CompressedInput, CompressedOutput,
};
use adder_codec::types::{
    CodecError, CodecMetadata, Coord, Event, EventCoordless, Mode, PlaneSize, SourceCamera,
    TimeMode,
};

fn plane(width: u16, height: u16, channels: u8) -> PlaneSize {
    PlaneSize::new(width, height, channels).unwrap()
}

fn event(x: u16, y: u16, c: Option<u8>, d: u8, t: u32) -> Event {
    Event {
        coord: Coord { x, y, c },
        d,
        t,
    }
}

fn meta(plane: PlaneSize, dt_ref: u32, num_intervals: usize, dtm: u32) -> CodecMetadata {
    CodecMetadata {
        codec_version: 0,
        header_size: 0,
        time_mode: TimeMode::AbsoluteT,
        plane,
        tps: 7650,
        ref_interval: dt_ref,
        delta_t_max: dtm,
        event_size: 0,
        source_camera: SourceCamera::FramedU8,
        adu_interval: num_intervals,
    }
}

#[test]
fn cube_keeps_the_events_of_a_pixel_in_their_order() {
    let first = EventCoordless { d: 7, delta_t: 10 };
    let mut cube = EventCube::with_event(2, 3, 1, 17, first);
    assert_eq!((cube.idx_y, cube.idx_x, cube.channel), (2, 3, 1));
    assert_eq!(cube.blocks.len(), 1);
    assert_eq!(cube.blocks[0][17], Some(first));
    assert_eq!(cube.counts[17], 1);
    assert_eq!(cube.last_time(17), Some(10));
    assert_eq!(cube.last_time(18), None);

    // the first event of another pixel goes to the first block
    let other = EventCoordless { d: 5, delta_t: 11 };
    assert!(cube.ingest(18, other, 3));
    assert_eq!(cube.blocks.len(), 1);
    assert_eq!(cube.blocks[0][18], Some(other));

    // the second event of a pixel goes to the second block
    let second = EventCoordless { d: 8, delta_t: 20 };
    assert!(cube.ingest(17, second, 3));
    assert_eq!(cube.blocks.len(), 2);
    assert_eq!(cube.blocks[0][17], Some(first));
    assert_eq!(cube.blocks[1][17], Some(second));
    assert_eq!(cube.blocks[1][18], None);
    assert_eq!(cube.counts[17], 2);
    assert_eq!(cube.last_time(17), Some(20));

    let third = EventCoordless { d: 9, delta_t: 30 };
    assert!(cube.ingest(17, third, 3));
    assert_eq!(cube.blocks.len(), 3);
    // a pixel with as many events as the cube may hold blocks takes no more
    assert!(!cube.ingest(17, third, 3));
    assert_eq!(cube.blocks.len(), 3);
    assert_eq!(cube.counts[17], 3);
    assert!(cube.ingest(18, third, 3));
    assert_eq!(cube.blocks[1][18], Some(third));
}

#[test]
fn unit_sorts_events_into_tiles() {
    let mut unit = EventAdu::new(plane(40, 40, 3), 100, 255, 10);
    assert!(unit.is_empty());
    assert!(unit.ingest_event(event(17, 35, Some(2), 7, 150)));
    assert!(!unit.is_empty());
    assert_eq!(unit.num_events, 1);
    assert_eq!(unit.cubes.len(), 1);
    let cube = &unit.cubes[0];
    assert_eq!((cube.idx_y, cube.idx_x, cube.channel), (2, 1, 2));
    assert_eq!(
        cube.blocks[0][3 * 16 + 1],
        Some(EventCoordless { d: 7, delta_t: 150 })
    );

    // same tile, other color plane: a cube of its own
    assert!(unit.ingest_event(event(17, 35, Some(0), 7, 151)));
    assert_eq!(unit.cubes.len(), 2);
    assert_eq!(unit.cubes[1].channel, 0);
    // same tile and plane: the same cube
    assert!(unit.ingest_event(event(31, 47 - 8, Some(2), 6, 152)));
    assert_eq!(unit.cubes.len(), 2);
    assert_eq!(
        unit.cubes[0].blocks[0][7 * 16 + 15],
        Some(EventCoordless { d: 6, delta_t: 152 })
    );
    assert_eq!(unit.find_cube(2, 1, 2), 0);
    assert_eq!(unit.find_cube(2, 1, 0), 1);
    assert_eq!(unit.find_cube(2, 1, 1), 2);
    assert_eq!(unit.num_events, 3);
}

#[test]
fn unit_refuses_events_outside_the_plane() {
    let mut unit = EventAdu::new(plane(40, 30, 1), 0, 255, 10);
    assert!(!unit.ingest_event(event(40, 0, None, 7, 1)));
    assert!(!unit.ingest_event(event(0, 30, None, 7, 1)));
    assert!(!unit.ingest_event(event(0, 0, Some(1), 7, 1)));
    assert!(unit.is_empty());
    assert_eq!(unit.num_events, 0);
    assert!(unit.ingest_event(event(39, 29, Some(0), 7, 1)));
    assert!(unit.ingest_event(event(39, 29, None, 7, 1)));
    assert_eq!(unit.cubes.len(), 1);
    assert!(unit.accepts(&Coord {
        x: 39,
        y: 29,
        c: None
    }));
    assert!(!unit.accepts(&Coord {
        x: 39,
        y: 29,
        c: Some(3)
    }));
}

#[test]
fn unit_keeps_the_times_of_a_pixel_in_order() {
    let mut unit = EventAdu::new(plane(16, 16, 1), 1_000, 255, 10);
    // an event before the window is stored at its start
    assert!(unit.ingest_event(event(1, 1, None, 7, 280)));
    assert_eq!(
        unit.cubes[0].blocks[0][17],
        Some(EventCoordless {
            d: 7,
            delta_t: 1_000
        })
    );
    assert!(unit.ingest_event(event(1, 1, None, 7, 1_500)));
    // an event before the last one of its pixel is stored at the time of that one
    assert!(unit.ingest_event(event(1, 1, None, 9, 1_200)));
    assert_eq!(
        unit.cubes[0].blocks[2][17],
        Some(EventCoordless {
            d: 9,
            delta_t: 1_500
        })
    );

    // in frame-perfect mode memory keeps the aligned time of the last event
    let mut unit = EventAdu::new(plane(16, 16, 1), 0, 255, 10);
    unit.mode = Mode::FramePerfect;
    assert!(unit.ingest_event(event(1, 1, None, 7, 300)));
    assert!(unit.ingest_event(event(1, 1, None, 7, 400)));
    assert_eq!(
        unit.cubes[0].blocks[1][17],
        Some(EventCoordless { d: 7, delta_t: 510 })
    );
    assert!(unit.ingest_event(event(1, 1, None, 7, 900)));
    assert_eq!(
        unit.cubes[0].blocks[2][17],
        Some(EventCoordless { d: 7, delta_t: 900 })
    );
    // without a frame interval nothing is stored
    unit.dt_ref = 0;
    assert!(!unit.ingest_event(event(1, 1, None, 7, 901)));
}

#[test]
fn unit_is_full_when_a_pixel_has_too_many_events() {
    let mut unit = EventAdu::new(plane(16, 16, 1), 0, 255, 10);
    unit.max_inter_blocks = 2;
    for i in 0..3 {
        assert!(unit.ingest_event(event(0, 0, None, 7, i)));
    }
    assert!(!unit.ingest_event(event(0, 0, None, 7, 3)));
    assert_eq!(unit.num_events, 3);
    assert!(unit.ingest_event(event(1, 0, None, 7, 3)));
    unit.reset(500);
    assert!(unit.is_empty());
    assert_eq!(unit.start_t, 500);
    assert_eq!(unit.num_events, 0);
    assert!(unit.ingest_event(event(0, 0, None, 7, 3)));
    assert_eq!(
        unit.cubes[0].blocks[0][0],
        Some(EventCoordless { d: 7, delta_t: 500 })
    );
}

fn filled_unit() -> (EventAdu, Vec<Event>) {
    let mut unit = EventAdu::new(plane(40, 40, 3), 0, 255, 10);
    unit.dtm = 2_550;
    let mut events = Vec::new();
    let mut t = 5;
    for round in 0..4u32 {
        for y in (0..40).step_by(3) {
            for x in (0..40).step_by(7) {
                for c in 0..3u8 {
                    if (x + y + c as u16 + round as u16) % 4 != 0 {
                        let e = event(x, y, Some(c), (7 + (x % 5) + round as u16) as u8, t);
                        assert!(unit.ingest_event(e));
                        events.push(e);
                        t += 3;
                    }
                }
            }
        }
    }
    (unit, events)
}

fn events_of_pixel(events: &[Event], coord: Coord) -> Vec<Event> {
    events.iter().filter(|e| e.coord == coord).copied().collect()
}

#[test]
fn unit_round_trip_keeps_every_pixel_s_events() {
    let (unit, events) = filled_unit();
    let coded = unit.compress().unwrap();
    assert_eq!(coded.head_event_t, 0);
    let in_plane = |c: u8| unit.cubes.iter().filter(|cube| cube.channel == c).count();
    assert_eq!(coded.cubes_r.num_cubes as usize, in_plane(0));
    assert_eq!(coded.cubes_g.num_cubes as usize, in_plane(1));
    assert_eq!(coded.cubes_b.num_cubes as usize, in_plane(2));
    assert_eq!(in_plane(0), 9);

    let mut reader = EventAdu::new(plane(40, 40, 3), 0, 255, 10);
    reader.dtm = 2_550;
    assert!(reader.decoder_is_empty());
    reader.decompress(&coded).unwrap();
    assert!(!reader.decoder_is_empty());
    let mut decoded = Vec::new();
    loop {
        match reader.digest_event() {
            Ok(e) => decoded.push(e),
            Err(CodecError::NoMoreEvents) => break,
            Err(e) => panic!("{:?}", e),
        }
    }
    assert!(reader.decoder_is_empty());
    assert_eq!(decoded.len(), events.len());
    // nothing is lost where no residual needs a shift
    for y in 0..40 {
        for x in 0..40 {
            for c in 0..3 {
                let coord = Coord { x, y, c: Some(c) };
                assert_eq!(
                    events_of_pixel(&decoded, coord),
                    events_of_pixel(&events, coord)
                );
            }
        }
    }
    // events come channel by channel
    let channels: Vec<u8> = decoded.iter().map(|e| e.coord.c.unwrap()).collect();
    let mut sorted = channels.clone();
    sorted.sort();
    assert_eq!(channels, sorted);
}

#[test]
fn unit_that_cannot_be_coded_is_refused() {
    let mut unit = EventAdu::new(plane(16, 16, 1), 0, 255, 10);
    unit.dtm = 100;
    assert!(unit.ingest_event(event(0, 0, None, 7, 0)));
    assert!(unit.ingest_event(event(1, 0, None, 7, 101)));
    assert_eq!(unit.compress().err(), Some(CodecError::MalformedEncoder));
    unit.dtm = 101;
    assert!(unit.compress().is_ok());
    assert!(unit.ingest_event(event(1, 0, None, 7, 203)));
    assert_eq!(unit.compress().err(), Some(CodecError::MalformedEncoder));
    unit.dtm = 102;
    assert!(unit.compress().is_ok());
}

#[test]
fn single_color_plane_has_no_channel_in_its_coordinates() {
    let mut unit = EventAdu::new(plane(16, 16, 1), 0, 255, 10);
    assert!(unit.ingest_event(event(3, 4, Some(0), 7, 9)));
    let coded = unit.compress().unwrap();
    let mut reader = EventAdu::new(plane(16, 16, 1), 0, 255, 10);
    reader.decompress(&coded).unwrap();
    assert_eq!(reader.digest_event(), Ok(event(3, 4, None, 7, 9)));
    assert_eq!(reader.digest_event(), Err(CodecError::NoMoreEvents));
    assert_eq!(reader.digest_event(), Err(CodecError::NoMoreEvents));
}

#[test]
fn stream_bounds_follow_the_metadata() {
    assert_eq!(max_cubes(&plane(16, 32, 1)), 2);
    assert_eq!(max_cubes(&plane(16, 30, 1)), 2);
    assert_eq!(max_cubes(&plane(17, 1, 3)), 2);
    assert_eq!(max_cubes(&plane(640, 480, 3)), 1_200);
    assert_eq!(max_cubes(&plane(65_535, 65_535, 1)), 65_535);
    assert_eq!(max_inter_blocks(0), 16);
    assert_eq!(max_inter_blocks(1), 16);
    assert_eq!(max_inter_blocks(5), 80);
    assert_eq!(max_inter_blocks(4_094), 65_504);
    assert_eq!(max_inter_blocks(4_095), 65_534);
    assert_eq!(max_inter_blocks(usize::MAX), 65_534);
}

#[test]
fn stream_writes_a_unit_when_its_window_is_over() {
    let mut output = CompressedOutput::new(meta(plane(16, 16, 1), 100, 5, 500));
    assert_eq!(output.magic(), [97, 100, 100, 101, 99]);
    assert_eq!(output.meta().ref_interval, 100);
    for t in [0u32, 100, 250, 500] {
        output.ingest_event(event(1, 1, None, 7, t)).unwrap();
    }
    assert!(output.stream.is_empty());
    assert_eq!(output.adu.num_events, 4);
    assert_eq!(output.adu.start_t, 0);

    // behind the window: the unit is written, the next one begins a window later
    output.ingest_event(event(1, 1, None, 7, 501)).unwrap();
    assert!(!output.stream.is_empty());
    assert_eq!(output.adu.num_events, 1);
    assert_eq!(output.adu.start_t, 500);
    let first = output.stream.clone();
    let length = u32::from_be_bytes([first[0], first[1], first[2], first[3]]);
    assert_eq!(length as usize, first.len() - 4);

    // far behind the window: the window that holds the event begins a whole number of
    // windows later
    output.ingest_event(event(1, 1, None, 7, 2_750)).unwrap();
    assert_eq!(output.adu.start_t, 2_500);
    assert_eq!(output.adu.num_events, 1);
    output.ingest_event(event(1, 1, None, 7, 3_000)).unwrap();
    assert_eq!(output.adu.start_t, 2_500);
    assert_eq!(output.adu.num_events, 2);
    output.ingest_event(event(1, 1, None, 7, 3_001)).unwrap();
    assert_eq!(output.adu.start_t, 3_000);

    let written = output.into_writer();
    assert!(output.stream.is_empty());
    assert_eq!(&written[..first.len()], &first[..]);

    // an event outside the plane is refused
    assert_eq!(
        output.ingest_event(event(16, 0, None, 7, 3_002)),
        Err(CodecError::MalformedEncoder)
    );
    assert_eq!(output.adu.num_events, 1);

    let mut input = CompressedInput::new(500, 100, 5);
    input.meta.plane = plane(16, 16, 1);
    let mut position = 0;
    let mut times = Vec::new();
    loop {
        match input.digest_event(&written, &mut position) {
            Ok(e) => times.push(e.t),
            Err(CodecError::Eof) => break,
            Err(e) => panic!("{:?}", e),
        }
    }
    assert_eq!(times, vec![0, 100, 250, 500, 501, 2_750, 3_000]);
    assert_eq!(position, written.len());
}

#[test]
fn separately_written_units_read_as_one_stream() {
    let full = |events: &[Event]| {
        let mut output = CompressedOutput::new(meta(plane(16, 16, 1), 100, 5, 500));
        for e in events {
            output.ingest_event(*e).unwrap();
        }
        output.flush(0).unwrap();
        output.into_writer()
    };
    let first: Vec<Event> = (0..40).map(|i| event(i % 16, i / 16, None, 7, i as u32 * 10)).collect();
    let second: Vec<Event> = (0..40)
        .map(|i| event(i % 16, i / 16, None, 8, 501 + i as u32 * 10))
        .collect();
    let both: Vec<Event> = first.iter().chain(second.iter()).copied().collect();

    let mut joined = full(&first);
    joined.extend(full(&second));
    // the second session begins with the unit of the window that it found empty
    assert_ne!(joined, full(&both));

    let read = |stream: &Vec<u8>| {
        let mut input = CompressedInput::new(500, 100, 5);
        input.meta.plane = plane(16, 16, 1);
        let mut position = 0;
        let mut decoded = Vec::new();
        loop {
            match input.digest_event(stream, &mut position) {
                Ok(e) => decoded.push(e),
                Err(e) => {
                    assert_eq!(e, CodecError::Eof);
                    break;
                }
            }
        }
        assert_eq!(position, stream.len());
        decoded
    };
    assert_eq!(read(&joined), both);
    assert_eq!(read(&full(&both)), both);
}

#[test]
fn unit_without_events_is_written_when_its_window_is_over() {
    let mut output = CompressedOutput::new(meta(plane(16, 16, 1), 100, 5, 500));
    // the first event lies behind the window of the unit that the stream begins with
    output.ingest_event(event(1, 1, None, 7, 1_700)).unwrap();
    let written = output.stream.clone();
    assert!(written.len() > 4);
    let length = u32::from_be_bytes([written[0], written[1], written[2], written[3]]);
    assert_eq!(length as usize, written.len() - 4);
    assert_eq!(output.adu.start_t, 1_500);
    assert_eq!(output.adu.num_events, 1);

    // a reader passes over the unit without events
    output.flush(2_000).unwrap();
    let written = output.into_writer();
    let mut input = CompressedInput::new(500, 100, 5);
    input.meta.plane = plane(16, 16, 1);
    let mut position = 0;
    assert_eq!(
        input.digest_event(&written, &mut position),
        Ok(event(1, 1, None, 7, 1_700))
    );
    assert_eq!(position, written.len());
    assert_eq!(
        input.digest_event(&written, &mut position),
        Err(CodecError::Eof)
    );
}

#[test]
fn plane_of_two_colors_is_written_as_three_channels() {
    let mut output = CompressedOutput::new(meta(plane(16, 16, 2), 100, 5, 500));
    output.ingest_event(event(1, 1, Some(0), 7, 10)).unwrap();
    output.ingest_event(event(2, 1, Some(1), 8, 20)).unwrap();
    output.flush(500).unwrap();
    let written = output.into_writer();
    let mut input = CompressedInput::new(500, 100, 5);
    input.meta.plane = plane(16, 16, 2);
    let mut position = 0;
    assert_eq!(
        input.digest_event(&written, &mut position),
        Ok(event(1, 1, Some(0), 7, 10))
    );
    assert_eq!(
        input.digest_event(&written, &mut position),
        Ok(event(2, 1, Some(1), 8, 20))
    );
    assert_eq!(
        input.digest_event(&written, &mut position),
        Err(CodecError::Eof)
    );
}

#[test]
fn broken_streams_are_told_apart_from_ended_ones() {
    let mut output = CompressedOutput::new(meta(plane(16, 16, 1), 100, 5, 500));
    for i in 0..30 {
        output.ingest_event(event(i % 16, 0, None, 7, i as u32)).unwrap();
    }
    output.flush(0).unwrap();
    let written = output.into_writer();

    let mut input = CompressedInput::new(500, 100, 5);
    input.meta.plane = plane(16, 16, 1);
    let mut position = 0;
    assert_eq!(
        input.digest_event(&vec![], &mut position),
        Err(CodecError::Eof)
    );
    // the stream ends inside the unit
    let cut = written[..written.len() - 1].to_vec();
    assert_eq!(
        input.digest_event(&cut, &mut position),
        Err(CodecError::Deserialize)
    );
    assert_eq!(position, 0);
    // the unit holds other symbols than it should
    let mut garbled = written.clone();
    for b in garbled.iter_mut().skip(4) {
        *b = !*b;
    }
    assert_eq!(
        input.digest_event(&garbled, &mut position),
        Err(CodecError::Deserialize)
    );
    // the same reader goes on with a sound stream
    position = 0;
    assert_eq!(
        input.digest_event(&written, &mut position),
        Ok(event(0, 0, None, 7, 0))
    );
    assert_eq!(position, written.len());

    let mut unit = EventAdu::new(plane(16, 16, 1), 0, 100, 5);
    unit.dtm = 500;
    unit.max_inter_blocks = max_inter_blocks(5);
    assert_eq!(read_unit(&mut unit, &written, 0, 1), Ok(written.len()));
    assert_eq!(unit.decoded.len(), 30);
    assert_eq!(
        read_unit(&mut unit, &written, written.len(), 1),
        Err(CodecError::Eof)
    );
}

#[test]
fn seek_positions_lie_on_event_boundaries() {
    let mut input = CompressedInput::new(255, 255, 1);
    input.meta.header_size = 24;
    input.meta.event_size = 9;
    assert_eq!(input.check_seek_position(24), Ok(()));
    assert_eq!(input.check_seek_position(33), Ok(()));
    assert_eq!(input.check_seek_position(24 + 9 * 1_000), Ok(()));
    assert_eq!(input.check_seek_position(25), Err(CodecError::Seek));
    assert_eq!(input.check_seek_position(32), Err(CodecError::Seek));
    // before the end of the header every position counts as its end
    assert_eq!(input.check_seek_position(0), Ok(()));
    assert_eq!(input.check_seek_position(23), Ok(()));
    assert_eq!(input.magic(), [97, 100, 100, 101, 99]);
    assert_eq!(input.meta().delta_t_max, 255);
}

#[test]
fn frame_perfect_stream_keeps_times_on_frame_boundaries() {
    let mut output = CompressedOutput::new(meta(plane(32, 16, 1), 255, 4, 2_550));
    output.adu.mode = Mode::FramePerfect;
    let mut events = Vec::new();
    for frame in 1..=12u32 {
        for x in (0..32u16).step_by(3) {
            if (x as u32 + frame) % 3 != 0 {
                let e = event(x, (x % 16) as u16, None, 7 + (frame % 2) as u8, frame * 255);
                output.ingest_event(e).unwrap();
                events.push(e);
            }
        }
    }
    let start = output.adu.start_t;
    output.flush(start).unwrap();
    let written = output.into_writer();

    let mut input = CompressedInput::new(2_550, 255, 4);
    input.meta.plane = plane(32, 16, 1);
    let mut reader = EventAdu::new(plane(32, 16, 1), 0, 255, 4);
    reader.mode = Mode::FramePerfect;
    input.adu = Some(reader);
    let mut position = 0;
    let mut decoded = Vec::new();
    while let Ok(e) = input.digest_event(&written, &mut position) {
        decoded.push(e);
    }
    assert_eq!(position, written.len());
    assert_eq!(decoded.len(), events.len());
    for e in &decoded {
        assert_eq!(e.t % 255, 0);
    }
    for x in 0..32 {
        let coord = Coord {
            x,
            y: x % 16,
            c: None,
        };
        let before = events_of_pixel(&events, coord);
        let after = events_of_pixel(&decoded, coord);
        assert_eq!(before, after);
        // no pixel waits longer than the bound between two of its events
        for pair in after.windows(2) {
            assert!(pair[1].t - pair[0].t <= 2_550);
        }
    }
}

#[test]
fn event_that_finds_no_room_is_refused() {
    let mut output = CompressedOutput::new(meta(plane(16, 16, 1), 100, 5, 500));
    output.adu.max_inter_blocks = 1;
    for t in [10u32, 20] {
        output.ingest_event(event(2, 1, None, 7, t)).unwrap();
    }
    assert!(output.stream.is_empty());
    // the pixel has as many events as a cube may hold blocks: within the window the event
    // is refused, nothing is written and the unit stays as it was
    assert_eq!(
        output.ingest_event(event(2, 1, None, 9, 30)),
        Err(CodecError::MalformedEncoder)
    );
    assert!(output.stream.is_empty());
    assert_eq!(output.adu.start_t, 0);
    assert_eq!(output.adu.num_events, 2);
    assert_eq!(output.adu.cubes.len(), 1);
    assert_eq!(output.adu.cubes[0].blocks.len(), 2);
    // behind the window: the unit is written, and the event is stored under its own time
    // in the window that holds it
    output.ingest_event(event(3, 1, None, 5, 1_234)).unwrap();
    assert!(!output.stream.is_empty());
    assert_eq!(output.adu.start_t, 1_000);
    assert_eq!(output.adu.num_events, 1);
    assert_eq!(
        output.adu.cubes[0].blocks[0][19],
        Some(EventCoordless {
            d: 5,
            delta_t: 1_234
        })
    );
}

#[test]
fn shifts_take_less_than_their_granularity_from_every_block() {
    let mut unit = EventAdu::new(plane(16, 16, 1), 0, 255, 10);
    unit.dtm = 200_000;
    let times = [0u32, 40_001, 120_002, 240_003];
    for t in times {
        assert!(unit.ingest_event(event(0, 0, None, 7, t)));
    }
    let coded = unit.compress().unwrap();
    let cube = &coded.cubes_r.cubes[0];
    assert_eq!(cube.intra_block.sparam, 0);
    let shifts: Vec<u8> = cube.inter_blocks.iter().map(|b| b.sparam).collect();
    assert_eq!(shifts, vec![1, 1, 1]);

    let mut reader = EventAdu::new(plane(16, 16, 1), 0, 255, 10);
    reader.dtm = 200_000;
    reader.decompress(&coded).unwrap();
    let mut decoded = Vec::new();
    while let Ok(e) = reader.digest_event() {
        assert_eq!(e.d, 7);
        decoded.push(e.t);
    }
    // every block with a shift of one takes at most one tick more from the time
    assert_eq!(decoded, vec![0, 40_000, 120_000, 240_000]);
}

#[test]
fn shift_moves_a_frame_perfect_time_off_its_boundary() {
    let mut unit = EventAdu::new(plane(16, 16, 1), 0, 255, 200);
    unit.mode = Mode::FramePerfect;
    unit.dtm = 50_000;
    assert!(unit.ingest_event(event(0, 0, None, 7, 0)));
    assert!(unit.ingest_event(event(0, 0, None, 7, 129 * 255)));
    assert!(unit.ingest_event(event(0, 0, None, 7, 130 * 255)));
    let coded = unit.compress().unwrap();
    assert_eq!(coded.cubes_r.cubes[0].inter_blocks[0].sparam, 1);
    assert_eq!(coded.cubes_r.cubes[0].inter_blocks[1].sparam, 0);

    let mut reader = EventAdu::new(plane(16, 16, 1), 0, 255, 200);
    reader.mode = Mode::FramePerfect;
    reader.dtm = 50_000;
    reader.decompress(&coded).unwrap();
    // the residual of 32895 ticks is halved and doubled: one tick is lost
    assert_eq!(reader.digest_event(), Ok(event(0, 0, None, 7, 0)));
    assert_eq!(reader.digest_event(), Ok(event(0, 0, None, 7, 129 * 255 - 1)));
    // memory keeps the boundary behind it, from which the next event is counted
    assert_eq!(reader.digest_event(), Ok(event(0, 0, None, 7, 130 * 255)));
}

#[test]
fn unit_of_a_single_event_is_longer_than_the_event() {
    let mut output = CompressedOutput::new(meta(plane(16, 16, 1), 255, 10, 2_550));
    output.ingest_event(event(3, 3, None, 7, 100)).unwrap();
    output.flush(0).unwrap();
    let written = output.into_writer();
    // a block is written whole, whatever it holds
    assert!(written.len() > 9);

    // many events on a few pixels cost less than nine bytes each
    let mut output = CompressedOutput::new(meta(plane(16, 16, 1), 255, 10, 2_550));
    let mut count = 0;
    for round in 0..16u32 {
        for pixel in 0..256u16 {
            let e = event(pixel % 16, pixel / 16, None, 7, round * 150 + 10);
            output.ingest_event(e).unwrap();
            count += 1;
        }
    }
    output.flush(0).unwrap();
    let written = output.into_writer();
    assert!(written.len() < 9 * count);
}
