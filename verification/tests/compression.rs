use adder_codec::residual_models::{
    BlockDResidualModel, BlockDeltaTResidualModel, BlockIntraPredictionContextModel, DResidual,
    DeltaTResidual,
};
use adder_codec::types::EventCoordless;
use arithmetic_coding::{Decoder, Encoder};
use bitstream_io::{BigEndian, BitReader, BitWrite, BitWriter};
use rand::prelude::StdRng;
use rand::{Rng, SeedableRng};

const BLOCK_SIZE_BIG_AREA: usize = 64 * 64;

#[test]
fn test_i16_compression() {
    let model = BlockDResidualModel::new();
    let mut bitwriter = BitWriter::endian(Vec::new(), BigEndian);
    let encoder = Encoder::new(model.clone(), &mut bitwriter);

    let input: Vec<DResidual> = vec![
        0, 1, 2, 3, 4, 5, 6, 7, 8, 8, 8, 1, 2, 9, 9, 9, 9, 9, 9, 9, 9, 9, 9, 9, 9,
    ];

    let input_len = input.len() * 2;

    encoder.encode_all(input.clone()).unwrap();
    bitwriter.byte_align().unwrap();

    let buffer = bitwriter.into_writer();

    let output_len = buffer.len();
    println!("{:?}", &buffer);

    println!("input bytes: {input_len}");
    println!("output bytes: {output_len}");

    let buff: &[u8] = &buffer;
    let bitreader = BitReader::endian(buff, BigEndian);
    let mut decoder = Decoder::new(model, bitreader);
    let output: Vec<DResidual> = decoder.decode_all().map(Result::unwrap).collect();
    println!("{output:?}");
    assert_eq!(output, input);
}

#[test]
fn test_i16_rand_compression() {
    let model = BlockDResidualModel::new();
    let mut bitwriter = BitWriter::endian(Vec::new(), BigEndian);
    let encoder = Encoder::new(model.clone(), &mut bitwriter);

    let mut rng = rand::thread_rng();
    let input: Vec<DResidual> = (0..1000).map(|_| rng.gen_range(-255..255)).collect();

    let input_len = input.len() * 2;

    encoder.encode_all(input.clone()).unwrap();
    bitwriter.byte_align().unwrap();

    let buffer = bitwriter.into_writer();

    let output_len = buffer.len();

    println!("input bytes: {input_len}");
    println!("output bytes: {output_len}");

    // Should always be the case, since we can represent any number in [-255, 255] with 9 bits
    assert!(input_len * 10 > output_len * 16);

    let buff: &[u8] = &buffer;
    let bitreader = BitReader::endian(buff, BigEndian);
    let mut decoder = Decoder::new(model, bitreader);
    let output: Vec<DResidual> = decoder.decode_all().map(Result::unwrap).collect();
    assert_eq!(output, input);
}

#[test]
fn test_delta_t_compression() {
    let model = BlockDeltaTResidualModel::new(255 * 10);
    let mut bitwriter = BitWriter::endian(Vec::new(), BigEndian);
    let encoder = Encoder::new(model.clone(), &mut bitwriter);

    let input: Vec<DeltaTResidual> = vec![100, -250, 89, 87, 86, 105, -30, 20, -28, 120];

    let input_len = input.len() * 4;

    encoder.encode_all(input.clone()).unwrap();
    bitwriter.byte_align().unwrap();

    let buffer = bitwriter.into_writer();

    let output_len = buffer.len();
    println!("{:?}", &buffer);

    println!("input bytes: {input_len}");
    println!("output bytes: {output_len}");

    let buff: &[u8] = &buffer;
    let bitreader = BitReader::endian(buff, BigEndian);
    let mut decoder = Decoder::new(model, bitreader);
    let output: Vec<DeltaTResidual> = decoder.decode_all().map(Result::unwrap).collect();
    println!("{output:?}");
    assert_eq!(output, input);
}

#[test]
fn test_delta_t_rand_compression() {
    let delta_t_max = 255 * 10;
    let model = BlockDeltaTResidualModel::new(delta_t_max);
    let mut bitwriter = BitWriter::endian(Vec::new(), BigEndian);
    let encoder = Encoder::new(model.clone(), &mut bitwriter);

    let mut rng = rand::thread_rng();
    let input: Vec<DeltaTResidual> = (0..1000)
        .map(|_| rng.gen_range(-(delta_t_max as DeltaTResidual)..delta_t_max as DeltaTResidual))
        .collect();

    let input_len = input.len() * 4;

    encoder.encode_all(input.clone()).unwrap();
    bitwriter.byte_align().unwrap();

    let buffer = bitwriter.into_writer();

    let output_len = buffer.len();

    println!("input bytes: {input_len}");
    println!("output bytes: {output_len}");

    let buff: &[u8] = &buffer;
    let bitreader = BitReader::endian(buff, BigEndian);
    let mut decoder = Decoder::new(model, bitreader);
    let output: Vec<DeltaTResidual> = decoder.decode_all().map(Result::unwrap).collect();
    assert_eq!(output, input);
}

fn events_for_block(seed: Option<u64>) -> Vec<Option<EventCoordless>> {
    let mut rng = match seed {
        None => StdRng::from_rng(rand::thread_rng()).unwrap(),
        Some(_) => StdRng::seed_from_u64(42),
    };
    let mut events = Vec::new();
    for _ in 0..BLOCK_SIZE_BIG_AREA {
        events.push(Some(EventCoordless {
            d: rng.gen_range(0..20),
            delta_t: rng.gen_range(1..2550),
        }));
    }
    events
}

#[test]
fn test_encode_decode_block() {
    let mut context_model = BlockIntraPredictionContextModel::new(2550);
    let events = events_for_block(Some(473829479));

    let written = context_model.encode_block(&events).unwrap();

    let len = written.len();
    assert!(len < BLOCK_SIZE_BIG_AREA * 5); // 5 bytes per raw event when just encoding D and Dt
    println!("{len}");

    let mut context_model = BlockIntraPredictionContextModel::new(2550);

    let decoded = context_model
        .decode_block(&written, BLOCK_SIZE_BIG_AREA)
        .unwrap();

    for idx in 0..BLOCK_SIZE_BIG_AREA {
        let source_d = events[idx].unwrap().d;
        let source_dt = events[idx].unwrap().delta_t;

        let decoded_d = decoded[idx].unwrap().d;
        let decoded_dt = decoded[idx].unwrap().delta_t;

        assert_eq!(source_d, decoded_d);
        assert_eq!(source_dt, decoded_dt);
    }
}

#[test]
fn test_encode_empty_event() {
    let mut context_model = BlockIntraPredictionContextModel::new(2550);
    let mut events = events_for_block(None);

    // Set the first event to None
    events[0] = None;

    let written = context_model.encode_block(&events).unwrap();

    let len = written.len();
    assert!(len < BLOCK_SIZE_BIG_AREA * 5); // 5 bytes per raw event when just encoding D and Dt
    println!("{len}");

    let mut context_model = BlockIntraPredictionContextModel::new(2550);
    let decoded = context_model
        .decode_block(&written, BLOCK_SIZE_BIG_AREA)
        .unwrap();
    assert_eq!(decoded, events);
}
