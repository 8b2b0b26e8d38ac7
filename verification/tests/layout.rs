use adder_codec::adu::{
    Adu, AduChannel, AduChannelType, AduCube, AduInterBlock, AduIntraBlock,
};
use adder_codec::coder::{decode_symbols, encode_symbols, CoderModel};
use adder_codec::fenwick::FenwickModel;
use adder_codec::layout::ContextKind;
use adder_codec::prediction::D_ENCODE_NO_EVENT;
use adder_codec::tracker::{LayoutTracker, Phase};
use adder_codec::types::CodecError;

fn intra(head_t: u32, head_d: u8) -> AduIntraBlock {
    let mut d_residuals = [D_ENCODE_NO_EVENT; 256];
    let mut dt_residuals = [0i16; 256];
    d_residuals[0] = 0;
    d_residuals[1] = -255;
    d_residuals[2] = 255;
    dt_residuals[1] = i16::MIN;
    dt_residuals[2] = i16::MAX;
    dt_residuals[3] = -1;
    AduIntraBlock {
        head_event_t: head_t,
        head_event_d: head_d,
        shift_loss_param: 4,
        sparam: 5,
        d_residuals,
        dt_residuals,
    }
}

fn inter(seed: i16) -> AduInterBlock {
    let mut d_residuals = [D_ENCODE_NO_EVENT; 256];
    let mut t_residuals = [0i16; 256];
    for i in 0..256 {
        if i % 5 == 0 {
            d_residuals[i] = (i as i16 + seed) % 200 - 100;
            t_residuals[i] = seed.wrapping_mul(i as i16 + 1);
        }
    }
    AduInterBlock {
        shift_loss_param: 1,
        sparam: 2,
        d_residuals,
        t_residuals,
    }
}

fn small_adu() -> Adu {
    let mut adu = Adu::new();
    adu.head_event_t = 0x0102_0304;
    let cube = AduCube::from_intra_block(intra(0x0a0b_0c0d, 7), 0x0102, 0x0003);
    adu.add_cube(cube, AduChannelType::R);
    adu
}

#[test]
fn symbols_of_a_unit_follow_the_layout() {
    let adu = small_adu();
    let symbols = adu.to_symbols(1);
    assert_eq!(symbols.len(), 4 + 2 + 6 + 519);
    // head time
    assert_eq!(&symbols[0..4], &[1, 2, 3, 4]);
    // number of cubes
    assert_eq!(&symbols[4..6], &[0, 1]);
    // tile index and number of inter blocks
    assert_eq!(&symbols[6..12], &[1, 2, 0, 3, 0, 0]);
    // head event: decimation, then time
    assert_eq!(&symbols[12..17], &[7, 0x0a, 0x0b, 0x0c, 0x0d]);
    // loss parameter and shift
    assert_eq!(&symbols[17..19], &[4, 5]);
    // decimation residuals are moved up by 255; the no-event mark comes last
    assert_eq!(&symbols[19..23], &[255, 0, 510, 511]);
    assert_eq!(symbols[19 + 255], 511);
    // time residuals are moved up by 32768
    assert_eq!(&symbols[275..280], &[32768, 0, 65535, 32767, 32768]);
    assert_eq!(symbols[530], 32768);
}

#[test]
fn symbols_of_three_channels() {
    let adu = small_adu();
    let symbols = adu.to_symbols(3);
    assert_eq!(symbols.len(), 4 + 2 + 6 + 519 + 2 + 2);
    assert_eq!(&symbols[531..535], &[0, 0, 0, 0]);
    let back = Adu::from_symbols(&symbols, 3).unwrap();
    assert_eq!(back.head_event_t, 0x0102_0304);
    assert_eq!(back.cubes_r.num_cubes, 1);
    assert_eq!(back.cubes_g.num_cubes, 0);
    assert_eq!(back.cubes_b.num_cubes, 0);
    // as the symbols of one channel they spell nothing
    assert_eq!(
        Adu::from_symbols(&symbols, 1).err(),
        Some(CodecError::Deserialize)
    );
}

#[test]
fn reading_gives_back_what_was_written() {
    let mut adu = Adu::new();
    adu.head_event_t = 77;
    let mut cube = AduCube::from_intra_block(intra(1, 2), 3, 4);
    cube.add_inter_block(inter(3));
    cube.add_inter_block(inter(-7));
    adu.add_cube(cube, AduChannelType::R);
    adu.add_cube(
        AduCube::from_intra_block(intra(5, 6), 7, 8),
        AduChannelType::R,
    );
    let mut cube = AduCube::from_intra_block(intra(9, 10), 11, 12);
    cube.add_inter_block(inter(100));
    adu.add_cube(cube, AduChannelType::B);

    let symbols = adu.to_symbols(3);
    assert_eq!(
        symbols.len(),
        4 + (2 + 2 * (6 + 519) + 2 * 514) + 2 + (2 + 6 + 519 + 514)
    );
    let back = Adu::from_symbols(&symbols, 3).unwrap();
    assert_eq!(back.head_event_t, 77);
    assert_eq!(back.cubes_r.num_cubes, 2);
    assert_eq!(back.cubes_g.num_cubes, 0);
    assert_eq!(back.cubes_b.num_cubes, 1);
    assert_eq!(back.to_symbols(3), symbols);
    let cube = &back.cubes_r.cubes[0];
    assert_eq!((cube.idx_y, cube.idx_x, cube.num_inter_blocks), (3, 4, 2));
    assert_eq!(cube.intra_block.head_event_t, 1);
    assert_eq!(cube.intra_block.head_event_d, 2);
    assert_eq!(cube.intra_block.shift_loss_param, 4);
    assert_eq!(cube.intra_block.sparam, 5);
    assert_eq!(cube.intra_block.d_residuals, intra(1, 2).d_residuals);
    assert_eq!(cube.intra_block.dt_residuals, intra(1, 2).dt_residuals);
    assert_eq!(cube.inter_blocks[1].d_residuals, inter(-7).d_residuals);
    assert_eq!(cube.inter_blocks[1].t_residuals, inter(-7).t_residuals);
    assert!(cube.same_as(&adu.cubes_r.cubes[0]));
    assert!(!cube.same_as(&adu.cubes_r.cubes[1]));
}

#[test]
fn symbols_that_spell_no_unit_are_refused() {
    let symbols = small_adu().to_symbols(1);
    assert!(Adu::from_symbols(&symbols, 1).is_ok());

    // too short
    let mut short = symbols.clone();
    short.pop();
    assert_eq!(
        Adu::from_symbols(&short, 1).err(),
        Some(CodecError::Deserialize)
    );
    assert_eq!(
        Adu::from_symbols(&vec![], 1).err(),
        Some(CodecError::Deserialize)
    );
    assert_eq!(
        Adu::from_symbols(&vec![0, 0, 0], 1).err(),
        Some(CodecError::Deserialize)
    );
    // too long
    let mut long = symbols.clone();
    long.push(0);
    assert_eq!(
        Adu::from_symbols(&long, 1).err(),
        Some(CodecError::Deserialize)
    );
    // a byte that is none
    let mut bad = symbols.clone();
    bad[2] = 256;
    assert_eq!(
        Adu::from_symbols(&bad, 1).err(),
        Some(CodecError::Deserialize)
    );
    // a decimation residual outside the alphabet
    let mut bad = symbols.clone();
    bad[19] = 512;
    assert_eq!(
        Adu::from_symbols(&bad, 1).err(),
        Some(CodecError::Deserialize)
    );
    // a time residual outside the alphabet
    let mut bad = symbols.clone();
    bad[275] = 65536;
    assert_eq!(
        Adu::from_symbols(&bad, 1).err(),
        Some(CodecError::Deserialize)
    );
    // more cubes announced than there are
    let mut bad = symbols.clone();
    bad[5] = 2;
    assert_eq!(
        Adu::from_symbols(&bad, 1).err(),
        Some(CodecError::Deserialize)
    );
    // a unit without cubes
    let empty = Adu::from_symbols(&vec![0, 0, 0, 9, 0, 0], 1).unwrap();
    assert_eq!(empty.head_event_t, 9);
    assert_eq!(empty.cubes_r.num_cubes, 0);
}

fn contexts_along(symbols: &[usize], mut tracker: LayoutTracker) -> (Vec<ContextKind>, LayoutTracker) {
    let mut contexts = Vec::new();
    for s in symbols {
        contexts.push(tracker.context());
        tracker.advance(Some(*s));
    }
    (contexts, tracker)
}

#[test]
fn tracker_names_the_context_of_every_symbol() {
    let mut adu = small_adu();
    adu.cubes_r.cubes[0].add_inter_block(inter(1));
    let symbols = adu.to_symbols(1);
    let (contexts, end) = contexts_along(&symbols, LayoutTracker::new(1, 10, 10));
    for (i, c) in contexts.iter().enumerate() {
        let want = if i < 19 {
            ContextKind::U8General
        } else if i < 19 + 256 {
            ContextKind::D
        } else if i < 19 + 512 {
            ContextKind::Dt
        } else if i < 19 + 512 + 2 {
            ContextKind::U8General
        } else if i < 19 + 512 + 2 + 256 {
            ContextKind::D
        } else {
            ContextKind::Dt
        };
        assert_eq!(*c, want, "symbol {i}");
    }
    assert_eq!(end.phase, Phase::End);
    assert!(end.is_complete());
    assert_eq!(end.context(), ContextKind::Eof);

    let symbols = adu.to_symbols(3);
    let (_, end) = contexts_along(&symbols, LayoutTracker::new(3, 10, 10));
    assert!(end.is_complete());
    // as the symbols of one channel, two channels are left over
    let (_, end) = contexts_along(&symbols, LayoutTracker::new(1, 10, 10));
    assert_eq!(end.phase, Phase::Failed);
}

#[test]
fn tracker_stops_at_a_count_above_its_bound() {
    let mut adu = small_adu();
    adu.cubes_r.cubes[0].add_inter_block(inter(1));
    adu.cubes_r.cubes[0].add_inter_block(inter(2));
    let symbols = adu.to_symbols(1);
    // two inter blocks are one too many
    let (contexts, end) = contexts_along(&symbols, LayoutTracker::new(1, 10, 1));
    assert_eq!(end.phase, Phase::Failed);
    assert_eq!(contexts[11], ContextKind::U8General);
    assert_eq!(contexts[12], ContextKind::Eof);
    // one cube is one too many
    let (contexts, end) = contexts_along(&symbols, LayoutTracker::new(1, 0, 10));
    assert_eq!(end.phase, Phase::Failed);
    assert_eq!(contexts[5], ContextKind::U8General);
    assert_eq!(contexts[6], ContextKind::Eof);
    // the end-of-sequence mark inside the unit ends the walk, behind it it does not
    let mut tracker = LayoutTracker::new(1, 10, 10);
    tracker.advance(None);
    assert_eq!(tracker.phase, Phase::Failed);
    let (_, mut end) = contexts_along(&symbols, LayoutTracker::new(1, 10, 10));
    end.advance(None);
    assert_eq!(end.phase, Phase::End);
    end.advance(Some(0));
    assert_eq!(end.phase, Phase::Failed);
}

#[test]
fn coder_gives_back_the_symbols_of_a_unit() {
    let mut adu = small_adu();
    adu.cubes_r.cubes[0].add_inter_block(inter(9));
    let symbols = adu.to_symbols(3);
    let bytes = encode_symbols(CoderModel::for_adu(3, 4, 4), symbols.clone()).unwrap();
    // far fewer bits than the symbols take as they are
    assert!(bytes.len() < symbols.len());
    assert!(!bytes.is_empty());
    let back = decode_symbols(CoderModel::for_adu(3, 4, 4), &bytes).unwrap();
    assert_eq!(back, symbols);
}

#[test]
fn coder_refuses_a_unit_beyond_the_bounds_of_its_model() {
    let mut adu = small_adu();
    adu.cubes_r.cubes[0].add_inter_block(inter(9));
    let symbols = adu.to_symbols(1);
    assert_eq!(
        encode_symbols(CoderModel::for_adu(1, 4, 0), symbols.clone()),
        Err(CodecError::MalformedEncoder)
    );
    assert_eq!(
        encode_symbols(CoderModel::for_adu(1, 0, 4), symbols.clone()),
        Err(CodecError::MalformedEncoder)
    );
    assert!(encode_symbols(CoderModel::for_adu(1, 1, 1), symbols).is_ok());
    // a symbol outside the alphabet of its context
    assert_eq!(
        encode_symbols(CoderModel::for_adu(1, 4, 4), vec![0, 0, 256]),
        Err(CodecError::MalformedEncoder)
    );
}

#[test]
fn decoding_ends_with_the_layout_whatever_the_bytes() {
    for seed in 0u32..20 {
        let bytes: Vec<u8> = (0..200u32)
            .map(|i| (i.wrapping_mul(2_654_435_761).wrapping_add(seed * 40_503) >> 13) as u8)
            .collect();
        let symbols = decode_symbols(CoderModel::for_adu(1, 2, 2), &bytes).unwrap();
        // at most two cubes of three blocks each
        assert!(symbols.len() <= 4 + 2 + 2 * (6 + 519 + 2 * 514));
    }
    let symbols = decode_symbols(CoderModel::for_adu(3, 2, 2), &vec![]).unwrap();
    assert!(symbols.len() <= 4 + 3 * (2 + 2 * (6 + 519 + 2 * 514)));
}

#[test]
fn plain_model_codes_a_sequence_in_one_context() {
    let symbols: Vec<usize> = vec![3, 3, 3, 0, 7, 3, 3, 1, 3, 3, 3, 3, 3, 2, 3, 3];
    let model = FenwickModel::with_symbols(8, 1 << 16);
    let bytes = encode_symbols(CoderModel::plain(model.clone(), 16), symbols.clone()).unwrap();
    let back = decode_symbols(CoderModel::plain(model.clone(), 16), &bytes).unwrap();
    assert_eq!(back, symbols);
    // a sequence longer than the model was made for is refused
    assert_eq!(
        encode_symbols(CoderModel::plain(model.clone(), 15), symbols.clone()),
        Err(CodecError::MalformedEncoder)
    );
    // a symbol outside the alphabet is refused
    assert_eq!(
        encode_symbols(CoderModel::plain(model.clone(), 16), vec![8]),
        Err(CodecError::MalformedEncoder)
    );
    // no more symbols are decoded than the model was made for
    let some = decode_symbols(CoderModel::plain(model.clone(), 5), &bytes).unwrap();
    assert_eq!(some, symbols[..5].to_vec());
    let none = decode_symbols(CoderModel::plain(model, 0), &bytes).unwrap();
    assert!(none.is_empty());
}

#[test]
fn coder_model_answers_from_the_context_of_the_position() {
    let mut model = CoderModel::for_adu(1, 4, 4);
    // a byte context: 256 symbols and the end mark
    assert_eq!(model.total(), 257);
    assert_eq!(model.bound(), 1 << 20);
    assert_eq!(model.range_of(Some(&5)), Some(5..6));
    assert_eq!(model.range_of(Some(&256)), None);
    assert_eq!(model.range_of(None), Some(256..257));
    assert_eq!(model.symbol_at(5), Some(5));
    assert_eq!(model.symbol_at(256), None);
    model.observe(Some(&5));
    assert_eq!(model.total(), 258);
    assert_eq!(model.range_of(Some(&5)), Some(5..7));
    assert_eq!(model.range_of(Some(&6)), Some(7..8));
    assert_eq!(model.symbol_at(6), Some(5));
    // walk to the first decimation residual: 19 symbols in all, one cube announced
    for i in 1..19 {
        model.observe(Some(&(if i == 5 { 1 } else { 0 })));
    }
    assert_eq!(model.total(), 513);
    assert_eq!(model.range_of(Some(&511)), Some(511..512));
    assert_eq!(model.range_of(Some(&512)), None);
    for _ in 0..256 {
        model.observe(Some(&511));
    }
    // the time residuals: 65536 symbols and the end mark
    assert_eq!(model.total(), 65537);
    assert_eq!(model.range_of(Some(&65535)), Some(65535..65536));
    for _ in 0..256 {
        model.observe(Some(&32768));
    }
    // the unit is complete: only the end mark can follow
    assert_eq!(model.total(), 1);
    assert_eq!(model.range_of(None), Some(0..1));
    assert_eq!(model.range_of(Some(&0)), None);
    assert_eq!(model.symbol_at(0), None);
}

#[test]
fn channel_counts_follow_its_cubes() {
    let mut channel = AduChannel::new();
    assert_eq!(channel.num_cubes, 0);
    channel.add_cube(AduCube::from_intra_block(intra(1, 2), 3, 4));
    assert_eq!(channel.num_cubes, 1);
    let mut out = vec![42];
    channel.write_symbols(&mut out);
    assert_eq!(out.len(), 1 + 2 + 6 + 519);
    assert_eq!(&out[..3], &[42, 0, 1]);
    let (back, next) = AduChannel::parse(&out, 1).unwrap();
    assert_eq!(next, out.len());
    assert_eq!(back.num_cubes, 1);
    assert!(AduChannel::parse(&out, 2).is_none());
}
