use adder_codec::adu::{
    compare_channels, Adu, AduChannel, AduChannelType, AduCube, AduInterBlock, AduIntraBlock,
};
use adder_codec::stream::{compress_adu, decompress_adu};
use rand::prelude::StdRng;
use rand::{Rng, SeedableRng};

fn gen_random_intra_block(rng: &mut StdRng) -> AduIntraBlock {
    let mut d_residuals = [0i16; 256];
    let mut dt_residuals = [0i16; 256];
    for i in 0..256 {
        d_residuals[i] = rng.gen_range(-255..=256);
        dt_residuals[i] = rng.gen();
    }
    AduIntraBlock {
        head_event_t: rng.gen(),
        head_event_d: rng.gen(),
        shift_loss_param: rng.gen(),
        sparam: rng.gen_range(0..=48),
        d_residuals,
        dt_residuals,
    }
}

fn gen_rand_channel(mut rng: StdRng) -> AduChannel {
    let mut channel = AduChannel::new();
    for _ in 0..10 {
        let intra_block = gen_random_intra_block(&mut rng);
        let mut cube = AduCube::from_intra_block(intra_block, rng.gen(), rng.gen());

        for _ in 0..10 {
            let intra_block = gen_random_intra_block(&mut rng);
            // For convenience, we'll just use the intra block's generator.
            let inter_block = AduInterBlock {
                shift_loss_param: intra_block.shift_loss_param,
                sparam: intra_block.sparam,
                d_residuals: intra_block.d_residuals,
                t_residuals: intra_block.dt_residuals,
            };
            cube.add_inter_block(inter_block);
        }
        channel.add_cube(cube);
    }
    channel
}

fn setup_channel() -> Adu {
    let rng = StdRng::seed_from_u64(7);
    Adu {
        head_event_t: 0,
        cubes_r: gen_rand_channel(rng),
        cubes_g: AduChannel::new(),
        cubes_b: AduChannel::new(),
    }
}

fn setup_adu() -> Adu {
    let mut rng = StdRng::seed_from_u64(7);

    let cubes_r = gen_rand_channel(rng.clone());
    let cubes_g = gen_rand_channel(rng.clone());
    let cubes_b = gen_rand_channel(rng.clone());

    Adu {
        head_event_t: rng.gen(),
        cubes_r,
        cubes_g,
        cubes_b,
    }
}

#[test]
fn test_compress_channel() {
    let adu = setup_channel();
    let written_data = compress_adu(&adu, 1, 100, 100).unwrap();
    let output_len = written_data.len();
    let input_len = 1028 * 11 * 10; // Rough approximation
    assert!(output_len < input_len);
    println!("Output length: {}", output_len);
    println!("Input length: {}", input_len);
}

#[test]
fn test_decompress_channel() {
    let adu = setup_channel();
    let written_data = compress_adu(&adu, 1, 100, 100).unwrap();

    let decoded = decompress_adu(&written_data, 1, 100, 100).unwrap();

    assert!(compare_channels(&adu.cubes_r, &decoded.cubes_r));
}

#[test]
fn test_compress_adu() {
    let adu = setup_adu();
    let written_data = compress_adu(&adu, 3, 100, 100).unwrap();
    let output_len = written_data.len();
    let input_len = 1028 * 11 * 10 * 3; // Rough approximation
    assert!(output_len < input_len);
    println!("Output length: {}", output_len);
    println!("Input length: {}", input_len);
}

#[test]
fn test_decompress_adu() {
    let adu = setup_adu();
    let written_data = compress_adu(&adu, 3, 100, 100).unwrap();

    let decoded_adu = decompress_adu(&written_data, 3, 100, 100).unwrap();

    assert_eq!(adu.head_event_t, decoded_adu.head_event_t);

    assert!(compare_channels(&adu.cubes_r, &decoded_adu.cubes_r));
    assert!(compare_channels(&adu.cubes_g, &decoded_adu.cubes_g));
    assert!(compare_channels(&adu.cubes_b, &decoded_adu.cubes_b));
}

#[test]
fn add_cube_counts_per_channel() {
    let mut rng = StdRng::seed_from_u64(11);
    let mut adu = Adu::new();
    assert_eq!(adu.head_event_t, 0);
    assert_eq!(adu.cubes_r.num_cubes, 0);
    let cube = AduCube::from_intra_block(gen_random_intra_block(&mut rng), 3, 4);
    adu.add_cube(cube, AduChannelType::G);
    let cube = AduCube::from_intra_block(gen_random_intra_block(&mut rng), 5, 6);
    adu.add_cube(cube, AduChannelType::G);
    let cube = AduCube::from_intra_block(gen_random_intra_block(&mut rng), 7, 8);
    adu.add_cube(cube, AduChannelType::B);
    assert_eq!(adu.cubes_r.num_cubes, 0);
    assert_eq!(adu.cubes_g.num_cubes, 2);
    assert_eq!(adu.cubes_b.num_cubes, 1);
    assert_eq!(adu.cubes_g.cubes[1].idx_y, 5);
    assert_eq!(adu.cubes_g.cubes[1].idx_x, 6);
    assert_eq!(adu.cubes_b.cubes[0].idx_y, 7);
}

#[test]
fn compare_channels_tells_a_changed_residual() {
    let adu = setup_channel();
    let mut other = setup_channel();
    assert!(compare_channels(&adu.cubes_r, &other.cubes_r));
    other.cubes_r.cubes[3].inter_blocks[2].t_residuals[17] ^= 1;
    assert!(!compare_channels(&adu.cubes_r, &other.cubes_r));
}
