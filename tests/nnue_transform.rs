use chess_core::feature_transformer::{
    read_leb_128_bias_type, read_leb_128_psqt_type, FeatureTransformer, HALF_DIMENSIONS,
    INPUT_DIMENSIONS, PSQT_BUCKETS,
};
use chess_core::leb128::{write_leb_128_bias_type, write_leb_128_psqt_type, Leb128Error};

const MAGIC: &[u8] = b"COMPRESSED_LEB128";

fn segment(payload: &[u8], declared: u32) -> Vec<u8> {
    let mut v = MAGIC.to_vec();
    v.extend_from_slice(&declared.to_le_bytes());
    v.extend_from_slice(payload);
    v
}

#[test]
fn make_index_exact_values() {
    let mut ft = FeatureTransformer::new();
    // king on e1: no mirror, bucket 31
    assert_eq!(ft.make_index(0, 0, 0, 4), 31 * 11 * 64);
    // king on d1: mirrored to e1, piece on a1 mirrored to h1
    assert_eq!(ft.make_index(0, 0, 0, 3), 7 + 31 * 11 * 64);
    // knight of the opponent on c2 (10), king on h8 (63): bucket 31 - (28 + 3) = 0
    assert_eq!(ft.make_index(1, 1, 10, 63), 10 + 3 * 64);
}

#[test]
fn make_index_mirror_symmetric() {
    let mut ft = FeatureTransformer::new();
    let mirror = |sq: usize| (sq / 8) * 8 + (7 - sq % 8);
    for king in [0usize, 3, 4, 27, 36, 63] {
        for piece in [0usize, 9, 22, 45, 63] {
            for (p, o) in [(0usize, 0usize), (2, 1), (5, 0)] {
                assert_eq!(
                    ft.make_index(p, o, piece, king),
                    ft.make_index(p, o, mirror(piece), mirror(king))
                );
            }
        }
    }
}

#[test]
fn new_transformer_is_empty() {
    let ft = FeatureTransformer::new();
    assert!(ft.bias.is_empty());
    assert!(ft.my_acc_stack.is_empty());
    assert_eq!(ft.indices.len(), 11 * 64 * 32);
    assert!(ft.indices.iter().all(|&i| i == 0));
}

#[test]
fn leb128_reads_known_bytes() {
    // 1, -1, 64, -65
    let data = segment(&[0x01, 0x7f, 0xc0, 0x00, 0xbf, 0x7f], 6);
    let (vals, next) = read_leb_128_bias_type(&data, 0, 4).unwrap();
    assert_eq!(vals, vec![1i16, -1, 64, -65]);
    assert_eq!(next, data.len());
}

#[test]
fn leb128_reads_32_bit_values() {
    // 100000 and -1
    let data = segment(&[0xa0, 0x8d, 0x06, 0x7f], 4);
    let (vals, next) = read_leb_128_psqt_type(&data, 0, 2).unwrap();
    assert_eq!(vals, vec![100000i32, -1]);
    assert_eq!(next, 25);
}

#[test]
fn leb128_round_trip_through_reference_encoder() {
    let values: Vec<i16> = vec![0, 1, -1, 63, 64, -64, -65, 8191, 8192, -8193, 32767, -32768];
    let bytes = write_leb_128_bias_type(&values);
    let (decoded, next) = read_leb_128_bias_type(&bytes, 0, values.len()).unwrap();
    assert_eq!(decoded, values);
    assert_eq!(next, bytes.len());
    assert_eq!(write_leb_128_bias_type(&decoded), bytes);
}

#[test]
fn leb128_encoder_writes_shortest_form() {
    let bytes = write_leb_128_bias_type(&[1, -1, 64]);
    assert_eq!(bytes, segment(&[0x01, 0x7f, 0xc0, 0x00], 4));
}

#[test]
fn leb128_segments_follow_each_other() {
    let mut data = write_leb_128_bias_type(&[5, -6]);
    let second = write_leb_128_bias_type(&[300]);
    data.extend_from_slice(&second);
    let (a, p) = read_leb_128_bias_type(&data, 0, 2).unwrap();
    let (b, q) = read_leb_128_bias_type(&data, p, 1).unwrap();
    assert_eq!(a, vec![5, -6]);
    assert_eq!(b, vec![300]);
    assert_eq!(q, data.len());
}

#[test]
fn leb128_bad_magic() {
    let mut data = segment(&[0x01], 1);
    data[3] = b'X';
    assert_eq!(read_leb_128_bias_type(&data, 0, 1), Err(Leb128Error::BadMagic));
    assert_eq!(read_leb_128_bias_type(&[], 0, 1), Err(Leb128Error::BadMagic));
}

#[test]
fn leb128_truncated() {
    let data = segment(&[0x01], 5);
    assert_eq!(read_leb_128_bias_type(&data, 0, 1), Err(Leb128Error::Truncated));
    let header_only = MAGIC.to_vec();
    assert_eq!(read_leb_128_bias_type(&header_only, 0, 1), Err(Leb128Error::Truncated));
}

#[test]
fn leb128_length_mismatch() {
    let data = segment(&[0x01, 0x02], 2);
    assert_eq!(read_leb_128_bias_type(&data, 0, 1), Err(Leb128Error::LengthMismatch));
}

#[test]
fn leb128_malformed() {
    let data = segment(&[0x01], 1);
    assert_eq!(read_leb_128_bias_type(&data, 0, 2), Err(Leb128Error::Malformed));
    // a 16-bit value may not take more than three bytes
    let long = segment(&[0x80, 0x80, 0x80, 0x00], 4);
    assert_eq!(read_leb_128_bias_type(&long, 0, 1), Err(Leb128Error::Malformed));
}

#[test]
fn leb128_third_byte_wraps() {
    // groups 0, 0, 4: 4 << 14 = 65536, which wraps to 0 in 16 bits
    let data = segment(&[0x80, 0x80, 0x04], 3);
    assert_eq!(read_leb_128_bias_type(&data, 0, 1).unwrap().0, vec![0i16]);
}

#[test]
fn read_parameters_rejects_empty_file() {
    assert!(matches!(FeatureTransformer::read_parameters(&[]), Err(Leb128Error::BadMagic)));
}

fn with_stacks(my: Vec<i16>, opp: Vec<i16>, my_psq: Vec<i32>, opp_psq: Vec<i32>) -> FeatureTransformer {
    let mut ft = FeatureTransformer::new();
    ft.my_acc_stack.push(my);
    ft.opp_acc_stack.push(opp);
    ft.my_psq_acc_stack.push(my_psq);
    ft.opp_psq_acc_stack.push(opp_psq);
    ft
}

#[test]
fn transform_clipped_products_and_psqt() {
    let half = HALF_DIMENSIONS / 2;
    let mut my = vec![0i16; HALF_DIMENSIONS];
    my[0] = 200;
    my[half] = 100;
    my[1] = -5;
    my[1 + half] = 100;
    my[2] = 64;
    my[2 + half] = 64;
    let mut opp = vec![0i16; HALF_DIMENSIONS];
    opp[0] = 127;
    opp[half] = 127;
    let mut my_psq = vec![0i32; PSQT_BUCKETS];
    let mut opp_psq = vec![0i32; PSQT_BUCKETS];
    my_psq[3] = 10;
    opp_psq[3] = 3;
    my_psq[4] = 3;
    opp_psq[4] = 10;
    let ft = with_stacks(my, opp, my_psq, opp_psq);
    let (x, out) = ft.transform(3);
    assert_eq!(x, 3);
    assert_eq!(out.len(), HALF_DIMENSIONS);
    assert_eq!(out[0], 99);
    assert_eq!(out[1], 0);
    assert_eq!(out[2], 32);
    assert_eq!(out[3], 0);
    assert_eq!(out[half], 126);
    assert!(out.iter().all(|&v| (0..=126).contains(&v)));
    let (y, _) = ft.transform(4);
    assert_eq!(y, -3);
}

#[test]
fn transform_psqt_difference_wraps() {
    let mut my_psq = vec![0i32; PSQT_BUCKETS];
    let mut opp_psq = vec![0i32; PSQT_BUCKETS];
    my_psq[0] = i32::MAX;
    opp_psq[0] = -1;
    let ft = with_stacks(vec![0; HALF_DIMENSIONS], vec![0; HALF_DIMENSIONS], my_psq, opp_psq);
    // i32::MAX + 1 wraps to i32::MIN; half of it toward zero
    assert_eq!(ft.transform(0).0, i32::MIN / 2);
}

fn loaded() -> FeatureTransformer {
    let mut ft = FeatureTransformer::new();
    ft.bias = (0..HALF_DIMENSIONS).map(|i| (i % 7) as i16).collect();
    ft.weights = vec![vec![0i16; HALF_DIMENSIONS]; INPUT_DIMENSIONS];
    ft.psqt_weights = vec![vec![0i32; PSQT_BUCKETS]; INPUT_DIMENSIONS];
    for j in 0..HALF_DIMENSIONS {
        ft.weights[5][j] = 2;
        ft.weights[9][j] = i16::MAX;
    }
    for j in 0..PSQT_BUCKETS {
        ft.psqt_weights[5][j] = j as i32;
        ft.psqt_weights[9][j] = 100;
    }
    ft
}

#[test]
fn accumulator_rows_add_and_subtract_with_wrap() {
    let ft = loaded();
    let mut acc = vec![1i16; HALF_DIMENSIONS];
    ft.add_to_accumulator(5, &mut acc);
    assert!(acc.iter().all(|&v| v == 3));
    ft.add_to_accumulator(9, &mut acc);
    assert!(acc.iter().all(|&v| v == i16::MIN + 2));
    ft.subtract_from_accumulator(9, &mut acc);
    assert!(acc.iter().all(|&v| v == 3));
    let mut psq = vec![0i32; PSQT_BUCKETS];
    ft.add_to_accumulator_psq(5, &mut psq);
    assert_eq!(psq, (0..8).collect::<Vec<i32>>());
    ft.subtract_from_accumulator_psq(9, &mut psq);
    assert_eq!(psq[0], -100);
    assert_eq!(ft.get_bias(), ft.bias);
}

#[test]
fn accumulator_stacks_make_and_unmake() {
    let mut ft = loaded();
    ft.refresh_accumulators(&vec![5], &vec![9]);
    assert_eq!(ft.my_acc_stack.len(), 1);
    assert_eq!(ft.my_acc_stack[0][0], 2);
    assert_eq!(ft.my_acc_stack[0][1], 3);
    assert_eq!(ft.opp_acc_stack[0][0], i16::MAX);
    assert_eq!(ft.my_psq_acc_stack[0][7], 7);
    let my_before = ft.my_acc_stack.clone();
    let opp_before = ft.opp_acc_stack.clone();
    let psq_before = ft.my_psq_acc_stack.clone();
    ft.push_move_accumulators(&vec![9], &vec![5], &vec![], &vec![9]);
    assert_eq!(ft.my_acc_stack.len(), 2);
    assert_eq!(ft.my_acc_stack[1][0], i16::MAX);
    assert_eq!(ft.opp_acc_stack[1][0], 0);
    assert_eq!(ft.my_psq_acc_stack[1][0], 100);
    ft.pop_accumulators();
    assert_eq!(ft.my_acc_stack, my_before);
    assert_eq!(ft.opp_acc_stack, opp_before);
    assert_eq!(ft.my_psq_acc_stack, psq_before);
    assert_eq!(ft.opp_psq_acc_stack.len(), 1);
}

#[test]
fn leb128_round_trip_32_bit() {
    let values: Vec<i32> = vec![0, 1, -1, 100000, -100000, 1 << 27, -(1 << 27), i32::MAX, i32::MIN];
    let bytes = write_leb_128_psqt_type(&values);
    let (decoded, next) = read_leb_128_psqt_type(&bytes, 0, values.len()).unwrap();
    assert_eq!(decoded, values);
    assert_eq!(next, bytes.len());
    assert_eq!(write_leb_128_psqt_type(&decoded), bytes);
    assert_eq!(write_leb_128_psqt_type(&[100000, -1]), segment(&[0xa0, 0x8d, 0x06, 0x7f], 4));
}

#[test]
fn index_table_matches_direct_computation() {
    let mut ft = FeatureTransformer::new();
    ft.create_indices_for_make();
    assert_eq!(ft.indices.len(), 11 * 64 * 32);
    for king in [0usize, 3, 4, 17, 31] {
        for piece in [0usize, 8, 33, 63] {
            for (p, o) in [(0usize, 0usize), (0, 1), (3, 1), (5, 0)] {
                let direct = ft.make_index(p, o, piece, king);
                assert_eq!(ft.make_index_cached(p, o, piece, king), direct);
            }
        }
    }
}
