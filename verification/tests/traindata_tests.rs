use chessers::errors::DataError;
use chessers::features::{encode_position, FEATURES, POSITION_CELLS, F32_ONE_BITS};
use chessers::game::{Game, Outcome};
use chessers::moves::Move;
use chessers::recordcodec::encode_game;
use chessers::traindata::{TrainData, encode_outcome, encode_game_positions};
use chessers::decimal::{parse_i32, parse_timectl};

fn three_ply_game() -> Game {
    Game {
        white_name: b"A".to_vec(),
        black_name: b"B".to_vec(),
        white_elo: 2700,
        black_elo: 2650,
        outcome: Outcome::WhiteWin,
        timectl_sec: 600,
        timectl_inc: 5,
        moves: vec![
            Move::new(12, 28, None),  // e4
            Move::new(52, 36, None),  // e5
            Move::new(6, 21, None),   // Nf3
        ],
    }
}

#[test]
fn scenario_three_plies_one_row_each() {
    let g = three_ply_game();
    let td = TrainData::from_games(vec![encode_game(&g)]).unwrap();
    assert_eq!(td.len(), 3);
    assert_eq!(td.ins().len(), 3 * POSITION_CELLS);
    assert_eq!(td.outs().len(), 9);
    let one = 1.0f32.to_bits();
    let zero = 0.0f32.to_bits();
    for row in 0..3 {
        assert_eq!(td.outs()[row * 3], one);
        assert_eq!(td.outs()[row * 3 + 1], zero);
        assert_eq!(td.outs()[row * 3 + 2], zero);
    }
}

#[test]
fn starting_position_feature_invariants() {
    let start = chessers::engine::Board::start();
    let tensor = encode_position(&start);
    assert_eq!(tensor.len(), 8 * 8 * FEATURES);
    let one = 1.0f32.to_bits();
    // Turn plane: all +1.0 with White to move.
    for x in 0..8 {
        for y in 0..8 {
            assert_eq!(tensor[x * 296 + y * 37 + 12], one);
        }
    }
    // Occupancy: exactly 32 ones across the twelve piece planes.
    let mut ones = 0;
    for x in 0..8 {
        for y in 0..8 {
            for f in 0..12 {
                if tensor[x * 296 + y * 37 + f] == one {
                    ones += 1;
                }
            }
        }
    }
    assert_eq!(ones, 32);
}

#[test]
fn encode_position_is_a_function_of_the_position() {
    // Encoding the same position twice gives identical tensors, at the
    // start and after a move.
    let b = chessers::engine::Board::start();
    assert_eq!(encode_position(&b), encode_position(&b));
    let b2 = b.play(&Move::new(12, 28, None)).unwrap();
    assert_eq!(encode_position(&b2), encode_position(&b2));
    let neg_one = (-1.0f32).to_bits();
    assert_eq!(encode_position(&b2)[12], neg_one);
    // Playing an illegal move is refused.
    assert!(b.play(&Move::new(0, 0, None)).is_none());
}

#[test]
fn turn_plane_flips_after_one_ply() {
    let g = three_ply_game();
    let (positions, outcome) = encode_game_positions(encode_game(&g)).unwrap();
    assert_eq!(positions.len(), 3);
    assert_eq!(outcome, encode_outcome(Outcome::WhiteWin));
    let neg_one = (-1.0f32).to_bits();
    let one = 1.0f32.to_bits();
    // After 1. e4 it is Black's turn; after 1... e5, White's again.
    assert_eq!(positions[0][12], neg_one);
    assert_eq!(positions[1][12], one);
}

#[test]
fn encode_outcome_one_hot() {
    let one = 1.0f32.to_bits();
    let zero = 0.0f32.to_bits();
    assert_eq!(encode_outcome(Outcome::WhiteWin), vec![one, zero, zero]);
    assert_eq!(encode_outcome(Outcome::Draw), vec![zero, one, zero]);
    assert_eq!(encode_outcome(Outcome::BlackWin), vec![zero, zero, one]);
}

#[test]
fn train_file_round_trip() {
    let g = three_ply_game();
    let td = TrainData::from_games(vec![encode_game(&g)]).unwrap();
    let bytes = td.encode_bin().unwrap();
    let back = TrainData::decode_bin(&bytes).unwrap();
    assert_eq!(back, td);
    assert_eq!(back.ins(), td.ins());
    assert_eq!(back.outs(), td.outs());
}

#[test]
fn train_file_round_trip_empty_batch() {
    let td = TrainData::from_games(Vec::new()).unwrap();
    assert_eq!(td.len(), 0);
    let bytes = td.encode_bin().unwrap();
    let back = TrainData::decode_bin(&bytes).unwrap();
    assert_eq!(back.len(), 0);
    assert_eq!(back, td);
}

#[test]
fn train_file_layout() {
    let td = TrainData::from_games(Vec::new()).unwrap();
    let bytes = td.encode_bin().unwrap();
    // 8-byte little-endian header length, always 64.
    assert_eq!(&bytes[0..8], &64u64.to_le_bytes());
    // The 16-byte magic.
    assert_eq!(&bytes[8..24], b"mychesstraindata");
    // Input shape (0, 8, 8, 37), output shape (0, 3).
    assert_eq!(&bytes[24..32], &0u64.to_le_bytes());
    assert_eq!(&bytes[32..40], &8u64.to_le_bytes());
    assert_eq!(&bytes[40..48], &8u64.to_le_bytes());
    assert_eq!(&bytes[48..56], &37u64.to_le_bytes());
    assert_eq!(&bytes[56..64], &0u64.to_le_bytes());
    assert_eq!(&bytes[64..72], &3u64.to_le_bytes());
    // The payload is a real zstd frame, not the raw cells.
    assert_eq!(&bytes[72..76], &[0x28, 0xb5, 0x2f, 0xfd]);
}

#[test]
fn train_file_rejects_corruption() {
    let g = three_ply_game();
    let td = TrainData::from_games(vec![encode_game(&g)]).unwrap();
    let bytes = td.encode_bin().unwrap();

    let mut bad_magic = bytes.clone();
    bad_magic[8] = b'X';
    assert_eq!(TrainData::decode_bin(&bad_magic), Err(DataError::Format));

    let truncated = bytes[..40].to_vec();
    assert_eq!(TrainData::decode_bin(&truncated), Err(DataError::Format));

    let mut bad_shape = bytes.clone();
    bad_shape[48] = 13;
    assert_eq!(TrainData::decode_bin(&bad_shape), Err(DataError::Format));

    let mut bad_payload = bytes.clone();
    let last = bad_payload.len() - 1;
    bad_payload[last] ^= 0xff;
    assert_eq!(TrainData::decode_bin(&bad_payload), Err(DataError::Format));
}

#[test]
fn from_games_rejects_illegal_stored_move() {
    // a1a1 is never a legal move: replay fails as an internal
    // inconsistency, not a format error.
    let mut g = three_ply_game();
    g.moves = vec![Move::new(0, 0, None)];
    assert_eq!(
        TrainData::from_games(vec![encode_game(&g)]),
        Err(DataError::Inconsistency)
    );
}

#[test]
fn from_games_rejects_unparsable_record() {
    assert_eq!(
        TrainData::from_games(vec![vec![1, 2, 3]]),
        Err(DataError::Format)
    );
}

#[test]
fn parse_i32_cases() {
    assert_eq!(parse_i32(&b"2700".to_vec()), Ok(2700));
    assert_eq!(parse_i32(&b"-15".to_vec()), Ok(-15));
    assert_eq!(parse_i32(&b"+15".to_vec()), Ok(15));
    assert_eq!(parse_i32(&b"2147483647".to_vec()), Ok(i32::MAX));
    assert_eq!(parse_i32(&b"-2147483648".to_vec()), Ok(i32::MIN));
    assert_eq!(parse_i32(&b"2147483648".to_vec()), Err(DataError::Validation));
    assert_eq!(parse_i32(&b"99999999999999999999".to_vec()), Err(DataError::Validation));
    assert_eq!(parse_i32(&b"".to_vec()), Err(DataError::Validation));
    assert_eq!(parse_i32(&b"-".to_vec()), Err(DataError::Validation));
    assert_eq!(parse_i32(&b"12a".to_vec()), Err(DataError::Validation));
    assert_eq!(parse_i32(&b"0012".to_vec()), Ok(12));
}

#[test]
fn parse_timectl_cases() {
    assert_eq!(parse_timectl(&b"600+5".to_vec()), Ok((600, 5)));
    assert_eq!(parse_timectl(&b"600".to_vec()), Ok((600, 0)));
    assert_eq!(parse_timectl(&b"600+5+3".to_vec()), Ok((600, 5)));
    assert_eq!(parse_timectl(&b"+5".to_vec()), Err(DataError::Validation));
    assert_eq!(parse_timectl(&b"x+5".to_vec()), Err(DataError::Validation));
}
