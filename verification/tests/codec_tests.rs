use chessers::game::{Game, Outcome};
use chessers::gamedb::{Encoder, Decoder, decode_bin};
use chessers::moves::{Move, Role};
use chessers::errors::DataError;
use chessers::recordcodec::{encode_game, decode_game};

fn sample_games() -> Vec<Game> {
    vec![
        Game {
            white_name: b"Alice".to_vec(),
            black_name: b"Bob".to_vec(),
            white_elo: 2700,
            black_elo: 2650,
            outcome: Outcome::WhiteWin,
            timectl_sec: 600,
            timectl_inc: 5,
            moves: vec![Move::new(12, 28, None), Move::new(52, 36, None)],
        },
        Game {
            white_name: Vec::new(),
            black_name: b"X".to_vec(),
            white_elo: -3,
            black_elo: 0,
            outcome: Outcome::Draw,
            timectl_sec: i32::MAX,
            timectl_inc: i32::MAX,
            moves: Vec::new(),
        },
        Game {
            white_name: b"P".to_vec(),
            black_name: b"Q".to_vec(),
            white_elo: 1,
            black_elo: 2,
            outcome: Outcome::BlackWin,
            timectl_sec: 0,
            timectl_inc: 0,
            moves: vec![Move::new(55, 63, Some(Role::Queen)), Move::new(0, 0, Some(Role::King))],
        },
    ]
}

#[test]
fn game_db_round_trip() {
    let games = sample_games();
    let mut enc = Encoder::start();
    for g in &games {
        enc.write_game(g);
    }
    assert_eq!(enc.bytes_written(), enc.as_bytes().len());
    let bytes = enc.into_bytes();
    let back = decode_bin(bytes).unwrap();
    assert_eq!(back, games);
}

#[test]
fn game_db_magic_prefix() {
    let enc = Encoder::start();
    let bytes = enc.into_bytes();
    assert_eq!(bytes, b"PGNSUX\0\0\0\0\0\0\0\0\0\0".to_vec());
}

#[test]
fn game_record_round_trip() {
    for g in sample_games() {
        let body = encode_game(&g);
        let back = decode_game(&body).unwrap();
        assert_eq!(back, g);
    }
}

#[test]
fn game_record_rejects_trailing_bytes() {
    let mut body = encode_game(&sample_games()[0]);
    body.push(0);
    assert_eq!(decode_game(&body), Err(DataError::Format));
}

#[test]
fn decoder_rejects_bad_magic() {
    let mut bytes = Encoder::start().into_bytes();
    bytes[0] = b'X';
    assert!(Decoder::start(bytes).is_err());
    assert!(Decoder::start(b"PGNSUX".to_vec()).is_err());
}

#[test]
fn decoder_clean_end_versus_truncation() {
    let games = sample_games();
    let mut enc = Encoder::start();
    enc.write_game(&games[0]);
    let bytes = enc.into_bytes();

    // Ending exactly at a record boundary is a clean end of stream.
    let mut dec = Decoder::start(bytes.clone()).unwrap();
    assert!(dec.read_game().unwrap().is_some());
    assert!(dec.read_game().unwrap().is_none());

    // A record cut short is an error, not a clean end.
    let cut = bytes[..bytes.len() - 1].to_vec();
    let mut dec = Decoder::start(cut).unwrap();
    assert_eq!(dec.read_game(), Err(DataError::Format));
}

#[test]
fn raw_iter_yields_record_bodies() {
    let games = sample_games();
    let mut enc = Encoder::start();
    for g in &games {
        enc.write_game(g);
    }
    let dec = Decoder::start(enc.into_bytes()).unwrap();
    let mut it = dec.raw_iter();
    for g in &games {
        let raw = it.next().unwrap().unwrap();
        assert_eq!(raw, encode_game(g));
    }
    assert!(it.next().unwrap().is_none());
}

#[test]
fn decoder_read_game_raw_matches_record() {
    let games = sample_games();
    let mut enc = Encoder::start();
    enc.write_game(&games[2]);
    let mut dec = Decoder::start(enc.into_bytes()).unwrap();
    let raw = dec.read_game_raw().unwrap().unwrap();
    assert_eq!(raw, encode_game(&games[2]));
    assert!(dec.read_game_raw().unwrap().is_none());
}

#[test]
fn framed_garbage_is_a_format_error() {
    // A record whose length prefix frames it correctly but whose body is
    // not a game encoding.
    let mut bytes = Encoder::start().into_bytes();
    bytes.extend_from_slice(&3u64.to_le_bytes());
    bytes.extend_from_slice(&[1, 2, 3]);
    let mut dec = Decoder::start(bytes.clone()).unwrap();
    assert_eq!(dec.read_game(), Err(DataError::Format));
    // The raw reader still hands the framed body out.
    let mut dec = Decoder::start(bytes).unwrap();
    assert_eq!(dec.read_game_raw().unwrap().unwrap(), vec![1, 2, 3]);
}

#[test]
fn record_length_prefix_frames_body() {
    let g = &sample_games()[0];
    let body = encode_game(g);
    let mut enc = Encoder::start();
    enc.write_game(g);
    let bytes = enc.into_bytes();
    assert_eq!(&bytes[16..24], &(body.len() as u64).to_le_bytes());
    assert_eq!(&bytes[24..], &body[..]);
}

#[test]
fn record_rejects_bad_outcome_code() {
    let mut body = encode_game(&sample_games()[1]);
    // The outcome code of this record sits after two length-prefixed
    // empty/short names and two ratings.
    let off = 8 + 0 + 8 + 1 + 4 + 4;
    body[off] = 9;
    assert_eq!(decode_game(&body), Err(DataError::Format));
}
