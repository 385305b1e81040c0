use chessers::errors::DataError;
use chessers::game::{Game, Outcome, game_passes_filter};
use chessers::moves::{Move, Role};
use chessers::pgn::PgnVisitor;

/// Feeds one PGN text through pgn-reader into the library's visitor,
/// collecting the games it yields (as the application driver does).
struct Shim {
    visitor: PgnVisitor,
    error: Option<DataError>,
}

impl pgn_reader::Visitor for Shim {
    type Result = Result<Option<Game>, DataError>;

    fn begin_game(&mut self) {
        self.visitor.begin_game();
        self.error = None;
    }

    fn header(&mut self, key: &[u8], value: pgn_reader::RawHeader<'_>) {
        let value = value.decode_utf8_lossy().as_bytes().to_vec();
        if self.error.is_none() {
            if let Err(e) = self.visitor.header(&key.to_vec(), &value) {
                self.error = Some(e);
            }
        }
    }

    fn end_headers(&mut self) -> pgn_reader::Skip {
        pgn_reader::Skip(self.visitor.end_headers())
    }

    fn begin_variation(&mut self) -> pgn_reader::Skip {
        pgn_reader::Skip(self.visitor.begin_variation())
    }

    fn san(&mut self, san_plus: pgn_reader::SanPlus) {
        let san = san_plus.san.to_string().into_bytes();
        if self.error.is_none() {
            if let Err(e) = self.visitor.san(&san) {
                self.error = Some(e);
            }
        }
    }

    fn end_game(&mut self) -> Self::Result {
        if let Some(e) = self.error.take() {
            return Err(e);
        }
        self.visitor.end_game()
    }
}

fn parse_pgn(text: &str) -> Vec<Result<Option<Game>, DataError>> {
    let mut shim = Shim { visitor: PgnVisitor::new(), error: None };
    let mut reader = pgn_reader::BufferedReader::new_cursor(text);
    let mut out = Vec::new();
    while let Some(r) = reader.read_game(&mut shim).unwrap() {
        out.push(r);
    }
    out
}

const SAMPLE: &str = "[White \"Alice\"]\n[WhiteElo \"2700\"]\n[Black \"Bob\"]\n\
[BlackElo \"2650\"]\n[TimeControl \"600+5\"]\n[Result \"1-0\"]\n\
[Termination \"Normal\"]\n\n1. e4 e5 2. Nf3 1-0\n\n";

#[test]
fn visitor_builds_game_from_pgn() {
    let games = parse_pgn(SAMPLE);
    assert_eq!(games.len(), 1);
    let g = games[0].as_ref().unwrap().as_ref().unwrap();
    assert_eq!(g.white_name, b"Alice".to_vec());
    assert_eq!(g.black_name, b"Bob".to_vec());
    assert_eq!(g.white_elo, 2700);
    assert_eq!(g.black_elo, 2650);
    assert_eq!(g.timectl_sec, 600);
    assert_eq!(g.timectl_inc, 5);
    assert_eq!(g.outcome, Outcome::WhiteWin);
    let expected = vec![
        Move::new(12, 28, None),
        Move::new(52, 36, None),
        Move::new(6, 21, None),
    ];
    assert_eq!(g.moves, expected);
}

#[test]
fn visitor_untimed_timecontrol() {
    let text = SAMPLE.replace("600+5", "-");
    let games = parse_pgn(&text);
    let g = games[0].as_ref().unwrap().as_ref().unwrap();
    assert_eq!(g.timectl_sec, i32::MAX);
    assert_eq!(g.timectl_inc, i32::MAX);
}

#[test]
fn visitor_skips_abnormal_termination() {
    let text = SAMPLE.replace("Normal", "Time forfeit");
    let games = parse_pgn(&text);
    assert_eq!(games.len(), 1);
    assert!(games[0].as_ref().unwrap().is_none());
}

#[test]
fn visitor_skips_unusable_result() {
    let text = SAMPLE.replace("[Result \"1-0\"]", "[Result \"*\"]");
    let games = parse_pgn(&text);
    assert!(games[0].as_ref().unwrap().is_none());
}

#[test]
fn visitor_fails_on_unreadable_elo() {
    let text = SAMPLE.replace("2700", "unknown");
    let games = parse_pgn(&text);
    assert_eq!(*games[0].as_ref().unwrap_err(), DataError::Validation);
}

#[test]
fn visitor_fails_on_missing_header() {
    let text = SAMPLE.replace("[BlackElo \"2650\"]\n", "");
    let games = parse_pgn(&text);
    assert_eq!(*games[0].as_ref().unwrap_err(), DataError::Validation);
}

#[test]
fn visitor_result_maps_all_three() {
    for (token, outcome) in [
        ("1-0", Outcome::WhiteWin),
        ("0-1", Outcome::BlackWin),
        ("1/2-1/2", Outcome::Draw),
    ] {
        let text = SAMPLE.replace("1-0", token);
        let games = parse_pgn(&text);
        let g = games[0].as_ref().unwrap().as_ref().unwrap();
        assert_eq!(g.outcome, outcome);
    }
}

#[test]
fn write_pgn_renders_exact_text() {
    let g = Game {
        white_name: b"Alice".to_vec(),
        black_name: b"Bob".to_vec(),
        white_elo: 2700,
        black_elo: 2650,
        outcome: Outcome::WhiteWin,
        timectl_sec: 600,
        timectl_inc: 5,
        moves: vec![
            Move::new(12, 28, None),
            Move::new(52, 36, None),
            Move::new(6, 21, None),
        ],
    };
    let text = g.write_pgn().unwrap();
    let expected = "[White \"Alice\"]\n[WhiteElo \"2700\"]\n[Black \"Bob\"]\n\
[BlackElo \"2650\"]\n[TimeControl \"600+5\"]\n[Termination \"Normal\"]\n\n\
1. e4 e5 2. Nf3 1-0\n\n";
    assert_eq!(String::from_utf8(text).unwrap(), expected);
}

#[test]
fn pgn_to_game_to_pgn_keeps_moves_and_outcome() {
    // PGN -> Game -> PGN: the re-rendered SAN tokens and the outcome
    // string match the original movetext.
    let games = parse_pgn(SAMPLE);
    let g = games[0].as_ref().unwrap().as_ref().unwrap();
    let text = String::from_utf8(g.write_pgn().unwrap()).unwrap();
    assert!(text.ends_with("1. e4 e5 2. Nf3 1-0\n\n"));
    // And a promotion renders back to its original token.
    let promo_pgn = "[White \"A\"]\n[WhiteElo \"1\"]\n[Black \"B\"]\n[BlackElo \"2\"]\n\
[TimeControl \"60+0\"]\n[Result \"0-1\"]\n[Termination \"Normal\"]\n\n\
1. g4 h5 2. gxh5 g5 3. h6 g4 4. h7 g3 5. hxg8=Q 0-1\n\n";
    let games = parse_pgn(promo_pgn);
    let g = games[0].as_ref().unwrap().as_ref().unwrap();
    assert_eq!(g.moves.last().unwrap().promotion(), Some(Role::Queen));
    let text = String::from_utf8(g.write_pgn().unwrap()).unwrap();
    assert!(text.contains("hxg8=Q"));
    assert!(text.ends_with("0-1\n\n"));
}

#[test]
fn filter_excludes_wide_gaps_and_low_ratings() {
    let mut g = Game {
        white_name: b"A".to_vec(),
        black_name: b"B".to_vec(),
        white_elo: 2000,
        black_elo: 2100,
        outcome: Outcome::Draw,
        timectl_sec: 60,
        timectl_inc: 0,
        moves: Vec::new(),
    };
    // Gap exactly at the bound stays in; one past it is out.
    assert!(game_passes_filter(&g, 1500, 100));
    assert!(!game_passes_filter(&g, 1500, 99));
    g.white_elo = 2200;
    assert!(game_passes_filter(&g, 1500, 100));
    assert!(!game_passes_filter(&g, 1500, 99));
    // A rating at the floor is out; one above it is in.
    g.white_elo = 1500;
    g.black_elo = 1501;
    assert!(!game_passes_filter(&g, 1500, 100));
    g.white_elo = 1501;
    assert!(game_passes_filter(&g, 1500, 100));
}

#[test]
fn write_pgn_rejects_illegal_stored_move() {
    let g = Game {
        white_name: b"A".to_vec(),
        black_name: b"B".to_vec(),
        white_elo: 1,
        black_elo: 2,
        outcome: Outcome::Draw,
        timectl_sec: 1,
        timectl_inc: 1,
        moves: vec![Move::new(0, 0, None)],
    };
    assert_eq!(g.write_pgn(), Err(DataError::Inconsistency));
}

#[test]
fn visitor_round_trips_long_game() {
    // A real 73-ply game, as the packed bitfields of its moves: rendered
    // to PGN by the library and fed back through the tokenizer, the
    // visitor must reproduce every header and every bitfield.
    let bitfields: [u16; 73] = [
        2147, 1429, 1627, 1948, 2276, 1364, 1748, 981, 2667, 2469, 1058, 1819, 2217, 3028, 537,
        3558, 66, 2460, 1635, 1988, 587, 1355, 139, 267, 1561, 713, 1616, 587, 2072, 1810, 2258,
        1746, 8, 708, 2572, 1502, 798, 2526, 2644, 276, 1569, 1299, 2153, 908, 3114, 388, 3608,
        1958, 1058, 779, 2189, 4047, 861, 2471, 1563, 1217, 2674, 72, 1886, 2543, 2740, 544, 3258,
        3063, 1966, 3583, 1758, 1015, 3004, 4029, 3893, 2082, 3186,
    ];
    let game = Game {
        white_name: b"Dominguez Perez, Leinier".to_vec(),
        black_name: b"Navara, David".to_vec(),
        white_elo: 2739,
        black_elo: 2737,
        outcome: Outcome::WhiteWin,
        timectl_sec: 600,
        timectl_inc: 0,
        moves: bitfields.iter().map(|&b| Move { bitfield: b }).collect(),
    };
    let text = String::from_utf8(game.write_pgn().unwrap()).unwrap();
    // write_pgn emits no Result tag (the result string only ends the
    // movetext), so supply one for the re-parse.
    let text = text.replace("[Termination", "[Result \"1-0\"]\n[Termination");
    let games = parse_pgn(&text);
    assert_eq!(games.len(), 1);
    let back = games[0].as_ref().unwrap().as_ref().unwrap();
    assert_eq!(back.white_name, game.white_name);
    assert_eq!(back.black_name, game.black_name);
    assert_eq!(back.white_elo, 2739);
    assert_eq!(back.black_elo, 2737);
    assert_eq!(back.outcome, Outcome::WhiteWin);
    assert_eq!(back.timectl_sec, 600);
    assert_eq!(back.timectl_inc, 0);
    assert_eq!(
        back.moves.iter().map(|m| m.bitfield).collect::<Vec<_>>(),
        bitfields.to_vec()
    );
}

#[test]
fn outcome_text_round_trips() {
    for o in [Outcome::WhiteWin, Outcome::BlackWin, Outcome::Draw] {
        let text = o.text();
        assert_eq!(Outcome::parse_text(&text), Some(o));
    }
    assert_eq!(Outcome::parse_text(&b"*".to_vec()), None);
    assert_eq!(Outcome::parse_text(&b"1-0 ".to_vec()), None);
}
