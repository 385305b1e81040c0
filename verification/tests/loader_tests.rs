use chessers::errors::DataError;
use chessers::game::{Game, Outcome};
use chessers::loader::{TrainDataLoader, WorkerAction, can_dispatch, worker_action, clamp_prefetch};
use chessers::moves::Move;
use chessers::recordcodec::encode_game;
use chessers::traindata::TrainData;

fn shard_with_plies(plies: &[(u8, u8)]) -> (Vec<u8>, usize) {
    let moves: Vec<Move> = plies.iter().map(|&(f, t)| Move::new(f, t, None)).collect();
    let n = moves.len();
    let g = Game {
        white_name: b"A".to_vec(),
        black_name: b"B".to_vec(),
        white_elo: 2000,
        black_elo: 2000,
        outcome: Outcome::Draw,
        timectl_sec: 60,
        timectl_inc: 0,
        moves,
    };
    let td = TrainData::from_games(vec![encode_game(&g)]).unwrap();
    (td.encode_bin().unwrap(), n)
}

#[test]
fn loader_yields_each_shard_once_then_ends() {
    // 1. e4, 1. d4, and 1. Nf3 as three one-batch shards.
    let specs: [&[(u8, u8)]; 3] = [
        &[(12, 28)],
        &[(11, 27), (52, 36)],
        &[(6, 21), (52, 36), (12, 28)],
    ];
    let shards: Vec<(Vec<u8>, usize)> = specs.iter().map(|s| shard_with_plies(s)).collect();
    for prefetch in 0..=7 {
        let files: Vec<Vec<u8>> = shards.iter().map(|(b, _)| b.clone()).collect();
        let mut loader = TrainDataLoader::new(files, prefetch);
        let mut seen: Vec<usize> = Vec::new();
        while let Some(batch) = loader.next().unwrap() {
            seen.push(batch.len());
        }
        // Exactly one batch per shard, none dropped, none repeated.
        seen.sort();
        assert_eq!(seen, vec![1, 2, 3]);
        // And the end of the sequence stays the end.
        assert!(loader.next().unwrap().is_none());
    }
}

#[test]
fn loader_surfaces_bad_shard() {
    let mut loader = TrainDataLoader::new(vec![vec![0, 1, 2]], 1);
    assert_eq!(loader.next(), Err(DataError::Format));
    assert!(loader.next().unwrap().is_none());
}

#[test]
fn loader_pending_counts_down() {
    let (shard, _) = shard_with_plies(&[(12, 28)]);
    let mut loader = TrainDataLoader::new(vec![shard.clone(), shard], 3);
    assert_eq!(loader.pending(), 2);
    loader.next().unwrap();
    assert_eq!(loader.pending(), 1);
    loader.next().unwrap();
    assert_eq!(loader.pending(), 0);
    assert!(loader.next().unwrap().is_none());
}

#[test]
fn dispatch_rule_keeps_prefetch_bound() {
    // Fewer outstanding than the bound: send.
    assert!(can_dispatch(0, 0, 2));
    assert!(can_dispatch(5, 6, 2));
    // At the bound: wait.
    assert!(!can_dispatch(5, 7, 2));
    assert!(!can_dispatch(0, 2, 2));
    // The consumer ahead of the producers: send.
    assert!(can_dispatch(7, 5, 2));
}

#[test]
fn worker_action_decisions() {
    assert_eq!(worker_action(true, 0, 0, 2), WorkerAction::Exit);
    assert_eq!(worker_action(false, 0, 0, 2), WorkerAction::Load);
    assert_eq!(worker_action(false, 0, 2, 2), WorkerAction::Wait);
}

#[test]
fn prefetch_clamped_to_one_through_five() {
    assert_eq!(clamp_prefetch(0), 1);
    assert_eq!(clamp_prefetch(1), 1);
    assert_eq!(clamp_prefetch(3), 3);
    assert_eq!(clamp_prefetch(5), 5);
    assert_eq!(clamp_prefetch(99), 5);
}
