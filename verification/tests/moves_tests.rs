use chessers::moves::{Move, Role};

#[test]
fn test_move_identity() {
    let promotion_all = [
        None,
        Some(Role::Pawn),
        Some(Role::Knight),
        Some(Role::Bishop),
        Some(Role::Rook),
        Some(Role::Queen),
        Some(Role::King),
    ];
    for promotion in promotion_all {
        for from in 0u8..64 {
            for to in 0u8..64 {
                let m = Move::new(from, to, promotion);
                assert_eq!(m.move_from(), from);
                assert_eq!(m.move_to(), to);
                assert_eq!(m.promotion(), promotion);
            }
        }
    }
}

#[test]
fn move_bitfield_layout() {
    // e2 is square 12 (rank 1, file 4), e4 is square 28 (rank 3, file 4):
    // packed as file<<3|rank this is 33 and 35, so the bitfield is
    // 33 * 64 + 35.
    let m = Move::new(12, 28, None);
    assert_eq!(m.bitfield, 2147);
    // A promotion code sits in bits 14..12.
    let p = Move::new(55, 63, Some(Role::Queen));
    assert_eq!(p.bitfield >> 12, 5);
    assert_eq!(p.bitfield & 0x0fff, ((55 % 8) * 8 + 55 / 8) * 64 + ((63 % 8) * 8 + 63 / 8));
}

#[test]
fn move_to_uci_text() {
    let m = Move::new(12, 28, None);
    assert_eq!(m.to_uci(), b"e2e4".to_vec());
    let p = Move::new(55, 63, Some(Role::Queen));
    assert_eq!(p.to_uci(), b"h7h8q".to_vec());
    let n = Move::new(6, 21, None);
    assert_eq!(n.to_uci(), b"g1f3".to_vec());
}
