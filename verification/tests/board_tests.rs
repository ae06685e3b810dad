use shogi_util::{Bitboard, Board, Color, LegalMove, Move, Piece, Square};

fn dump_board(board: &Board) -> String {
    let mut p_board = vec![vec![Piece::Empty; 9]; 9];
    let mut color_board = vec![vec![None; 9]; 9];
    for (piece_id, piece_bb) in board.piece_bb.iter().enumerate() {
        for (color_id, occupied) in board.occupied.iter().enumerate() {
            let player_board = *piece_bb & *occupied;

            for file in 1..=9 {
                for rank in 1..=9 {
                    if player_board.is_filled(&Square { file, rank }) {
                        p_board[rank as usize - 1][9 - file as usize] = Piece::from(piece_id as u8);
                        color_board[rank as usize - 1][9 - file as usize] = Some(color_id);
                    }
                }
            }
        }
    }

    let mut hands = vec![vec![]; 2];
    for (color_id, hand) in board.pieces_in_hand.iter().enumerate() {
        for (piece_id, &count) in hand.iter().enumerate() {
            for _ in 0..count {
                hands[color_id].push(Piece::from(piece_id as u8));
            }
        }
    }

    let mut result = String::new();
    for rank in 0..9 {
        result += &format!("P{}", rank + 1);
        for c in 0..9 {
            if let Some(color) = color_board[rank][c] {
                match color {
                    0 => result += "+",
                    1 => result += "-",
                    _ => unreachable!(),
                }
            } else {
                result += " ";
            }
            result += &p_board[rank][c].to_csa();
        }
        result += "\n";
    }
    for (color, hands) in hands.iter().enumerate() {
        if color == 0 {
            result += "P+";
        } else {
            result += "P-";
        }
        for hand in hands.iter() {
            result += "00";
            result += &hand.to_csa();
        }
        result += "\n";
    }
    result
}

fn sq(file: u8, rank: u8) -> Square {
    Square { file, rank }
}

fn travel(color: Color, from: Square, to: Square, piece: Piece) -> Move {
    Move { color, from: Some(from), to, piece }
}

fn drop(color: Color, to: Square, piece: Piece) -> Move {
    Move { color, from: None, to, piece }
}

fn check_init_board() {
    let board = Board::default();
    assert_eq!(
        board.occupied[0].0,
        0b111111111_010000010_111111111_000000000_000000000_000000000_000000000_000000000_000000000
    );
    assert_eq!(
        board.occupied[1].0,
        0b000000000_000000000_000000000_000000000_000000000_000000000_111111111_010000010_111111111
    );
    assert_eq!(
        board.piece_bb[1].0,
        0b000000000_000000000_111111111_000000000_000000000_000000000_111111111_000000000_000000000
    );
    assert_eq!(
        board.piece_bb[2].0,
        0b100000001_000000000_000000000_000000000_000000000_000000000_000000000_000000000_100000001
    );
    assert_eq!(
        board.piece_bb[3].0,
        0b010000010_000000000_000000000_000000000_000000000_000000000_000000000_000000000_010000010
    );
    assert_eq!(
        board.piece_bb[4].0,
        0b001000100_000000000_000000000_000000000_000000000_000000000_000000000_000000000_001000100
    );
    assert_eq!(
        board.piece_bb[5].0,
        0b000101000_000000000_000000000_000000000_000000000_000000000_000000000_000000000_000101000
    );
    assert_eq!(
        board.piece_bb[6].0,
        0b000000000_000000010_000000000_000000000_000000000_000000000_000000000_010000000_000000000
    );
    assert_eq!(
        board.piece_bb[7].0,
        0b000000000_010000000_000000000_000000000_000000000_000000000_000000000_000000010_000000000
    );
    assert_eq!(
        board.piece_bb[8].0,
        0b000010000_000000000_000000000_000000000_000000000_000000000_000000000_000000000_000010000
    );
}

#[test]
fn board_test_init_board() {
    check_init_board();
}

#[test]
fn mod_test_init_board() {
    check_init_board();
}

#[test]
fn test_generate_legal_moves() {
    let board = Board::default();
    assert_eq!(
        r"P1-KY-KE-GI-KI-OU-KI-GI-KE-KY
P2 * -HI *  *  *  *  * -KA * 
P3-FU-FU-FU-FU-FU-FU-FU-FU-FU
P4 *  *  *  *  *  *  *  *  * 
P5 *  *  *  *  *  *  *  *  * 
P6 *  *  *  *  *  *  *  *  * 
P7+FU+FU+FU+FU+FU+FU+FU+FU+FU
P8 * +KA *  *  *  *  * +HI * 
P9+KY+KE+GI+KI+OU+KI+GI+KE+KY
P+
P-
",
        dump_board(&board)
    );
    assert_eq!(
        r"P1-KY-KE-GI-KI-OU-KI-GI-KE-KY
P2 * -HI *  *  *  *  * -KA * 
P3-FU-FU-FU-FU-FU-FU-FU-FU-FU
P4 *  *  *  *  *  *  *  *  * 
P5 *  *  *  *  *  *  *  *  * 
P6 *  *  *  *  *  *  *  *  * 
P7+FU+FU+FU+FU+FU+FU+FU+FU+FU
P8 * +KA *  *  *  *  * +HI * 
P9+KY+KE+GI+KI+OU+KI+GI+KE+KY
P+
P-
",
        dump_board(&board.rotate180())
    );
}

#[test]
fn starting_position_layout() {
    let board = Board::default();
    assert!(board.piece_bb[8].is_filled(&sq(5, 9)));
    assert!(board.occupied[0].is_filled(&sq(5, 9)));
    assert!(board.piece_bb[8].is_filled(&sq(5, 1)));
    assert!(board.occupied[1].is_filled(&sq(5, 1)));
    assert!(board.piece_bb[6].is_filled(&sq(8, 8)));
    assert!(board.piece_bb[7].is_filled(&sq(2, 8)));
    for k in 9..15 {
        assert_eq!(board.piece_bb[k].0, 0);
    }
    assert_eq!(board.piece_bb[0].0, 0);
    assert_eq!(board.pieces_in_hand, [[0u8; 15]; 2]);
    let all = board.piece_bb.iter().fold(0u128, |acc, b| acc | b.0);
    assert_eq!(all, board.occupied[0].0 | board.occupied[1].0);
    assert_eq!(board.occupied[0].0 & board.occupied[1].0, 0);
}

#[test]
fn empty_position_holds_nothing() {
    let board = Board::empty();
    for bb in board.piece_bb.iter() {
        assert_eq!(bb.0, 0);
    }
    assert_eq!(board.occupied[0].0, 0);
    assert_eq!(board.occupied[1].0, 0);
    assert_eq!(board.pieces_in_hand, [[0u8; 15]; 2]);
    assert!(board.generate_legal_moves().is_empty());
}

#[test]
fn push_and_remove_piece() {
    let mut board = Board::empty();
    board.push_piece(&sq(5, 5), Color::White, Piece::Gold);
    assert!(board.occupied[1].is_filled(&sq(5, 5)));
    assert!(!board.occupied[0].is_filled(&sq(5, 5)));
    assert!(board.piece_bb[5].is_filled(&sq(5, 5)));
    assert!(board.remove_piece(&sq(5, 5), Color::Black).is_err());
    assert!(board.remove_piece(&sq(4, 5), Color::White).is_err());
    assert_eq!(board.remove_piece(&sq(5, 5), Color::White).unwrap(), Piece::Gold);
    assert_eq!(board.occupied[1].0, 0);
    assert_eq!(board.piece_bb[5].0, 0);
    let e = board.remove_piece(&sq(5, 5), Color::White).unwrap_err();
    assert_eq!(e.message(), "Invalid move: There's no piece at 55");
}

#[test]
fn hands_go_up_and_down() {
    let mut board = Board::empty();
    let e = board.remove_hand(Color::Black, Piece::Pawn).unwrap_err();
    assert_eq!(e.message(), "Invalid move: Black has no piece Pawn");
    board.push_hand(Piece::Pawn, Color::Black);
    board.push_hand(Piece::ProPawn, Color::Black);
    board.push_hand(Piece::ProRook, Color::White);
    assert_eq!(board.pieces_in_hand[0][1], 2);
    assert_eq!(board.pieces_in_hand[0][9], 0);
    assert_eq!(board.pieces_in_hand[1][7], 1);
    assert_eq!(board.pieces_in_hand[1][14], 0);
    assert!(board.remove_hand(Color::Black, Piece::Pawn).is_ok());
    assert!(board.remove_hand(Color::Black, Piece::Pawn).is_ok());
    assert!(board.remove_hand(Color::Black, Piece::Pawn).is_err());
    assert!(board.remove_hand(Color::White, Piece::ProRook).is_err());
    assert!(board.remove_hand(Color::White, Piece::Rook).is_ok());
    assert_eq!(board.pieces_in_hand, [[0u8; 15]; 2]);
}

#[test]
fn plain_move_reports_no_promotion() {
    let mut board = Board::default();
    let r = board.push_move(travel(Color::Black, sq(7, 7), sq(7, 6), Piece::Pawn)).unwrap();
    assert!(!r.promoted);
    assert!(board.occupied[0].is_filled(&sq(7, 6)));
    assert!(!board.occupied[0].is_filled(&sq(7, 7)));
    assert!(board.piece_bb[1].is_filled(&sq(7, 6)));
    assert!(!board.piece_bb[1].is_filled(&sq(7, 7)));
}

#[test]
fn move_from_an_empty_square_is_refused() {
    let mut board = Board::default();
    let before = dump_board(&board);
    let e = board.push_move(travel(Color::Black, sq(7, 6), sq(7, 5), Piece::Pawn)).unwrap_err();
    assert_eq!(e.message(), "Invalid move: There's no piece at 76");
    assert!(board.push_move(travel(Color::White, sq(7, 7), sq(7, 6), Piece::Pawn)).is_err());
    assert_eq!(before, dump_board(&board));
}

#[test]
fn drop_without_the_piece_in_hand_is_refused() {
    let mut board = Board::default();
    let before = dump_board(&board);
    let e = board.push_move(drop(Color::White, sq(5, 5), Piece::Gold)).unwrap_err();
    assert_eq!(e.message(), "Invalid move: White has no piece Gold");
    assert_eq!(before, dump_board(&board));
}

#[test]
fn capture_of_a_promoted_piece_gives_the_unpromoted_form() {
    let mut board = Board::empty();
    board.push_piece(&sq(5, 5), Color::Black, Piece::Rook);
    board.push_piece(&sq(5, 3), Color::White, Piece::ProPawn);
    let r = board.push_move(travel(Color::Black, sq(5, 5), sq(5, 3), Piece::Rook)).unwrap();
    assert!(!r.promoted);
    assert_eq!(board.pieces_in_hand[0][1], 1);
    assert_eq!(board.pieces_in_hand[0][9], 0);
    assert_eq!(board.pieces_in_hand[1], [0u8; 15]);
    assert_eq!(board.occupied[1].0, 0);
    assert_eq!(board.piece_bb[9].0, 0);
    assert!(board.piece_bb[7].is_filled(&sq(5, 3)));
    assert!(board.occupied[0].is_filled(&sq(5, 3)));
}

#[test]
fn capture_of_every_promoted_kind() {
    let kinds = [
        (Piece::ProPawn, 1usize),
        (Piece::ProLance, 2),
        (Piece::ProKnight, 3),
        (Piece::ProSilver, 4),
        (Piece::ProBishop, 6),
        (Piece::ProRook, 7),
    ];
    for (promoted, base) in kinds.iter() {
        let mut board = Board::empty();
        board.push_piece(&sq(5, 5), Color::White, Piece::Gold);
        board.push_piece(&sq(5, 6), Color::Black, *promoted);
        board.push_move(travel(Color::White, sq(5, 5), sq(5, 6), Piece::Gold)).unwrap();
        for k in 0..15 {
            assert_eq!(board.pieces_in_hand[1][k], if k == *base { 1 } else { 0 });
        }
        assert_eq!(board.pieces_in_hand[0], [0u8; 15]);
    }
}

#[test]
fn promotion_needs_the_promoted_form_of_the_piece() {
    let mut board = Board::empty();
    board.push_piece(&sq(5, 4), Color::Black, Piece::Silver);
    let e = board.push_move(travel(Color::Black, sq(5, 4), sq(5, 3), Piece::ProPawn)).unwrap_err();
    assert_eq!(e.message(), "Invalid move: Invalid promotion: Silver => ProPawn");
    let mut board = Board::empty();
    board.push_piece(&sq(5, 4), Color::Black, Piece::Gold);
    assert!(board.push_move(travel(Color::Black, sq(5, 4), sq(5, 3), Piece::King)).is_err());
    let mut board = Board::empty();
    board.push_piece(&sq(5, 4), Color::Black, Piece::ProSilver);
    assert!(board.push_move(travel(Color::Black, sq(5, 4), sq(5, 3), Piece::Silver)).is_err());
    let mut board = Board::empty();
    board.push_piece(&sq(5, 4), Color::Black, Piece::Silver);
    let r = board.push_move(travel(Color::Black, sq(5, 4), sq(5, 3), Piece::ProSilver)).unwrap();
    assert!(r.promoted);
    assert!(board.piece_bb[12].is_filled(&sq(5, 3)));
    assert_eq!(board.piece_bb[4].0, 0);
}

#[test]
fn promotion_zone_of_black_ends_at_rank_three() {
    let mut board = Board::empty();
    board.push_piece(&sq(5, 5), Color::Black, Piece::Silver);
    let e = board.push_move(travel(Color::Black, sq(5, 5), sq(5, 4), Piece::ProSilver)).unwrap_err();
    assert_eq!(e.message(), "Invalid move: Black can not promote at 55 nor 54");
    let mut board = Board::empty();
    board.push_piece(&sq(5, 4), Color::Black, Piece::Silver);
    assert!(board.push_move(travel(Color::Black, sq(5, 4), sq(5, 3), Piece::ProSilver)).unwrap().promoted);
    let mut board = Board::empty();
    board.push_piece(&sq(5, 3), Color::Black, Piece::Silver);
    assert!(board.push_move(travel(Color::Black, sq(5, 3), sq(4, 4), Piece::ProSilver)).unwrap().promoted);
    let mut board = Board::empty();
    board.push_piece(&sq(5, 7), Color::Black, Piece::Silver);
    assert!(board.push_move(travel(Color::Black, sq(5, 7), sq(5, 6), Piece::ProSilver)).is_err());
}

#[test]
fn promotion_zone_of_white_starts_at_rank_seven() {
    let mut board = Board::empty();
    board.push_piece(&sq(5, 5), Color::White, Piece::Silver);
    let e = board.push_move(travel(Color::White, sq(5, 5), sq(5, 6), Piece::ProSilver)).unwrap_err();
    assert_eq!(e.message(), "Invalid move: White can not promote at 55 nor 56");
    let mut board = Board::empty();
    board.push_piece(&sq(5, 6), Color::White, Piece::Silver);
    assert!(board.push_move(travel(Color::White, sq(5, 6), sq(5, 7), Piece::ProSilver)).unwrap().promoted);
    let mut board = Board::empty();
    board.push_piece(&sq(5, 7), Color::White, Piece::Silver);
    assert!(board.push_move(travel(Color::White, sq(5, 7), sq(4, 6), Piece::ProSilver)).unwrap().promoted);
    let mut board = Board::empty();
    board.push_piece(&sq(5, 3), Color::White, Piece::Silver);
    assert!(board.push_move(travel(Color::White, sq(5, 3), sq(5, 4), Piece::ProSilver)).is_err());
}

#[test]
fn refused_promotion_leaves_the_source_square_empty() {
    let mut board = Board::empty();
    board.push_piece(&sq(5, 5), Color::Black, Piece::Silver);
    assert!(board.push_move(travel(Color::Black, sq(5, 5), sq(5, 4), Piece::ProSilver)).is_err());
    assert_eq!(board.occupied[0].0, 0);
    assert_eq!(board.piece_bb[4].0, 0);
}

#[test]
fn landing_on_an_own_piece_is_refused() {
    let mut board = Board::default();
    let e = board.push_move(travel(Color::Black, sq(2, 8), sq(2, 7), Piece::Rook)).unwrap_err();
    assert_eq!(e.message(), "Invalid move: Black already has a piece on 27");
    let mut board = Board::default();
    board.push_hand(Piece::Gold, Color::Black);
    assert!(board.push_move(drop(Color::Black, sq(5, 9), Piece::Gold)).is_err());
    assert_eq!(board.pieces_in_hand[0][5], 0);
}

#[test]
fn drop_puts_the_piece_on_the_board() {
    let mut board = Board::default();
    board.push_hand(Piece::Silver, Color::White);
    let r = board.push_move(drop(Color::White, sq(5, 5), Piece::Silver)).unwrap();
    assert!(!r.promoted);
    assert_eq!(board.pieces_in_hand[1][4], 0);
    assert!(board.occupied[1].is_filled(&sq(5, 5)));
    assert!(board.piece_bb[4].is_filled(&sq(5, 5)));
}

#[test]
fn move_between_with_and_without_promotion() {
    let mut board = Board::default();
    board.move_between(&sq(7, 7), &sq(7, 6), false, Color::Black).unwrap();
    board.move_between(&sq(3, 3), &sq(3, 4), false, Color::White).unwrap();
    board.move_between(&sq(8, 8), &sq(2, 2), true, Color::Black).unwrap();
    assert!(board.piece_bb[13].is_filled(&sq(2, 2)));
    assert!(board.occupied[0].is_filled(&sq(2, 2)));
    assert!(!board.occupied[1].is_filled(&sq(2, 2)));
    assert_eq!(board.pieces_in_hand[0][6], 1);
    assert_eq!(board.piece_bb[6].0, 0);
}

#[test]
fn move_between_refusals() {
    let mut board = Board::default();
    let e = board.move_between(&sq(5, 5), &sq(5, 4), false, Color::Black).unwrap_err();
    assert_eq!(e.message(), "Invalid move: There's no piece at 55");
    let e = board.move_between(&sq(5, 9), &sq(5, 8), true, Color::Black).unwrap_err();
    assert_eq!(e.message(), "Invalid move: King can not promote");
    let mut board = Board::default();
    let e = board.move_between(&sq(2, 8), &sq(2, 7), false, Color::Black).unwrap_err();
    assert_eq!(e.message(), "Invalid move: Black already has a piece on 27");
}

#[test]
fn rotation_exchanges_the_sides() {
    let mut board = Board::default();
    board.push_move(travel(Color::Black, sq(7, 7), sq(7, 6), Piece::Pawn)).unwrap();
    board.push_hand(Piece::Gold, Color::Black);
    let rotated = board.rotate180();
    assert!(rotated.occupied[1].is_filled(&sq(3, 4)));
    assert!(rotated.piece_bb[1].is_filled(&sq(3, 4)));
    assert!(!rotated.occupied[1].is_filled(&sq(3, 3)));
    assert_eq!(rotated.pieces_in_hand[1][5], 1);
    assert_eq!(rotated.pieces_in_hand[0][5], 0);
    assert_eq!(dump_board(&rotated.rotate180()), dump_board(&board));
}

fn count(moves: &[LegalMove], wanted: &LegalMove) -> usize {
    moves.iter().filter(|m| *m == wanted).count()
}

#[test]
fn candidates_of_the_starting_position() {
    let board = Board::default();
    let moves = board.generate_legal_moves();
    assert_eq!(moves.len(), 30);
    for m in moves.iter() {
        assert!(!m.promoted);
        assert_eq!(m.mv.color, Color::Black);
        assert!(m.mv.from.is_some());
    }
    let pawn = LegalMove { mv: travel(Color::Black, sq(7, 7), sq(7, 6), Piece::Pawn), promoted: false };
    assert_eq!(count(&moves, &pawn), 1);
    assert_eq!(moves[0], LegalMove { mv: travel(Color::Black, sq(9, 7), sq(9, 6), Piece::Pawn), promoted: false });
}

#[test]
fn promotion_is_offered_beside_the_plain_move() {
    let mut board = Board::empty();
    board.push_piece(&sq(5, 4), Color::Black, Piece::Pawn);
    let moves = board.generate_legal_moves();
    assert_eq!(
        moves,
        [
            LegalMove { mv: travel(Color::Black, sq(5, 4), sq(5, 3), Piece::ProPawn), promoted: true },
            LegalMove { mv: travel(Color::Black, sq(5, 4), sq(5, 3), Piece::Pawn), promoted: false },
        ]
    );
    let mut board = Board::empty();
    board.push_piece(&sq(5, 5), Color::Black, Piece::Pawn);
    assert_eq!(
        board.generate_legal_moves(),
        [LegalMove { mv: travel(Color::Black, sq(5, 5), sq(5, 4), Piece::Pawn), promoted: false }]
    );
    let mut board = Board::empty();
    board.push_piece(&sq(5, 2), Color::Black, Piece::Gold);
    assert!(board.generate_legal_moves().iter().all(|m| !m.promoted));
}

#[test]
fn pieces_of_the_other_side_do_not_move() {
    let mut board = Board::empty();
    board.push_piece(&sq(5, 5), Color::White, Piece::Rook);
    assert!(board.generate_legal_moves().is_empty());
}

#[test]
fn drops_go_to_free_squares_only() {
    let mut board = Board::empty();
    board.push_piece(&sq(5, 5), Color::White, Piece::King);
    board.push_piece(&sq(5, 9), Color::Black, Piece::King);
    board.push_hand(Piece::Gold, Color::Black);
    let moves = board.generate_legal_moves();
    let drops: Vec<&LegalMove> = moves.iter().filter(|m| m.mv.from.is_none()).collect();
    assert_eq!(drops.len(), 79);
    for d in drops.iter() {
        assert_eq!(d.mv.piece, Piece::Gold);
        assert!(!d.promoted);
        assert!(d.mv.to != sq(5, 5) && d.mv.to != sq(5, 9));
    }
    assert_eq!(drops[0].mv.to, sq(9, 1));
}

#[test]
fn no_pawn_is_dropped_on_a_file_with_an_own_pawn() {
    let mut board = Board::empty();
    board.push_piece(&sq(5, 7), Color::Black, Piece::Pawn);
    board.push_piece(&sq(4, 7), Color::Black, Piece::ProPawn);
    board.push_piece(&sq(3, 3), Color::White, Piece::Pawn);
    board.push_hand(Piece::Pawn, Color::Black);
    let moves = board.generate_legal_moves();
    let drops: Vec<&LegalMove> = moves.iter().filter(|m| m.mv.from.is_none()).collect();
    assert_eq!(drops.len(), 81 - 3 - 8);
    for d in drops.iter() {
        assert_eq!(d.mv.piece, Piece::Pawn);
        assert!(d.mv.to.file != 5);
    }
    assert!(drops.iter().any(|d| d.mv.to.file == 4));
    assert!(drops.iter().any(|d| d.mv.to.file == 3));
}

#[test]
fn nothing_is_dropped_from_an_empty_hand() {
    let board = Board::default();
    assert!(board.generate_legal_moves().iter().all(|m| m.mv.from.is_some()));
}

#[test]
fn colour_helpers() {
    assert_eq!(Color::Black.to_byte(), 0);
    assert_eq!(Color::White.to_byte(), 1);
    assert_eq!(Color::Black.to_usize(), 0);
    assert_eq!(Color::White.to_usize(), 1);
    assert_eq!(Color::Black.opponent(), Color::White);
    assert_eq!(Color::White.opponent(), Color::Black);
}

#[test]
fn squares_and_grid_positions() {
    assert_eq!(Square::from_pos(0, 0), sq(9, 1));
    assert_eq!(Square::from_pos(8, 8), sq(1, 9));
    assert_eq!(Square::from_pos(3, 4), sq(5, 4));
    assert_eq!(sq(5, 4).to_pos(), (3, 4));
    assert_eq!(sq(9, 1).to_pos(), (0, 0));
    assert!(sq(1, 1).is_valid());
    assert!(sq(9, 9).is_valid());
    assert!(!sq(0, 1).is_valid());
    assert!(!sq(1, 0).is_valid());
    assert!(!sq(10, 1).is_valid());
    assert!(!sq(1, 10).is_valid());
    let mut b = Bitboard::empty();
    b.fill(&sq(5, 4));
    assert_eq!(b.iter(), [3 * 9 + 4]);
}

#[test]
fn a_drop_on_an_opposing_piece_captures_it() {
    let mut board = Board::empty();
    board.push_piece(&sq(5, 5), Color::White, Piece::ProSilver);
    board.push_hand(Piece::Gold, Color::Black);
    board.push_hand(Piece::Silver, Color::Black);
    let r = board.push_move(drop(Color::Black, sq(5, 5), Piece::Gold)).unwrap();
    assert!(!r.promoted);
    assert_eq!(board.pieces_in_hand[0][5], 0);
    assert_eq!(board.pieces_in_hand[0][4], 2);
    assert_eq!(board.pieces_in_hand[0][12], 0);
    assert_eq!(board.pieces_in_hand[1], [0u8; 15]);
    assert!(board.occupied[0].is_filled(&sq(5, 5)));
    assert_eq!(board.occupied[1].0, 0);
    assert!(board.piece_bb[5].is_filled(&sq(5, 5)));
    assert_eq!(board.piece_bb[12].0, 0);
}

#[test]
fn a_drop_of_the_captured_kind_leaves_the_count_as_it_was() {
    let mut board = Board::empty();
    board.push_piece(&sq(5, 5), Color::White, Piece::Rook);
    board.push_hand(Piece::Rook, Color::Black);
    board.push_hand(Piece::Rook, Color::Black);
    board.push_move(drop(Color::Black, sq(5, 5), Piece::Rook)).unwrap();
    assert_eq!(board.pieces_in_hand[0][7], 2);
    assert!(board.occupied[0].is_filled(&sq(5, 5)));
    assert!(board.piece_bb[7].is_filled(&sq(5, 5)));
}

#[test]
fn a_promotion_in_the_zone_is_made_for_every_kind_that_promotes() {
    let pairs = [
        (Piece::Pawn, Piece::ProPawn),
        (Piece::Lance, Piece::ProLance),
        (Piece::Knight, Piece::ProKnight),
        (Piece::Silver, Piece::ProSilver),
        (Piece::Bishop, Piece::ProBishop),
        (Piece::Rook, Piece::ProRook),
    ];
    for (base, promoted) in pairs.iter() {
        let mut board = Board::empty();
        board.push_piece(&sq(5, 4), Color::Black, *base);
        board.push_piece(&sq(5, 3), Color::White, Piece::Gold);
        let r = board.push_move(travel(Color::Black, sq(5, 4), sq(5, 3), *promoted)).unwrap();
        assert!(r.promoted);
        assert!(board.piece_bb[promoted.to_usize()].is_filled(&sq(5, 3)));
        assert_eq!(board.piece_bb[base.to_usize()].0, 0);
        assert_eq!(board.pieces_in_hand[0][5], 1);
    }
}
