use shogi_util::usi::{parse_hand, parse_piece, parse_sfen_square};
use shogi_util::{
    Board, Color, Piece, SfenBoard, SfenMove, ShogiUtilError, Square, UsiRequest, UsiResponse,
};

fn dump_board(board: &Board) -> String {
    let mut p_board = vec![vec![Piece::Empty; 9]; 9];
    let mut color_board = vec![vec![None; 9]; 9];
    for (piece_id, piece_bb) in board.piece_bb.iter().enumerate() {
        for (color_id, occupied) in board.occupied.iter().enumerate() {
            let player_board = *piece_bb & *occupied;

            for file in 1..=9 {
                for rank in 1..=9 {
                    if player_board.is_filled(&Square { file, rank }) {
                        p_board[rank as usize - 1][9 - file as usize] = Piece::from(piece_id as u8);
                        color_board[rank as usize - 1][9 - file as usize] = Some(color_id);
                    }
                }
            }
        }
    }

    let mut hands = vec![vec![]; 2];
    for (color_id, hand) in board.pieces_in_hand.iter().enumerate() {
        for (piece_id, &count) in hand.iter().enumerate() {
            for _ in 0..count {
                hands[color_id].push(Piece::from(piece_id as u8));
            }
        }
    }

    let mut result = String::new();
    for rank in 0..9 {
        result += &format!("P{}", rank + 1);
        for c in 0..9 {
            if let Some(color) = color_board[rank][c] {
                match color {
                    0 => result += "+",
                    1 => result += "-",
                    _ => unreachable!(),
                }
            } else {
                result += " ";
            }
            result += &p_board[rank][c].to_csa();
        }
        result += "\n";
    }
    for (color, hands) in hands.iter().enumerate() {
        if color == 0 {
            result += "P+";
        } else {
            result += "P-";
        }
        for hand in hands.iter() {
            result += "00";
            result += &hand.to_csa();
        }
        result += "\n";
    }
    result
}


#[test]
fn test_parse_hand() {
    let result = parse_hand("S2Pb3p").unwrap();
    assert_eq!(
        result,
        [
            vec![Piece::Silver, Piece::Pawn, Piece::Pawn],
            vec![Piece::Bishop, Piece::Pawn, Piece::Pawn, Piece::Pawn]
        ]
    );
}

#[test]
fn test_parse_board() {
    let board =
        SfenBoard::parse("lnsgkgsn1/1r5b1/ppppppppp/9/9/9/PPPPPPPPP/1B5R1/LNSGKGSNL w - 1")
            .unwrap()
            .board;
    assert_eq!(
        dump_board(&board),
        r"P1-KY-KE-GI-KI-OU-KI-GI-KE * 
P2 * -HI *  *  *  *  * -KA * 
P3-FU-FU-FU-FU-FU-FU-FU-FU-FU
P4 *  *  *  *  *  *  *  *  * 
P5 *  *  *  *  *  *  *  *  * 
P6 *  *  *  *  *  *  *  *  * 
P7+FU+FU+FU+FU+FU+FU+FU+FU+FU
P8 * +KA *  *  *  *  * +HI * 
P9+KY+KE+GI+KI+OU+KI+GI+KE+KY
P+
P-
"
    );
}

#[test]
fn test_parse_sfen_move() {
    if let SfenMove::Travel { from, to, promoted } = SfenMove::parse("8h2b+").unwrap() {
        assert!(promoted);
        assert_eq!(from, Square { file: 8, rank: 8 });
        assert_eq!(to, Square { file: 2, rank: 2 });
    } else {
        unreachable!()
    }

    if let SfenMove::Travel { from, to, promoted } = SfenMove::parse("7g7f").unwrap() {
        assert!(!promoted);
        assert_eq!(from, Square { file: 7, rank: 7 });
        assert_eq!(to, Square { file: 7, rank: 6 });
    } else {
        unreachable!()
    }

    if let SfenMove::DropMove { to, piece } = SfenMove::parse("S*5b").unwrap() {
        assert_eq!(piece, Piece::Silver);
        assert_eq!(to, Square { file: 5, rank: 2 });
    } else {
        unreachable!()
    }
}

#[test]
fn test_parse_usi_board() {
    let input = "position startpos moves 7g7f 3c3d 2g2f 8c8d 8g8f 2c2d 2f2e 8d8e 2e2d 8e8f 2h2f 8b8d 2f2e 8d8e 3g3f 7c7d 6g6f 4c4d 4g4f 6c6d 5g5f 5c5d 3f3e 7d7e 7f7e 3d3e 4f4e 6d6e 6f6e 4d4e 3i3h 7a7b 5f5e 5d5e 7e7d 3e3f 7i7h 3a3b 7h7g 3b3c 7g7f 3c3d 7f7e 3d3e 6e6d 5e5f 3h3g 4e4f 3g3f 3e3f 5i5h 7b7c 4i4h 7c7d 4h4g 7d7e 4g4f 7e7f 4f4e 5a5b 4e4d";
    match UsiRequest::parse(input).unwrap() {
        UsiRequest::Position { board, next_turn } => {
            assert_eq!(next_turn, Color::White);
            assert_eq!(
                r"P1-KY-KE * -KI * -KI * -KE-KY
P2 *  *  *  * -OU *  * -KA * 
P3-FU *  *  *  *  *  *  * -FU
P4 *  *  * +FU * +KI * +FU * 
P5 * -HI *  *  *  *  * +HI * 
P6 * -FU-GI * -FU * -GI *  * 
P7+FU *  *  *  *  *  *  * +FU
P8 * +KA *  * +OU *  *  *  * 
P9+KY+KE * +KI *  *  * +KE+KY
P+00FU00FU00FU00FU00FU
P-00FU00FU00FU00FU00FU00GI00GI
",
                dump_board(&board)
            );
        }
        _ => unreachable!(),
    };
}


fn sq(file: u8, rank: u8) -> Square {
    Square { file, rank }
}

fn usi_detail<T>(r: Result<T, ShogiUtilError>) -> String {
    match r {
        Err(ShogiUtilError::UsiParseError(text)) => text,
        Err(_) => panic!("another kind of error"),
        Ok(_) => panic!("no error"),
    }
}

fn move_detail<T>(r: Result<T, ShogiUtilError>) -> String {
    match r {
        Err(ShogiUtilError::InvalidMove(text)) => text,
        Err(_) => panic!("another kind of error"),
        Ok(_) => panic!("no error"),
    }
}

fn position(input: &str) -> (Board, Color) {
    match UsiRequest::parse(input) {
        Ok(UsiRequest::Position { board, next_turn }) => (board, next_turn),
        _ => panic!("no position"),
    }
}

const START: &str = r"P1-KY-KE-GI-KI-OU-KI-GI-KE-KY
P2 * -HI *  *  *  *  * -KA * 
P3-FU-FU-FU-FU-FU-FU-FU-FU-FU
P4 *  *  *  *  *  *  *  *  * 
P5 *  *  *  *  *  *  *  *  * 
P6 *  *  *  *  *  *  *  *  * 
P7+FU+FU+FU+FU+FU+FU+FU+FU+FU
P8 * +KA *  *  *  *  * +HI * 
P9+KY+KE+GI+KI+OU+KI+GI+KE+KY
P+
P-
";

#[test]
fn piece_letters() {
    assert_eq!(parse_piece('K'), Some((Piece::King, Color::Black)));
    assert_eq!(parse_piece('k'), Some((Piece::King, Color::White)));
    assert_eq!(parse_piece('R'), Some((Piece::Rook, Color::Black)));
    assert_eq!(parse_piece('b'), Some((Piece::Bishop, Color::White)));
    assert_eq!(parse_piece('G'), Some((Piece::Gold, Color::Black)));
    assert_eq!(parse_piece('s'), Some((Piece::Silver, Color::White)));
    assert_eq!(parse_piece('N'), Some((Piece::Knight, Color::Black)));
    assert_eq!(parse_piece('l'), Some((Piece::Lance, Color::White)));
    assert_eq!(parse_piece('P'), Some((Piece::Pawn, Color::Black)));
    assert_eq!(parse_piece('p'), Some((Piece::Pawn, Color::White)));
    assert_eq!(parse_piece('x'), None);
    assert_eq!(parse_piece('1'), None);
    assert_eq!(parse_piece('+'), None);
}

#[test]
fn squares_of_the_protocol() {
    assert_eq!(parse_sfen_square('1', 'a'), Some(sq(1, 1)));
    assert_eq!(parse_sfen_square('9', 'i'), Some(sq(9, 9)));
    assert_eq!(parse_sfen_square('7', 'f'), Some(sq(7, 6)));
    assert_eq!(parse_sfen_square('0', 'a'), None);
    assert_eq!(parse_sfen_square('1', 'j'), None);
    assert_eq!(parse_sfen_square('1', 'A'), None);
    assert_eq!(parse_sfen_square('S', '*'), None);
    assert_eq!(parse_sfen_square(':', 'a'), None);
}

#[test]
fn moves_that_cannot_be_read() {
    for text in ["", "7g7", "7g7f++", "7g7f-", "7g7j", "S-5b", "s*5b", "X*5b", "S*5j", "0a1a"].iter() {
        assert_eq!(
            usi_detail(SfenMove::parse(text)),
            format!("Invalid sfen move: '{}'", text)
        );
    }
    match SfenMove::parse("P*1a+").unwrap() {
        SfenMove::DropMove { to, piece } => {
            assert_eq!(piece, Piece::Pawn);
            assert_eq!(to, sq(1, 1));
        }
        _ => panic!("no drop"),
    }
}

#[test]
fn hands_in_text() {
    assert_eq!(parse_hand("").unwrap(), [vec![], vec![]]);
    assert_eq!(parse_hand("12").unwrap(), [vec![], vec![]]);
    assert_eq!(parse_hand("P").unwrap(), [vec![Piece::Pawn], vec![]]);
    assert_eq!(parse_hand("10p").unwrap()[1].len(), 10);
    assert_eq!(parse_hand("0p").unwrap(), [vec![], vec![]]);
    assert_eq!(parse_hand("03G").unwrap()[0], vec![Piece::Gold; 3]);
    assert_eq!(parse_hand("RBGSNLPrbgsnlp").unwrap()[0].len(), 7);
    assert!(parse_hand("x").is_none());
    assert!(parse_hand("P-").is_none());
    assert!(parse_hand("99999999999999999999999999P").is_none());
}

#[test]
fn position_with_hands_and_promoted_pieces() {
    let read = SfenBoard::parse("4k4/9/4+P4/9/9/9/9/9/4K4 b 2Pg3p 12").unwrap();
    assert_eq!(read.next_turn, Color::Black);
    let board = read.board;
    assert!(board.piece_bb[9].is_filled(&sq(5, 3)));
    assert!(board.occupied[0].is_filled(&sq(5, 3)));
    assert!(board.piece_bb[8].is_filled(&sq(5, 1)));
    assert!(board.occupied[1].is_filled(&sq(5, 1)));
    assert!(board.occupied[0].is_filled(&sq(5, 9)));
    assert_eq!(board.pieces_in_hand[0][1], 2);
    assert_eq!(board.pieces_in_hand[1][1], 3);
    assert_eq!(board.pieces_in_hand[1][5], 1);
    assert_eq!(board.occupied[0].iter().len(), 2);
    assert_eq!(board.occupied[1].iter().len(), 1);
}

#[test]
fn starting_position_in_text() {
    let read =
        SfenBoard::parse("lnsgkgsnl/1r5b1/ppppppppp/9/9/9/PPPPPPPPP/1B5R1/LNSGKGSNL b - 1").unwrap();
    assert_eq!(read.next_turn, Color::Black);
    assert_eq!(dump_board(&read.board), START);
    assert_eq!(dump_board(&read.board), dump_board(&Board::default()));
}

#[test]
fn positions_that_cannot_be_read() {
    let bad = [
        "",
        "9/9/9/9/9/9/9/9/9 b -",
        "9/9/9/9/9/9/9/9/9 b - 1 2",
        "9/9/9/9/9/9/9/9 b - 1",
        "9/9/9/9/9/9/9/9/9/9 b - 1",
        "9/9/9/9/9/9/9/9/9 x - 1",
        "9/9/9/9/9/9/9/9/8 b - 1",
        "9/9/9/9/9/9/9/9/91 b - 1",
        "9/9/9/9/9/9/9/9/0 b - 1",
        "9/9/9/9/9/9/9/9/PPPPPPPPPP b - 1",
        "9/9/9/9/9/9/9/9/8x b - 1",
        "9/9/9/9/9/9/9/9/8+ b - 1",
        "9/9/9/9/9/9/9/9/8+K b - 1",
        "9/9/9/9/9/9/9/9/8+G b - 1",
        "9/9/9/9/9/9/9/9/9 b x 1",
        "9/9/9/9/9/9/9/9/9 b K 1",
        "9/9/9/9/9/9/9/9/9 b 19P 1",
        "9/9/9/9/9/9/9/9/9 b 3R 1",
        "9/9/9/9/9/9/9/9/9  b - 1",
    ];
    for text in bad.iter() {
        assert_eq!(
            usi_detail(SfenBoard::parse(text)),
            format!("Invalid sfen format: {}", text)
        );
    }
    assert!(SfenBoard::parse("9/9/9/9/9/9/9/9/54 b - 1").is_ok());
    assert!(SfenBoard::parse("9/9/9/9/9/9/9/9/9 b 18P 1").is_ok());
    assert!(SfenBoard::parse("9/9/9/9/9/9/9/9/9 w 2R2b 1").is_ok());
}

#[test]
fn simple_commands() {
    assert!(matches!(UsiRequest::parse("usi"), Ok(UsiRequest::Usi)));
    assert!(matches!(UsiRequest::parse("usi\n"), Ok(UsiRequest::Usi)));
    assert!(matches!(UsiRequest::parse("isready"), Ok(UsiRequest::IsReady)));
    assert!(matches!(UsiRequest::parse("usinewgame"), Ok(UsiRequest::NewGame)));
    assert!(matches!(UsiRequest::parse("go"), Ok(UsiRequest::Go)));
    assert!(matches!(UsiRequest::parse("go btime 0 wtime 0"), Ok(UsiRequest::Go)));
    assert!(matches!(UsiRequest::parse("quit"), Ok(UsiRequest::Quit)));
    assert_eq!(usi_detail(UsiRequest::parse("stop")), "Unsupported option: stop");
    assert_eq!(usi_detail(UsiRequest::parse("")), "Unsupported option: ");
    assert_eq!(usi_detail(UsiRequest::parse(" usi")), "Unsupported option:  usi");
}

#[test]
fn option_command() {
    match UsiRequest::parse("setoption name USI_Hash value 256") {
        Ok(UsiRequest::SetOption { id, value }) => {
            assert_eq!(id, "USI_Hash");
            assert_eq!(value, "256");
        }
        _ => panic!("no option"),
    }
    assert_eq!(
        usi_detail(UsiRequest::parse("setoption id USI_Hash value 256")),
        "Invalid command: setoption id USI_Hash value 256"
    );
    assert_eq!(usi_detail(UsiRequest::parse("setoption")), "Invalid command: setoption");
    assert_eq!(
        usi_detail(UsiRequest::parse("setoption name x")),
        "Invalid command: setoption name x"
    );
}

#[test]
fn position_commands() {
    let (board, turn) = position("position startpos");
    assert_eq!(turn, Color::Black);
    assert_eq!(dump_board(&board), START);
    let (board, turn) = position("position startpos moves");
    assert_eq!(turn, Color::Black);
    assert_eq!(dump_board(&board), START);
    let (board, turn) = position("position startpos moves 7g7f");
    assert_eq!(turn, Color::White);
    assert!(board.occupied[0].is_filled(&sq(7, 6)));
    assert!(!board.occupied[0].is_filled(&sq(7, 7)));
    let (board, turn) = position(
        "position sfen lnsgkgsnl/1r5b1/ppppppppp/9/9/9/PPPPPPPPP/1B5R1/LNSGKGSNL w - 1 moves 3c3d 7g7f",
    );
    assert_eq!(turn, Color::White);
    assert!(board.occupied[1].is_filled(&sq(3, 4)));
    assert!(board.occupied[0].is_filled(&sq(7, 6)));
    let (board, turn) = position("position sfen 4k4/9/9/9/9/9/9/9/4K4 b G 1 moves G*5b");
    assert_eq!(turn, Color::White);
    assert!(board.piece_bb[5].is_filled(&sq(5, 2)));
    assert_eq!(board.pieces_in_hand[0][5], 0);
}

#[test]
fn position_commands_that_fail() {
    assert_eq!(usi_detail(UsiRequest::parse("position")), "Invalid format: position");
    assert_eq!(usi_detail(UsiRequest::parse("position here")), "Invalid format: position here");
    assert_eq!(
        usi_detail(UsiRequest::parse("position startpos 7g7f")),
        "Invalid command: position startpos 7g7f"
    );
    assert_eq!(
        usi_detail(UsiRequest::parse("position startpos moves 7g7")),
        "Invalid sfen move: '7g7'"
    );
    assert_eq!(
        move_detail(UsiRequest::parse("position startpos moves 7f7e")),
        "There's no piece at 76"
    );
    assert_eq!(
        move_detail(UsiRequest::parse("position startpos moves 7g7f 7f7e")),
        "There's no piece at 76"
    );
    assert_eq!(
        move_detail(UsiRequest::parse("position startpos moves 8h7g")),
        "Black already has a piece on 77"
    );
    assert_eq!(
        move_detail(UsiRequest::parse("position startpos moves 5i5h+")),
        "King can not promote"
    );
    assert_eq!(
        move_detail(UsiRequest::parse("position startpos moves G*5e")),
        "Black has no piece Gold"
    );
    assert_eq!(
        usi_detail(UsiRequest::parse("position sfen 9/9/9/9/9/9/9/9/8 b - 1 moves")),
        "Invalid sfen format: 9/9/9/9/9/9/9/9/8 b - 1"
    );
    assert_eq!(
        usi_detail(UsiRequest::parse("position sfen 9/9/9/9/9/9/9/9/9 b -")),
        "Invalid command: position sfen 9/9/9/9/9/9/9/9/9 b -"
    );
    assert_eq!(
        usi_detail(UsiRequest::parse("position sfen 9/9/9/9/9/9/9/9/9 b - 1 move 7g7f")),
        "Invalid command: position sfen 9/9/9/9/9/9/9/9/9 b - 1 move 7g7f"
    );
    assert_eq!(
        usi_detail(UsiRequest::parse("position sfen 9/9/9/9/9/9/9/9/9 b")),
        "Invalid command: position sfen 9/9/9/9/9/9/9/9/9 b"
    );
}

#[test]
fn capture_without_room_in_hand_is_refused() {
    assert_eq!(
        move_detail(UsiRequest::parse(
            "position sfen 4k4/4R4/9/9/9/9/9/9/4K4 b - 1 moves 5b5a"
        )),
        "Black has no room in hand for the piece on 51"
    );
    assert_eq!(
        move_detail(UsiRequest::parse(
            "position sfen 4k4/4r4/4R4/9/9/9/9/9/4K4 b 2R 1 moves 5c5b"
        )),
        "Black has no room in hand for the piece on 52"
    );
}

#[test]
fn answers_of_the_engine() {
    assert_eq!(UsiResponse::Id { name: "engine".to_string() }.to_string(), "id name engine");
    assert_eq!(UsiResponse::UsiOk.to_string(), "usiok");
    assert_eq!(UsiResponse::ReadyOk.to_string(), "readyok");
    assert_eq!(
        UsiResponse::TravelMove { from: sq(7, 7), to: sq(7, 6), promoted: false }.to_string(),
        "bestmove 7g7f"
    );
    assert_eq!(
        UsiResponse::TravelMove { from: sq(8, 8), to: sq(2, 2), promoted: true }.to_string(),
        "bestmove 8h2b+"
    );
    assert_eq!(
        UsiResponse::TravelMove { from: sq(1, 1), to: sq(9, 9), promoted: false }.to_string(),
        "bestmove 1a9i"
    );
    assert_eq!(
        UsiResponse::DropMove { piece: Piece::Silver, to: sq(5, 2) }.to_string(),
        "bestmove S*5b"
    );
    let letters = ['P', 'L', 'N', 'S', 'G', 'B', 'R', 'K'];
    for i in 1..=8u8 {
        assert_eq!(
            UsiResponse::DropMove { piece: Piece::from(i), to: sq(1, 9) }.to_string(),
            format!("bestmove {}*1i", letters[i as usize - 1])
        );
    }
}
