use shogi_util::parser::{parse_move_str, parse_square};
use shogi_util::{parse_csa_string, Board, Color, Move, Piece, ShogiUtilError, Square};

fn dump_board(board: &Board) -> String {
    let mut p_board = vec![vec![Piece::Empty; 9]; 9];
    let mut color_board = vec![vec![None; 9]; 9];
    for (piece_id, piece_bb) in board.piece_bb.iter().enumerate() {
        for (color_id, occupied) in board.occupied.iter().enumerate() {
            let player_board = *piece_bb & *occupied;

            for file in 1..=9 {
                for rank in 1..=9 {
                    if player_board.is_filled(&Square { file, rank }) {
                        p_board[rank as usize - 1][9 - file as usize] = Piece::from(piece_id as u8);
                        color_board[rank as usize - 1][9 - file as usize] = Some(color_id);
                    }
                }
            }
        }
    }

    let mut hands = vec![vec![]; 2];
    for (color_id, hand) in board.pieces_in_hand.iter().enumerate() {
        for (piece_id, &count) in hand.iter().enumerate() {
            for _ in 0..count {
                hands[color_id].push(Piece::from(piece_id as u8));
            }
        }
    }

    let mut result = String::new();
    for rank in 0..9 {
        result += &format!("P{}", rank + 1);
        for c in 0..9 {
            if let Some(color) = color_board[rank][c] {
                match color {
                    0 => result += "+",
                    1 => result += "-",
                    _ => unreachable!(),
                }
            } else {
                result += " ";
            }
            result += &p_board[rank][c].to_csa();
        }
        result += "\n";
    }
    for (color, hands) in hands.iter().enumerate() {
        if color == 0 {
            result += "P+";
        } else {
            result += "P-";
        }
        for hand in hands.iter() {
            result += "00";
            result += &hand.to_csa();
        }
        result += "\n";
    }
    result
}


#[test]
fn test_parse_csa() {
    let csa_str = r"V2
        N+SUGAI
        N-INABA
        P1-KY-KE-GI-KI-OU-KI-GI-KE-KY
        P2 * -HI *  *  *  *  * -KA * 
        P3-FU-FU-FU-FU-FU-FU-FU-FU-FU
        P4 *  *  *  *  *  *  *  *  * 
        P5 *  *  *  *  *  *  *  *  * 
        P6 *  *  *  *  *  *  *  *  * 
        P7+FU+FU+FU+FU+FU+FU+FU+FU+FU
        P8 * +KA *  *  *  *  * +HI * 
        P9+KY+KE+GI+KI+OU+KI+GI+KE+KY
        +
        +2726FU
        -3334FU
        +7776FU
        -2288KA
        +7988GI
        -2133KE
        +4958KI
        -4142KI
        +2625FU
        -3345KE
        +8877GI
        -9394FU
        +4746FU
        -4537KE
        +2937KE
        -8384FU
        +2524FU
        -2324FU
        +2824HI
        -4233KI
        +2421RY
        -0022KA
        +3745KE
        -5142OU
        +0025KE
        -3332KI
        +0033FU
        -3223KI
        +3332TO
        -3132GI
        +2161RY
        -8272HI
        +0051KA
        -4231OU
        +5133UM
        -3241GI
        +0021KI
        -3121OU
        +6141RY
        -0031KI
        +3343UM
        -2112OU
        +0021GI
        -3121KI
        +4321UM
        %TORYO
        ";
    let result = parse_csa_string(csa_str).unwrap();
    let mut board = Board::default();
    for mv in result.moves {
        board.push_move(mv).unwrap();
    }

    let dumped_board = dump_board(&board);
    assert_eq!(
        r"P1-KY-KE-GI *  * +RY * +UM-KY
P2 *  * -HI *  *  *  * -KA-OU
P3 *  * -FU-FU-FU *  * -KI-FU
P4-FU-FU *  *  *  * -FU *  * 
P5 *  *  *  *  * +KE * +KE * 
P6 *  * +FU *  * +FU *  *  * 
P7+FU+FU+GI+FU+FU *  *  * +FU
P8 *  *  *  * +KI *  *  *  * 
P9+KY+KE * +KI+OU * +GI * +KY
P+00FU00KI
P-00FU00FU00FU00GI
",
        dumped_board
    );
}

#[test]
fn test_parse_square() {
    assert_eq!(
        Some(Square { file: 9, rank: 1 }),
        parse_square("91").unwrap()
    );
    assert_eq!(
        Some(Square { file: 1, rank: 1 }),
        parse_square("11").unwrap()
    );
    assert_eq!(None, parse_square("00").unwrap());
    assert!(parse_square("A1").is_err());
    assert!(parse_square("01").is_err());
    assert!(parse_square("1B").is_err());
}


fn detail(r: Result<shogi_util::ParsedCsa, ShogiUtilError>) -> String {
    match r {
        Err(ShogiUtilError::CsaParseError(text)) => text,
        Err(_) => panic!("another kind of error"),
        Ok(_) => panic!("no error"),
    }
}

#[test]
fn names_turn_and_winner() {
    let r = parse_csa_string("N+SUGAI\nN-INABA\n+\n+2726FU\n-3334FU\n%TORYO\n").unwrap();
    assert_eq!(r.names[0].as_deref(), Some("SUGAI"));
    assert_eq!(r.names[1].as_deref(), Some("INABA"));
    assert_eq!(r.winner, Some(Color::White));
    assert_eq!(
        r.moves,
        [
            Move { color: Color::Black, from: Some(Square { file: 2, rank: 7 }), to: Square { file: 2, rank: 6 }, piece: Piece::Pawn },
            Move { color: Color::White, from: Some(Square { file: 3, rank: 3 }), to: Square { file: 3, rank: 4 }, piece: Piece::Pawn },
        ]
    );
}

#[test]
fn empty_record() {
    let r = parse_csa_string("").unwrap();
    assert_eq!(r.names, [None, None]);
    assert_eq!(r.winner, None);
    assert!(r.moves.is_empty());
}

#[test]
fn result_lines() {
    assert_eq!(parse_csa_string("-\n%TIME_UP").unwrap().winner, Some(Color::Black));
    assert_eq!(parse_csa_string("+\n%ILLEGAL_MOVE").unwrap().winner, Some(Color::White));
    assert_eq!(parse_csa_string("+\n+2726FU\n%TORYO").unwrap().winner, Some(Color::Black));
    assert_eq!(parse_csa_string("%+ILLEGAL_ACTION").unwrap().winner, Some(Color::White));
    assert_eq!(parse_csa_string("%-ILLEGAL_ACTION").unwrap().winner, Some(Color::Black));
    assert_eq!(detail(parse_csa_string("+\n%CHUDAN")), "%CHUDAN is not supported.");
    assert_eq!(detail(parse_csa_string("%TORYO")), "Starting player is not defined");
}

#[test]
fn lines_that_are_passed_over() {
    let r = parse_csa_string("'comment\nV2.2\n$EVENT:x\nT12\nP1 *  * \n\n   \n").unwrap();
    assert!(r.moves.is_empty());
    assert_eq!(r.names, [None, None]);
}

#[test]
fn drops_and_time_after_a_move() {
    let r = parse_csa_string("+\n+0055KA,T3\n").unwrap();
    assert_eq!(
        r.moves,
        [Move { color: Color::Black, from: None, to: Square { file: 5, rank: 5 }, piece: Piece::Bishop }]
    );
}

#[test]
fn record_errors() {
    assert_eq!(detail(parse_csa_string("+\n-")), "This file has multiple starting information.");
    assert_eq!(detail(parse_csa_string("+2726FU")), "Starting player is not defined");
    assert_eq!(detail(parse_csa_string("+\n/\n")), "Separator is not supported.");
    assert_eq!(detail(parse_csa_string("+\nhello")), "Invalid line 2: hello");
    assert_eq!(detail(parse_csa_string("N=x")), "Unknown symbol 1: N=x");
    assert_eq!(detail(parse_csa_string("N")), "Unknown symbol 1: N");
    assert_eq!(detail(parse_csa_string("+\n+2700FU")), "Invalid destination: +2700FU");
    assert_eq!(detail(parse_csa_string("+\n+2726XX")), "Invalid piece type: XX");
    assert_eq!(detail(parse_csa_string("+\n+2a26FU")), "Invalid square 2a");
    assert_eq!(detail(parse_csa_string("+\n+27")), "Incomplete move: +27");
    let long = "'\n".repeat(11) + "?";
    assert_eq!(detail(parse_csa_string(&long)), "Invalid line 12: ?");
}

#[test]
fn move_lines() {
    let mv = parse_move_str("-0022KA").unwrap();
    assert_eq!(mv, Move { color: Color::White, from: None, to: Square { file: 2, rank: 2 }, piece: Piece::Bishop });
    assert!(parse_move_str("").is_err());
    assert!(parse_move_str("x2726FU").is_err());
    assert!(parse_move_str("+2726F").is_err());
    let e = parse_move_str("*2726FU").unwrap_err();
    assert_eq!(e.message(), "CSA parse error: Invalid color symbol: *");
}

#[test]
fn colours_squares_and_kinds_from_text() {
    assert_eq!(Color::from_str("+").unwrap(), Color::Black);
    assert_eq!(Color::from_str("-").unwrap(), Color::White);
    assert!(Color::from_str("").is_err());
    assert!(Color::from_str("++").is_err());
    assert_eq!("-".parse::<Color>().unwrap(), Color::White);
    assert_eq!(Square::from_str("19").unwrap(), Square { file: 1, rank: 9 });
    assert_eq!("91".parse::<Square>().unwrap(), Square { file: 9, rank: 1 });
    assert_eq!(Square::from_str("1").unwrap_err().message(), "CSA parse error: Invalid square: 1");
    assert_eq!(Square::from_str("10").unwrap_err().message(), "CSA parse error: Invalid square 10");
    assert!(Square::from_str("123").is_err());
    let names = [
        "* ", "FU", "KY", "KE", "GI", "KI", "KA", "HI", "OU", "TO", "NY", "NK", "NG", "UM", "RY",
    ];
    for (i, name) in names.iter().enumerate() {
        assert_eq!(Piece::from_str(name).unwrap(), Piece::from(i as u8));
        assert_eq!(name.parse::<Piece>().unwrap(), Piece::from(i as u8));
    }
    assert_eq!(Piece::from_str("fu").unwrap_err().message(), "CSA parse error: Invalid piece type: fu");
}
