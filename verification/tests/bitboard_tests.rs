use shogi_util::{Bitboard, Square};

#[test]
fn board_test_rotate180() {
    let b = Bitboard(0b_111111111_100000000_100000000_100000000_100000000_100000000_100000000_100000000_100000000);
    let rotated = b.rotate180();
    assert_eq!(rotated.0, 0b_000000001_000000001_000000001_000000001_000000001_000000001_000000001_000000001_111111111);
}

#[test]
fn bitboard_test_rotate180() {
    let input: u128 =
        0b_101001000100001000001000000100000001000000001000000000100000000001000000000001000;
    let expected: u128 =
        0b_000100000000000100000000001000000000100000000100000001000000100000100001000100101;
    assert_eq!(expected, Bitboard(input).rotate180().0);
    assert_eq!(input, Bitboard(input).rotate180().rotate180().0);
}

#[test]
fn test_bit_iterator() {
    let v = Bitboard(0b1000100101).iter();
    assert_eq!(v, [0, 2, 5, 9]);
}

#[test]
fn test_full_bit() {
    let full = Bitboard::full();
    assert_eq!(81, full.0.count_ones());
}

#[test]
fn empty_board_has_no_member() {
    let b = Bitboard::empty();
    assert_eq!(b.0, 0);
    assert!(b.iter().is_empty());
    for file in 1..=9 {
        for rank in 1..=9 {
            assert!(!b.is_filled(&Square { file, rank }));
        }
    }
}

#[test]
fn fill_then_remove_round_trip() {
    for file in 1..=9u8 {
        for rank in 1..=9u8 {
            let sq = Square { file, rank };
            let mut b = Bitboard::empty();
            b.fill(&sq);
            assert!(b.is_filled(&sq));
            assert_eq!(b.0, 1u128 << ((rank - 1) * 9 + 9 - file));
            b.remove(&sq);
            assert!(!b.is_filled(&sq));
            assert_eq!(b.0, 0);
        }
    }
}

#[test]
fn fill_keeps_the_other_members() {
    let mut b = Bitboard(0b1000100101);
    b.fill(&Square { file: 8, rank: 2 });
    assert_eq!(b.0, 0b10000000000 | 0b1000100101);
    assert_eq!(b.iter(), [0, 2, 5, 9, 10]);
    b.fill(&Square { file: 1, rank: 9 });
    assert_eq!(b.iter(), [0, 2, 5, 9, 10, 80]);
    b.remove(&Square { file: 7, rank: 1 });
    assert_eq!(b.iter(), [0, 5, 9, 10, 80]);
}

#[test]
fn rotation_is_an_involution() {
    let samples: [u128; 4] = [
        0,
        0x1_ffff_ffff_ffff_ffff_ffff,
        0b1000100101,
        0b_101001000100001000001000000100000001000000001000000000100000000001000000000001000,
    ];
    for &x in samples.iter() {
        assert_eq!(Bitboard(x).rotate180().rotate180().0, x);
    }
    assert_eq!(Bitboard(0).rotate180().0, 0);
    assert_eq!(Bitboard::full().rotate180().0, Bitboard::full().0);
}

#[test]
fn rotation_maps_each_square_to_its_opposite() {
    for file in 1..=9u8 {
        for rank in 1..=9u8 {
            let mut b = Bitboard::empty();
            b.fill(&Square { file, rank });
            let r = b.rotate180();
            assert!(r.is_filled(&Square { file: 10 - file, rank: 10 - rank }));
            assert_eq!(r.iter().len(), 1);
        }
    }
}

#[test]
fn rotation_drops_what_lies_outside_the_board() {
    let b = Bitboard((1u128 << 100) | 1);
    assert_eq!(b.rotate180().0, 1u128 << 80);
}

#[test]
fn iteration_is_ascending_and_complete() {
    let b = Bitboard::full();
    let v = b.iter();
    assert_eq!(v.len(), 81);
    for (i, &pos) in v.iter().enumerate() {
        assert_eq!(pos as usize, i);
    }
    let high = Bitboard((1u128 << 127) | (1u128 << 81) | (1u128 << 3));
    assert_eq!(high.iter(), [3, 81, 127]);
}

#[test]
fn set_algebra_on_words() {
    let a = Bitboard(0b1100);
    let b = Bitboard(0b1010);
    assert_eq!((a & b).0, 0b1000);
    assert_eq!((a | b).0, 0b1110);
    assert_eq!((a ^ b).0, 0b0110);
}

#[test]
fn file_count_counts_one_file_only() {
    let mut b = Bitboard::empty();
    b.fill(&Square { file: 5, rank: 1 });
    b.fill(&Square { file: 5, rank: 9 });
    b.fill(&Square { file: 5, rank: 4 });
    b.fill(&Square { file: 4, rank: 4 });
    assert_eq!(b.file_count_ones(5), 3);
    assert_eq!(b.file_count_ones(4), 1);
    assert_eq!(b.file_count_ones(1), 0);
    assert_eq!(Bitboard::full().file_count_ones(9), 9);
}
