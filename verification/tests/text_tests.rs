use shogi_util::text::{
    append_chars, append_decimal, append_square, chars_of, color_str, digit_str, is_whitespace,
    piece_str, read_digit, same_chars, slice_of, spells, split, string_of, trim,
};
use shogi_util::{Color, Piece, ShogiUtilError, Square};

fn chars(s: &str) -> Vec<char> {
    s.chars().collect()
}

#[test]
fn error_messages() {
    let io = std::io::Error::new(std::io::ErrorKind::Other, "disk");
    assert_eq!(ShogiUtilError::IOError(io).message(), "io error");
    assert_eq!(
        ShogiUtilError::CsaParseError("bad line".to_string()).message(),
        "CSA parse error: bad line"
    );
    assert_eq!(
        ShogiUtilError::UsiParseError("bad word".to_string()).message(),
        "USI parse error: bad word"
    );
    assert_eq!(
        ShogiUtilError::InvalidMove("no piece".to_string()).message(),
        "Invalid move: no piece"
    );
}

#[test]
fn characters_of_a_text_and_back() {
    assert_eq!(chars_of(""), Vec::<char>::new());
    assert_eq!(chars_of("a+1"), vec!['a', '+', '1']);
    assert_eq!(chars_of("歩 x"), vec!['歩', ' ', 'x']);
    assert_eq!(string_of(&chars("")), "");
    assert_eq!(string_of(&chars("歩 x")), "歩 x");
    let mut text = String::from("ab");
    append_chars(&mut text, &chars("cd"));
    assert_eq!(text, "abcd");
}

#[test]
fn comparing_texts() {
    assert!(same_chars(&chars("abc"), &chars("abc")));
    assert!(!same_chars(&chars("abc"), &chars("abd")));
    assert!(!same_chars(&chars("abc"), &chars("ab")));
    assert!(same_chars(&chars(""), &chars("")));
    assert!(spells(&chars("moves"), "moves"));
    assert!(!spells(&chars("move"), "moves"));
    assert!(!spells(&chars("Moves"), "moves"));
}

#[test]
fn splitting_a_text() {
    let parts = |s: &str, sep: char| -> Vec<String> {
        split(&chars(s), sep).iter().map(|p| p.iter().collect()).collect()
    };
    assert_eq!(parts("", ' '), [""]);
    assert_eq!(parts("abc", ' '), ["abc"]);
    assert_eq!(parts("a b", ' '), ["a", "b"]);
    assert_eq!(parts("a  b", ' '), ["a", "", "b"]);
    assert_eq!(parts(" a ", ' '), ["", "a", ""]);
    assert_eq!(parts("a\n", '\n'), ["a", ""]);
    assert_eq!(parts("//", '/'), ["", "", ""]);
    for text in ["", "a", "a b c", "  x  ", "1/2//3"].iter() {
        for sep in [' ', '/'].iter() {
            let expected: Vec<String> = text.split(*sep).map(|p| p.to_string()).collect();
            assert_eq!(parts(text, *sep), expected);
        }
    }
}

#[test]
fn trimming_a_text() {
    let trimmed = |s: &str| -> String { trim(&chars(s)).iter().collect() };
    assert_eq!(trimmed(""), "");
    assert_eq!(trimmed("   "), "");
    assert_eq!(trimmed("  a b \t\r\n"), "a b");
    assert_eq!(trimmed("x"), "x");
    assert_eq!(trimmed("\u{3000}x\u{a0}"), "x");
    assert_eq!(trimmed("\u{200b}x"), "\u{200b}x");
}

#[test]
fn white_space_is_what_the_standard_library_calls_white_space() {
    for code in 0..0x11000u32 {
        if let Some(c) = char::from_u32(code) {
            assert_eq!(is_whitespace(c), c.is_whitespace());
        }
    }
}

#[test]
fn slices() {
    assert_eq!(slice_of(&chars("abcdef"), 1, 3), vec!['b', 'c']);
    assert_eq!(slice_of(&chars("abcdef"), 2, 2), Vec::<char>::new());
    assert_eq!(slice_of(&chars("abcdef"), 0, 6), chars("abcdef"));
}

#[test]
fn digits_and_numbers() {
    for d in 0..10u8 {
        assert_eq!(digit_str(d), d.to_string());
        assert_eq!(read_digit((b'0' + d) as char), Some(d));
    }
    assert_eq!(read_digit('a'), None);
    assert_eq!(read_digit('/'), None);
    assert_eq!(read_digit(':'), None);
    assert_eq!(read_digit('٣'), None);
    for n in [0usize, 7, 9, 10, 11, 99, 100, 101, 255, 1000, 65535, 1234567890].iter() {
        let mut text = String::from("n=");
        append_decimal(&mut text, *n);
        assert_eq!(text, format!("n={}", n));
    }
    let mut text = String::new();
    append_decimal(&mut text, usize::MAX);
    assert_eq!(text, usize::MAX.to_string());
}

#[test]
fn names_in_messages() {
    assert_eq!(color_str(Color::Black), "Black");
    assert_eq!(color_str(Color::White), "White");
    let names = [
        "Empty", "Pawn", "Lance", "Knight", "Silver", "Gold", "Bishop", "Rook", "King", "ProPawn",
        "ProLance", "ProKnight", "ProSilver", "ProBishop", "ProRook",
    ];
    for i in 0..15u8 {
        assert_eq!(piece_str(Piece::from(i)), names[i as usize]);
    }
    let mut text = String::from("at ");
    append_square(&mut text, &Square { file: 7, rank: 6 });
    assert_eq!(text, "at 76");
}
