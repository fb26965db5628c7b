use music_terminal_player::number::{
    format_hex, format_i64, format_two_digits, format_u64, parse_hex, parse_i32, parse_i64,
    parse_u64,
};
use music_terminal_player::paths::{extension, file_name, single_name};
use music_terminal_player::sorting::stable_order;
use music_terminal_player::text::{
    behind_last, contains_text, equal_ignoring_ascii_case, is_control, is_white_space, join_lines,
    split_lines, split_n, split_words, strip_prefix, strip_suffix, to_ascii_lowered, to_unbroken,
    trim, trim_char, trim_end_char, trim_start_char,
};

const SAMPLES: [&str; 16] = [
    "",
    " ",
    "a",
    "  a b  ",
    "\ttab\t",
    "line\nnext",
    "line\r\nnext\r\n",
    "line\r",
    "\n",
    "\n\n",
    "a\n\nb\n",
    "\u{a0}nbsp\u{a0}",
    "\u{3000}wide space\u{2003}",
    "é à ü",
    "音楽 ♫",
    "/a//b/",
];

#[test]
fn character_classes_are_those_of_the_standard_library() {
    for c in '\u{0}'..=char::MAX {
        assert_eq!(is_white_space(c), c.is_whitespace());
        assert_eq!(is_control(c), c.is_control());
    }
}

#[test]
fn text_functions_agree_with_the_standard_library() {
    for text in SAMPLES {
        assert_eq!(trim(text), text.trim());
        assert_eq!(split_lines(text), text.lines().collect::<Vec<_>>());
        assert_eq!(
            split_words(text),
            text.split_whitespace().collect::<Vec<_>>()
        );
        assert_eq!(to_ascii_lowered(text), text.to_ascii_lowercase());
        assert_eq!(
            to_unbroken(text),
            text.replace(['\t', '\r', '\n'], " ")
        );
        assert_eq!(trim_char(text, 'a'), text.trim_matches('a'));
        assert_eq!(trim_start_char(text, '/'), text.trim_start_matches('/'));
        assert_eq!(trim_end_char(text, '/'), text.trim_end_matches('/'));
        assert_eq!(behind_last(text, '/'), text.rsplit('/').next().unwrap());
        for n in 1..4 {
            assert_eq!(
                split_n(text, n, '/'),
                text.splitn(n, '/').collect::<Vec<_>>()
            );
        }
        for other in SAMPLES {
            assert_eq!(contains_text(text, other), text.contains(other));
            assert_eq!(
                strip_prefix(text, other).as_deref(),
                text.strip_prefix(other)
            );
            assert_eq!(
                strip_suffix(text, other).as_deref(),
                text.strip_suffix(other)
            );
            assert_eq!(
                equal_ignoring_ascii_case(text, other),
                text.eq_ignore_ascii_case(other)
            );
        }
    }
}

#[test]
fn written_lines_are_read_back() {
    let rows = vec!["one".to_string(), String::new(), "three\tfields".to_string()];
    assert_eq!(join_lines(&rows), "one\n\nthree\tfields\n");
    assert_eq!(split_lines(&join_lines(&rows)), rows);
}

#[test]
fn numbers_agree_with_the_standard_library() {
    let texts = [
        "",
        "+",
        "-",
        "0",
        "-0",
        "+7",
        "007",
        "12a",
        " 1",
        "2147483647",
        "2147483648",
        "-2147483648",
        "-2147483649",
        "9223372036854775807",
        "9223372036854775808",
        "-9223372036854775808",
        "-9223372036854775809",
        "18446744073709551615",
        "18446744073709551616",
        "000000000000000000000000000000001",
        "99999999999999999999999999",
        "٣",
    ];
    for text in texts {
        assert_eq!(parse_i32(text), text.parse::<i32>().ok());
        assert_eq!(parse_i64(text), text.parse::<i64>().ok());
        assert_eq!(parse_u64(text), text.parse::<u64>().ok());
    }
    for n in [0, 9, 10, 99, 100, u64::MAX] {
        assert_eq!(format_u64(n), n.to_string());
    }
    for n in [0, -1, 7, -10, i64::MAX, i64::MIN] {
        assert_eq!(format_i64(n), n.to_string());
    }
    for n in [0, 5, 10, 59, 100] {
        assert_eq!(format_two_digits(n), format!("{n:02}"));
    }
}

#[test]
fn bytes_round_trip_through_hexadecimal_notation() {
    let bytes: Vec<u8> = (0..=255).collect();
    let text = format_hex(&bytes);
    assert!(text.starts_with("000102"));
    assert!(text.ends_with("fdfeff"));
    assert_eq!(parse_hex(&text), Some(bytes));
    assert_eq!(parse_hex("FFaB"), Some(vec![255, 171]));
    assert_eq!(parse_hex("+f"), Some(vec![15]));
    assert_eq!(parse_hex("f+"), None);
    assert_eq!(parse_hex("abc"), None);
    assert_eq!(parse_hex("zz"), None);
}

#[test]
fn names_and_extensions_of_paths() {
    assert_eq!(
        file_name(r"C:\Music\Song.mp3").as_deref(),
        Some("Song.mp3")
    );
    assert_eq!(file_name("music/album/").as_deref(), Some("album"));
    assert_eq!(file_name("album/.").as_deref(), Some("album"));
    assert_eq!(file_name("album/.."), None);
    assert_eq!(file_name("C:song.ogg").as_deref(), Some("song.ogg"));
    assert_eq!(file_name(r"C:\"), None);
    assert_eq!(file_name("."), None);
    assert_eq!(file_name(""), None);
    assert_eq!(extension("a.b/c").as_deref(), None);
    assert_eq!(extension("song.tar.GZ").as_deref(), Some("GZ"));
    assert_eq!(extension(".hidden"), None);
    assert_eq!(extension("dot.").as_deref(), Some(""));
    assert_eq!(single_name("vi.lang").as_deref(), Some("vi.lang"));
    assert_eq!(single_name("vi.lang/.").as_deref(), Some("vi.lang"));
    assert_eq!(single_name("./vi.lang"), None);
    assert_eq!(single_name(r"x\vi.lang"), None);
    assert_eq!(single_name("C:vi.lang"), None);
    assert_eq!(single_name("/vi.lang"), None);
}

#[test]
fn sorting_is_stable_and_by_dictionary_order() {
    let keys = ["b", "a", "b", "", "ab", "a"].map(String::from).to_vec();
    assert_eq!(stable_order(&keys), vec![3, 1, 5, 4, 0, 2]);
    let mut sorted: Vec<usize> = (0..keys.len()).collect();
    sorted.sort_by_key(|i| keys[*i].clone());
    assert_eq!(stable_order(&keys), sorted);
}
