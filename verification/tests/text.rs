use orts::reading::with_e_exponent;
use orts::text::{
    chars_of, find_white, is_word, parse_index, split_lines, split_tokens, string_of,
    string_of_range, trim_bounds,
};

fn chars(s: &str) -> Vec<char> {
    s.chars().collect()
}

fn texts(rows: &[Vec<char>]) -> Vec<String> {
    rows.iter().map(|r| r.iter().collect()).collect()
}

#[test]
fn a_string_is_built_from_its_characters() {
    assert_eq!(string_of(&chars("gfc 2 0")), "gfc 2 0");
    assert_eq!(string_of(&[]), "");
    assert_eq!(string_of(&chars("C̄20 µ")), "C̄20 µ");
    assert_eq!(string_of_range(&chars("modelname TEST2"), 10, 15), "TEST2");
    assert_eq!(chars_of("ab"), vec!['a', 'b']);
}

#[test]
fn lines_split_as_str_lines_does() {
    for text in ["a\nb", "a\r\nb\n", "", "\n", "a\n\nb", "x\r", "a\rb\n"] {
        let got = texts(&split_lines(&chars(text)));
        let want: Vec<String> = text.lines().map(str::to_string).collect();
        assert_eq!(got, want, "{text:?}");
    }
}

#[test]
fn tokens_split_as_split_whitespace_does() {
    for text in ["gfc   2    0  -4.8e-4", "  lead", "trail  ", "", "a\tb\u{3000}c"] {
        let got = texts(&split_tokens(&chars(text)));
        let want: Vec<String> = text.split_whitespace().map(str::to_string).collect();
        assert_eq!(got, want, "{text:?}");
    }
}

#[test]
fn indices_parse_as_usize_does() {
    for text in ["0", "2190", "007", "", "x", "-1", "+3", "18446744073709551615", "18446744073709551616"] {
        assert_eq!(parse_index(&chars(text)), text.parse::<usize>().ok(), "{text:?}");
    }
}

#[test]
fn words_and_trims() {
    assert!(is_word(&chars("end_of_head"), "end_of_head"));
    assert!(!is_word(&chars("end_of_head2"), "end_of_head"));
    assert_eq!(find_white(&chars("modelname X")), Some(9));
    assert_eq!(find_white(&chars("modelname")), None);
    let v = chars("  EIGEN-6C4 (static part)   ");
    let (a, b) = trim_bounds(&v, 0, v.len());
    assert_eq!(string_of_range(&v, a, b), "EIGEN-6C4 (static part)");
}

#[test]
fn a_fortran_exponent_reads_as_an_e() {
    assert_eq!(with_e_exponent("0.484D-03"), "0.484e-03");
    assert_eq!(with_e_exponent("-1.25d-2"), "-1.25e-2");
    assert_eq!(with_e_exponent("1e3"), "1e3");
    assert_eq!(with_e_exponent("Dd"), "ee");
}
