use comtrade::text::{
    chars_of, is_exactly, is_real, is_space_char, is_word, lower_char, parse_i32, parse_unsigned,
    split_chars, string_of, trim_chars,
};

fn chars(text: &str) -> Vec<char> {
    text.chars().collect()
}

fn words(alphabet: &[char], longest: usize) -> Vec<String> {
    let mut all = vec![String::new()];
    let mut last = vec![String::new()];
    for _ in 0..longest {
        let mut next = Vec::new();
        for word in &last {
            for c in alphabet {
                let mut longer = word.clone();
                longer.push(*c);
                next.push(longer);
            }
        }
        all.extend(next.iter().cloned());
        last = next;
    }
    all
}

#[test]
fn whitespace_is_what_the_standard_library_calls_whitespace() {
    for code in 0..=0x11_0000u32 {
        if let Some(c) = char::from_u32(code) {
            assert_eq!(is_space_char(c), c.is_whitespace(), "U+{:04X}", code);
        }
    }
}

#[test]
fn trimming_agrees_with_the_standard_library() {
    for word in words(&[' ', '\t', '\r', '\n', 'a', ',', '\u{a0}', '\u{3000}'], 5) {
        assert_eq!(string_of(trim_chars(&chars(&word))), word.trim(), "{:?}", word);
    }
}

#[test]
fn splitting_agrees_with_the_standard_library() {
    for word in words(&[',', 'a', ' ', '\n'], 6) {
        let pieces: Vec<String> =
            split_chars(&chars(&word), ',').iter().map(|piece| string_of(piece)).collect();
        let expected: Vec<String> = word.split(',').map(|piece| piece.to_string()).collect();
        assert_eq!(pieces, expected, "{:?}", word);
    }
}

#[test]
fn splitting_keeps_empty_pieces() {
    let pieces = split_chars(&chars(",a,,b,"), ',');
    assert_eq!(pieces, vec![chars(""), chars("a"), chars(""), chars("b"), chars("")]);
    assert_eq!(split_chars(&chars(""), ','), vec![chars("")]);
    assert_eq!(split_chars(&chars("one\ntwo"), '\n'), vec![chars("one"), chars("two")]);
}

#[test]
fn real_literals_are_those_that_the_standard_library_reads() {
    let alphabet = ['0', '7', '+', '-', '.', 'e', 'E', 'i', 'n', 'f', 'a', 'N', ' '];
    for word in words(&alphabet, 5) {
        assert_eq!(is_real(&chars(&word)), word.parse::<f64>().is_ok(), "{:?}", word);
    }
}

#[test]
fn longer_real_literals_are_read_too() {
    for word in [
        "infinity", "+Infinity", "-INFINITY", "infinit", "infinityy", "in", "nan", "-NaN", "nann",
        "0.1138916015625", "-32768", "1e309", "1E-400", "12345678901234567890123456789",
        "1.5e+10", "1.5e+-10", "1..5", "1.5.5", "1e5e5", "0x10", "1_000", "1,5", "١٢٣", "１２",
        "+.5e-7", "5.e3", ".e3", "e3", "1e+", "--1", "+-1", " 1", "1 ",
    ] {
        assert_eq!(is_real(&chars(word)), word.parse::<f64>().is_ok(), "{:?}", word);
    }
}

#[test]
fn unsigned_integers_are_those_that_the_standard_library_reads() {
    for word in words(&['0', '1', '9', '+', '-', ' '], 5) {
        assert_eq!(
            parse_unsigned(&chars(&word), u32::MAX as u64),
            word.parse::<u32>().ok().map(|n| n as u64),
            "{:?}",
            word
        );
        assert_eq!(
            parse_unsigned(&chars(&word), 255),
            word.parse::<u8>().ok().map(|n| n as u64),
            "{:?}",
            word
        );
    }
    for word in [
        "4294967295", "4294967296", "+4294967295", "00000000004294967295", "18446744073709551615",
        "18446744073709551616", "99999999999999999999999999", "255", "256", "٣",
    ] {
        assert_eq!(
            parse_unsigned(&chars(word), u32::MAX as u64),
            word.parse::<u32>().ok().map(|n| n as u64),
            "{:?}",
            word
        );
        assert_eq!(parse_unsigned(&chars(word), u64::MAX), word.parse::<u64>().ok(), "{:?}", word);
        assert_eq!(
            parse_unsigned(&chars(word), 255),
            word.parse::<u8>().ok().map(|n| n as u64),
            "{:?}",
            word
        );
    }
}

#[test]
fn signed_integers_are_those_that_the_standard_library_reads() {
    for word in words(&['0', '1', '9', '+', '-', ' '], 5) {
        assert_eq!(parse_i32(&chars(&word)), word.parse::<i32>().ok(), "{:?}", word);
    }
    for word in [
        "2147483647", "2147483648", "-2147483648", "-2147483649", "+2147483647", "+2147483648",
        "-0", "+0", "-00000000002147483648", "99999999999999999999", "-99999999999999999999",
    ] {
        assert_eq!(parse_i32(&chars(word)), word.parse::<i32>().ok(), "{:?}", word);
    }
}

#[test]
fn words_are_compared_without_regard_to_ascii_case() {
    assert!(is_word(&chars("ASCII"), "ascii"));
    assert!(is_word(&chars("aScIi"), "ascii"));
    assert!(is_word(&chars(""), ""));
    assert!(!is_word(&chars("ascii "), "ascii"));
    assert!(!is_word(&chars("asci"), "ascii"));
    assert!(!is_word(&chars("ascij"), "ascii"));
    assert!(!is_word(&chars("ASCİİ"), "ascii"));
    assert!(is_exactly(&chars("1999"), "1999"));
    assert!(!is_exactly(&chars("1999 "), "1999"));
    assert!(!is_exactly(&chars("X"), "x"));
}

#[test]
fn lowering_a_word_agrees_with_the_standard_library_on_the_tokens() {
    let tokens =
        ["cfg", "dat", "hdr", "inf", "ascii", "binary", "binary32", "float32", "p", "s", "x", "f"];
    for code in 0..=0x11_0000u32 {
        if let Some(c) = char::from_u32(code) {
            let lowered = c.to_lowercase().to_string();
            for token in tokens {
                for (place, letter) in token.chars().enumerate() {
                    let mut word: Vec<char> = token.chars().collect();
                    word[place] = c;
                    let text: String = word.iter().collect();
                    assert_eq!(
                        is_word(&word, token),
                        text.to_lowercase() == token,
                        "U+{:04X} for {:?} in {:?}",
                        code,
                        letter,
                        token
                    );
                }
            }
            if c.is_ascii() {
                assert_eq!(lower_char(c).to_string(), lowered);
            }
        }
    }
}

#[test]
fn text_and_characters_go_back_and_forth() {
    for text in ["", "station", "Gerät №5", "\u{10ffff}\u{0}", "a\nb"] {
        assert_eq!(chars_of(text), chars(text));
        assert_eq!(string_of(&chars(text)), text);
    }
}
