use secretary::alphabet::{
    chars_of, from_symbol, string_of, to_ascii_lowercase, to_ascii_uppercase, to_symbol,
    valid_ciphertext, valid_plaintext, whiteless, CryptoAscciExt,
};
use secretary::error::CipherError;

#[test]
fn letters_of_either_case_have_the_same_symbol() {
    assert_eq!(to_symbol('a'), Ok(0));
    assert_eq!(to_symbol('A'), Ok(0));
    assert_eq!(to_symbol('z'), Ok(25));
    assert_eq!(to_symbol('Z'), Ok(25));
    assert_eq!(to_symbol('m'), Ok(12));
}

#[test]
fn anything_but_a_letter_has_no_symbol() {
    for c in ['0', ' ', '@', '[', '`', '{', 'é', '\n'] {
        assert_eq!(to_symbol(c), Err(CipherError::NonAlphabeticInput));
    }
}

#[test]
fn symbols_come_back_as_lowercase_letters() {
    assert_eq!(from_symbol(0), Ok('a'));
    assert_eq!(from_symbol(25), Ok('z'));
    assert_eq!(from_symbol(7), Ok('h'));
}

#[test]
fn a_symbol_of_26_or_more_is_out_of_range() {
    assert_eq!(from_symbol(26), Err(CipherError::OutOfRange));
    assert_eq!(from_symbol(u32::MAX), Err(CipherError::OutOfRange));
}

#[test]
fn case_is_lost_on_the_way_through_a_symbol() {
    for s in 0..26 {
        let c = from_symbol(s).unwrap();
        assert_eq!(to_symbol(c), Ok(s));
        assert_eq!(to_symbol(to_ascii_uppercase(c)), Ok(s));
    }
    assert_eq!(from_symbol(to_symbol('Q').unwrap()), Ok('q'));
}

#[test]
fn crypto_extension_agrees_with_the_symbols() {
    assert_eq!('a'.as_crypto(), 0);
    assert_eq!('Z'.as_crypto(), 25);
    assert_eq!('k'.as_crypto(), 10);
    let c: char = char::from_crypto(10);
    assert_eq!(c, 'k');
}

#[test]
fn case_conversion_touches_letters_only() {
    assert_eq!(to_ascii_uppercase('a'), 'A');
    assert_eq!(to_ascii_uppercase('z'), 'Z');
    assert_eq!(to_ascii_uppercase('A'), 'A');
    assert_eq!(to_ascii_uppercase('1'), '1');
    assert_eq!(to_ascii_lowercase('Q'), 'q');
    assert_eq!(to_ascii_lowercase('q'), 'q');
    assert_eq!(to_ascii_lowercase(' '), ' ');
    for c in ['a', 'M', '7', ' ', 'ß'] {
        assert_eq!(to_ascii_uppercase(c), c.to_ascii_uppercase());
        assert_eq!(to_ascii_lowercase(c), c.to_ascii_lowercase());
    }
}

#[test]
fn plaintext_is_lowercase_letters_and_whitespace() {
    assert!(valid_plaintext(&String::from("hello world")));
    assert!(valid_plaintext(&String::from("a\tb\nc\rd\x0ce")));
    assert!(valid_plaintext(&String::from("")));
    assert!(!valid_plaintext(&String::from("Hello")));
    assert!(!valid_plaintext(&String::from("hello1")));
    assert!(!valid_plaintext(&String::from("a\x0bb")));
}

#[test]
fn ciphertext_is_one_uppercase_word() {
    assert!(valid_ciphertext(&String::from("KHOOR")));
    assert!(valid_ciphertext(&String::from("")));
    assert!(!valid_ciphertext(&String::from("KHOOR ZRUOG")));
    assert!(!valid_ciphertext(&String::from("Khoor")));
}

#[test]
fn whiteless_drops_ascii_whitespace_only() {
    assert_eq!(whiteless(&String::from(" a b\tc\nd\re\x0cf ")), "abcdef");
    assert_eq!(whiteless(&String::from("   ")), "");
    assert_eq!(whiteless(&String::from("a\x0bb")), "a\x0bb");
    assert_eq!(whiteless(&String::from("Hi There")), "HiThere");
}

#[test]
fn strings_and_characters_convert_both_ways() {
    let text = chars_of("añb c");
    assert_eq!(text, vec!['a', 'ñ', 'b', ' ', 'c']);
    assert_eq!(string_of(&text), "añb c");
    assert_eq!(string_of(&Vec::new()), "");
}
