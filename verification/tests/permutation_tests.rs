use secretary::error::CipherError;
use secretary::permutation::{
    check_ciphertext, decipher_slice, decode, encipher_slice, encode, parse_key, PermDec, PermEnc,
};

#[test]
fn a_key_is_a_permutation_of_one_to_n() {
    assert_eq!(parse_key("231"), Some(vec![2, 3, 1]));
    assert_eq!(parse_key("221"), None);
    assert_eq!(parse_key("012"), None);
    assert_eq!(parse_key("45"), None);
    assert_eq!(parse_key("1"), Some(vec![1]));
    assert_eq!(parse_key("987654321"), Some(vec![9, 8, 7, 6, 5, 4, 3, 2, 1]));
}

#[test]
fn a_key_of_no_digits_or_of_ten_is_refused() {
    assert_eq!(parse_key(""), None);
    assert_eq!(parse_key("1234567891"), None);
    assert_eq!(parse_key("12a"), None);
    assert_eq!(parse_key("1 2"), None);
    assert_eq!(parse_key("١٢"), None);
}

#[test]
fn the_symbol_at_i_goes_to_the_place_the_key_names() {
    assert_eq!(encode("abc", "231"), Ok(String::from("CAB")));
    assert_eq!(encipher_slice(&vec!['a', 'b', 'c'], &vec![2, 3, 1]), vec!['C', 'A', 'B']);
    assert_eq!(decipher_slice(&vec!['C', 'A', 'B'], &vec![2, 3, 1]), vec!['a', 'b', 'c']);
}

#[test]
fn the_last_block_is_filled_with_a() {
    assert_eq!(encode("hello world", "231"), Ok(String::from("LHE WLO LOR ADA")));
    assert_eq!(decode("LHE WLO LOR ADA", "231"), Ok(String::from("helloworldaa")));
}

#[test]
fn whole_blocks_need_no_filler() {
    assert_eq!(encode("attack at dawn", "3142"), Ok(String::from("TAAT KTCA ANDW")));
    assert_eq!(decode("TAAT KTCA ANDW", "3142"), Ok(String::from("attackatdawn")));
}

#[test]
fn blocks_of_one_and_of_nine() {
    assert_eq!(encode("abcdef", "1"), Ok(String::from("A B C D E F")));
    assert_eq!(encode("abcdefghij", "987654321"), Ok(String::from("IHGFEDCBA AAAAAAAAJ")));
    assert_eq!(decode("A B C", "1"), Ok(String::from("abc")));
}

#[test]
fn permutation_empty_texts_stay_empty() {
    assert_eq!(encode("", "231"), Ok(String::new()));
    assert_eq!(encode(" \n ", "231"), Ok(String::new()));
    assert_eq!(decode("", "231"), Ok(String::new()));
    assert_eq!(decode("  ", "231"), Ok(String::new()));
}

#[test]
fn any_whitespace_separates_blocks() {
    assert_eq!(decode("LHE\tWLO\n\nLOR   ADA ", "231"), Ok(String::from("helloworldaa")));
}

#[test]
fn round_trip_keeps_the_fillers() {
    let plaintext = "we are discovered flee at once";
    let stripped: String = plaintext.chars().filter(|c| !c.is_ascii_whitespace()).collect();
    for key in ["1", "21", "231", "3142", "41523", "987654321"] {
        let n = key.len();
        let mut expected = stripped.clone();
        while expected.len() % n != 0 {
            expected.push('a');
        }
        let ciphertext = encode(plaintext, key).unwrap();
        assert!(ciphertext.split(' ').all(|block| block.len() == n));
        assert_eq!(decode(&ciphertext, key), Ok(expected));
    }
}

#[test]
fn rejections_come_in_order() {
    assert_eq!(encode("Hello", "221"), Err(CipherError::InvalidKeyShape));
    assert_eq!(encode("Hello", "231"), Err(CipherError::NonAlphabeticInput));
    assert_eq!(decode("lhe", "45"), Err(CipherError::InvalidKeyShape));
    assert_eq!(decode("lhe", "231"), Err(CipherError::NonAlphabeticInput));
    assert_eq!(decode("LHE WL", "231"), Err(CipherError::BlockLengthMismatch));
    assert_eq!(decode("LHEW", "231"), Err(CipherError::BlockLengthMismatch));
    assert_eq!(decode("LH1 WLO", "231"), Err(CipherError::NonAlphabeticInput));
}

#[test]
fn ciphertext_blocks_must_have_the_length_of_the_key() {
    assert_eq!(check_ciphertext(&"LHE WLO".chars().collect(), 3), Ok(()));
    assert_eq!(
        check_ciphertext(&"LHE WLO".chars().collect(), 2),
        Err(CipherError::BlockLengthMismatch)
    );
    assert_eq!(
        check_ciphertext(&"LHE wlo".chars().collect(), 3),
        Err(CipherError::NonAlphabeticInput)
    );
}

#[test]
fn permutation_the_tools_update_their_output() {
    let mut enc = PermEnc::default();
    assert!(!enc.valid_key());
    enc.plaintext = String::from("hello world");
    enc.key = String::from("231");
    assert!(enc.valid_key());
    assert!(enc.valid_plaintext());
    enc.update_ciphertext();
    assert_eq!(enc.ciphertext, "LHE WLO LOR ADA");
    assert_eq!(PermEnc::cipher_slice(vec!['h', 'e', 'l'], &vec![2, 3, 1]), "LHE");
    enc.key = String::from("221");
    assert!(!enc.valid_key());

    let mut dec = PermDec::default();
    dec.ciphertext = String::from("LHE WLO LOR ADA");
    dec.key = String::from("231");
    assert!(dec.valid_key());
    assert!(dec.valid_ciphertext());
    dec.update_plaintext();
    assert_eq!(dec.plaintext, "helloworldaa");
    assert_eq!(PermDec::cipher_slice(vec!['L', 'H', 'E'], &vec![2, 3, 1]), "hel");
    dec.key = String::from("2413");
    assert!(!dec.valid_ciphertext());
    dec.key = String::from("231");
    dec.ciphertext = String::from("LHE wlo");
    assert!(!dec.valid_ciphertext());
}
