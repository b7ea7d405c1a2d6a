use secretary::caesar::{attack, decipher, decode, encode, CaesarAtk, CaesarDec, CaesarEnc};
use secretary::error::CipherError;

#[test]
fn hello_with_key_three() {
    assert_eq!(encode("hello", 3), Ok(String::from("KHOOR")));
    assert_eq!(decode("KHOOR", 3), Ok(String::from("hello")));
}

#[test]
fn whitespace_is_stripped_before_the_shift() {
    assert_eq!(encode("the quick brown fox", 13), Ok(String::from("GURDHVPXOEBJASBK")));
    assert_eq!(encode(" h e\tl\nl o ", 3), Ok(String::from("KHOOR")));
}

#[test]
fn key_zero_only_changes_the_case() {
    assert_eq!(encode("hello world", 0), Ok(String::from("HELLOWORLD")));
    assert_eq!(decode("HELLOWORLD", 0), Ok(String::from("helloworld")));
}

#[test]
fn the_shift_wraps_around_the_alphabet() {
    assert_eq!(encode("xyz", 25), Ok(String::from("WXY")));
    assert_eq!(encode("xyz", 3), Ok(String::from("ABC")));
    assert_eq!(decode("ABC", 3), Ok(String::from("xyz")));
}

#[test]
fn a_key_above_25_is_refused_first() {
    assert_eq!(encode("hello", 26), Err(CipherError::InvalidKeyShape));
    assert_eq!(encode("Hello", 26), Err(CipherError::InvalidKeyShape));
    assert_eq!(decode("KHOOR", 26), Err(CipherError::InvalidKeyShape));
    assert_eq!(decode("khoor", u32::MAX), Err(CipherError::InvalidKeyShape));
}

#[test]
fn texts_of_the_wrong_shape_are_refused() {
    assert_eq!(encode("Hello", 3), Err(CipherError::NonAlphabeticInput));
    assert_eq!(encode("hello!", 3), Err(CipherError::NonAlphabeticInput));
    assert_eq!(decode("khoor", 3), Err(CipherError::NonAlphabeticInput));
    assert_eq!(decode("KHOOR ZRUOG", 3), Err(CipherError::NonAlphabeticInput));
}

#[test]
fn caesar_empty_texts_stay_empty() {
    assert_eq!(encode("", 5), Ok(String::new()));
    assert_eq!(encode("  \n", 5), Ok(String::new()));
    assert_eq!(decode("", 5), Ok(String::new()));
}

#[test]
fn caesar_every_key_round_trips() {
    let plaintext = "the five boxing wizards jump quickly";
    let stripped: String = plaintext.chars().filter(|c| !c.is_ascii_whitespace()).collect();
    for key in 0..26 {
        let ciphertext = encode(plaintext, key).unwrap();
        assert!(ciphertext.chars().all(|c| c.is_ascii_uppercase()));
        assert_eq!(decode(&ciphertext, key), Ok(stripped.clone()));
    }
}

#[test]
fn attack_lists_all_26_keys_in_order() {
    let candidates = attack("KHOOR").unwrap();
    assert_eq!(candidates.len(), 26);
    assert_eq!(candidates[3][0], "hello");
    assert_eq!(candidates[3][1], "3");
    assert_eq!(candidates[0][0], "khoor");
    assert_eq!(candidates[0][1], "0");
    assert_eq!(candidates[25][0], "lipps");
    assert_eq!(candidates[25][1], "25");
    for (key, candidate) in candidates.iter().enumerate() {
        assert_eq!(candidate[1], key.to_string());
        assert_eq!(candidate[0], decode("KHOOR", key as u32).unwrap());
    }
}

#[test]
fn caesar_attack_refuses_what_is_no_ciphertext() {
    assert_eq!(attack("khoor"), Err(CipherError::NonAlphabeticInput));
    assert_eq!(attack("KH OOR"), Err(CipherError::NonAlphabeticInput));
}

#[test]
fn attack_on_nothing_gives_26_empty_candidates() {
    let candidates = attack("").unwrap();
    assert_eq!(candidates.len(), 26);
    assert!(candidates.iter().all(|c| c[0].is_empty()));
}

#[test]
fn decipher_shifts_back() {
    assert_eq!(decipher("KHOOR", 3), "hello");
    assert_eq!(decipher("ABC", 25), "bcd");
}

#[test]
fn caesar_the_tools_update_their_output() {
    let mut enc = CaesarEnc::default();
    assert_eq!(enc.key, 0);
    enc.plaintext = String::from("hello world");
    enc.key = 3;
    enc.update_ciphertext();
    assert_eq!(enc.ciphertext, "KHOORZRUOG");
    assert_eq!(enc.plaintext, "hello world");
    assert_eq!(CaesarEnc::char_cipher('z', 1), 'A');

    let mut dec = CaesarDec::default();
    dec.ciphertext = String::from("KHOORZRUOG");
    dec.key = 3;
    dec.update_plaintext();
    assert_eq!(dec.plaintext, "helloworld");
    assert_eq!(CaesarDec::char_decipher('A', 1), 'z');

    let mut atk = CaesarAtk::default();
    atk.ciphertext = String::from("KHOOR");
    let found = atk.cryptoanalisys();
    assert_eq!(found.len(), 26);
    assert_eq!(found[3], [String::from("hello"), String::from("3")]);
}
