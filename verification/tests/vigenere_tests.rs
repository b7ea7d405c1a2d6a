use secretary::error::CipherError;
use secretary::vigenere::{decode, encode, key_vector, valid_key, VigenereDec, VigenereEnc};

#[test]
fn hello_with_the_key_key() {
    // k, e, y shift by 11, 5, 25: h+11, e+5, l+25, l+11, o+5
    assert_eq!(key_vector(&vec!['k', 'e', 'y']), vec![11, 5, 25]);
    assert_eq!(encode("hello", "key"), Ok(String::from("SJKWT")));
    assert_eq!(decode("SJKWT", "key"), Ok(String::from("hello")));
}

#[test]
fn the_key_is_laid_along_the_letters_alone() {
    assert_eq!(encode("attack at dawn", "lemon"), Ok(String::from("MYGPQWFGSOIS")));
    assert_eq!(encode("attackatdawn", "lemon"), Ok(String::from("MYGPQWFGSOIS")));
    assert_eq!(encode("a t t a c k a t d a w n", "lemon"), Ok(String::from("MYGPQWFGSOIS")));
}

#[test]
fn letters_of_the_key_count_from_one() {
    assert_eq!(encode("abc", "a"), Ok(String::from("BCD")));
    assert_eq!(encode("abc", "z"), Ok(String::from("ABC")));
    assert_eq!(decode("BCD", "a"), Ok(String::from("abc")));
}

#[test]
fn a_key_is_one_lowercase_letter_or_more() {
    assert!(valid_key(&vec!['k', 'e', 'y']));
    assert!(!valid_key(&Vec::new()));
    assert!(!valid_key(&vec!['K']));
    assert!(!valid_key(&vec!['k', ' ', 'y']));
    assert_eq!(encode("hello", ""), Err(CipherError::InvalidKeyShape));
    assert_eq!(encode("hello", "Key"), Err(CipherError::InvalidKeyShape));
    assert_eq!(decode("SJKWT", "k3y"), Err(CipherError::InvalidKeyShape));
}

#[test]
fn the_text_is_checked_before_the_key() {
    assert_eq!(encode("Hello", ""), Err(CipherError::NonAlphabeticInput));
    assert_eq!(encode("hello!", "key"), Err(CipherError::NonAlphabeticInput));
    assert_eq!(decode("sjkwt", ""), Err(CipherError::NonAlphabeticInput));
    assert_eq!(decode("SJ KWT", "key"), Err(CipherError::NonAlphabeticInput));
}

#[test]
fn round_trips_with_keys_of_every_length() {
    let plaintext = "how vexingly quick daft zebras jump";
    let stripped: String = plaintext.chars().filter(|c| !c.is_ascii_whitespace()).collect();
    for key in ["a", "z", "key", "lemon", "averyveryverylongkeythatislongerthanthetext"] {
        let ciphertext = encode(plaintext, key).unwrap();
        assert!(ciphertext.chars().all(|c| c.is_ascii_uppercase()));
        assert_eq!(decode(&ciphertext, key), Ok(stripped.clone()));
    }
}

#[test]
fn vigenere_the_tools_update_their_output() {
    let mut enc = VigenereEnc::default();
    assert!(!enc.valid_key());
    enc.plaintext = String::from("hello");
    enc.key = String::from("key");
    assert!(enc.valid_key());
    enc.update_ciphertext();
    assert_eq!(enc.ciphertext, "SJKWT");
    assert_eq!(VigenereEnc::char_cipher('l', 25), 'K');

    let mut dec = VigenereDec::default();
    dec.ciphertext = String::from("SJKWT");
    dec.key = String::from("key");
    assert!(dec.valid_key());
    assert!(dec.valid_ciphertext());
    dec.update_plaintext();
    assert_eq!(dec.plaintext, "hello");
    assert_eq!(VigenereDec::char_decipher('K', 25), 'l');
    dec.ciphertext = String::from("sjkwt");
    assert!(!dec.valid_ciphertext());
}
