use secretary::cipher::{attack, decode, encode, validate_key, AttackKind, Candidates, CipherKind, Key};
use secretary::error::CipherError;

#[test]
fn a_caesar_key_is_one_number_taken_modulo_26() {
    assert!(matches!(validate_key(CipherKind::Caesar, "3"), Ok(Key::Caesar(3))));
    assert!(matches!(validate_key(CipherKind::Caesar, " 29 "), Ok(Key::Caesar(3))));
    assert!(matches!(validate_key(CipherKind::Caesar, "0"), Ok(Key::Caesar(0))));
    assert!(matches!(validate_key(CipherKind::Caesar, ""), Err(CipherError::InvalidKeyShape)));
    assert!(matches!(validate_key(CipherKind::Caesar, "3 4"), Err(CipherError::InvalidKeyShape)));
    assert!(matches!(
        validate_key(CipherKind::Caesar, "99999999999"),
        Err(CipherError::InvalidKeyShape)
    ));
}

#[test]
fn an_affine_key_is_two_numbers_the_first_coprime_with_26() {
    assert!(matches!(validate_key(CipherKind::Affine, "5 8"), Ok(Key::Affine(5, 8))));
    assert!(matches!(validate_key(CipherKind::Affine, "4 8"), Err(CipherError::KeyNotInvertible)));
    assert!(matches!(validate_key(CipherKind::Affine, "0 8"), Err(CipherError::KeyNotInvertible)));
    assert!(matches!(validate_key(CipherKind::Affine, "13 0"), Err(CipherError::KeyNotInvertible)));
    assert!(matches!(validate_key(CipherKind::Affine, "5"), Err(CipherError::InvalidKeyShape)));
    assert!(matches!(validate_key(CipherKind::Affine, "5 26"), Err(CipherError::InvalidKeyShape)));
    assert!(matches!(validate_key(CipherKind::Affine, "27 1"), Err(CipherError::InvalidKeyShape)));
    assert!(matches!(validate_key(CipherKind::Affine, "5 8 1"), Err(CipherError::InvalidKeyShape)));
}

#[test]
fn word_keys_are_kept_as_typed() {
    assert!(matches!(validate_key(CipherKind::Vigenere, "key"), Ok(Key::Vigenere(w)) if w == "key"));
    assert!(matches!(validate_key(CipherKind::Vigenere, ""), Err(CipherError::InvalidKeyShape)));
    assert!(matches!(validate_key(CipherKind::Vigenere, "Key"), Err(CipherError::InvalidKeyShape)));
    assert!(matches!(
        validate_key(CipherKind::Permutation, "231"),
        Ok(Key::Permutation(d)) if d == "231"
    ));
    for bad in ["221", "012", "45", ""] {
        assert!(matches!(
            validate_key(CipherKind::Permutation, bad),
            Err(CipherError::InvalidKeyShape)
        ));
    }
}

#[test]
fn a_hill_key_needs_an_odd_determinant() {
    match validate_key(CipherKind::Hill, "1 2 3 0 1 4 5 6 0") {
        Ok(Key::Hill(matrix)) => {
            assert_eq!(matrix.rows, vec![vec![1, 2, 3], vec![0, 1, 4], vec![5, 6, 0]])
        }
        _ => panic!("the key has determinant 1"),
    }
    assert!(matches!(
        validate_key(CipherKind::Hill, "1 2 3 0 1 4 5 6 1"),
        Err(CipherError::KeyNotInvertible)
    ));
    assert!(matches!(validate_key(CipherKind::Hill, "1 2 3"), Err(CipherError::InvalidKeyShape)));
}

#[test]
fn keys_know_their_cipher() {
    assert_eq!(Key::Caesar(3).cipher(), CipherKind::Caesar);
    assert_eq!(Key::Affine(3, 1).cipher(), CipherKind::Affine);
    assert_eq!(Key::Vigenere(String::from("k")).cipher(), CipherKind::Vigenere);
    assert_eq!(Key::Permutation(String::from("1")).cipher(), CipherKind::Permutation);
}

#[test]
fn texts_go_to_the_cipher_of_the_key() {
    assert_eq!(encode("hello", &Key::Caesar(3)), Ok(String::from("KHOOR")));
    assert_eq!(decode("KHOOR", &Key::Caesar(3)), Ok(String::from("hello")));
    assert_eq!(encode("hello world", &Key::Affine(5, 8)), Ok(String::from("RCLLAOAPLX")));
    assert_eq!(decode("RCLLAOAPLX", &Key::Affine(5, 8)), Ok(String::from("helloworld")));
    let word = Key::Vigenere(String::from("key"));
    assert_eq!(encode("hello", &word), Ok(String::from("SJKWT")));
    assert_eq!(decode("SJKWT", &word), Ok(String::from("hello")));
    let digits = Key::Permutation(String::from("231"));
    assert_eq!(encode("hello world", &digits), Ok(String::from("LHE WLO LOR ADA")));
    assert_eq!(decode("LHE WLO LOR ADA", &digits), Ok(String::from("helloworldaa")));
}

#[test]
fn rejections_pass_through() {
    assert_eq!(encode("Hello", &Key::Caesar(3)), Err(CipherError::NonAlphabeticInput));
    assert_eq!(encode("hello", &Key::Caesar(26)), Err(CipherError::InvalidKeyShape));
    assert_eq!(encode("hello", &Key::Affine(4, 1)), Err(CipherError::KeyNotInvertible));
    assert_eq!(
        decode("LHE WL", &Key::Permutation(String::from("231"))),
        Err(CipherError::BlockLengthMismatch)
    );
    assert_eq!(
        decode("SJKWT", &Key::Vigenere(String::new())),
        Err(CipherError::InvalidKeyShape)
    );
}

#[test]
fn a_hill_key_takes_no_text() {
    let key = validate_key(CipherKind::Hill, "1 2 3 0 1 4 5 6 0").unwrap();
    assert_eq!(key.cipher(), CipherKind::Hill);
    assert_eq!(encode("hello", &key), Err(CipherError::InvalidKeyShape));
    assert_eq!(decode("HELLO", &key), Err(CipherError::InvalidKeyShape));
}

#[test]
fn attacks_go_to_their_cipher() {
    match attack(AttackKind::Caesar, "KHOOR") {
        Ok(Candidates::Caesar(found)) => {
            assert_eq!(found.len(), 26);
            assert_eq!(found[3][0], "hello");
        }
        _ => panic!("a Caesar attack gives Caesar candidates"),
    }
    match attack(AttackKind::Affine, "KHOOR") {
        Ok(Candidates::Affine(found)) => {
            assert_eq!(found.len(), 312);
            assert_eq!(found[3][0], "hello");
        }
        _ => panic!("an affine attack gives affine candidates"),
    }
    assert!(matches!(attack(AttackKind::Caesar, "khoor"), Err(CipherError::NonAlphabeticInput)));
    assert!(matches!(attack(AttackKind::Affine, "KH OR"), Err(CipherError::NonAlphabeticInput)));
}

#[test]
fn validated_keys_round_trip() {
    let plaintext = "sphinx of black quartz judge my vow";
    let stripped: String = plaintext.chars().filter(|c| !c.is_ascii_whitespace()).collect();
    for (kind, raw) in [
        (CipherKind::Caesar, "17"),
        (CipherKind::Affine, "11 4"),
        (CipherKind::Vigenere, "quartz"),
    ] {
        let key = validate_key(kind, raw).unwrap();
        let ciphertext = encode(plaintext, &key).unwrap();
        assert_eq!(decode(&ciphertext, &key), Ok(stripped.clone()));
    }
    let key = validate_key(CipherKind::Permutation, "3142").unwrap();
    let ciphertext = encode(plaintext, &key).unwrap();
    assert_eq!(decode(&ciphertext, &key), Ok(format!("{}aaa", stripped)));
}
