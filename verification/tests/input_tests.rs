use secretary::input::{
    keep_digits_and_spaces, keep_letters, lowercase, parse_numbers, uppercase, CiphertextInput,
    CiphertextOutput, KeyInput, PlaintextInput, Status, TOO_LARGE,
};
use secretary::tool::{CaesarEnc, EncryptTool, SINGLE_NUMBER};

fn chars(s: &str) -> Vec<char> {
    s.chars().collect()
}

#[test]
fn a_status_starts_idle() {
    assert!(matches!(Status::default(), Status::Idle));
}

#[test]
fn filters_keep_the_order() {
    assert_eq!(keep_letters(&chars("He11o, W0rld!")), chars("HeoWrld"));
    assert_eq!(keep_letters(&chars("123")), chars(""));
    assert_eq!(keep_digits_and_spaces(&chars("a1 b2\tc3")), chars("1 2\t3"));
    assert_eq!(lowercase(&chars("HeLLo 1")), chars("hello 1"));
    assert_eq!(uppercase(&chars("HeLLo 1")), chars("HELLO 1"));
}

#[test]
fn numbers_are_the_words_of_digits() {
    assert_eq!(parse_numbers(&chars("3")), Some(vec![3]));
    assert_eq!(parse_numbers(&chars(" 12  7\n0042 ")), Some(vec![12, 7, 42]));
    assert_eq!(parse_numbers(&chars("1a2 b 3")), Some(vec![12, 3]));
    assert_eq!(parse_numbers(&chars("")), Some(vec![]));
    assert_eq!(parse_numbers(&chars("abc")), Some(vec![]));
    assert_eq!(parse_numbers(&chars("4294967295")), Some(vec![u32::MAX]));
    assert_eq!(parse_numbers(&chars("4294967296")), None);
    assert_eq!(parse_numbers(&chars("1 99999999999999999999 2")), None);
}

#[test]
fn a_plaintext_is_formatted_to_lowercase_letters() {
    let mut field =
        PlaintextInput { plaintext: String::new(), formated: String::new(), status: Status::Valid };
    field.format();
    assert!(matches!(field.status, Status::Idle));
    assert_eq!(field.formated, "");
    field.plaintext = String::from("  Hello, World 42! ");
    field.format();
    assert!(matches!(field.status, Status::Waiting));
    assert_eq!(field.formated, "helloworld");
    assert_eq!(field.plaintext, "  Hello, World 42! ");
    field.plaintext = String::from("123");
    field.format();
    assert!(matches!(field.status, Status::Waiting));
    assert_eq!(field.formated, "");
}

#[test]
fn a_ciphertext_is_formatted_to_uppercase_letters() {
    let mut field = CiphertextInput {
        ciphertext: String::from("Khoor zruog!"),
        formated: String::new(),
        status: Status::Idle,
    };
    field.format();
    assert!(matches!(field.status, Status::Waiting));
    assert_eq!(field.formated, "KHOORZRUOG");
    field.ciphertext = String::new();
    field.format();
    assert!(matches!(field.status, Status::Waiting));
    assert_eq!(field.formated, "");
}

#[test]
fn a_numeric_key_is_formatted_to_its_numbers() {
    let mut field: KeyInput<u32> =
        KeyInput { key: String::new(), formated: vec![9], status: Status::Valid };
    field.format();
    assert!(matches!(field.status, Status::Idle));
    assert!(field.formated.is_empty());
    field.key = String::from(" 3 x 15 ");
    field.format();
    assert!(matches!(field.status, Status::Waiting));
    assert_eq!(field.formated, vec![3, 15]);
    field.key = String::from("99999999999");
    field.format();
    assert!(matches!(field.status, Status::Invalid(reason) if reason == TOO_LARGE));
    assert!(field.formated.is_empty());
}

#[test]
fn a_lettered_key_is_formatted_to_its_letters() {
    let mut field: KeyInput<char> =
        KeyInput { key: String::from(" k3Y! "), formated: Vec::new(), status: Status::Idle };
    field.format();
    assert!(matches!(field.status, Status::Waiting));
    assert_eq!(field.formated, vec!['k', 'Y']);
    field.key = String::new();
    field.format();
    assert!(matches!(field.status, Status::Idle));
    assert!(field.formated.is_empty());
}

#[test]
fn a_ciphertext_is_shown_in_upper_case() {
    let mut field =
        CiphertextOutput { ciphertext: String::from("khoor"), representation: String::new() };
    field.represent();
    assert_eq!(field.representation, "KHOOR");
    assert_eq!(field.ciphertext, "khoor");
}

#[test]
fn the_caesar_tool_runs_from_typing_to_ciphertext() {
    let mut tool = CaesarEnc::default();
    assert!(matches!(tool.plaintext.status, Status::Idle));
    tool.plaintext.plaintext = String::from("Hello, World!");
    tool.plaintext.format();
    tool.valid_plaintext();
    assert!(matches!(tool.plaintext.status, Status::Valid));
    tool.key.key = String::from("29");
    tool.key.format();
    tool.valid_key();
    assert!(matches!(tool.key.status, Status::Valid));
    assert_eq!(tool.key.formated, vec![3]);
    tool.encrypt();
    assert_eq!(tool.ciphertext.ciphertext, "khoorzruog");
    assert_eq!(tool.ciphertext.representation, "KHOORZRUOG");
}

#[test]
fn a_caesar_key_is_a_single_number() {
    let mut tool = CaesarEnc::default();
    tool.key.key = String::from("3 4");
    tool.key.format();
    tool.valid_key();
    assert!(matches!(tool.key.status, Status::Invalid(reason) if reason == SINGLE_NUMBER));
    assert_eq!(tool.key.formated, vec![3, 4]);
    tool.key.key = String::from("abc");
    tool.key.format();
    tool.valid_key();
    assert!(matches!(tool.key.status, Status::Invalid(_)));
}
