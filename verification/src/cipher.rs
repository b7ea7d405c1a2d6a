//! One entry for all ciphers: a key is read from text, and a text is
//! enciphered or deciphered with the cipher that the key belongs to.

use vstd::prelude::*;
use crate::affine;
use crate::alphabet::{chars_of, is_ciphertext, is_plaintext};
use crate::caesar;
use crate::error::CipherError;
use crate::hill;
use crate::input::{all_fit, numbers_of, parse_numbers};
use crate::matrix::Matrix;
use crate::modular::coprime;
use crate::permutation;
use crate::vigenere;

verus! {

/// The ciphers.
#[derive(Debug, Clone, Copy, PartialEq, Eq, Structural)]
pub enum CipherKind {
    Caesar,
    Affine,
    Vigenere,
    Permutation,
    Hill,
}

/// The ciphers whose keys are few enough to try them all.
#[derive(Debug, Clone, Copy, PartialEq, Eq, Structural)]
pub enum AttackKind {
    Caesar,
    Affine,
}

/// A key that was checked, with the cipher it belongs to.
#[derive(Debug)]
pub enum Key {
    /// A shift of `0..26`.
    Caesar(u32),
    /// The factor `a`, coprime with 26, and the shift `b`, both of `0..26`.
    Affine(u32, u32),
    /// One lowercase letter or more.
    Vigenere(String),
    /// The digits of a permutation of `1..=n`.
    Permutation(String),
    /// A matrix of order 3 or 4 with an inverse modulo 256.
    Hill(Matrix),
}

/// The candidates of an attack.
#[derive(Debug)]
pub enum Candidates {
    /// A plaintext and the key, for each of the 26 keys.
    Caesar(Vec<[String; 2]>),
    /// A plaintext and the two parts of the key, for each of the 312 keys.
    Affine(Vec<[String; 3]>),
}

impl Key {
    /// The cipher that the key belongs to.
    pub open spec fn kind(self) -> CipherKind {
        match self {
            Key::Caesar(_) => CipherKind::Caesar,
            Key::Affine(_, _) => CipherKind::Affine,
            Key::Vigenere(_) => CipherKind::Vigenere,
            Key::Permutation(_) => CipherKind::Permutation,
            Key::Hill(_) => CipherKind::Hill,
        }
    }

    /// Whether the key is one that its cipher takes.
    pub open spec fn wf(self) -> bool {
        match self {
            Key::Caesar(k) => k < caesar::KEYS,
            Key::Affine(a, b) => affine::is_key(a as int, b as int),
            Key::Vigenere(word) => vigenere::is_key(word@),
            Key::Permutation(digits) => permutation::is_key_text(digits@),
            Key::Hill(matrix) => hill::is_invertible_key(matrix@),
        }
    }

    /// The cipher that the key belongs to.
    pub fn cipher(&self) -> (kind: CipherKind)
        ensures
            kind == self.kind(),
    {
        match self {
            Key::Caesar(_) => CipherKind::Caesar,
            Key::Affine(_, _) => CipherKind::Affine,
            Key::Vigenere(_) => CipherKind::Vigenere,
            Key::Permutation(_) => CipherKind::Permutation,
            Key::Hill(_) => CipherKind::Hill,
        }
    }
}

/// What reading a key of one cipher from a text has to give.
///
/// A Caesar key is one number, taken modulo 26. An affine key is two numbers
/// of `0..26`, the first coprime with 26. A Vigenère key is a word of
/// lowercase letters. A permutation key is the digits of a permutation. A
/// Hill key is 9 or 16 numbers of at most 255 that fill a matrix with an
/// inverse modulo 256.
pub open spec fn is_validated(kind: CipherKind, raw: Seq<char>, r: Result<Key, CipherError>) -> bool {
    match kind {
        CipherKind::Caesar => {
            let n = numbers_of(raw);
            if all_fit(n) && n.len() == 1 {
                r == Ok::<Key, CipherError>(Key::Caesar((n[0] % 26) as u32))
            } else {
                r == Err::<Key, CipherError>(CipherError::InvalidKeyShape)
            }
        },
        CipherKind::Affine => {
            let n = numbers_of(raw);
            if !(all_fit(n) && n.len() == 2 && affine::in_range(n[0] as int, n[1] as int)) {
                r == Err::<Key, CipherError>(CipherError::InvalidKeyShape)
            } else if !coprime(n[0] as int, 26) {
                r == Err::<Key, CipherError>(CipherError::KeyNotInvertible)
            } else {
                r == Ok::<Key, CipherError>(Key::Affine(n[0] as u32, n[1] as u32))
            }
        },
        CipherKind::Vigenere => {
            if vigenere::is_key(raw) {
                r matches Ok(Key::Vigenere(word)) && word@ == raw
            } else {
                r == Err::<Key, CipherError>(CipherError::InvalidKeyShape)
            }
        },
        CipherKind::Permutation => {
            if permutation::is_key_text(raw) {
                r matches Ok(Key::Permutation(digits)) && digits@ == raw
            } else {
                r == Err::<Key, CipherError>(CipherError::InvalidKeyShape)
            }
        },
        CipherKind::Hill => {
            if !hill::is_key_text(raw) {
                r == Err::<Key, CipherError>(CipherError::InvalidKeyShape)
            } else if !coprime(crate::matrix::det(hill::key_of_text(raw)), 256) {
                r == Err::<Key, CipherError>(CipherError::KeyNotInvertible)
            } else {
                r matches Ok(Key::Hill(matrix)) && matrix@ == hill::key_of_text(raw)
            }
        },
    }
}

/// Reads the key of a cipher from text and checks it.
pub fn validate_key(kind: CipherKind, raw: &str) -> (r: Result<Key, CipherError>)
    ensures
        is_validated(kind, raw@, r),
        r is Ok ==> r->Ok_0.kind() == kind && r->Ok_0.wf(),
{
    match kind {
        CipherKind::Caesar => {
            match parse_numbers(&chars_of(raw)) {
                Some(numbers) => {
                    if numbers.len() == 1 {
                        Ok(Key::Caesar(numbers[0] % 26))
                    } else {
                        Err(CipherError::InvalidKeyShape)
                    }
                },
                None => Err(CipherError::InvalidKeyShape),
            }
        },
        CipherKind::Affine => {
            match parse_numbers(&chars_of(raw)) {
                Some(numbers) => {
                    if numbers.len() == 2 {
                        match affine::check_key(numbers[0], numbers[1]) {
                            Ok(_) => Ok(Key::Affine(numbers[0], numbers[1])),
                            Err(e) => Err(e),
                        }
                    } else {
                        Err(CipherError::InvalidKeyShape)
                    }
                },
                None => Err(CipherError::InvalidKeyShape),
            }
        },
        CipherKind::Vigenere => {
            if vigenere::valid_key(&chars_of(raw)) {
                Ok(Key::Vigenere(raw.to_owned()))
            } else {
                Err(CipherError::InvalidKeyShape)
            }
        },
        CipherKind::Permutation => {
            if permutation::parse_key(raw).is_some() {
                Ok(Key::Permutation(raw.to_owned()))
            } else {
                Err(CipherError::InvalidKeyShape)
            }
        },
        CipherKind::Hill => {
            match hill::validate_key(raw) {
                Ok(matrix) => Ok(Key::Hill(matrix)),
                Err(e) => Err(e),
            }
        },
    }
}

/// What enciphering a text with a key has to give. A Hill key enciphers
/// images and no text.
pub open spec fn encoded(plaintext: Seq<char>, key: Key) -> Result<Seq<char>, CipherError> {
    match key {
        Key::Caesar(k) => if k >= caesar::KEYS {
            Err(CipherError::InvalidKeyShape)
        } else if !is_plaintext(plaintext) {
            Err(CipherError::NonAlphabeticInput)
        } else {
            Ok(caesar::encode_spec(plaintext, k as int))
        },
        Key::Affine(a, b) => if !affine::in_range(a as int, b as int) {
            Err(CipherError::InvalidKeyShape)
        } else if !coprime(a as int, 26) {
            Err(CipherError::KeyNotInvertible)
        } else if !is_plaintext(plaintext) {
            Err(CipherError::NonAlphabeticInput)
        } else {
            Ok(affine::encode_spec(plaintext, a as int, b as int))
        },
        Key::Vigenere(word) => if !is_plaintext(plaintext) {
            Err(CipherError::NonAlphabeticInput)
        } else if !vigenere::is_key(word@) {
            Err(CipherError::InvalidKeyShape)
        } else {
            Ok(vigenere::encode_spec(plaintext, word@))
        },
        Key::Permutation(digits) => if !permutation::is_key_text(digits@) {
            Err(CipherError::InvalidKeyShape)
        } else if !is_plaintext(plaintext) {
            Err(CipherError::NonAlphabeticInput)
        } else {
            Ok(permutation::encode_spec(plaintext, permutation::digits_of(digits@)))
        },
        Key::Hill(_) => Err(CipherError::InvalidKeyShape),
    }
}

/// What deciphering a text with a key has to give. A Hill key deciphers
/// images and no text.
pub open spec fn decoded(ciphertext: Seq<char>, key: Key) -> Result<Seq<char>, CipherError> {
    match key {
        Key::Caesar(k) => if k >= caesar::KEYS {
            Err(CipherError::InvalidKeyShape)
        } else if !is_ciphertext(ciphertext) {
            Err(CipherError::NonAlphabeticInput)
        } else {
            Ok(caesar::decode_spec(ciphertext, k as int))
        },
        Key::Affine(a, b) => if !affine::in_range(a as int, b as int) {
            Err(CipherError::InvalidKeyShape)
        } else if !coprime(a as int, 26) {
            Err(CipherError::KeyNotInvertible)
        } else if !is_ciphertext(ciphertext) {
            Err(CipherError::NonAlphabeticInput)
        } else {
            Ok(affine::decode_spec(ciphertext, a as int, b as int))
        },
        Key::Vigenere(word) => if !is_ciphertext(ciphertext) {
            Err(CipherError::NonAlphabeticInput)
        } else if !vigenere::is_key(word@) {
            Err(CipherError::InvalidKeyShape)
        } else {
            Ok(vigenere::decode_spec(ciphertext, word@))
        },
        Key::Permutation(digits) => if !permutation::is_key_text(digits@) {
            Err(CipherError::InvalidKeyShape)
        } else if !permutation::is_block_text(ciphertext) {
            Err(CipherError::NonAlphabeticInput)
        } else if !permutation::has_blocks_of(ciphertext, digits@.len() as int) {
            Err(CipherError::BlockLengthMismatch)
        } else {
            Ok(permutation::decode_spec(ciphertext, permutation::digits_of(digits@)))
        },
        Key::Hill(_) => Err(CipherError::InvalidKeyShape),
    }
}

/// Whether `r` is the outcome `expected`, text for text and rejection for
/// rejection.
pub open spec fn is_text_outcome(
    r: Result<String, CipherError>,
    expected: Result<Seq<char>, CipherError>,
) -> bool {
    match r {
        Ok(text) => expected == Ok::<Seq<char>, CipherError>(text@),
        Err(e) => expected == Err::<Seq<char>, CipherError>(e),
    }
}

/// Enciphers a plaintext with the cipher that the key belongs to.
pub fn encode(plaintext: &str, key: &Key) -> (r: Result<String, CipherError>)
    ensures
        is_text_outcome(r, encoded(plaintext@, *key)),
{
    match key {
        Key::Caesar(k) => caesar::encode(plaintext, *k),
        Key::Affine(a, b) => affine::encode(plaintext, *a, *b),
        Key::Vigenere(word) => vigenere::encode(plaintext, word.as_str()),
        Key::Permutation(digits) => permutation::encode(plaintext, digits.as_str()),
        Key::Hill(_) => Err(CipherError::InvalidKeyShape),
    }
}

/// Deciphers a ciphertext with the cipher that the key belongs to.
pub fn decode(ciphertext: &str, key: &Key) -> (r: Result<String, CipherError>)
    ensures
        is_text_outcome(r, decoded(ciphertext@, *key)),
{
    match key {
        Key::Caesar(k) => caesar::decode(ciphertext, *k),
        Key::Affine(a, b) => affine::decode(ciphertext, *a, *b),
        Key::Vigenere(word) => vigenere::decode(ciphertext, word.as_str()),
        Key::Permutation(digits) => permutation::decode(ciphertext, digits.as_str()),
        Key::Hill(_) => Err(CipherError::InvalidKeyShape),
    }
}

/// Tries every key of a cipher on a ciphertext of uppercase letters.
pub fn attack(kind: AttackKind, ciphertext: &str) -> (r: Result<Candidates, CipherError>)
    ensures
        !is_ciphertext(ciphertext@) ==> r matches Err(CipherError::NonAlphabeticInput),
        is_ciphertext(ciphertext@) ==> match kind {
            AttackKind::Caesar => r matches Ok(Candidates::Caesar(out)) && caesar::is_attack(
                out@,
                ciphertext@,
            ),
            AttackKind::Affine => r matches Ok(Candidates::Affine(out)) && affine::is_attack(
                out@,
                ciphertext@,
            ),
        },
{
    match kind {
        AttackKind::Caesar => match caesar::attack(ciphertext) {
            Ok(out) => Ok(Candidates::Caesar(out)),
            Err(e) => Err(e),
        },
        AttackKind::Affine => match affine::attack(ciphertext) {
            Ok(out) => Ok(Candidates::Affine(out)),
            Err(e) => Err(e),
        },
    }
}

/// With any key that its cipher takes, deciphering what was enciphered gives
/// the letters of the plaintext back; the transposition adds the fillers of
/// its last block.
pub proof fn lemma_round_trip(plaintext: Seq<char>, key: Key)
    requires
        is_plaintext(plaintext),
        key.wf(),
        key.kind() != CipherKind::Hill,
    ensures
        encoded(plaintext, key) is Ok,
        decoded(encoded(plaintext, key)->Ok_0, key) == Ok::<Seq<char>, CipherError>(
            match key {
                Key::Permutation(digits) => permutation::pad(
                    crate::alphabet::strip_whitespace(plaintext),
                    digits@.len() as int,
                ),
                _ => crate::alphabet::strip_whitespace(plaintext),
            },
        ),
{
    match key {
        Key::Caesar(k) => {
            caesar::lemma_round_trip(plaintext, k as int);
        },
        Key::Affine(a, b) => {
            affine::lemma_round_trip(plaintext, a as int, b as int);
        },
        Key::Vigenere(word) => {
            vigenere::lemma_round_trip(plaintext, word@);
        },
        Key::Permutation(digits) => {
            permutation::lemma_round_trip(plaintext, permutation::digits_of(digits@));
        },
        Key::Hill(_) => {},
    }
}

} // verus!
