//! The Caesar cipher: every letter moves `k` places down the alphabet.

use vstd::prelude::*;
use crate::alphabet::{
    chars_of, is_cipher, is_ciphertext, is_lower, is_plain, is_plaintext, is_upper,
    lemma_strip_of_plaintext, lower_letter, strip, strip_whitespace, string_of, symbol_of,
    to_upper, upper_letter,
};
use crate::error::{fails_with, CipherError};
use crate::tokens::{numeral, numeral_of};

verus! {

/// The number of keys.
pub const KEYS: u32 = 26;

/// The cipher of a lowercase letter: `k` places on, in upper case.
pub open spec fn shift_up(c: char, k: int) -> char {
    upper_letter((symbol_of(c) + k) % 26)
}

/// The plain letter of an uppercase letter: `k` places back, in lower case.
pub open spec fn shift_down(c: char, k: int) -> char {
    lower_letter((symbol_of(c) - k) % 26)
}

/// The ciphertext of a plaintext: its letters shifted, its whitespace gone.
pub open spec fn encode_spec(plaintext: Seq<char>, k: int) -> Seq<char> {
    strip_whitespace(plaintext).map_values(|c: char| shift_up(c, k))
}

/// The plaintext of a ciphertext: its letters shifted back.
pub open spec fn decode_spec(ciphertext: Seq<char>, k: int) -> Seq<char> {
    ciphertext.map_values(|c: char| shift_down(c, k))
}

/// Candidate `k` of an attack: the ciphertext deciphered with key `k`, and
/// the numeral of `k`.
pub open spec fn is_candidate(candidate: [String; 2], ciphertext: Seq<char>, k: int) -> bool {
    &&& candidate@[0]@ == decode_spec(ciphertext, k)
    &&& candidate@[1]@ == numeral_of(k as nat)
}

/// Whether `out` holds the candidates of every key, in ascending order.
pub open spec fn is_attack(out: Seq<[String; 2]>, ciphertext: Seq<char>) -> bool {
    &&& out.len() == KEYS
    &&& forall|k: int| 0 <= k < KEYS ==> is_candidate(#[trigger] out[k], ciphertext, k)
}

/// The cipher of one lowercase letter.
pub fn shift_letter_up(c: char, key: u32) -> (e: char)
    requires
        is_lower(c),
        key < KEYS,
    ensures
        e == shift_up(c, key as int),
        is_upper(e),
{
    (((c as u32 - 97 + key) % 26) as u8 + 65) as char
}

/// The plain letter of one uppercase letter.
pub fn shift_letter_down(c: char, key: u32) -> (d: char)
    requires
        is_upper(c),
        key < KEYS,
    ensures
        d == shift_down(c, key as int),
        is_lower(d),
{
    (((c as u32 - 65 + 26 - key) % 26) as u8 + 97) as char
}

/// The ciphertext of a text of lowercase letters and whitespace.
pub fn encipher(text: &Vec<char>, key: u32) -> (out: Vec<char>)
    requires
        is_plaintext(text@),
        key < KEYS,
    ensures
        out@ == encode_spec(text@, key as int),
{
    let kept = strip(text);
    proof {
        lemma_strip_of_plaintext(text@);
    }
    let mut out: Vec<char> = Vec::new();
    let mut i: usize = 0;
    while i < kept.len()
        invariant
            key < KEYS,
            i <= kept.len(),
            forall|j: int| 0 <= j < kept@.len() ==> is_lower(#[trigger] kept@[j]),
            out@ == kept@.take(i as int).map_values(|c: char| shift_up(c, key as int)),
        decreases kept.len() - i,
    {
        out.push(shift_letter_up(kept[i], key));
        i += 1;
    }
    out
}

/// The plaintext of a text of uppercase letters.
pub fn decipher_chars(text: &Vec<char>, key: u32) -> (out: Vec<char>)
    requires
        is_ciphertext(text@),
        key < KEYS,
    ensures
        out@ == decode_spec(text@, key as int),
{
    let mut out: Vec<char> = Vec::new();
    let mut i: usize = 0;
    while i < text.len()
        invariant
            key < KEYS,
            is_ciphertext(text@),
            i <= text.len(),
            out@ == text@.take(i as int).map_values(|c: char| shift_down(c, key as int)),
        decreases text.len() - i,
    {
        out.push(shift_letter_down(text[i], key));
        i += 1;
    }
    out
}

/// Enciphers a plaintext with the shift `key`.
///
/// A key above 25 is refused first, then a plaintext with anything but
/// lowercase letters and whitespace.
pub fn encode(plaintext: &str, key: u32) -> (r: Result<String, CipherError>)
    ensures
        key >= KEYS ==> fails_with(r, CipherError::InvalidKeyShape),
        key < KEYS && !is_plaintext(plaintext@) ==> fails_with(r, CipherError::NonAlphabeticInput),
        key < KEYS && is_plaintext(plaintext@) ==> r is Ok && r->Ok_0@ == encode_spec(
            plaintext@,
            key as int,
        ),
{
    if key >= KEYS {
        return Err(CipherError::InvalidKeyShape);
    }
    let text = chars_of(plaintext);
    if !is_plain(&text) {
        return Err(CipherError::NonAlphabeticInput);
    }
    Ok(string_of(&encipher(&text, key)))
}

/// Deciphers a ciphertext with the shift `key`.
///
/// A key above 25 is refused first, then a ciphertext with anything but
/// uppercase letters.
pub fn decode(ciphertext: &str, key: u32) -> (r: Result<String, CipherError>)
    ensures
        key >= KEYS ==> fails_with(r, CipherError::InvalidKeyShape),
        key < KEYS && !is_ciphertext(ciphertext@) ==> fails_with(
            r,
            CipherError::NonAlphabeticInput,
        ),
        key < KEYS && is_ciphertext(ciphertext@) ==> r is Ok && r->Ok_0@ == decode_spec(
            ciphertext@,
            key as int,
        ),
{
    if key >= KEYS {
        return Err(CipherError::InvalidKeyShape);
    }
    let text = chars_of(ciphertext);
    if !is_cipher(&text) {
        return Err(CipherError::NonAlphabeticInput);
    }
    Ok(string_of(&decipher_chars(&text, key)))
}

/// The plaintext of a ciphertext under the shift `key`.
pub fn decipher(text: &str, key: i32) -> (plaintext: String)
    requires
        is_ciphertext(text@),
        0 <= key < KEYS,
    ensures
        plaintext@ == decode_spec(text@, key as int),
{
    string_of(&decipher_chars(&chars_of(text), key as u32))
}

/// Tries every key on a ciphertext: candidate `k` is the text deciphered
/// with the shift `k`, beside the numeral of `k`, for `k` from 0 to 25.
pub fn attack(ciphertext: &str) -> (r: Result<Vec<[String; 2]>, CipherError>)
    ensures
        !is_ciphertext(ciphertext@) ==> fails_with(r, CipherError::NonAlphabeticInput),
        is_ciphertext(ciphertext@) ==> r is Ok && is_attack(r->Ok_0@, ciphertext@),
{
    let text = chars_of(ciphertext);
    if !is_cipher(&text) {
        return Err(CipherError::NonAlphabeticInput);
    }
    let mut out: Vec<[String; 2]> = Vec::new();
    let mut key: u32 = 0;
    while key < KEYS
        invariant
            key <= KEYS,
            text@ == ciphertext@,
            is_ciphertext(text@),
            out@.len() == key,
            forall|k: int| 0 <= k < key ==> is_candidate(#[trigger] out@[k], ciphertext@, k),
        decreases KEYS - key,
    {
        let plaintext = string_of(&decipher_chars(&text, key));
        let label = string_of(&numeral(key));
        out.push([plaintext, label]);
        key += 1;
    }
    Ok(out)
}

/// A shift undone gives the letters of the plaintext back, and what a shift
/// makes of a plaintext is a ciphertext.
pub proof fn lemma_round_trip(plaintext: Seq<char>, k: int)
    requires
        is_plaintext(plaintext),
        0 <= k < KEYS,
    ensures
        is_ciphertext(encode_spec(plaintext, k)),
        decode_spec(encode_spec(plaintext, k), k) == strip_whitespace(plaintext),
{
    lemma_strip_of_plaintext(plaintext);
}

/// The key 0 changes nothing but the case.
pub proof fn lemma_identity_key(plaintext: Seq<char>)
    requires
        is_plaintext(plaintext),
    ensures
        encode_spec(plaintext, 0) == strip_whitespace(plaintext).map_values(
            |c: char| to_upper(c),
        ),
{
    lemma_strip_of_plaintext(plaintext);
}

/// The state of the tool that enciphers by a shift.
pub struct CaesarEnc {
    pub plaintext: String,
    pub ciphertext: String,
    pub key: u32,
}

impl Default for CaesarEnc {
    fn default() -> (tool: Self)
        ensures
            tool.plaintext@.len() == 0,
            tool.ciphertext@.len() == 0,
            tool.key == 0,
    {
        CaesarEnc { plaintext: String::new(), ciphertext: String::new(), key: 0 }
    }
}

impl CaesarEnc {
    /// Replaces the ciphertext by what the plaintext enciphers to.
    pub fn update_ciphertext(&mut self)
        requires
            is_plaintext(old(self).plaintext@),
            old(self).key < KEYS,
        ensures
            final(self).ciphertext@ == encode_spec(old(self).plaintext@, old(self).key as int),
            final(self).plaintext == old(self).plaintext,
            final(self).key == old(self).key,
    {
        let text = chars_of(self.plaintext.as_str());
        self.ciphertext = string_of(&encipher(&text, self.key));
    }

    /// The cipher of one lowercase letter.
    pub fn char_cipher(c: char, key: u32) -> (e: char)
        requires
            is_lower(c),
            key < KEYS,
        ensures
            e == shift_up(c, key as int),
    {
        shift_letter_up(c, key)
    }
}

/// The state of the tool that deciphers by a shift.
pub struct CaesarDec {
    pub plaintext: String,
    pub ciphertext: String,
    pub key: i32,
}

impl Default for CaesarDec {
    fn default() -> (tool: Self)
        ensures
            tool.plaintext@.len() == 0,
            tool.ciphertext@.len() == 0,
            tool.key == 0,
    {
        CaesarDec { plaintext: String::new(), ciphertext: String::new(), key: 0 }
    }
}

impl CaesarDec {
    /// Replaces the plaintext by what the ciphertext deciphers to.
    pub fn update_plaintext(&mut self)
        requires
            is_ciphertext(old(self).ciphertext@),
            0 <= old(self).key < KEYS,
        ensures
            final(self).plaintext@ == decode_spec(old(self).ciphertext@, old(self).key as int),
            final(self).ciphertext == old(self).ciphertext,
            final(self).key == old(self).key,
    {
        self.plaintext = decipher(self.ciphertext.as_str(), self.key);
    }

    /// The plain letter of one uppercase letter.
    pub fn char_decipher(c: char, key: i32) -> (d: char)
        requires
            is_upper(c),
            0 <= key < KEYS,
        ensures
            d == shift_down(c, key as int),
    {
        shift_letter_down(c, key as u32)
    }
}

/// The state of the tool that tries every shift.
pub struct CaesarAtk {
    pub ciphertext: String,
}

impl Default for CaesarAtk {
    fn default() -> (tool: Self)
        ensures
            tool.ciphertext@.len() == 0,
    {
        CaesarAtk { ciphertext: String::new() }
    }
}

impl CaesarAtk {
    /// The candidates of every key, in ascending order of the key.
    pub fn cryptoanalisys(&self) -> (posibilities: Vec<[String; 2]>)
        requires
            is_ciphertext(self.ciphertext@),
        ensures
            is_attack(posibilities@, self.ciphertext@),
    {
        attack(self.ciphertext.as_str()).unwrap()
    }
}

} // verus!
