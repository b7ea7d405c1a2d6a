//! The Vigenère cipher: letter `i` of the text is shifted by letter
//! `i mod n` of a key of `n` letters, where `a` shifts by 1 and `z` by 26.

use vstd::prelude::*;
use vstd::arithmetic::div_mod::lemma_mod_pos_bound;
use crate::alphabet::{
    chars_of, is_ascii_lowercase, is_cipher, is_ciphertext, is_plain, is_lower, is_plaintext, is_upper,
    lemma_strip_of_plaintext, lower_letter, strip, strip_whitespace, string_of, symbol_of,
    upper_letter,
};
use crate::error::{fails_with, CipherError};

verus! {

/// Whether `key` is a key: one lowercase letter or more, nothing else.
pub open spec fn is_key(key: Seq<char>) -> bool {
    key.len() > 0 && forall|i: int| 0 <= i < key.len() ==> is_lower(#[trigger] key[i])
}

/// The shift that a letter of the key stands for: 1 for `a`, 26 for `z`.
pub open spec fn shift_of(c: char) -> int {
    symbol_of(c) + 1
}

/// The shifts of a key, letter by letter.
pub open spec fn keystream(key: Seq<char>) -> Seq<int> {
    Seq::new(key.len(), |i: int| shift_of(key[i]))
}

/// The cipher of a lowercase letter under a shift, in upper case.
pub open spec fn cipher_of(c: char, shift: int) -> char {
    upper_letter((symbol_of(c) + shift) % 26)
}

/// The plain letter of an uppercase letter under a shift, in lower case.
pub open spec fn plain_of(c: char, shift: int) -> char {
    lower_letter((symbol_of(c) - shift) % 26)
}

/// The ciphertext of a plaintext: whitespace is dropped first, so that the
/// key is laid along the letters alone.
pub open spec fn encode_spec(plaintext: Seq<char>, key: Seq<char>) -> Seq<char> {
    let t = strip_whitespace(plaintext);
    Seq::new(t.len(), |i: int| cipher_of(t[i], shift_of(key[i % (key.len() as int)])))
}

/// The plaintext of a ciphertext.
pub open spec fn decode_spec(ciphertext: Seq<char>, key: Seq<char>) -> Seq<char> {
    Seq::new(
        ciphertext.len(),
        |i: int| plain_of(ciphertext[i], shift_of(key[i % (key.len() as int)])),
    )
}

/// Whether a text is a key.
pub fn valid_key(key: &Vec<char>) -> (ok: bool)
    ensures
        ok == is_key(key@),
{
    if key.len() == 0 {
        return false;
    }
    let mut i: usize = 0;
    while i < key.len()
        invariant
            i <= key.len(),
            forall|j: int| 0 <= j < i ==> is_lower(#[trigger] key@[j]),
        decreases key.len() - i,
    {
        if !is_ascii_lowercase(key[i]) {
            return false;
        }
        i += 1;
    }
    true
}

/// The cipher of one lowercase letter under a shift of 1 to 26.
pub fn encipher_letter(c: char, shift: u8) -> (e: char)
    requires
        is_lower(c),
        1 <= shift <= 26,
    ensures
        e == cipher_of(c, shift as int),
        is_upper(e),
{
    (((c as u32 - 97 + shift as u32) % 26) as u8 + 65) as char
}

/// The plain letter of one uppercase letter under a shift of 1 to 26.
pub fn decipher_letter(c: char, shift: u8) -> (d: char)
    requires
        is_upper(c),
        1 <= shift <= 26,
    ensures
        d == plain_of(c, shift as int),
        is_lower(d),
{
    (((c as u32 - 65 + 26 - shift as u32) % 26) as u8 + 97) as char
}

/// The shifts of a key.
pub fn key_vector(key: &Vec<char>) -> (shifts: Vec<u8>)
    requires
        is_key(key@),
    ensures
        shifts@.len() == key@.len(),
        forall|i: int| 0 <= i < key@.len() ==> (#[trigger] shifts@[i]) as int == keystream(key@)[i],
        forall|i: int| 0 <= i < key@.len() ==> 1 <= #[trigger] shifts@[i] <= 26,
{
    let mut shifts: Vec<u8> = Vec::new();
    let mut i: usize = 0;
    while i < key.len()
        invariant
            is_key(key@),
            i <= key.len(),
            shifts@.len() == i,
            forall|j: int| 0 <= j < i ==> (#[trigger] shifts@[j]) as int == keystream(key@)[j],
            forall|j: int| 0 <= j < i ==> 1 <= #[trigger] shifts@[j] <= 26,
        decreases key.len() - i,
    {
        shifts.push((key[i] as u32 - 96) as u8);
        i += 1;
    }
    shifts
}

/// The ciphertext of a text of lowercase letters and whitespace.
pub fn encipher(text: &Vec<char>, key: &Vec<char>) -> (out: Vec<char>)
    requires
        is_plaintext(text@),
        is_key(key@),
    ensures
        out@ == encode_spec(text@, key@),
{
    let kept = strip(text);
    proof {
        lemma_strip_of_plaintext(text@);
    }
    let shifts = key_vector(key);
    let n = shifts.len();
    let mut out: Vec<char> = Vec::new();
    let mut i: usize = 0;
    while i < kept.len()
        invariant
            is_key(key@),
            n == key@.len(),
            n == shifts@.len(),
            forall|j: int| 0 <= j < n ==> (#[trigger] shifts@[j]) as int == keystream(key@)[j],
            forall|j: int| 0 <= j < n ==> 1 <= #[trigger] shifts@[j] <= 26,
            kept@ == strip_whitespace(text@),
            forall|j: int| 0 <= j < kept@.len() ==> is_lower(#[trigger] kept@[j]),
            i <= kept.len(),
            out@ == encode_spec(text@, key@).take(i as int),
        decreases kept.len() - i,
    {
        proof {
            lemma_mod_pos_bound(i as int, n as int);
        }
        out.push(encipher_letter(kept[i], shifts[i % n]));
        i += 1;
    }
    out
}

/// The plaintext of a text of uppercase letters.
pub fn decipher(text: &Vec<char>, key: &Vec<char>) -> (out: Vec<char>)
    requires
        is_ciphertext(text@),
        is_key(key@),
    ensures
        out@ == decode_spec(text@, key@),
{
    let shifts = key_vector(key);
    let n = shifts.len();
    let mut out: Vec<char> = Vec::new();
    let mut i: usize = 0;
    while i < text.len()
        invariant
            is_key(key@),
            is_ciphertext(text@),
            n == key@.len(),
            n == shifts@.len(),
            forall|j: int| 0 <= j < n ==> (#[trigger] shifts@[j]) as int == keystream(key@)[j],
            forall|j: int| 0 <= j < n ==> 1 <= #[trigger] shifts@[j] <= 26,
            i <= text.len(),
            out@ == decode_spec(text@, key@).take(i as int),
        decreases text.len() - i,
    {
        proof {
            lemma_mod_pos_bound(i as int, n as int);
        }
        out.push(decipher_letter(text[i], shifts[i % n]));
        i += 1;
    }
    out
}

/// Enciphers a plaintext with a key.
///
/// A plaintext with anything but lowercase letters and whitespace is refused
/// first, then a key that is empty or holds anything but lowercase letters.
pub fn encode(plaintext: &str, key: &str) -> (r: Result<String, CipherError>)
    ensures
        !is_plaintext(plaintext@) ==> fails_with(r, CipherError::NonAlphabeticInput),
        is_plaintext(plaintext@) && !is_key(key@) ==> fails_with(r, CipherError::InvalidKeyShape),
        is_plaintext(plaintext@) && is_key(key@) ==> r is Ok && r->Ok_0@ == encode_spec(
            plaintext@,
            key@,
        ),
{
    let text = chars_of(plaintext);
    if !is_plain(&text) {
        return Err(CipherError::NonAlphabeticInput);
    }
    let letters = chars_of(key);
    if !valid_key(&letters) {
        return Err(CipherError::InvalidKeyShape);
    }
    Ok(string_of(&encipher(&text, &letters)))
}

/// Deciphers a ciphertext with a key.
///
/// A ciphertext with anything but uppercase letters is refused first, then a
/// key that is empty or holds anything but lowercase letters.
pub fn decode(ciphertext: &str, key: &str) -> (r: Result<String, CipherError>)
    ensures
        !is_ciphertext(ciphertext@) ==> fails_with(r, CipherError::NonAlphabeticInput),
        is_ciphertext(ciphertext@) && !is_key(key@) ==> fails_with(
            r,
            CipherError::InvalidKeyShape,
        ),
        is_ciphertext(ciphertext@) && is_key(key@) ==> r is Ok && r->Ok_0@ == decode_spec(
            ciphertext@,
            key@,
        ),
{
    let text = chars_of(ciphertext);
    if !is_cipher(&text) {
        return Err(CipherError::NonAlphabeticInput);
    }
    let letters = chars_of(key);
    if !valid_key(&letters) {
        return Err(CipherError::InvalidKeyShape);
    }
    Ok(string_of(&decipher(&text, &letters)))
}

/// The cipher undone gives the letters of the plaintext back, and what the
/// cipher makes of a plaintext is a ciphertext.
pub proof fn lemma_round_trip(plaintext: Seq<char>, key: Seq<char>)
    requires
        is_plaintext(plaintext),
        is_key(key),
    ensures
        is_ciphertext(encode_spec(plaintext, key)),
        decode_spec(encode_spec(plaintext, key), key) == strip_whitespace(plaintext),
{
    lemma_strip_of_plaintext(plaintext);
    let t = strip_whitespace(plaintext);
    let c = encode_spec(plaintext, key);
    let n = key.len() as int;
    assert forall|i: int| 0 <= i < t.len() implies is_upper(#[trigger] c[i]) && plain_of(
        c[i],
        shift_of(key[i % n]),
    ) == t[i] by {
        lemma_mod_pos_bound(i, n);
    }
}

/// The state of the tool that enciphers by Vigenère's cipher.
pub struct VigenereEnc {
    pub plaintext: String,
    pub ciphertext: String,
    pub key: String,
}

impl Default for VigenereEnc {
    fn default() -> (tool: Self)
        ensures
            tool.plaintext@.len() == 0,
            tool.ciphertext@.len() == 0,
            tool.key@.len() == 0,
    {
        VigenereEnc { plaintext: String::new(), ciphertext: String::new(), key: String::new() }
    }
}

impl VigenereEnc {
    /// Whether the key is one lowercase letter or more, nothing else.
    pub fn valid_key(&self) -> (ok: bool)
        ensures
            ok == is_key(self.key@),
    {
        valid_key(&chars_of(self.key.as_str()))
    }

    /// Replaces the ciphertext by what the plaintext enciphers to.
    pub fn update_ciphertext(&mut self)
        requires
            is_plaintext(old(self).plaintext@),
            is_key(old(self).key@),
        ensures
            final(self).ciphertext@ == encode_spec(old(self).plaintext@, old(self).key@),
            final(self).plaintext == old(self).plaintext,
            final(self).key == old(self).key,
    {
        let text = chars_of(self.plaintext.as_str());
        let letters = chars_of(self.key.as_str());
        self.ciphertext = string_of(&encipher(&text, &letters));
    }

    /// The cipher of one lowercase letter under a shift of 1 to 26.
    pub fn char_cipher(c: char, key: u8) -> (e: char)
        requires
            is_lower(c),
            1 <= key <= 26,
        ensures
            e == cipher_of(c, key as int),
    {
        encipher_letter(c, key)
    }
}

/// The state of the tool that deciphers by Vigenère's cipher.
pub struct VigenereDec {
    pub plaintext: String,
    pub ciphertext: String,
    pub key: String,
}

impl Default for VigenereDec {
    fn default() -> (tool: Self)
        ensures
            tool.plaintext@.len() == 0,
            tool.ciphertext@.len() == 0,
            tool.key@.len() == 0,
    {
        VigenereDec { plaintext: String::new(), ciphertext: String::new(), key: String::new() }
    }
}

impl VigenereDec {
    /// Whether the key is one lowercase letter or more, nothing else.
    pub fn valid_key(&self) -> (ok: bool)
        ensures
            ok == is_key(self.key@),
    {
        valid_key(&chars_of(self.key.as_str()))
    }

    /// Whether the ciphertext holds uppercase letters only.
    pub fn valid_ciphertext(&self) -> (ok: bool)
        ensures
            ok == is_ciphertext(self.ciphertext@),
    {
        is_cipher(&chars_of(self.ciphertext.as_str()))
    }

    /// Replaces the plaintext by what the ciphertext deciphers to.
    pub fn update_plaintext(&mut self)
        requires
            is_ciphertext(old(self).ciphertext@),
            is_key(old(self).key@),
        ensures
            final(self).plaintext@ == decode_spec(old(self).ciphertext@, old(self).key@),
            final(self).ciphertext == old(self).ciphertext,
            final(self).key == old(self).key,
    {
        let text = chars_of(self.ciphertext.as_str());
        let letters = chars_of(self.key.as_str());
        self.plaintext = string_of(&decipher(&text, &letters));
    }

    /// The plain letter of one uppercase letter under a shift of 1 to 26.
    pub fn char_decipher(c: char, key: i32) -> (d: char)
        requires
            is_upper(c),
            1 <= key <= 26,
        ensures
            d == plain_of(c, key as int),
    {
        decipher_letter(c, key as u8)
    }
}

} // verus!
