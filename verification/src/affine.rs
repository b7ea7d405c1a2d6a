//! The affine cipher: the residue `s` of a letter becomes `s * a + b`
//! modulo 26.

use vstd::prelude::*;
use vstd::arithmetic::div_mod::{
    lemma_fundamental_div_mod, lemma_mod_multiples_vanish, lemma_small_mod,
};
use crate::alphabet::{
    chars_of, is_cipher, is_ciphertext, is_lower, is_plain, is_plaintext, is_upper,
    lemma_strip_of_plaintext, lower_letter, strip, strip_whitespace, string_of, symbol_of,
    upper_letter,
};
use crate::error::{fails_with, CipherError};
use crate::modular::{
    coprime, inverse_of, is_inverse, lemma_coprime_26, lemma_inverse_unique, mod_inv,
};
use crate::tokens::{numeral, numeral_of};

verus! {

/// The number of values that a part of the key can take.
pub const RANGE: u32 = 26;

/// The number of keys: 12 values of `a` with 26 of `b` each.
pub const KEYS: usize = 312;

/// Whether both parts of a key lie in `0..26`.
pub open spec fn in_range(a: int, b: int) -> bool {
    0 <= a < RANGE && 0 <= b < RANGE
}

/// Whether `(a, b)` is a key: both parts lie in `0..26`, and `a` is coprime
/// with 26.
pub open spec fn is_key(a: int, b: int) -> bool {
    in_range(a, b) && coprime(a, 26)
}

/// The cipher of a lowercase letter, in upper case.
pub open spec fn cipher_of(c: char, a: int, b: int) -> char {
    upper_letter((symbol_of(c) * a + b) % 26)
}

/// The plain letter of an uppercase letter, in lower case.
pub open spec fn plain_of(c: char, a: int, b: int) -> char {
    lower_letter(((symbol_of(c) - b) * inverse_of(a, 26)) % 26)
}

/// The ciphertext of a plaintext: its letters enciphered, its whitespace
/// gone.
pub open spec fn encode_spec(plaintext: Seq<char>, a: int, b: int) -> Seq<char> {
    strip_whitespace(plaintext).map_values(|c: char| cipher_of(c, a, b))
}

/// The plaintext of a ciphertext.
pub open spec fn decode_spec(ciphertext: Seq<char>, a: int, b: int) -> Seq<char> {
    ciphertext.map_values(|c: char| plain_of(c, a, b))
}

/// The values of `a` that a key can have, in ascending order.
pub open spec fn unit(r: int) -> int {
    if r == 0 {
        1
    } else if r == 1 {
        3
    } else if r == 2 {
        5
    } else if r == 3 {
        7
    } else if r == 4 {
        9
    } else if r == 5 {
        11
    } else if r == 6 {
        15
    } else if r == 7 {
        17
    } else if r == 8 {
        19
    } else if r == 9 {
        21
    } else if r == 10 {
        23
    } else {
        25
    }
}

/// A candidate of an attack: the ciphertext deciphered with `(a, b)`, and
/// the numerals of `a` and `b`.
pub open spec fn is_candidate(candidate: [String; 3], ciphertext: Seq<char>, a: int, b: int) -> bool {
    &&& candidate@[0]@ == decode_spec(ciphertext, a, b)
    &&& candidate@[1]@ == numeral_of(a as nat)
    &&& candidate@[2]@ == numeral_of(b as nat)
}

/// Whether `out` holds the candidates of every key, in ascending order of
/// `a`, then of `b`.
pub open spec fn is_attack(out: Seq<[String; 3]>, ciphertext: Seq<char>) -> bool {
    &&& out.len() == KEYS
    &&& forall|i: int|
        0 <= i < KEYS ==> is_candidate(#[trigger] out[i], ciphertext, unit(i / 26), i % 26)
}

/// The values of [`unit`] are the values of `0..26` that are coprime with
/// 26, each once, in ascending order.
pub proof fn lemma_units(a: int)
    requires
        0 <= a < RANGE,
    ensures
        coprime(a, 26) <==> exists|r: int| 0 <= r < 12 && #[trigger] unit(r) == a,
        forall|r: int, s: int| 0 <= r < s < 12 ==> unit(r) < unit(s),
{
    lemma_coprime_26(a);
    if a % 2 != 0 && a % 13 != 0 {
        let r = if a < 13 { (a - 1) / 2 } else { (a - 3) / 2 };
        assert(unit(r) == a);
    }
}

/// Every `a` of a key has an inverse modulo 26, and [`inverse_of`] is it.
pub proof fn lemma_inverse_exists(a: int)
    requires
        0 <= a < RANGE,
        coprime(a, 26),
    ensures
        is_inverse(a, inverse_of(a, 26), 26),
{
    lemma_coprime_26(a);
    let x: int = if a == 1 {
        1
    } else if a == 3 {
        9
    } else if a == 5 {
        21
    } else if a == 7 {
        15
    } else if a == 9 {
        3
    } else if a == 11 {
        19
    } else if a == 15 {
        7
    } else if a == 17 {
        23
    } else if a == 19 {
        11
    } else if a == 21 {
        5
    } else if a == 23 {
        17
    } else {
        25
    };
    assert((a * x) % 26 == 1) by (nonlinear_arith)
        requires
            (a == 1 && x == 1) || (a == 3 && x == 9) || (a == 5 && x == 21) || (a == 7 && x == 15)
                || (a == 9 && x == 3) || (a == 11 && x == 19) || (a == 15 && x == 7) || (a == 17
                && x == 23) || (a == 19 && x == 11) || (a == 21 && x == 5) || (a == 23 && x == 17)
                || (a == 25 && x == 25),
    ;
    assert(is_inverse(a, x, 26));
}

/// Undoing the cipher of a residue gives the residue back.
pub proof fn lemma_residue_round_trip(s: int, a: int, b: int, x: int)
    requires
        0 <= s < 26,
        (a * x) % 26 == 1,
    ensures
        ((((s * a + b) % 26) - b) * x) % 26 == s,
{
    let y = (s * a + b) % 26;
    let q = (s * a + b) / 26;
    let m = (a * x) / 26;
    lemma_fundamental_div_mod(s * a + b, 26);
    lemma_fundamental_div_mod(a * x, 26);
    let k = s * m - q * x;
    assert((y - b) * x == 26 * k + s) by (nonlinear_arith)
        requires
            s * a + b == 26 * q + y,
            a * x == 26 * m + 1,
            k == s * m - q * x,
    ;
    lemma_mod_multiples_vanish(k, s, 26);
    lemma_small_mod(s as nat, 26);
}

/// Whether a pair of numbers is a key.
pub fn valid_key(a: u32, b: u32) -> (ok: bool)
    ensures
        ok == is_key(a as int, b as int),
        ok == (a < RANGE && b < RANGE && a % 2 != 0 && a % 13 != 0),
{
    proof {
        lemma_coprime_26(a as int);
    }
    a < RANGE && b < RANGE && a % 2 != 0 && a % 13 != 0
}

/// Why a pair of numbers is no key, if it is none: a part out of range, or
/// an `a` without an inverse.
pub fn check_key(a: u32, b: u32) -> (r: Result<(), CipherError>)
    ensures
        !in_range(a as int, b as int) ==> r == Err::<(), CipherError>(CipherError::InvalidKeyShape),
        in_range(a as int, b as int) && !coprime(a as int, 26) ==> r == Err::<(), CipherError>(
            CipherError::KeyNotInvertible,
        ),
        is_key(a as int, b as int) ==> r is Ok,
{
    if a >= RANGE || b >= RANGE {
        Err(CipherError::InvalidKeyShape)
    } else if valid_key(a, b) {
        Ok(())
    } else {
        Err(CipherError::KeyNotInvertible)
    }
}

/// The cipher of one lowercase letter.
pub fn encipher_letter(c: char, a: u32, b: u32) -> (e: char)
    requires
        is_lower(c),
        in_range(a as int, b as int),
    ensures
        e == cipher_of(c, a as int, b as int),
        is_upper(e),
{
    let s: u32 = c as u32 - 97;
    assert(s * a <= 625) by (nonlinear_arith)
        requires
            s <= 25,
            a <= 25,
    ;
    (((s * a + b) % 26) as u8 + 65) as char
}

/// The plain letter of one uppercase letter, for a key whose `a` has the
/// inverse `x`.
pub fn decipher_letter(c: char, a: u32, b: u32, x: u32) -> (d: char)
    requires
        is_upper(c),
        in_range(a as int, b as int),
        is_inverse(a as int, x as int, 26),
    ensures
        d == plain_of(c, a as int, b as int),
        is_lower(d),
{
    let s: u32 = c as u32 - 65;
    assert((s + 26 - b) * x <= 1275) by (nonlinear_arith)
        requires
            s + 26 - b <= 51,
            x <= 25,
    ;
    proof {
        let ghost inv = inverse_of(a as int, 26);
        lemma_inverse_unique(a as int, 26, x as int, inv);
        assert((s + 26 - b) * x == 26 * x + (s - b) * x) by (nonlinear_arith);
        lemma_mod_multiples_vanish(x as int, (s - b) * x, 26);
    }
    ((((s + 26 - b) * x) % 26) as u8 + 97) as char
}

/// The ciphertext of a text of lowercase letters and whitespace.
pub fn encipher(text: &Vec<char>, a: u32, b: u32) -> (out: Vec<char>)
    requires
        is_plaintext(text@),
        in_range(a as int, b as int),
    ensures
        out@ == encode_spec(text@, a as int, b as int),
{
    let kept = strip(text);
    proof {
        lemma_strip_of_plaintext(text@);
    }
    let mut out: Vec<char> = Vec::new();
    let mut i: usize = 0;
    while i < kept.len()
        invariant
            in_range(a as int, b as int),
            i <= kept.len(),
            forall|j: int| 0 <= j < kept@.len() ==> is_lower(#[trigger] kept@[j]),
            out@ == kept@.take(i as int).map_values(|c: char| cipher_of(c, a as int, b as int)),
        decreases kept.len() - i,
    {
        out.push(encipher_letter(kept[i], a, b));
        i += 1;
    }
    out
}

/// The plaintext of a text of uppercase letters.
pub fn decipher_chars(text: &Vec<char>, a: u32, b: u32) -> (out: Vec<char>)
    requires
        is_ciphertext(text@),
        is_key(a as int, b as int),
    ensures
        out@ == decode_spec(text@, a as int, b as int),
{
    let x: u32 = mod_inv(a as i32, 26).unwrap() as u32;
    let mut out: Vec<char> = Vec::new();
    let mut i: usize = 0;
    while i < text.len()
        invariant
            in_range(a as int, b as int),
            is_inverse(a as int, x as int, 26),
            is_ciphertext(text@),
            i <= text.len(),
            out@ == text@.take(i as int).map_values(|c: char| plain_of(c, a as int, b as int)),
        decreases text.len() - i,
    {
        out.push(decipher_letter(text[i], a, b, x));
        i += 1;
    }
    out
}

/// Enciphers a plaintext with the key `(a, b)`.
///
/// A key with a part above 25 is refused first, then one whose `a` has no
/// inverse, then a plaintext with anything but lowercase letters and
/// whitespace.
pub fn encode(plaintext: &str, a: u32, b: u32) -> (r: Result<String, CipherError>)
    ensures
        !in_range(a as int, b as int) ==> fails_with(r, CipherError::InvalidKeyShape),
        in_range(a as int, b as int) && !coprime(a as int, 26) ==> fails_with(
            r,
            CipherError::KeyNotInvertible,
        ),
        is_key(a as int, b as int) && !is_plaintext(plaintext@) ==> fails_with(
            r,
            CipherError::NonAlphabeticInput,
        ),
        is_key(a as int, b as int) && is_plaintext(plaintext@) ==> r is Ok && r->Ok_0@
            == encode_spec(plaintext@, a as int, b as int),
{
    match check_key(a, b) {
        Err(e) => {
            return Err(e);
        },
        Ok(_) => {},
    }
    let text = chars_of(plaintext);
    if !is_plain(&text) {
        return Err(CipherError::NonAlphabeticInput);
    }
    Ok(string_of(&encipher(&text, a, b)))
}

/// Deciphers a ciphertext with the key `(a, b)`.
///
/// A key with a part above 25 is refused first, then one whose `a` has no
/// inverse, then a ciphertext with anything but uppercase letters.
pub fn decode(ciphertext: &str, a: u32, b: u32) -> (r: Result<String, CipherError>)
    ensures
        !in_range(a as int, b as int) ==> fails_with(r, CipherError::InvalidKeyShape),
        in_range(a as int, b as int) && !coprime(a as int, 26) ==> fails_with(
            r,
            CipherError::KeyNotInvertible,
        ),
        is_key(a as int, b as int) && !is_ciphertext(ciphertext@) ==> fails_with(
            r,
            CipherError::NonAlphabeticInput,
        ),
        is_key(a as int, b as int) && is_ciphertext(ciphertext@) ==> r is Ok && r->Ok_0@
            == decode_spec(ciphertext@, a as int, b as int),
{
    match check_key(a, b) {
        Err(e) => {
            return Err(e);
        },
        Ok(_) => {},
    }
    let text = chars_of(ciphertext);
    if !is_cipher(&text) {
        return Err(CipherError::NonAlphabeticInput);
    }
    Ok(string_of(&decipher_chars(&text, a, b)))
}

/// The plaintext of a ciphertext under the key `(key_1, key_2)`.
pub fn decipher(text: &str, key_1: i32, key_2: i32) -> (plaintext: String)
    requires
        is_ciphertext(text@),
        is_key(key_1 as int, key_2 as int),
    ensures
        plaintext@ == decode_spec(text@, key_1 as int, key_2 as int),
{
    string_of(&decipher_chars(&chars_of(text), key_1 as u32, key_2 as u32))
}

/// Tries every key on a ciphertext: the candidates of all 312 keys, in
/// ascending order of `a`, then of `b`.
pub fn attack(ciphertext: &str) -> (r: Result<Vec<[String; 3]>, CipherError>)
    ensures
        !is_ciphertext(ciphertext@) ==> fails_with(r, CipherError::NonAlphabeticInput),
        is_ciphertext(ciphertext@) ==> r is Ok && is_attack(r->Ok_0@, ciphertext@),
{
    let text = chars_of(ciphertext);
    if !is_cipher(&text) {
        return Err(CipherError::NonAlphabeticInput);
    }
    let mut out: Vec<[String; 3]> = Vec::new();
    let ghost mut rank: int = 0;
    let mut a: u32 = 0;
    while a < RANGE
        invariant
            a <= RANGE,
            text@ == ciphertext@,
            is_ciphertext(text@),
            0 <= rank <= 12,
            rank < 12 ==> unit(rank) >= a,
            rank == 12 ==> a > 25,
            rank > 0 ==> unit(rank - 1) < a,
            out@.len() == 26 * rank,
            forall|i: int|
                0 <= i < 26 * rank ==> is_candidate(
                    #[trigger] out@[i],
                    ciphertext@,
                    unit(i / 26),
                    i % 26,
                ),
        decreases RANGE - a,
    {
        if valid_key(a, 0) {
            let mut b: u32 = 0;
            while b < RANGE
                invariant
                    b <= RANGE,
                    a < RANGE,
                    is_key(a as int, 0),
                    text@ == ciphertext@,
                    is_ciphertext(text@),
                    0 <= rank < 12,
                    unit(rank) == a,
                    out@.len() == 26 * rank + b,
                    forall|i: int|
                        0 <= i < 26 * rank + b ==> is_candidate(
                            #[trigger] out@[i],
                            ciphertext@,
                            unit(i / 26),
                            i % 26,
                        ),
                decreases RANGE - b,
            {
                let plaintext = string_of(&decipher_chars(&text, a, b));
                let label_a = string_of(&numeral(a));
                let label_b = string_of(&numeral(b));
                out.push([plaintext, label_a, label_b]);
                b += 1;
            }
            proof {
                rank = rank + 1;
            }
        }
        a += 1;
    }
    Ok(out)
}

/// The cipher undone gives the letters of the plaintext back, and what the
/// cipher makes of a plaintext is a ciphertext.
pub proof fn lemma_round_trip(plaintext: Seq<char>, a: int, b: int)
    requires
        is_plaintext(plaintext),
        is_key(a, b),
    ensures
        is_ciphertext(encode_spec(plaintext, a, b)),
        decode_spec(encode_spec(plaintext, a, b), a, b) == strip_whitespace(plaintext),
{
    lemma_strip_of_plaintext(plaintext);
    lemma_inverse_exists(a);
    let x = inverse_of(a, 26);
    let t = strip_whitespace(plaintext);
    let c = encode_spec(plaintext, a, b);
    assert forall|i: int| 0 <= i < t.len() implies is_upper(#[trigger] c[i]) && plain_of(c[i], a, b)
        == t[i] by {
        lemma_residue_round_trip(symbol_of(t[i]), a, b, x);
    }
}

/// The state of the tool that enciphers by the affine cipher.
pub struct AfinEnc {
    pub plaintext: String,
    pub ciphertext: String,
    /// The key: `a`, then `b`.
    pub key: Vec<u32>,
}

impl Default for AfinEnc {
    fn default() -> (tool: Self)
        ensures
            tool.plaintext@.len() == 0,
            tool.ciphertext@.len() == 0,
            tool.key@ == seq![1u32, 1u32],
    {
        let mut key: Vec<u32> = Vec::new();
        key.push(1);
        key.push(1);
        AfinEnc { plaintext: String::new(), ciphertext: String::new(), key }
    }
}

impl AfinEnc {
    /// Whether the key is a pair of numbers of `0..26` whose first is
    /// coprime with 26.
    pub fn valid_key(&self) -> (ok: bool)
        ensures
            ok == (self.key@.len() == 2 && is_key(self.key@[0] as int, self.key@[1] as int)),
    {
        self.key.len() == 2 && valid_key(self.key[0], self.key[1])
    }

    /// Replaces the ciphertext by what the plaintext enciphers to.
    pub fn update_ciphertext(&mut self)
        requires
            is_plaintext(old(self).plaintext@),
            old(self).key@.len() == 2,
            is_key(old(self).key@[0] as int, old(self).key@[1] as int),
        ensures
            final(self).ciphertext@ == encode_spec(
                old(self).plaintext@,
                old(self).key@[0] as int,
                old(self).key@[1] as int,
            ),
            final(self).plaintext == old(self).plaintext,
            final(self).key == old(self).key,
    {
        let text = chars_of(self.plaintext.as_str());
        self.ciphertext = string_of(&encipher(&text, self.key[0], self.key[1]));
    }

    /// The cipher of one lowercase letter.
    pub fn char_cipher(c: char, key: &Vec<u32>) -> (e: char)
        requires
            is_lower(c),
            key@.len() == 2,
            in_range(key@[0] as int, key@[1] as int),
        ensures
            e == cipher_of(c, key@[0] as int, key@[1] as int),
    {
        encipher_letter(c, key[0], key[1])
    }
}

/// The state of the tool that deciphers by the affine cipher.
pub struct AfinDec {
    pub plaintext: String,
    pub ciphertext: String,
    /// The key: `a`, then `b`.
    pub key: Vec<i32>,
}

impl Default for AfinDec {
    fn default() -> (tool: Self)
        ensures
            tool.plaintext@.len() == 0,
            tool.ciphertext@.len() == 0,
            tool.key@ == seq![1i32, 1i32],
    {
        let mut key: Vec<i32> = Vec::new();
        key.push(1);
        key.push(1);
        AfinDec { plaintext: String::new(), ciphertext: String::new(), key }
    }
}

impl AfinDec {
    /// Whether the key is a pair of numbers of `0..26` whose first is
    /// coprime with 26.
    pub fn valid_key(&self) -> (ok: bool)
        ensures
            ok == (self.key@.len() == 2 && is_key(self.key@[0] as int, self.key@[1] as int)),
    {
        self.key.len() == 2 && self.key[0] >= 0 && self.key[1] >= 0 && valid_key(
            self.key[0] as u32,
            self.key[1] as u32,
        )
    }

    /// Replaces the plaintext by what the ciphertext deciphers to.
    pub fn update_plaintext(&mut self)
        requires
            is_ciphertext(old(self).ciphertext@),
            old(self).key@.len() == 2,
            is_key(old(self).key@[0] as int, old(self).key@[1] as int),
        ensures
            final(self).plaintext@ == decode_spec(
                old(self).ciphertext@,
                old(self).key@[0] as int,
                old(self).key@[1] as int,
            ),
            final(self).ciphertext == old(self).ciphertext,
            final(self).key == old(self).key,
    {
        self.plaintext = decipher(self.ciphertext.as_str(), self.key[0], self.key[1]);
    }

    /// The plain letter of one uppercase letter.
    pub fn char_decipher(c: char, key: &Vec<i32>) -> (d: char)
        requires
            is_upper(c),
            key@.len() == 2,
            is_key(key@[0] as int, key@[1] as int),
        ensures
            d == plain_of(c, key@[0] as int, key@[1] as int),
    {
        let x = mod_inv(key[0], 26).unwrap();
        decipher_letter(c, key[0] as u32, key[1] as u32, x as u32)
    }
}

/// The state of the tool that tries every affine key.
pub struct AfinAtk {
    pub ciphertext: String,
}

impl Default for AfinAtk {
    fn default() -> (tool: Self)
        ensures
            tool.ciphertext@.len() == 0,
    {
        AfinAtk { ciphertext: String::new() }
    }
}

impl AfinAtk {
    /// The candidates of every key, in ascending order of `a`, then of `b`.
    pub fn cryptoanalisys(&self) -> (posibilities: Vec<[String; 3]>)
        requires
            is_ciphertext(self.ciphertext@),
        ensures
            is_attack(posibilities@, self.ciphertext@),
    {
        attack(self.ciphertext.as_str()).unwrap()
    }
}

} // verus!
