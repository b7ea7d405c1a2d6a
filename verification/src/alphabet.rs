//! The mapping between letters and residues modulo 26, and the two shapes of
//! text that the ciphers accept.

use vstd::prelude::*;
use crate::error::CipherError;

verus! {

/// Whether `c` is one of `a..=z`.
pub open spec fn is_lower(c: char) -> bool {
    'a' <= c <= 'z'
}

/// Whether `c` is one of `A..=Z`.
pub open spec fn is_upper(c: char) -> bool {
    'A' <= c <= 'Z'
}

/// Whether `c` is an ASCII letter of either case.
pub open spec fn is_letter(c: char) -> bool {
    is_lower(c) || is_upper(c)
}

/// Whether `c` is one of `0..=9`.
pub open spec fn is_digit(c: char) -> bool {
    '0' <= c <= '9'
}

/// Whether `c` is ASCII whitespace: space, tab, line feed, form feed or
/// carriage return.
pub open spec fn is_whitespace(c: char) -> bool {
    c == ' ' || c == '\t' || c == '\n' || c == '\x0C' || c == '\r'
}

/// The residue of a letter: `a` and `A` are 0, `z` and `Z` are 25.
pub open spec fn symbol_of(c: char) -> int
    recommends
        is_letter(c),
{
    if is_upper(c) {
        c as int - 65
    } else {
        c as int - 97
    }
}

/// The lowercase letter of a residue.
pub open spec fn lower_letter(s: int) -> char
    recommends
        0 <= s < 26,
{
    (s + 97) as char
}

/// The uppercase letter of a residue.
pub open spec fn upper_letter(s: int) -> char
    recommends
        0 <= s < 26,
{
    (s + 65) as char
}

/// `c` with a lowercase ASCII letter replaced by its uppercase form.
pub open spec fn to_upper(c: char) -> char {
    if is_lower(c) {
        upper_letter(symbol_of(c))
    } else {
        c
    }
}

/// `c` with an uppercase ASCII letter replaced by its lowercase form.
pub open spec fn to_lower(c: char) -> char {
    if is_upper(c) {
        lower_letter(symbol_of(c))
    } else {
        c
    }
}

/// A plaintext holds lowercase letters and whitespace only.
pub open spec fn is_plaintext(s: Seq<char>) -> bool {
    forall|i: int| 0 <= i < s.len() ==> is_lower(#[trigger] s[i]) || is_whitespace(s[i])
}

/// A ciphertext is a single word of uppercase letters.
pub open spec fn is_ciphertext(s: Seq<char>) -> bool {
    forall|i: int| 0 <= i < s.len() ==> is_upper(#[trigger] s[i])
}

/// `s` without its whitespace, the other characters in their order.
pub open spec fn strip_whitespace(s: Seq<char>) -> Seq<char> {
    s.filter(|c: char| !is_whitespace(c))
}

/// Whether `c` is one of `a..=z`.
pub fn is_ascii_lowercase(c: char) -> (b: bool)
    ensures
        b == is_lower(c),
{
    'a' <= c && c <= 'z'
}

/// Whether `c` is one of `A..=Z`.
pub fn is_ascii_uppercase(c: char) -> (b: bool)
    ensures
        b == is_upper(c),
{
    'A' <= c && c <= 'Z'
}

/// Whether `c` is an ASCII letter of either case.
pub fn is_ascii_alphabetic(c: char) -> (b: bool)
    ensures
        b == is_letter(c),
{
    is_ascii_lowercase(c) || is_ascii_uppercase(c)
}

/// Whether `c` is one of `0..=9`.
pub fn is_ascii_digit(c: char) -> (b: bool)
    ensures
        b == is_digit(c),
{
    '0' <= c && c <= '9'
}

/// Whether `c` is a space, a tab, a line feed, a form feed or a carriage return.
pub fn is_ascii_whitespace(c: char) -> (b: bool)
    ensures
        b == is_whitespace(c),
{
    c == ' ' || c == '\t' || c == '\n' || c == '\x0C' || c == '\r'
}

/// The residue of a letter of either case; any other character is rejected.
pub fn to_symbol(c: char) -> (r: Result<u32, CipherError>)
    ensures
        is_letter(c) ==> r == Ok::<u32, CipherError>(symbol_of(c) as u32),
        !is_letter(c) ==> r == Err::<u32, CipherError>(CipherError::NonAlphabeticInput),
        r is Ok ==> r->Ok_0 < 26,
{
    if is_ascii_uppercase(c) {
        Ok(c as u32 - 65)
    } else if is_ascii_lowercase(c) {
        Ok(c as u32 - 97)
    } else {
        Err(CipherError::NonAlphabeticInput)
    }
}

/// The lowercase letter of a residue; a value of 26 or more is rejected.
pub fn from_symbol(s: u32) -> (r: Result<char, CipherError>)
    ensures
        s < 26 ==> r == Ok::<char, CipherError>(lower_letter(s as int)),
        s >= 26 ==> r == Err::<char, CipherError>(CipherError::OutOfRange),
{
    if s < 26 {
        Ok((s as u8 + 97) as char)
    } else {
        Err(CipherError::OutOfRange)
    }
}

/// The uppercase form of `c`, which leaves anything but `a..=z` alone.
pub fn to_ascii_uppercase(c: char) -> (u: char)
    ensures
        u == to_upper(c),
{
    if is_ascii_lowercase(c) {
        ((c as u32 - 32) as u8) as char
    } else {
        c
    }
}

/// The lowercase form of `c`, which leaves anything but `A..=Z` alone.
pub fn to_ascii_lowercase(c: char) -> (l: char)
    ensures
        l == to_lower(c),
{
    if is_ascii_uppercase(c) {
        ((c as u32 + 32) as u8) as char
    } else {
        c
    }
}

/// Conversion between a letter and its residue modulo 26.
pub trait CryptoAscciExt<Rhs = Self>: Sized {
    /// Whether the value stands for a residue.
    spec fn has_crypto(self) -> bool;

    /// The residue that the value stands for.
    spec fn crypto(self) -> int;

    /// The value that stands for a residue.
    spec fn of_crypto(z26: int) -> Rhs;

    /// The residue of a letter of either case.
    fn as_crypto(self) -> (z26: u32)
        requires
            self.has_crypto(),
        ensures
            z26 < 26,
            z26 as int == self.crypto(),
    ;

    /// The value that stands for a residue below 26.
    fn from_crypto(z26: u32) -> (r: Rhs)
        requires
            z26 < 26,
        ensures
            r == Self::of_crypto(z26 as int),
    ;
}

impl CryptoAscciExt for char {
    open spec fn has_crypto(self) -> bool {
        is_letter(self)
    }

    open spec fn crypto(self) -> int {
        symbol_of(self)
    }

    open spec fn of_crypto(z26: int) -> char {
        lower_letter(z26)
    }

    fn as_crypto(self) -> (z26: u32) {
        let x: u32 = self as u32;
        if 65 <= x && x <= 90 {
            x - 65
        } else {
            x - 97
        }
    }

    fn from_crypto(z26: u32) -> (r: char) {
        (z26 as u8 + 97) as char
    }
}

/// The characters of a string slice, in order.
pub fn chars_of(s: &str) -> (v: Vec<char>)
    ensures
        v@ == s@,
{
    let mut v: Vec<char> = Vec::new();
    for c in it: s.chars()
        invariant
            v@ == it.seq().take(it.index() as int),
    {
        v.push(c);
    }
    v
}

/// `String::push`: the string grows by the one character at its end.
#[verifier::external_body]
fn push_char(s: &mut String, c: char)
    ensures
        final(s)@ == old(s)@.push(c),
{
    s.push(c)
}

/// The string that holds the characters of `v`, in order.
pub fn string_of(v: &Vec<char>) -> (s: String)
    ensures
        s@ == v@,
{
    let mut s = String::new();
    let mut i: usize = 0;
    while i < v.len()
        invariant
            i <= v.len(),
            s@ == v@.take(i as int),
        decreases v.len() - i,
    {
        push_char(&mut s, v[i]);
        i += 1;
    }
    s
}

/// Whether a text holds nothing but lowercase letters and whitespace.
pub fn is_plain(text: &Vec<char>) -> (b: bool)
    ensures
        b == is_plaintext(text@),
{
    let mut i: usize = 0;
    while i < text.len()
        invariant
            i <= text.len(),
            is_plaintext(text@.take(i as int)),
        decreases text.len() - i,
    {
        if !(is_ascii_lowercase(text[i]) || is_ascii_whitespace(text[i])) {
            return false;
        }
        i += 1;
    }
    assert(text@.take(text.len() as int) == text@);
    true
}

/// Whether a text holds nothing but uppercase letters.
pub fn is_cipher(text: &Vec<char>) -> (b: bool)
    ensures
        b == is_ciphertext(text@),
{
    let mut i: usize = 0;
    while i < text.len()
        invariant
            i <= text.len(),
            is_ciphertext(text@.take(i as int)),
        decreases text.len() - i,
    {
        if !is_ascii_uppercase(text[i]) {
            return false;
        }
        i += 1;
    }
    assert(text@.take(text.len() as int) == text@);
    true
}

/// Whether a text holds nothing but lowercase letters and whitespace.
pub fn valid_plaintext(plaintext: &String) -> (b: bool)
    ensures
        b == is_plaintext(plaintext@),
{
    is_plain(&chars_of(plaintext.as_str()))
}

/// Whether a text holds nothing but uppercase letters.
pub fn valid_ciphertext(ciphertext: &String) -> (b: bool)
    ensures
        b == is_ciphertext(ciphertext@),
{
    is_cipher(&chars_of(ciphertext.as_str()))
}

/// The text without its whitespace.
pub fn whiteless(text: &String) -> (stripped: String)
    ensures
        stripped@ == strip_whitespace(text@),
{
    let kept = strip(&chars_of(text.as_str()));
    string_of(&kept)
}

/// The characters of `text` that are not whitespace, in order.
pub fn strip(text: &Vec<char>) -> (kept: Vec<char>)
    ensures
        kept@ == strip_whitespace(text@),
{
    let mut kept: Vec<char> = Vec::new();
    let mut i: usize = 0;
    while i < text.len()
        invariant
            i <= text.len(),
            kept@ == strip_whitespace(text@.take(i as int)),
        decreases text.len() - i,
    {
        proof {
            lemma_strip_step(text@, i as int);
        }
        if !is_ascii_whitespace(text[i]) {
            kept.push(text[i]);
        }
        i += 1;
    }
    assert(text@.take(text.len() as int) == text@);
    kept
}

/// Stripping one more character either appends it or changes nothing.
pub proof fn lemma_strip_step(s: Seq<char>, i: int)
    requires
        0 <= i < s.len(),
    ensures
        strip_whitespace(s.take(i + 1)) == if is_whitespace(s[i]) {
            strip_whitespace(s.take(i))
        } else {
            strip_whitespace(s.take(i)).push(s[i])
        },
{
    reveal(Seq::filter);
    assert(s.take(i + 1).drop_last() == s.take(i));
}

/// What is left of a plaintext without its whitespace is lowercase letters.
pub proof fn lemma_strip_of_plaintext(s: Seq<char>)
    requires
        is_plaintext(s),
    ensures
        forall|i: int|
            0 <= i < strip_whitespace(s).len() ==> is_lower(#[trigger] strip_whitespace(s)[i]),
    decreases s.len(),
{
    reveal(Seq::filter);
    if s.len() > 0 {
        let head = s.drop_last();
        assert(is_plaintext(head));
        lemma_strip_of_plaintext(head);
        let kept = strip_whitespace(s);
        assert forall|i: int| 0 <= i < kept.len() implies is_lower(#[trigger] kept[i]) by {
            if i < strip_whitespace(head).len() {
                assert(kept[i] == strip_whitespace(head)[i]);
            }
        }
    }
}

} // verus!
