//! The transposition cipher: the letters of each block of the text change
//! places as a permutation of `1..=n` tells them to.

use vstd::prelude::*;
use crate::alphabet::{
    chars_of, is_ascii_digit, is_plain, is_ascii_uppercase, is_ascii_whitespace, is_digit, is_lower,
    is_plaintext, is_upper, is_whitespace, lemma_strip_of_plaintext, strip, strip_whitespace,
    string_of, to_ascii_lowercase, to_ascii_uppercase, to_lower, to_upper, valid_plaintext,
};
use crate::error::{fails_with, CipherError};
use crate::tokens::{scan, split_whitespace, word_views, words};

verus! {

/// The letter that fills up the last block of a plaintext.
pub const FILLER: char = 'a';

/// The longest key.
pub const MAX_BLOCK: usize = 9;

/// Whether `key` is a permutation of `1..=n` for its length `n`, with `n`
/// from 1 to 9.
pub open spec fn is_permutation(key: Seq<u32>) -> bool {
    &&& 1 <= key.len() <= MAX_BLOCK
    &&& forall|i: int| 0 <= i < key.len() ==> 1 <= #[trigger] key[i] <= key.len()
    &&& forall|i: int, j: int| 0 <= i < j < key.len() ==> key[i] != key[j]
}

/// The digits of a text as numbers.
pub open spec fn digits_of(s: Seq<char>) -> Seq<u32> {
    Seq::new(s.len(), |i: int| (s[i] as int - 48) as u32)
}

/// Whether a text spells a key: digits only, and these a permutation.
pub open spec fn is_key_text(s: Seq<char>) -> bool {
    &&& forall|i: int| 0 <= i < s.len() ==> is_digit(#[trigger] s[i])
    &&& is_permutation(digits_of(s))
}

/// `t` followed by as many fillers as bring its length to a multiple of `n`.
pub open spec fn pad(t: Seq<char>, n: int) -> Seq<char> {
    t + Seq::new(((n - t.len() as int % n) % n) as nat, |i: int| FILLER)
}

/// The first `k` symbols of `src`, each written to the place that the key
/// gives it, on a block of fillers.
pub open spec fn scatter(src: Seq<char>, key: Seq<u32>, k: nat) -> Seq<char>
    decreases k,
{
    if k == 0 {
        Seq::new(src.len(), |j: int| FILLER)
    } else {
        scatter(src, key, (k - 1) as nat).update(key[k - 1] - 1, src[k - 1])
    }
}

/// A block enciphered: the symbol at `i` goes to `key[i] - 1`, in upper case.
pub open spec fn encipher_block(block: Seq<char>, key: Seq<u32>) -> Seq<char> {
    scatter(block.map_values(|c: char| to_upper(c)), key, block.len())
}

/// A block deciphered: the symbol at `key[i] - 1` comes back to `i`, in lower
/// case.
pub open spec fn decipher_block(block: Seq<char>, key: Seq<u32>) -> Seq<char> {
    Seq::new(key.len(), |i: int| to_lower(block[key[i] - 1]))
}

/// The blocks of `x`, of the key's length each, enciphered. Symbols after the
/// last whole block are left out.
pub open spec fn encode_blocks(x: Seq<char>, key: Seq<u32>) -> Seq<Seq<char>>
    decreases x.len(),
{
    if key.len() == 0 || x.len() < key.len() {
        Seq::empty()
    } else {
        encode_blocks(x.take(x.len() - key.len()), key).push(
            encipher_block(x.skip(x.len() - key.len()), key),
        )
    }
}

/// Blocks written one after another, a single space between two of them.
pub open spec fn join(blocks: Seq<Seq<char>>) -> Seq<char>
    decreases blocks.len(),
{
    if blocks.len() == 0 {
        Seq::empty()
    } else if blocks.len() == 1 {
        blocks[0]
    } else {
        join(blocks.drop_last()) + seq![' '] + blocks.last()
    }
}

/// The ciphertext of a plaintext: whitespace is dropped, the last block is
/// filled up, and the enciphered blocks are joined by spaces.
pub open spec fn encode_spec(plaintext: Seq<char>, key: Seq<u32>) -> Seq<char> {
    join(encode_blocks(pad(strip_whitespace(plaintext), key.len() as int), key))
}

/// Blocks deciphered and written one after another.
pub open spec fn decode_blocks(blocks: Seq<Seq<char>>, key: Seq<u32>) -> Seq<char>
    decreases blocks.len(),
{
    if blocks.len() == 0 {
        Seq::empty()
    } else {
        decode_blocks(blocks.drop_last(), key) + decipher_block(blocks.last(), key)
    }
}

/// The plaintext of a ciphertext: its words are the blocks.
pub open spec fn decode_spec(ciphertext: Seq<char>, key: Seq<u32>) -> Seq<char> {
    decode_blocks(words(ciphertext), key)
}

/// Whether a text holds nothing but uppercase letters and whitespace.
pub open spec fn is_block_text(s: Seq<char>) -> bool {
    forall|i: int| 0 <= i < s.len() ==> is_upper(#[trigger] s[i]) || is_whitespace(s[i])
}

/// Whether every word of a text has length `n`.
pub open spec fn has_blocks_of(s: Seq<char>, n: int) -> bool {
    forall|b: int| 0 <= b < words(s).len() ==> (#[trigger] words(s)[b]).len() == n
}

/// Reads a key: its digits, where they are a permutation of `1..=n`.
pub fn parse_key(key: &str) -> (r: Option<Vec<u32>>)
    ensures
        r is Some <==> is_key_text(key@),
        r is Some ==> r->Some_0@ == digits_of(key@),
{
    let text = chars_of(key);
    let n = text.len();
    if n == 0 || n > MAX_BLOCK {
        return None;
    }
    let mut digits: Vec<u32> = Vec::new();
    let mut i: usize = 0;
    while i < n
        invariant
            n == text@.len(),
            text@ == key@,
            1 <= n <= MAX_BLOCK,
            i <= n,
            digits@ == digits_of(text@).take(i as int),
            forall|k: int| 0 <= k < i ==> is_digit(#[trigger] text@[k]),
            forall|k: int| 0 <= k < i ==> 1 <= #[trigger] digits_of(text@)[k] <= n,
            forall|a: int, b: int| 0 <= a < b < i ==> digits_of(text@)[a] != digits_of(text@)[b],
        decreases n - i,
    {
        let c = text[i];
        if !is_ascii_digit(c) {
            return None;
        }
        let d: u32 = c as u32 - 48;
        assert(d == digits_of(text@)[i as int]);
        if d == 0 || d as usize > n {
            return None;
        }
        let mut j: usize = 0;
        while j < i
            invariant
                j <= i,
                i < n,
                n == text@.len(),
                text@ == key@,
                digits@ == digits_of(text@).take(i as int),
                d == digits_of(text@)[i as int],
                forall|a: int| 0 <= a < j ==> digits_of(text@)[a] != d,
            decreases i - j,
        {
            if digits[j] == d {
                return None;
            }
            j += 1;
        }
        digits.push(d);
        i += 1;
    }
    Some(digits)
}

/// One block enciphered.
pub fn encipher_slice(slice: &Vec<char>, key: &Vec<u32>) -> (block: Vec<char>)
    requires
        is_permutation(key@),
        slice@.len() == key@.len(),
    ensures
        block@ == encipher_block(slice@, key@),
        block@.len() == slice@.len(),
{
    let n = slice.len();
    let ghost src = slice@.map_values(|c: char| to_upper(c));
    let mut block: Vec<char> = Vec::new();
    let mut j: usize = 0;
    while j < n
        invariant
            j <= n,
            block@ == Seq::new(j as nat, |x: int| FILLER),
        decreases n - j,
    {
        block.push(FILLER);
        j += 1;
    }
    let mut i: usize = 0;
    while i < n
        invariant
            n == slice@.len(),
            n == key@.len(),
            is_permutation(key@),
            src == slice@.map_values(|c: char| to_upper(c)),
            i <= n,
            block@.len() == n,
            block@ == scatter(src, key@, i as nat),
        decreases n - i,
    {
        let target: usize = (key[i] - 1) as usize;
        block.set(target, to_ascii_uppercase(slice[i]));
        i += 1;
    }
    block
}

/// One block deciphered.
pub fn decipher_slice(slice: &Vec<char>, key: &Vec<u32>) -> (block: Vec<char>)
    requires
        is_permutation(key@),
        slice@.len() == key@.len(),
    ensures
        block@ == decipher_block(slice@, key@),
{
    let n = key.len();
    let mut block: Vec<char> = Vec::new();
    let mut i: usize = 0;
    while i < n
        invariant
            n == slice@.len(),
            n == key@.len(),
            is_permutation(key@),
            i <= n,
            block@ == decipher_block(slice@, key@).take(i as int),
        decreases n - i,
    {
        let source: usize = (key[i] - 1) as usize;
        block.push(to_ascii_lowercase(slice[source]));
        i += 1;
    }
    block
}

/// The ciphertext of a text under a key.
pub fn encipher(text: &Vec<char>, key: &Vec<u32>) -> (out: Vec<char>)
    requires
        is_permutation(key@),
    ensures
        out@ == encode_spec(text@, key@),
{
    let n = key.len();
    let mut padded = strip(text);
    let ghost stripped = padded@;
    let missing: usize = (n - padded.len() % n) % n;
    let mut f: usize = 0;
    while f < missing
        invariant
            f <= missing,
            padded@ == stripped + Seq::new(f as nat, |i: int| FILLER),
        decreases missing - f,
    {
        padded.push(FILLER);
        f += 1;
    }
    proof {
        lemma_pad_len(stripped, n as int);
    }
    let ghost x = padded@;
    let total = padded.len();
    let ghost mut done: Seq<Seq<char>> = Seq::empty();
    let mut out: Vec<char> = Vec::new();
    let mut start: usize = 0;
    while n <= total - start
        invariant
            is_permutation(key@),
            n == key@.len(),
            x == padded@,
            total == x.len(),
            start <= total,
            (total - start) % (n as int) == 0,
            done == encode_blocks(x.take(start as int), key@),
            out@ == join(done),
            start == 0 <==> done.len() == 0,
        decreases total - start,
    {
        let mut slice: Vec<char> = Vec::new();
        let mut i: usize = 0;
        while i < n
            invariant
                x == padded@,
                total == x.len(),
                start + n <= total,
                i <= n,
                slice@ == x.subrange(start as int, start + i),
            decreases n - i,
        {
            slice.push(padded[start + i]);
            i += 1;
        }
        let block = encipher_slice(&slice, key);
        proof {
            let ghost next = x.take(start + n);
            assert(next.take(next.len() - n) == x.take(start as int));
            assert(next.skip(next.len() - n) == x.subrange(start as int, start + n));
            assert(done.push(block@).drop_last() == done);
        }
        if start > 0 {
            out.push(' ');
        }
        let ghost before = out@;
        let mut j: usize = 0;
        while j < n
            invariant
                n == block@.len(),
                j <= n,
                out@ == before + block@.take(j as int),
            decreases n - j,
        {
            out.push(block[j]);
            j += 1;
        }
        proof {
            done = done.push(block@);
            vstd::arithmetic::div_mod::lemma_mod_sub_multiples_vanish(total - start, n as int);
        }
        start += n;
    }
    proof {
        vstd::arithmetic::div_mod::lemma_small_mod((total - start) as nat, n as nat);
        assert(x.take(start as int) == x);
    }
    out
}

/// A padded text is made of whole blocks.
pub proof fn lemma_pad_len(t: Seq<char>, n: int)
    requires
        n > 0,
    ensures
        pad(t, n).len() % (n as nat) == 0,
        t.len() <= pad(t, n).len() < t.len() + n,
{
    let r = t.len() as int % n;
    vstd::arithmetic::div_mod::lemma_fundamental_div_mod(t.len() as int, n);
    if r == 0 {
        vstd::arithmetic::div_mod::lemma_mod_self_0(n);
    } else {
        vstd::arithmetic::div_mod::lemma_small_mod((n - r) as nat, n as nat);
        assert(t.len() + (n - r) == n * (t.len() as int / n + 1)) by (nonlinear_arith)
            requires
                t.len() == n * (t.len() as int / n) + r,
        ;
        vstd::arithmetic::div_mod::lemma_mod_multiples_basic(t.len() as int / n + 1, n);
    }
}

/// The plaintext of a text whose words are blocks of the key's length.
pub fn decipher(text: &Vec<char>, key: &Vec<u32>) -> (out: Vec<char>)
    requires
        is_permutation(key@),
        has_blocks_of(text@, key@.len() as int),
    ensures
        out@ == decode_spec(text@, key@),
{
    let tokens = split_whitespace(text);
    let ghost w = words(text@);
    let mut out: Vec<char> = Vec::new();
    let mut t: usize = 0;
    while t < tokens.len()
        invariant
            is_permutation(key@),
            word_views(tokens@) == w,
            forall|b: int| 0 <= b < w.len() ==> (#[trigger] w[b]).len() == key@.len(),
            t <= tokens@.len(),
            out@ == decode_blocks(w.take(t as int), key@),
        decreases tokens.len() - t,
    {
        assert(w[t as int] == tokens@[t as int]@);
        let block = decipher_slice(&tokens[t], key);
        let ghost before = out@;
        let n = block.len();
        let mut j: usize = 0;
        while j < n
            invariant
                n == block@.len(),
                j <= n,
                out@ == before + block@.take(j as int),
            decreases n - j,
        {
            out.push(block[j]);
            j += 1;
        }
        proof {
            assert(w.take(t + 1).drop_last() == w.take(t as int));
        }
        t += 1;
    }
    assert(w.take(tokens@.len() as int) == w);
    out
}

/// Whether a ciphertext can be deciphered with a key of length `n`: it holds
/// uppercase letters and whitespace only, and each of its words has length
/// `n`.
pub fn check_ciphertext(text: &Vec<char>, n: usize) -> (r: Result<(), CipherError>)
    ensures
        !is_block_text(text@) ==> fails_with(r, CipherError::NonAlphabeticInput),
        is_block_text(text@) && !has_blocks_of(text@, n as int) ==> fails_with(
            r,
            CipherError::BlockLengthMismatch,
        ),
        is_block_text(text@) && has_blocks_of(text@, n as int) ==> r is Ok,
{
    let mut i: usize = 0;
    while i < text.len()
        invariant
            i <= text.len(),
            is_block_text(text@.take(i as int)),
        decreases text.len() - i,
    {
        if !(is_ascii_uppercase(text[i]) || is_ascii_whitespace(text[i])) {
            return Err(CipherError::NonAlphabeticInput);
        }
        i += 1;
    }
    assert(text@.take(text.len() as int) == text@);
    let tokens = split_whitespace(text);
    let ghost w = words(text@);
    let mut t: usize = 0;
    while t < tokens.len()
        invariant
            word_views(tokens@) == w,
            w == words(text@),
            is_block_text(text@),
            t <= tokens@.len(),
            forall|b: int| 0 <= b < t ==> (#[trigger] w[b]).len() == n,
        decreases tokens.len() - t,
    {
        assert(w[t as int] == tokens@[t as int]@);
        if tokens[t].len() != n {
            return Err(CipherError::BlockLengthMismatch);
        }
        t += 1;
    }
    Ok(())
}

/// Enciphers a plaintext with the key that `key` spells.
///
/// A key that is no permutation of `1..=n` is refused first, then a plaintext
/// with anything but lowercase letters and whitespace.
pub fn encode(plaintext: &str, key: &str) -> (r: Result<String, CipherError>)
    ensures
        !is_key_text(key@) ==> fails_with(r, CipherError::InvalidKeyShape),
        is_key_text(key@) && !is_plaintext(plaintext@) ==> fails_with(
            r,
            CipherError::NonAlphabeticInput,
        ),
        is_key_text(key@) && is_plaintext(plaintext@) ==> r is Ok && r->Ok_0@ == encode_spec(
            plaintext@,
            digits_of(key@),
        ),
{
    let digits = match parse_key(key) {
        Some(digits) => digits,
        None => {
            return Err(CipherError::InvalidKeyShape);
        },
    };
    let text = chars_of(plaintext);
    if !is_plain(&text) {
        return Err(CipherError::NonAlphabeticInput);
    }
    Ok(string_of(&encipher(&text, &digits)))
}

/// Deciphers a ciphertext with the key that `key` spells.
///
/// A key that is no permutation of `1..=n` is refused first, then a
/// ciphertext with anything but uppercase letters and whitespace, then one
/// with a block whose length is not the key's.
pub fn decode(ciphertext: &str, key: &str) -> (r: Result<String, CipherError>)
    ensures
        !is_key_text(key@) ==> fails_with(r, CipherError::InvalidKeyShape),
        is_key_text(key@) && !is_block_text(ciphertext@) ==> fails_with(
            r,
            CipherError::NonAlphabeticInput,
        ),
        is_key_text(key@) && is_block_text(ciphertext@) && !has_blocks_of(
            ciphertext@,
            key@.len() as int,
        ) ==> fails_with(r, CipherError::BlockLengthMismatch),
        is_key_text(key@) && is_block_text(ciphertext@) && has_blocks_of(
            ciphertext@,
            key@.len() as int,
        ) ==> r is Ok && r->Ok_0@ == decode_spec(ciphertext@, digits_of(key@)),
{
    let digits = match parse_key(key) {
        Some(digits) => digits,
        None => {
            return Err(CipherError::InvalidKeyShape);
        },
    };
    let text = chars_of(ciphertext);
    match check_ciphertext(&text, digits.len()) {
        Err(e) => {
            return Err(e);
        },
        Ok(_) => {},
    }
    Ok(string_of(&decipher(&text, &digits)))
}

/// The state of the tool that enciphers by transposition.
pub struct PermEnc {
    pub plaintext: String,
    pub ciphertext: String,
    /// The key as typed: the digits of a permutation.
    pub key: String,
}

impl Default for PermEnc {
    fn default() -> (tool: Self)
        ensures
            tool.plaintext@.len() == 0,
            tool.ciphertext@.len() == 0,
            tool.key@.len() == 0,
    {
        PermEnc { plaintext: String::new(), ciphertext: String::new(), key: String::new() }
    }
}

impl PermEnc {
    /// Whether the key is a permutation of `1..=n`, written in digits.
    pub fn valid_key(&self) -> (b: bool)
        ensures
            b == is_key_text(self.key@),
    {
        parse_key(self.key.as_str()).is_some()
    }

    /// Whether the plaintext holds lowercase letters and whitespace only.
    pub fn valid_plaintext(&self) -> (b: bool)
        ensures
            b == is_plaintext(self.plaintext@),
    {
        valid_plaintext(&self.plaintext)
    }

    /// Replaces the ciphertext by what the plaintext enciphers to.
    pub fn update_ciphertext(&mut self)
        requires
            is_key_text(old(self).key@),
        ensures
            final(self).ciphertext@ == encode_spec(old(self).plaintext@, digits_of(old(self).key@)),
            final(self).plaintext == old(self).plaintext,
            final(self).key == old(self).key,
    {
        let digits = parse_key(self.key.as_str()).unwrap();
        let text = chars_of(self.plaintext.as_str());
        self.ciphertext = string_of(&encipher(&text, &digits));
    }

    /// One block enciphered: the symbol at `i` goes to `key[i] - 1`, in upper
    /// case.
    pub fn cipher_slice(slice: Vec<char>, key: &Vec<u32>) -> (block: String)
        requires
            is_permutation(key@),
            slice@.len() == key@.len(),
        ensures
            block@ == encipher_block(slice@, key@),
    {
        string_of(&encipher_slice(&slice, key))
    }
}

/// The state of the tool that deciphers by transposition.
pub struct PermDec {
    pub plaintext: String,
    pub ciphertext: String,
    /// The key as typed: the digits of a permutation.
    pub key: String,
}

impl Default for PermDec {
    fn default() -> (tool: Self)
        ensures
            tool.plaintext@.len() == 0,
            tool.ciphertext@.len() == 0,
            tool.key@.len() == 0,
    {
        PermDec { plaintext: String::new(), ciphertext: String::new(), key: String::new() }
    }
}

impl PermDec {
    /// Whether the key is a permutation of `1..=n`, written in digits.
    pub fn valid_key(&self) -> (b: bool)
        ensures
            b == is_key_text(self.key@),
    {
        parse_key(self.key.as_str()).is_some()
    }

    /// Whether the ciphertext holds uppercase letters and whitespace only,
    /// in blocks of the key's length.
    pub fn valid_ciphertext(&self) -> (b: bool)
        ensures
            b == (is_block_text(self.ciphertext@) && has_blocks_of(
                self.ciphertext@,
                self.key@.len() as int,
            )),
    {
        let text = chars_of(self.ciphertext.as_str());
        let n = chars_of(self.key.as_str()).len();
        check_ciphertext(&text, n).is_ok()
    }

    /// Replaces the plaintext by what the ciphertext deciphers to.
    pub fn update_plaintext(&mut self)
        requires
            is_key_text(old(self).key@),
            has_blocks_of(old(self).ciphertext@, old(self).key@.len() as int),
        ensures
            final(self).plaintext@ == decode_spec(old(self).ciphertext@, digits_of(old(self).key@)),
            final(self).ciphertext == old(self).ciphertext,
            final(self).key == old(self).key,
    {
        let digits = parse_key(self.key.as_str()).unwrap();
        let text = chars_of(self.ciphertext.as_str());
        self.plaintext = string_of(&decipher(&text, &digits));
    }

    /// One block deciphered: the symbol at `key[i] - 1` comes back to `i`, in
    /// lower case.
    pub fn cipher_slice(slice: Vec<char>, key: &Vec<u32>) -> (block: String)
        requires
            is_permutation(key@),
            slice@.len() == key@.len(),
        ensures
            block@ == decipher_block(slice@, key@),
    {
        string_of(&decipher_slice(&slice, key))
    }
}

/// With a permutation for a key, the symbol that was written for source `i`
/// is still at `key[i] - 1` when the block is full.
proof fn lemma_scatter_at(src: Seq<char>, key: Seq<u32>, k: nat, i: int)
    requires
        is_permutation(key),
        src.len() == key.len(),
        0 <= i < k <= key.len(),
    ensures
        scatter(src, key, k).len() == src.len(),
        scatter(src, key, k)[key[i] - 1] == src[i],
    decreases k,
{
    lemma_scatter_len(src, key, (k - 1) as nat);
    if i < k - 1 {
        lemma_scatter_at(src, key, (k - 1) as nat, i);
    }
}

/// Writing symbols to their places keeps the length of the block.
proof fn lemma_scatter_len(src: Seq<char>, key: Seq<u32>, k: nat)
    requires
        is_permutation(key),
        src.len() == key.len(),
        k <= key.len(),
    ensures
        scatter(src, key, k).len() == src.len(),
    decreases k,
{
    if k > 0 {
        lemma_scatter_len(src, key, (k - 1) as nat);
    }
}

/// A block of lowercase letters comes back from its cipher unchanged, and
/// its cipher is a block of uppercase letters.
pub proof fn lemma_block_round_trip(block: Seq<char>, key: Seq<u32>)
    requires
        is_permutation(key),
        block.len() == key.len(),
        forall|i: int| 0 <= i < block.len() ==> is_lower(#[trigger] block[i]),
    ensures
        encipher_block(block, key).len() == key.len(),
        forall|j: int|
            0 <= j < key.len() ==> is_upper(#[trigger] encipher_block(block, key)[j]),
        decipher_block(encipher_block(block, key), key) == block,
{
    let src = block.map_values(|c: char| to_upper(c));
    let n = key.len();
    lemma_scatter_len(src, key, n);
    let out = encipher_block(block, key);
    assert forall|i: int| 0 <= i < n implies to_lower(#[trigger] out[key[i] - 1]) == block[i] by {
        lemma_scatter_at(src, key, n, i);
    }
    assert forall|j: int| 0 <= j < n implies is_upper(#[trigger] out[j]) by {
        lemma_permutation_onto(key, j);
        let i = choose|i: int| 0 <= i < key.len() && key[i] - 1 == j;
        lemma_scatter_at(src, key, n, i);
    }
}

/// A permutation reaches every place.
proof fn lemma_permutation_onto(key: Seq<u32>, j: int)
    requires
        is_permutation(key),
        0 <= j < key.len(),
    ensures
        exists|i: int| 0 <= i < key.len() && key[i] - 1 == j,
{
    // the symbols go to as many places as there are, all of them in 0..n
    let p = places(key, key.len());
    lemma_places(key, key.len());
    if !p.contains(j) {
        let whole = vstd::set_lib::set_int_range(0, key.len() as int);
        vstd::set_lib::lemma_int_range(0, key.len() as int);
        vstd::set_lib::lemma_len_subset(p, whole.remove(j));
    }
}

/// The places that the first `k` symbols of a permutation go to.
spec fn places(key: Seq<u32>, k: nat) -> Set<int>
    decreases k,
{
    if k == 0 {
        Set::empty()
    } else {
        places(key, (k - 1) as nat).insert(key[k - 1] - 1)
    }
}

/// The first `k` symbols go to `k` places of `0..n`, one each.
proof fn lemma_places(key: Seq<u32>, k: nat)
    requires
        is_permutation(key),
        k <= key.len(),
    ensures
        places(key, k).finite(),
        places(key, k).len() == k,
        forall|v: int| places(key, k).contains(v) ==> 0 <= v < key.len(),
        forall|v: int|
            places(key, k).contains(v) <==> exists|i: int| 0 <= i < k && #[trigger] key[i] - 1 == v,
    decreases k,
{
    if k > 0 {
        lemma_places(key, (k - 1) as nat);
    }
}

/// The blocks of a text of whole blocks of lowercase letters are blocks of
/// uppercase letters, and deciphering them gives the text back.
proof fn lemma_blocks_round_trip(x: Seq<char>, key: Seq<u32>)
    requires
        is_permutation(key),
        x.len() % key.len() == 0,
        forall|i: int| 0 <= i < x.len() ==> is_lower(#[trigger] x[i]),
    ensures
        forall|b: int|
            0 <= b < encode_blocks(x, key).len() ==> {
                &&& (#[trigger] encode_blocks(x, key)[b]).len() == key.len()
                &&& forall|j: int| 0 <= j < key.len() ==> is_upper(#[trigger] encode_blocks(x, key)[b][j])
            },
        decode_blocks(encode_blocks(x, key), key) == x,
    decreases x.len(),
{
    let n = key.len();
    if x.len() < n {
        vstd::arithmetic::div_mod::lemma_small_mod(x.len(), n);
    } else {
        let head = x.take(x.len() - n);
        let last = x.skip(x.len() - n);
        vstd::arithmetic::div_mod::lemma_mod_sub_multiples_vanish(x.len() as int, n as int);
        lemma_blocks_round_trip(head, key);
        lemma_block_round_trip(last, key);
        let blocks = encode_blocks(x, key);
        assert(blocks.drop_last() == encode_blocks(head, key));
    }
}

/// A scan that meets an unbroken word after whitespace, or at the start,
/// holds that word open.
proof fn lemma_scan_word(s: Seq<char>, w: Seq<char>)
    requires
        scan(s).1.len() == 0,
        forall|i: int| 0 <= i < w.len() ==> !is_whitespace(#[trigger] w[i]),
    ensures
        scan(s + w) == (scan(s).0, w),
    decreases w.len(),
{
    if w.len() > 0 {
        lemma_scan_word(s, w.drop_last());
        assert((s + w).drop_last() == s + w.drop_last());
    }
}

/// The scan of joined blocks has closed all but the last, which it holds
/// open.
proof fn lemma_scan_join(blocks: Seq<Seq<char>>)
    requires
        blocks.len() > 0,
        forall|b: int| 0 <= b < blocks.len() ==> (#[trigger] blocks[b]).len() > 0,
        forall|b: int, j: int|
            0 <= b < blocks.len() && 0 <= j < blocks[b].len() ==> !is_whitespace(
                #[trigger] blocks[b][j],
            ),
    ensures
        scan(join(blocks)) == (blocks.drop_last(), blocks.last()),
    decreases blocks.len(),
{
    if blocks.len() == 1 {
        lemma_scan_word(Seq::empty(), blocks[0]);
    } else {
        let head = blocks.drop_last();
        lemma_scan_join(head);
        let spaced = join(head) + seq![' '];
        assert(spaced.drop_last() == join(head));
        lemma_scan_word(spaced, blocks.last());
    }
}

/// Deciphering what was enciphered gives the letters of the plaintext back,
/// followed by the fillers that completed its last block, and the ciphertext
/// is one that deciphering accepts.
pub proof fn lemma_round_trip(plaintext: Seq<char>, key: Seq<u32>)
    requires
        is_plaintext(plaintext),
        is_permutation(key),
    ensures
        is_block_text(encode_spec(plaintext, key)),
        has_blocks_of(encode_spec(plaintext, key), key.len() as int),
        decode_spec(encode_spec(plaintext, key), key) == pad(
            strip_whitespace(plaintext),
            key.len() as int,
        ),
{
    let n = key.len() as int;
    let t = strip_whitespace(plaintext);
    let x = pad(t, n);
    lemma_strip_of_plaintext(plaintext);
    lemma_pad_len(t, n);
    lemma_blocks_round_trip(x, key);
    let blocks = encode_blocks(x, key);
    if blocks.len() > 0 {
        lemma_scan_join(blocks);
        assert(blocks.drop_last().push(blocks.last()) == blocks);
    }
    lemma_join_is_block_text(blocks);
}

/// Blocks of uppercase letters, joined, hold uppercase letters and spaces.
proof fn lemma_join_is_block_text(blocks: Seq<Seq<char>>)
    requires
        forall|b: int, j: int|
            0 <= b < blocks.len() && 0 <= j < blocks[b].len() ==> is_upper(#[trigger] blocks[b][j]),
    ensures
        is_block_text(join(blocks)),
    decreases blocks.len(),
{
    if blocks.len() > 1 {
        let head = blocks.drop_last();
        lemma_join_is_block_text(head);
    }
}

} // verus!
