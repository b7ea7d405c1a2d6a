//! Whitespace-separated words and the decimal numbers they spell.

use vstd::prelude::*;
use crate::alphabet::{is_ascii_digit, is_ascii_whitespace, is_digit, is_whitespace};

verus! {

/// The state of a scan over `s`: the words that whitespace has closed, and
/// the characters of the word that is still open.
pub open spec fn scan(s: Seq<char>) -> (Seq<Seq<char>>, Seq<char>)
    decreases s.len(),
{
    if s.len() == 0 {
        (Seq::empty(), Seq::empty())
    } else {
        let (closed, open) = scan(s.drop_last());
        if !is_whitespace(s.last()) {
            (closed, open.push(s.last()))
        } else if open.len() > 0 {
            (closed.push(open), Seq::empty())
        } else {
            (closed, open)
        }
    }
}

/// The maximal runs of characters of `s` that are not whitespace, in order.
pub open spec fn words(s: Seq<char>) -> Seq<Seq<char>> {
    let (closed, open) = scan(s);
    if open.len() > 0 {
        closed.push(open)
    } else {
        closed
    }
}

/// The views of a list of words.
pub open spec fn word_views(tokens: Seq<Vec<char>>) -> Seq<Seq<char>> {
    Seq::new(tokens.len(), |i: int| tokens[i]@)
}

/// Whether `s` is a decimal numeral: one digit or more, nothing else.
pub open spec fn is_numeral(s: Seq<char>) -> bool {
    s.len() > 0 && forall|i: int| 0 <= i < s.len() ==> is_digit(#[trigger] s[i])
}

/// The number that the digits of `s` spell, leading zeros allowed.
pub open spec fn decimal_value(s: Seq<char>) -> nat
    decreases s.len(),
{
    if s.len() == 0 {
        0
    } else {
        decimal_value(s.drop_last()) * 10 + (s.last() as nat - 48) as nat
    }
}

/// A numeral spells at least what any of its prefixes spells.
pub proof fn lemma_decimal_value_grows(s: Seq<char>, k: int)
    requires
        forall|i: int| 0 <= i < s.len() ==> is_digit(#[trigger] s[i]),
        0 <= k <= s.len(),
    ensures
        decimal_value(s.take(k)) <= decimal_value(s),
    decreases s.len() - k,
{
    if k < s.len() {
        lemma_decimal_value_grows(s, k + 1);
        assert(s.take(k + 1).drop_last() == s.take(k));
    } else {
        assert(s.take(k) == s);
    }
}

/// The words of a text, in order.
pub fn split_whitespace(text: &Vec<char>) -> (tokens: Vec<Vec<char>>)
    ensures
        word_views(tokens@) == words(text@),
{
    let mut closed: Vec<Vec<char>> = Vec::new();
    let mut open: Vec<char> = Vec::new();
    let mut i: usize = 0;
    while i < text.len()
        invariant
            i <= text.len(),
            scan(text@.take(i as int)) == (word_views(closed@), open@),
        decreases text.len() - i,
    {
        let c = text[i];
        proof {
            assert(text@.take(i + 1).drop_last() == text@.take(i as int));
        }
        if !is_ascii_whitespace(c) {
            open.push(c);
        } else if open.len() > 0 {
            let ghost before = word_views(closed@);
            let ghost word = open@;
            closed.push(open);
            open = Vec::new();
        }
        i += 1;
    }
    assert(text@.take(text.len() as int) == text@);
    if open.len() > 0 {
        closed.push(open);
    }
    closed
}

/// The number that a numeral spells, unless it is above `max` or the word is
/// no numeral.
pub fn parse_decimal(token: &Vec<char>, max: u32) -> (r: Option<u32>)
    ensures
        r is Some <==> is_numeral(token@) && decimal_value(token@) <= max,
        r is Some ==> r->Some_0 == decimal_value(token@),
{
    if token.len() == 0 {
        return None;
    }
    let mut value: u64 = 0;
    let mut i: usize = 0;
    while i < token.len()
        invariant
            i <= token.len(),
            forall|k: int| 0 <= k < i ==> is_digit(#[trigger] token@[k]),
            value == decimal_value(token@.take(i as int)),
            value <= max,
        decreases token.len() - i,
    {
        let c = token[i];
        if !is_ascii_digit(c) {
            return None;
        }
        proof {
            assert(token@.take(i + 1).drop_last() == token@.take(i as int));
        }
        let next: u64 = value * 10 + (c as u64 - 48);
        if next > max as u64 {
            proof {
                if is_numeral(token@) {
                    lemma_decimal_value_grows(token@, i + 1);
                }
            }
            return None;
        }
        value = next;
        i += 1;
    }
    assert(token@.take(token.len() as int) == token@);
    Some(value as u32)
}

/// The character of a digit.
pub open spec fn digit_char(d: int) -> char
    recommends
        0 <= d < 10,
{
    (d + 48) as char
}

/// The decimal numeral of `n`, without leading zeros.
pub open spec fn numeral_of(n: nat) -> Seq<char>
    decreases n,
{
    if n < 10 {
        seq![digit_char(n as int)]
    } else {
        numeral_of(n / 10).push(digit_char((n % 10) as int))
    }
}

/// The numeral of `n` spells `n`.
pub proof fn lemma_numeral_of(n: nat)
    ensures
        is_numeral(numeral_of(n)),
        decimal_value(numeral_of(n)) == n,
    decreases n,
{
    let s = numeral_of(n);
    if n < 10 {
        assert(decimal_value(s.drop_last()) == 0);
    } else {
        lemma_numeral_of(n / 10);
        assert(s.drop_last() == numeral_of(n / 10));
    }
}

/// The digits of `n`, without leading zeros.
pub fn numeral(n: u32) -> (digits: Vec<char>)
    ensures
        digits@ == numeral_of(n as nat),
    decreases n,
{
    if n < 10 {
        let mut digits: Vec<char> = Vec::new();
        digits.push((n as u8 + 48) as char);
        digits
    } else {
        let mut digits = numeral(n / 10);
        digits.push(((n % 10) as u8 + 48) as char);
        digits
    }
}

/// Every word of a text is made of characters of the text, none of them
/// whitespace, and no word is empty.
pub proof fn lemma_words_are_runs(s: Seq<char>)
    ensures
        forall|k: int, i: int|
            0 <= k < words(s).len() && 0 <= i < words(s)[k].len() ==> s.contains(
                #[trigger] words(s)[k][i],
            ) && !is_whitespace(words(s)[k][i]),
        forall|k: int| 0 <= k < words(s).len() ==> (#[trigger] words(s)[k]).len() > 0,
{
    lemma_scan_runs(s);
}

/// What a scan has closed or holds open is made of characters of the text,
/// none of them whitespace, and nothing that it closed is empty.
proof fn lemma_scan_runs(s: Seq<char>)
    ensures
        forall|k: int, i: int|
            0 <= k < scan(s).0.len() && 0 <= i < scan(s).0[k].len() ==> s.contains(
                #[trigger] scan(s).0[k][i],
            ) && !is_whitespace(scan(s).0[k][i]),
        forall|k: int| 0 <= k < scan(s).0.len() ==> (#[trigger] scan(s).0[k]).len() > 0,
        forall|i: int|
            0 <= i < scan(s).1.len() ==> s.contains(#[trigger] scan(s).1[i]) && !is_whitespace(
                scan(s).1[i],
            ),
    decreases s.len(),
{
    if s.len() > 0 {
        let head = s.drop_last();
        lemma_scan_runs(head);
        let (closed0, open0) = scan(head);
    }
}

} // verus!
