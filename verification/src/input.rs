//! What a user types, brought into the shape that the ciphers take, and the
//! state of a field while it waits to be checked.

use vstd::prelude::*;
use crate::alphabet::{
    chars_of, is_ascii_alphabetic, is_ascii_digit, is_ascii_whitespace, is_digit, is_letter,
    is_whitespace, string_of, to_ascii_lowercase, to_ascii_uppercase, to_lower, to_upper,
};
use crate::tokens::{decimal_value, parse_decimal, split_whitespace, word_views, words};

verus! {

/// What is known of a field.
#[derive(Debug)]
pub enum Status {
    /// Nothing was typed.
    Idle,
    /// The text was formatted and waits to be checked.
    Waiting,
    /// The text was checked and can be used.
    Valid,
    /// The text was checked and turned down, for the reason given.
    Invalid(&'static str),
}

impl Default for Status {
    fn default() -> (status: Self)
        ensures
            status == Status::Idle,
    {
        Status::Idle
    }
}

/// The reason given for a key with a number that does not fit in 32 bits.
pub const TOO_LARGE: &'static str = "key numbers must fit in 32 bits";

/// The letters of a text, in order.
pub open spec fn letters_of(s: Seq<char>) -> Seq<char> {
    s.filter(|c: char| is_letter(c))
}

/// The digits and the whitespace of a text, in order.
pub open spec fn digits_and_spaces_of(s: Seq<char>) -> Seq<char> {
    s.filter(|c: char| is_digit(c) || is_whitespace(c))
}

/// A text in lower case.
pub open spec fn lowered(s: Seq<char>) -> Seq<char> {
    s.map_values(|c: char| to_lower(c))
}

/// A text in upper case.
pub open spec fn raised(s: Seq<char>) -> Seq<char> {
    s.map_values(|c: char| to_upper(c))
}

/// The numbers that a text spells, once everything but digits and
/// whitespace is dropped.
pub open spec fn numbers_of(s: Seq<char>) -> Seq<nat> {
    let w = words(digits_and_spaces_of(s));
    Seq::new(w.len(), |i: int| decimal_value(w[i]))
}

/// Whether every number of a sequence fits in 32 bits.
pub open spec fn all_fit(numbers: Seq<nat>) -> bool {
    forall|i: int| 0 <= i < numbers.len() ==> #[trigger] numbers[i] <= u32::MAX
}

/// The letters of a text.
pub fn keep_letters(text: &Vec<char>) -> (kept: Vec<char>)
    ensures
        kept@ == letters_of(text@),
{
    let mut kept: Vec<char> = Vec::new();
    let mut i: usize = 0;
    while i < text.len()
        invariant
            i <= text.len(),
            kept@ == letters_of(text@.take(i as int)),
        decreases text.len() - i,
    {
        proof {
            reveal(Seq::filter);
            assert(text@.take(i + 1).drop_last() == text@.take(i as int));
        }
        if is_ascii_alphabetic(text[i]) {
            kept.push(text[i]);
        }
        i += 1;
    }
    assert(text@.take(text.len() as int) == text@);
    kept
}

/// The digits and the whitespace of a text.
pub fn keep_digits_and_spaces(text: &Vec<char>) -> (kept: Vec<char>)
    ensures
        kept@ == digits_and_spaces_of(text@),
{
    let mut kept: Vec<char> = Vec::new();
    let mut i: usize = 0;
    while i < text.len()
        invariant
            i <= text.len(),
            kept@ == digits_and_spaces_of(text@.take(i as int)),
        decreases text.len() - i,
    {
        proof {
            reveal(Seq::filter);
            assert(text@.take(i + 1).drop_last() == text@.take(i as int));
        }
        if is_ascii_digit(text[i]) || is_ascii_whitespace(text[i]) {
            kept.push(text[i]);
        }
        i += 1;
    }
    assert(text@.take(text.len() as int) == text@);
    kept
}

/// A text in lower case.
pub fn lowercase(text: &Vec<char>) -> (out: Vec<char>)
    ensures
        out@ == lowered(text@),
{
    let mut out: Vec<char> = Vec::new();
    let mut i: usize = 0;
    while i < text.len()
        invariant
            i <= text.len(),
            out@ == lowered(text@.take(i as int)),
        decreases text.len() - i,
    {
        out.push(to_ascii_lowercase(text[i]));
        i += 1;
    }
    out
}

/// A text in upper case.
pub fn uppercase(text: &Vec<char>) -> (out: Vec<char>)
    ensures
        out@ == raised(text@),
{
    let mut out: Vec<char> = Vec::new();
    let mut i: usize = 0;
    while i < text.len()
        invariant
            i <= text.len(),
            out@ == raised(text@.take(i as int)),
        decreases text.len() - i,
    {
        out.push(to_ascii_uppercase(text[i]));
        i += 1;
    }
    out
}

/// The numbers that a text spells, unless one of them does not fit in 32
/// bits.
pub fn parse_numbers(text: &Vec<char>) -> (r: Option<Vec<u32>>)
    ensures
        r is Some <==> all_fit(numbers_of(text@)),
        r is Some ==> r->Some_0@.len() == numbers_of(text@).len() && forall|i: int|
            0 <= i < numbers_of(text@).len() ==> (#[trigger] r->Some_0@[i]) as nat == numbers_of(
                text@,
            )[i],
{
    let tokens = split_whitespace(&keep_digits_and_spaces(text));
    let ghost w = words(digits_and_spaces_of(text@));
    let mut numbers: Vec<u32> = Vec::new();
    let mut t: usize = 0;
    while t < tokens.len()
        invariant
            word_views(tokens@) == w,
            w == words(digits_and_spaces_of(text@)),
            t <= tokens@.len(),
            numbers@.len() == t,
            forall|i: int| 0 <= i < t ==> (#[trigger] numbers@[i]) as nat == decimal_value(w[i]),
        decreases tokens.len() - t,
    {
        match parse_decimal(&tokens[t], u32::MAX) {
            Some(v) => {
                numbers.push(v);
            },
            None => {
                proof {
                    lemma_digits_and_spaces(text@);
                    lemma_words_of_digits(digits_and_spaces_of(text@), t as int);
                    assert(numbers_of(text@)[t as int] == decimal_value(w[t as int]));
                }
                return None;
            },
        }
        t += 1;
    }
    assert forall|i: int| 0 <= i < numbers_of(text@).len() implies #[trigger] numbers_of(text@)[i]
        <= u32::MAX by {
        assert(numbers@[i] as nat == decimal_value(w[i]));
    }
    Some(numbers)
}

/// What is left of a text holds digits and whitespace only.
pub proof fn lemma_digits_and_spaces(s: Seq<char>)
    ensures
        forall|i: int|
            0 <= i < digits_and_spaces_of(s).len() ==> is_digit(
                #[trigger] digits_and_spaces_of(s)[i],
            ) || is_whitespace(digits_and_spaces_of(s)[i]),
{
    let pred = |c: char| is_digit(c) || is_whitespace(c);
    assert forall|i: int| 0 <= i < digits_and_spaces_of(s).len() implies is_digit(
        #[trigger] digits_and_spaces_of(s)[i],
    ) || is_whitespace(digits_and_spaces_of(s)[i]) by {
        s.lemma_filter_pred(pred, i);
    }
}

/// A word of a text of digits and whitespace is a numeral.
pub proof fn lemma_words_of_digits(s: Seq<char>, k: int)
    requires
        forall|i: int| 0 <= i < s.len() ==> is_digit(#[trigger] s[i]) || is_whitespace(s[i]),
        0 <= k < words(s).len(),
    ensures
        crate::tokens::is_numeral(words(s)[k]),
{
    crate::tokens::lemma_words_are_runs(s);
}

/// A field for a plaintext.
pub struct PlaintextInput<Format> {
    /// The text as typed.
    pub plaintext: String,
    /// The text as the cipher takes it.
    pub formated: Format,
    pub status: Status,
}

impl PlaintextInput<String> {
    /// Brings the text into shape: its letters, in lower case. An empty text
    /// leaves the field idle; any other waits to be checked.
    pub fn format(&mut self)
        ensures
            final(self).plaintext == old(self).plaintext,
            final(self).formated@ == lowered(letters_of(old(self).plaintext@)),
            final(self).status == if old(self).plaintext@.len() == 0 {
                Status::Idle
            } else {
                Status::Waiting
            },
    {
        let text = chars_of(self.plaintext.as_str());
        if text.len() == 0 {
            self.formated = String::new();
            self.status = Status::Idle;
            assert(lowered(letters_of(self.plaintext@)) =~= Seq::<char>::empty()) by {
                reveal(Seq::filter);
            }
            return ;
        }
        self.formated = string_of(&lowercase(&keep_letters(&text)));
        self.status = Status::Waiting;
    }
}

/// A field for a ciphertext.
pub struct CiphertextInput<Format> {
    /// The text as typed.
    pub ciphertext: String,
    /// The text as the cipher takes it.
    pub formated: Format,
    pub status: Status,
}

impl CiphertextInput<String> {
    /// Brings the text into shape: its letters, in upper case. The field
    /// then waits to be checked.
    pub fn format(&mut self)
        ensures
            final(self).ciphertext == old(self).ciphertext,
            final(self).formated@ == raised(letters_of(old(self).ciphertext@)),
            final(self).status == Status::Waiting,
    {
        let text = chars_of(self.ciphertext.as_str());
        self.formated = string_of(&uppercase(&keep_letters(&text)));
        self.status = Status::Waiting;
    }
}

/// A field for a key.
pub struct KeyInput<Format> {
    /// The key as typed.
    pub key: String,
    /// The parts of the key as the cipher takes them.
    pub formated: Vec<Format>,
    pub status: Status,
}

impl KeyInput<u32> {
    /// Reads the numbers of the key: everything but digits and whitespace is
    /// dropped, and each word that is left is a number. An empty key leaves
    /// the field idle. A number that does not fit in 32 bits makes the key
    /// invalid; any other key waits to be checked.
    pub fn format(&mut self)
        ensures
            final(self).key == old(self).key,
            old(self).key@.len() == 0 ==> final(self).formated@.len() == 0 && final(self).status
                == Status::Idle,
            old(self).key@.len() > 0 && all_fit(numbers_of(old(self).key@)) ==> {
                &&& final(self).status == Status::Waiting
                &&& final(self).formated@.len() == numbers_of(old(self).key@).len()
                &&& forall|i: int|
                    0 <= i < final(self).formated@.len() ==> (#[trigger] final(self).formated@[i])
                        as nat == numbers_of(old(self).key@)[i]
            },
            old(self).key@.len() > 0 && !all_fit(numbers_of(old(self).key@)) ==> {
                &&& final(self).formated@.len() == 0
                &&& final(self).status == Status::Invalid(TOO_LARGE)
            },
    {
        let text = chars_of(self.key.as_str());
        if text.len() == 0 {
            self.formated = Vec::new();
            self.status = Status::Idle;
            return ;
        }
        match parse_numbers(&text) {
            Some(numbers) => {
                self.formated = numbers;
                self.status = Status::Waiting;
            },
            None => {
                self.formated = Vec::new();
                self.status = Status::Invalid(TOO_LARGE);
            },
        }
    }
}

impl KeyInput<char> {
    /// Reads the letters of the key. An empty key leaves the field idle; any
    /// other waits to be checked.
    pub fn format(&mut self)
        ensures
            final(self).key == old(self).key,
            final(self).formated@ == letters_of(old(self).key@),
            final(self).status == if old(self).key@.len() == 0 {
                Status::Idle
            } else {
                Status::Waiting
            },
    {
        let text = chars_of(self.key.as_str());
        if text.len() == 0 {
            self.formated = Vec::new();
            self.status = Status::Idle;
            assert(letters_of(self.key@) =~= Seq::<char>::empty()) by {
                reveal(Seq::filter);
            }
            return ;
        }
        self.formated = keep_letters(&text);
        self.status = Status::Waiting;
    }
}

/// A field that shows a ciphertext.
pub struct CiphertextOutput<Format, Representation> {
    /// The ciphertext as the cipher gave it.
    pub ciphertext: Format,
    /// The ciphertext as it is shown.
    pub representation: Representation,
}

impl CiphertextOutput<String, String> {
    /// Shows the ciphertext in upper case.
    pub fn represent(&mut self)
        ensures
            final(self).ciphertext == old(self).ciphertext,
            final(self).representation@ == raised(old(self).ciphertext@),
    {
        let text = chars_of(self.ciphertext.as_str());
        self.representation = string_of(&uppercase(&text));
    }
}

} // verus!
