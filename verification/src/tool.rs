//! A tool made of fields: what was typed is formatted, checked, and
//! enciphered once every field is valid.

use vstd::prelude::*;
use crate::alphabet::{chars_of, is_letter, lower_letter, string_of, symbol_of, CryptoAscciExt};
use crate::input::{raised, CiphertextOutput, KeyInput, PlaintextInput, Status};

verus! {

/// The reason given for a Caesar key that is not one number.
pub const SINGLE_NUMBER: &'static str = "key is supposed to be a single number";

/// A tool that enciphers what its fields hold.
pub trait EncryptTool {
    /// Whether the fields hold what `encrypt` takes.
    spec fn ready(&self) -> bool;

    /// Checks the formatted plaintext and sets the status of its field.
    fn valid_plaintext(&mut self);

    /// Checks the formatted key and sets the status of its field.
    fn valid_key(&mut self);

    /// Enciphers the formatted plaintext with the formatted key.
    fn encrypt(&mut self)
        requires
            old(self).ready(),
    ;
}

/// The Caesar cipher as a tool of three fields.
pub struct CaesarEnc {
    pub plaintext: PlaintextInput<String>,
    pub key: KeyInput<u32>,
    pub ciphertext: CiphertextOutput<String, String>,
}

/// The letters of a text, each `k` places on, in lower case.
pub open spec fn shifted(text: Seq<char>, k: int) -> Seq<char> {
    text.map_values(|c: char| lower_letter((symbol_of(c) + k) % 26))
}

impl Default for CaesarEnc {
    fn default() -> (tool: Self)
        ensures
            tool.plaintext.status == Status::Idle,
            tool.key.status == Status::Idle,
            tool.key.formated@.len() == 0,
    {
        CaesarEnc {
            plaintext: PlaintextInput {
                plaintext: String::new(),
                formated: String::new(),
                status: Status::Idle,
            },
            key: KeyInput { key: String::new(), formated: Vec::new(), status: Status::Idle },
            ciphertext: CiphertextOutput {
                ciphertext: String::new(),
                representation: String::new(),
            },
        }
    }
}

impl EncryptTool for CaesarEnc {
    open spec fn ready(&self) -> bool {
        &&& forall|i: int|
            0 <= i < self.plaintext.formated@.len() ==> is_letter(
                #[trigger] self.plaintext.formated@[i],
            )
        &&& self.key.formated@.len() >= 1
        &&& self.key.formated@[0] < 26
    }

    /// Every formatted plaintext is valid.
    fn valid_plaintext(&mut self)
        ensures
            final(self).plaintext.status == Status::Valid,
            final(self).plaintext.formated == old(self).plaintext.formated,
            final(self).plaintext.plaintext == old(self).plaintext.plaintext,
            final(self).key == old(self).key,
            final(self).ciphertext == old(self).ciphertext,
    {
        self.plaintext.status = Status::Valid;
    }

    /// A key of one number is valid, and is reduced modulo 26; any other is
    /// invalid.
    fn valid_key(&mut self)
        ensures
            final(self).plaintext == old(self).plaintext,
            final(self).ciphertext == old(self).ciphertext,
            final(self).key.key == old(self).key.key,
            old(self).key.formated@.len() == 1 ==> {
                &&& final(self).key.status == Status::Valid
                &&& final(self).key.formated@ == seq![(old(self).key.formated@[0] % 26) as u32]
            },
            old(self).key.formated@.len() != 1 ==> {
                &&& final(self).key.status == Status::Invalid(SINGLE_NUMBER)
                &&& final(self).key.formated == old(self).key.formated
            },
    {
        if self.key.formated.len() == 1 {
            let reduced: u32 = self.key.formated[0] % 26;
            self.key.formated.set(0, reduced);
            self.key.status = Status::Valid;
        } else {
            self.key.status = Status::Invalid(SINGLE_NUMBER);
        }
    }

    /// Shifts every letter of the formatted plaintext by the first number of
    /// the formatted key, and shows the result in upper case.
    fn encrypt(&mut self)
        ensures
            final(self).plaintext == old(self).plaintext,
            final(self).key == old(self).key,
            final(self).ciphertext.ciphertext@ == shifted(
                old(self).plaintext.formated@,
                old(self).key.formated@[0] as int,
            ),
            final(self).ciphertext.representation@ == raised(final(self).ciphertext.ciphertext@),
    {
        let text = chars_of(self.plaintext.formated.as_str());
        let key: u32 = self.key.formated[0];
        let mut out: Vec<char> = Vec::new();
        let mut i: usize = 0;
        while i < text.len()
            invariant
                key < 26,
                forall|j: int| 0 <= j < text@.len() ==> is_letter(#[trigger] text@[j]),
                i <= text.len(),
                out@ == shifted(text@.take(i as int), key as int),
            decreases text.len() - i,
        {
            let new_char = char::from_crypto((text[i].as_crypto() + key) % 26);
            out.push(new_char);
            i += 1;
        }
        self.ciphertext.ciphertext = string_of(&out);
        self.ciphertext.represent();
    }
}

} // verus!
