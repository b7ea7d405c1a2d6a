//! Classical ciphers with contracts that pin every transformation down.
//!
//! The engine is stateless: every operation is a function of its inputs, and
//! every rejection is an ordinary outcome of type [`error::CipherError`].
//!
//! - [`alphabet`] maps letters to residues modulo 26 and says which texts
//!   are plaintexts and ciphertexts.
//! - [`modular`] and [`matrix`] hold the arithmetic: inverses modulo `n`,
//!   determinants, adjugates and inverses of small matrices.
//! - [`caesar`], [`affine`], [`vigenere`] and [`permutation`] are the ciphers
//!   on text, each with the law that deciphering undoes enciphering;
//!   [`caesar`] and [`affine`] also try every key on a ciphertext.
//! - [`hill`] transforms images block by block with a key matrix modulo 256.
//! - [`cipher`] reads a key of any cipher from text and sends a text to the
//!   cipher of its key.
//! - [`tokens`], [`input`] and [`tool`] bring what a user types into shape.

pub mod affine;
pub mod alphabet;
pub mod caesar;
pub mod cipher;
pub mod error;
pub mod hill;
pub mod input;
pub mod matrix;
pub mod modular;
pub mod permutation;
pub mod tokens;
pub mod tool;
pub mod vigenere;
