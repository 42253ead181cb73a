//! A Caesar cipher: shifting letters around the Latin alphabet, composing the
//! shift over words and space-delimited text, and recovering plaintext of an
//! unknown shift by scoring every candidate against a dictionary.
pub mod alphabet;
pub mod text;
pub mod dictionary;
pub mod cipher;
