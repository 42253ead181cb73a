//! Encryption and decryption of whole texts, recovery of the plaintext when
//! the shift is unknown, and the single entry point that dispatches a request.
use rand::Rng;
use vstd::prelude::*;

use crate::dictionary::{known_count, Dictionary};
use crate::text::{shift_text, shifted_text, split_spaces, split_words, views};

verus! {

/// The lowercase form of a string, as Unicode defines it.
pub uninterp spec fn lowercase_of(s: Seq<char>) -> Seq<char>;

/// Relies on str::to_lowercase: the lowercase form depends on the characters alone.
#[verifier::external_body]
fn to_lowercase(s: &str) -> (r: String)
    ensures
        r@ == lowercase_of(s@),
{
    s.to_lowercase()
}

/// Relies on rand::thread_rng and Rng::gen_range(low, high), which draws a
/// value in `[low, high)`: here a shift in `[1, 24]`.
#[verifier::external_body]
fn gen_shift() -> (r: i64)
    ensures
        1 <= r <= 24,
{
    rand::thread_rng().gen_range(1i64, 25i64)
}

/// A candidate passes when at least nine tenths of its words are known.
pub open spec fn passable(matched: int, total: int) -> bool {
    10 * matched >= 9 * total
}

/// The words of `ciphertext` decrypted with `shift`.
pub open spec fn candidate_words(ciphertext: Seq<char>, shift: int) -> Seq<Seq<char>> {
    split_spaces(shifted_text(ciphertext, shift, false))
}

/// Each word in lowercase.
pub open spec fn lowercase_words(ws: Seq<Seq<char>>) -> Seq<Seq<char>> {
    ws.map_values(|w: Seq<char>| lowercase_of(w))
}

/// Decrypting `ciphertext` with `shift` gives text whose words, in lowercase,
/// are known to `dict` in a passable proportion.
pub open spec fn decrypts_plausibly(ciphertext: Seq<char>, shift: int, dict: Seq<Seq<char>>) -> bool {
    let ws = candidate_words(ciphertext, shift);
    passable(known_count(lowercase_words(ws), dict) as int, ws.len() as int)
}

/// `shift` is the smallest of the shifts 1 to 25 that decrypts `ciphertext`
/// plausibly.
pub open spec fn first_plausible_shift(
    ciphertext: Seq<char>,
    shift: int,
    dict: Seq<Seq<char>>,
) -> bool {
    &&& 1 <= shift <= 25
    &&& decrypts_plausibly(ciphertext, shift, dict)
    &&& forall|t: int| 1 <= t < shift ==> !#[trigger] decrypts_plausibly(ciphertext, t, dict)
}

/// None of the shifts 1 to 25 decrypts `ciphertext` plausibly.
pub open spec fn no_plausible_shift(ciphertext: Seq<char>, dict: Seq<Seq<char>>) -> bool {
    forall|t: int| 1 <= t <= 25 ==> !#[trigger] decrypts_plausibly(ciphertext, t, dict)
}

/// Whether `matched` known words out of `total` reach the passable proportion.
pub fn is_passable(matched: usize, total: usize) -> (r: bool)
    ensures
        r == passable(matched as int, total as int),
{
    (matched as u128) * 10 >= (total as u128) * 9
}

/// Encrypts `plaintext` by shifting every letter forward by `shift_value`.
pub fn encrypt(shift_value: i64, plaintext: &str) -> (r: String)
    ensures
        r@ == shifted_text(plaintext@, shift_value as int, true),
{
    shift_text(plaintext, shift_value, true)
}

/// Decrypts `ciphertext` by shifting every letter backward by the given
/// shift, or by a random shift in `[1, 24]` when none is given. Returns the
/// shift used and the plaintext.
pub fn decrypt(shift_value: Option<i64>, ciphertext: &str) -> (r: (i64, String))
    ensures
        shift_value matches Some(s) ==> r.0 == s,
        shift_value is None ==> 1 <= r.0 <= 24,
        r.1@ == shifted_text(ciphertext@, r.0 as int, false),
{
    let shift: i64 = match shift_value {
        Some(s) => s,
        None => gen_shift(),
    };
    (shift, shift_text(ciphertext, shift, false))
}

/// Each of `words` in lowercase.
fn lowercase_all(words: &Vec<String>) -> (r: Vec<String>)
    ensures
        views(r@) == lowercase_words(views(words@)),
{
    let mut out: Vec<String> = Vec::new();
    for i in 0..words.len()
        invariant
            out@.len() == i,
            forall|j: int| 0 <= j < i ==> #[trigger] out@[j]@ == lowercase_of(words@[j]@),
    {
        out.push(to_lowercase(words[i].as_str()));
    }
    assert(views(out@) =~= lowercase_words(views(words@)));
    out
}

/// Decrypts `ciphertext` with `shift_value` and keeps the result only when
/// enough of its words, lowercased, are in the dictionary.
pub fn try_decrypt(shift_value: i64, ciphertext: &str, dictionary: &Dictionary) -> (r: Option<String>)
    ensures
        r is Some <==> decrypts_plausibly(ciphertext@, shift_value as int, dictionary@),
        r matches Some(p) ==> p@ == shifted_text(ciphertext@, shift_value as int, false),
{
    let possible_plaintext: String = shift_text(ciphertext, shift_value, false);
    let words: Vec<String> = split_words(possible_plaintext.as_str());
    let lowered: Vec<String> = lowercase_all(&words);
    let words_in_dict: usize = dictionary.count_known_words(&lowered);
    if is_passable(words_in_dict, words.len()) {
        Some(possible_plaintext)
    } else {
        None
    }
}

/// Recovers the plaintext of `ciphertext` without its shift: tries the
/// shifts 1 to 25 in ascending order and returns the first that decrypts
/// plausibly, with its plaintext, or `None` when no shift does.
pub fn auto_decrypt(ciphertext: &str, dictionary: &Dictionary) -> (r: Option<(i64, String)>)
    ensures
        r is None <==> no_plausible_shift(ciphertext@, dictionary@),
        r matches Some((s, p)) ==> {
            &&& first_plausible_shift(ciphertext@, s as int, dictionary@)
            &&& p@ == shifted_text(ciphertext@, s as int, false)
        },
{
    let mut shift: i64 = 1;
    while shift < 26
        invariant
            1 <= shift <= 26,
            forall|t: int| 1 <= t < shift ==> !#[trigger] decrypts_plausibly(ciphertext@, t, dictionary@),
        decreases 26 - shift,
    {
        match try_decrypt(shift, ciphertext, dictionary) {
            Some(result) => {
                return Some((shift, result));
            },
            None => {},
        }
        shift = shift + 1;
    }
    None
}

/// What a request produced.
pub enum Outcome {
    /// The input encrypted with `shift`.
    Encrypted { shift: i64, ciphertext: String },
    /// The input decrypted with `shift`, given or recovered.
    Decrypted { shift: i64, plaintext: String },
    /// No shift could be recovered for the input.
    NotDecrypted,
}

/// Carries out one request: encrypts or decrypts `input`, with the shift
/// `shift_size` or, when `shift_size_automatic` holds, with a random shift
/// for encryption and a recovered one for decryption.
pub fn find_output(
    encrypting: bool,
    shift_size_automatic: bool,
    shift_size: i64,
    input: &str,
    dictionary: &Dictionary,
) -> (r: Outcome)
    ensures
        encrypting ==> (r matches Outcome::Encrypted { shift, ciphertext } && ciphertext@
            == shifted_text(input@, shift as int, true) && if shift_size_automatic {
            1 <= shift <= 24
        } else {
            shift == shift_size
        }),
        !encrypting && !shift_size_automatic ==> (r matches Outcome::Decrypted { shift, plaintext }
            && shift == shift_size && plaintext@ == shifted_text(input@, shift as int, false)),
        !encrypting && shift_size_automatic ==> match r {
            Outcome::Decrypted { shift, plaintext } => first_plausible_shift(
                input@,
                shift as int,
                dictionary@,
            ) && plaintext@ == shifted_text(input@, shift as int, false),
            Outcome::NotDecrypted => no_plausible_shift(input@, dictionary@),
            Outcome::Encrypted { .. } => false,
        },
{
    if encrypting {
        let shift: i64 = if shift_size_automatic {
            gen_shift()
        } else {
            shift_size
        };
        Outcome::Encrypted { shift, ciphertext: encrypt(shift, input) }
    } else if shift_size_automatic {
        match auto_decrypt(input, dictionary) {
            Some((shift, plaintext)) => Outcome::Decrypted { shift, plaintext },
            None => Outcome::NotDecrypted,
        }
    } else {
        let (shift, plaintext) = decrypt(Some(shift_size), input);
        Outcome::Decrypted { shift, plaintext }
    }
}

} // verus!
