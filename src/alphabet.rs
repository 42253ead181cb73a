//! Shifting single characters within the two 26-letter alphabets.
use vstd::prelude::*;

verus! {

/// A letter of the uppercase alphabet.
pub open spec fn is_upper(c: char) -> bool {
    'A' <= c && c <= 'Z'
}

/// A letter of the lowercase alphabet.
pub open spec fn is_lower(c: char) -> bool {
    'a' <= c && c <= 'z'
}

/// A letter of the supported alphabet, either case.
pub open spec fn is_letter(c: char) -> bool {
    is_upper(c) || is_lower(c)
}

/// The signed displacement: forward (encrypting) moves by `shift`, backward by `-shift`.
pub open spec fn displacement(shift: int, forward: bool) -> int {
    if forward {
        shift
    } else {
        -shift
    }
}

/// The letter at `index` (taken modulo 26) of the alphabet that starts at `first`.
pub open spec fn letter_at(first: char, index: int) -> char {
    ((first as int) + index % 26) as u8 as char
}

/// A character shifted by `shift` positions in the given direction: letters
/// move cyclically within their own alphabet, everything else is unchanged.
pub open spec fn shifted_char(c: char, shift: int, forward: bool) -> char {
    if is_upper(c) {
        letter_at('A', (c as int) - ('A' as int) + displacement(shift, forward))
    } else if is_lower(c) {
        letter_at('a', (c as int) - ('a' as int) + displacement(shift, forward))
    } else {
        c
    }
}

/// `shift` reduced into `[0, 26)`, with the true (Euclidean) modulo.
fn reduce_shift(shift: i64) -> (r: u32)
    ensures
        r < 26,
        r as int == shift as int % 26,
{
    if shift >= 0 {
        ((shift as u64) % 26) as u32
    } else {
        let m: u64 = ((-(shift + 1)) as u64) % 26;
        assert(shift as int % 26 == 25 - m as int) by (nonlinear_arith)
            requires
                shift < 0,
                m as int == (-(shift + 1)) % 26,
        {
        }
        (25 - m) as u32
    }
}

/// Shifts one character by `shift` positions, forward when `forward` holds and
/// backward otherwise; characters outside the alphabets pass through.
pub fn shift_char(start: char, shift: i64, forward: bool) -> (r: char)
    ensures
        r == shifted_char(start, shift as int, forward),
{
    let first: char;
    if 'A' <= start && start <= 'Z' {
        first = 'A';
    } else if 'a' <= start && start <= 'z' {
        first = 'a';
    } else {
        return start;
    }
    let k: u32 = reduce_shift(shift);
    let d: u32 = if forward || k == 0 { k } else { 26 - k };
    let index: u32 = ((start as u32) - (first as u32) + d) % 26;
    let out: u8 = ((first as u32) + index) as u8;
    proof {
        let disp = displacement(shift as int, forward);
        assert(d as int % 26 == disp % 26) by (nonlinear_arith)
            requires
                k as int == shift as int % 26,
                d == (if forward || k == 0 { k as int } else { 26 - k as int }),
                disp == (if forward { shift as int } else { -shift as int }),
        {
        }
        assert(index as int == ((start as int) - (first as int) + disp) % 26) by (nonlinear_arith)
            requires
                index as int == ((start as int) - (first as int) + d as int) % 26,
                d as int % 26 == disp % 26,
        {
        }
    }
    out as char
}

/// Position of a letter of the alphabet that starts at `first`, within the alphabet.
proof fn lemma_letter_at_index(first: char, index: int)
    requires
        first == 'A' || first == 'a',
    ensures
        (letter_at(first, index) as int) - (first as int) == index % 26,
        first == 'A' ==> is_upper(letter_at(first, index)),
        first == 'a' ==> is_lower(letter_at(first, index)),
{
}

/// Case is preserved: an uppercase letter shifts to an uppercase letter and a
/// lowercase letter to a lowercase letter.
pub proof fn lemma_case_preserved(c: char, shift: int, forward: bool)
    ensures
        is_upper(c) ==> is_upper(shifted_char(c, shift, forward)),
        is_lower(c) ==> is_lower(shifted_char(c, shift, forward)),
{
    let d = displacement(shift, forward);
    if is_upper(c) {
        lemma_letter_at_index('A', (c as int) - ('A' as int) + d);
    } else if is_lower(c) {
        lemma_letter_at_index('a', (c as int) - ('a' as int) + d);
    }
}

/// A character outside both alphabets is left unchanged by any shift in
/// either direction.
pub proof fn lemma_non_letter_unchanged(c: char, shift: int, forward: bool)
    requires
        !is_letter(c),
    ensures
        shifted_char(c, shift, forward) == c,
{
}

/// Shifting a letter forward by `shift` and then backward by the same `shift`
/// gives the letter back.
pub proof fn lemma_shift_round_trip(c: char, shift: int)
    requires
        is_letter(c),
    ensures
        shifted_char(shifted_char(c, shift, true), shift, false) == c,
{
    let first = if is_upper(c) { 'A' } else { 'a' };
    let i = (c as int) - (first as int);
    let e = shifted_char(c, shift, true);
    lemma_letter_at_index(first, i + shift);
    lemma_case_preserved(c, shift, true);
    let j = (e as int) - (first as int);
    assert(j == (i + shift) % 26);
    lemma_letter_at_index(first, j - shift);
    assert((j - shift) % 26 == i) by (nonlinear_arith)
        requires
            j == (i + shift) % 26,
            0 <= i < 26,
    {
    }
}

} // verus!
