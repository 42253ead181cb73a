//! Words of a text, split on the space character, and shifting whole words
//! and texts.
use vstd::prelude::*;

use crate::alphabet::{is_letter, lemma_shift_round_trip, shift_char, shifted_char};

verus! {

/// The pieces of `s` between single space characters, in order. There is
/// always at least one piece; consecutive spaces give empty pieces.
pub open spec fn split_spaces(s: Seq<char>) -> Seq<Seq<char>>
    decreases s.len(),
{
    if s.len() == 0 {
        seq![Seq::<char>::empty()]
    } else {
        let rest = split_spaces(s.drop_last());
        if s.last() == ' ' {
            rest.push(Seq::<char>::empty())
        } else {
            rest.update(rest.len() - 1, rest.last().push(s.last()))
        }
    }
}

/// The words joined, with one space between each two neighbours.
pub open spec fn join_spaces(ws: Seq<Seq<char>>) -> Seq<char>
    decreases ws.len(),
{
    if ws.len() == 0 {
        Seq::<char>::empty()
    } else if ws.len() == 1 {
        ws[0]
    } else {
        join_spaces(ws.drop_last()) + seq![' '] + ws.last()
    }
}

/// The contents of each string of a sequence.
pub open spec fn views(v: Seq<String>) -> Seq<Seq<char>> {
    v.map_values(|w: String| w@)
}

/// Every character of `s` shifted.
pub open spec fn shifted_text(s: Seq<char>, shift: int, forward: bool) -> Seq<char> {
    s.map_values(|c: char| shifted_char(c, shift, forward))
}

/// Every word shifted.
pub open spec fn shifted_words(ws: Seq<Seq<char>>, shift: int, forward: bool) -> Seq<Seq<char>> {
    ws.map_values(|w: Seq<char>| shifted_text(w, shift, forward))
}

/// A text always splits into at least one word.
pub proof fn lemma_split_nonempty(s: Seq<char>)
    ensures
        split_spaces(s).len() >= 1,
    decreases s.len(),
{
    if s.len() > 0 {
        lemma_split_nonempty(s.drop_last());
    }
}

proof fn lemma_join_push_to_last(ws: Seq<Seq<char>>, c: char)
    requires
        ws.len() >= 1,
    ensures
        join_spaces(ws.update(ws.len() - 1, ws.last().push(c))) == join_spaces(ws).push(c),
{
    let ws2 = ws.update(ws.len() - 1, ws.last().push(c));
    if ws.len() > 1 {
        assert(ws2.drop_last() =~= ws.drop_last());
        assert(join_spaces(ws2) =~= join_spaces(ws).push(c));
    }
}

/// Splitting on spaces and joining with spaces gives the text back.
pub proof fn lemma_join_split(s: Seq<char>)
    ensures
        join_spaces(split_spaces(s)) == s,
    decreases s.len(),
{
    if s.len() > 0 {
        let rest = split_spaces(s.drop_last());
        lemma_join_split(s.drop_last());
        lemma_split_nonempty(s.drop_last());
        if s.last() == ' ' {
            assert(rest.push(Seq::<char>::empty()).drop_last() =~= rest);
            assert(join_spaces(split_spaces(s)) =~= s);
        } else {
            lemma_join_push_to_last(rest, s.last());
            assert(s.drop_last().push(s.last()) =~= s);
        }
    }
}

/// Shifting a joined text is joining the shifted words.
pub proof fn lemma_shift_join(ws: Seq<Seq<char>>, shift: int, forward: bool)
    ensures
        shifted_text(join_spaces(ws), shift, forward) == join_spaces(
            shifted_words(ws, shift, forward),
        ),
    decreases ws.len(),
{
    let sw = shifted_words(ws, shift, forward);
    if ws.len() == 1 {
        assert(sw[0] == shifted_text(ws[0], shift, forward));
    } else if ws.len() > 1 {
        lemma_shift_join(ws.drop_last(), shift, forward);
        assert(sw.drop_last() =~= shifted_words(ws.drop_last(), shift, forward));
        assert(shifted_text(join_spaces(ws), shift, forward) =~= join_spaces(sw));
    }
}

/// Relies on String::push: appends one character at the end.
#[verifier::external_body]
fn push_char(s: &mut String, c: char)
    ensures
        final(s)@ == old(s)@.push(c),
{
    s.push(c)
}

/// Splits `text` on every space character.
pub fn split_words(text: &str) -> (r: Vec<String>)
    ensures
        views(r@) == split_spaces(text@),
{
    let mut words: Vec<String> = Vec::new();
    let mut current: String = String::new();
    for c in it: text.chars()
        invariant
            it.seq() == text@,
            views(words@.push(current)) == split_spaces(text@.take(it.index())),
    {
        proof {
            let s = text@.take(it.index() + 1);
            assert(s.drop_last() == text@.take(it.index()));
            lemma_split_nonempty(s.drop_last());
        }
        if c == ' ' {
            words.push(current);
            current = String::new();
            proof {
                assert(views(words@.push(current)) =~= split_spaces(text@.take(it.index() + 1)));
            }
        } else {
            push_char(&mut current, c);
            proof {
                assert(views(words@.push(current)) =~= split_spaces(text@.take(it.index() + 1)));
            }
        }
    }
    assert(text@.take(text@.len() as int) == text@);
    words.push(current);
    words
}

/// Joins `words` with one space between each two neighbours.
pub fn join_words(words: &Vec<String>) -> (r: String)
    ensures
        r@ == join_spaces(views(words@)),
{
    let mut out: String = String::new();
    for i in 0..words.len()
        invariant
            out@ == join_spaces(views(words@.take(i as int))),
    {
        proof {
            let ws = views(words@.take(i + 1));
            assert(ws.drop_last() =~= views(words@.take(i as int)));
        }
        if i > 0 {
            push_char(&mut out, ' ');
        }
        out.append(words[i].as_str());
        proof {
            let ws = views(words@.take(i + 1));
            if i == 0 {
                assert(out@ =~= ws[0]);
            } else {
                assert(out@ =~= join_spaces(ws.drop_last()) + seq![' '] + ws.last());
            }
        }
    }
    assert(words@.take(words@.len() as int) == words@);
    out
}

/// Shifts every character of `word`.
pub fn shift_word(start: &str, shift: i64, forward: bool) -> (r: String)
    ensures
        r@ == shifted_text(start@, shift as int, forward),
{
    let mut out: String = String::new();
    for c in it: start.chars()
        invariant
            it.seq() == start@,
            out@ == shifted_text(start@.take(it.index()), shift as int, forward),
    {
        push_char(&mut out, shift_char(c, shift, forward));
        proof {
            assert(out@ =~= shifted_text(start@.take(it.index() + 1), shift as int, forward));
        }
    }
    assert(start@.take(start@.len() as int) == start@);
    out
}

/// Shifts every word of the space-delimited text `start`: encrypting moves
/// letters forward, decrypting backward. Every character ends up shifted.
pub fn shift_text(start: &str, shift: i64, encrypting: bool) -> (r: String)
    ensures
        r@ == shifted_text(start@, shift as int, encrypting),
{
    let words: Vec<String> = split_words(start);
    let mut shifted: Vec<String> = Vec::new();
    for i in 0..words.len()
        invariant
            views(words@) == split_spaces(start@),
            shifted@.len() == i,
            views(shifted@) == shifted_words(views(words@.take(i as int)), shift as int, encrypting),
    {
        let w: String = shift_word(words[i].as_str(), shift, encrypting);
        let ghost old_shifted = shifted@;
        shifted.push(w);
        proof {
            let ws = views(words@.take(i + 1));
            assert(ws[i as int] == words@[i as int]@);
            assert(ws.drop_last() =~= views(words@.take(i as int)));
            let old_ws = views(words@.take(i as int));
            assert forall|j: int| 0 <= j < i implies #[trigger] views(shifted@)[j] == shifted_words(
                ws,
                shift as int,
                encrypting,
            )[j] by {
                assert(shifted@[j] == old_shifted[j]);
                assert(views(old_shifted)[j] == shifted_words(old_ws, shift as int, encrypting)[j]);
                assert(ws[j] == old_ws[j]);
            }
            assert(shifted@[i as int] == w);
            assert(views(shifted@) =~= shifted_words(ws, shift as int, encrypting));
        }
    }
    let r: String = join_words(&shifted);
    proof {
        assert(words@.take(words@.len() as int) == words@);
        lemma_join_split(start@);
        lemma_shift_join(split_spaces(start@), shift as int, encrypting);
    }
    r
}

/// Shifting a text forward and then backward by the same shift gives the
/// text back, whatever characters it holds.
pub proof fn lemma_text_round_trip(s: Seq<char>, shift: int)
    ensures
        shifted_text(shifted_text(s, shift, true), shift, false) == s,
{
    let e = shifted_text(s, shift, true);
    assert forall|i: int| 0 <= i < s.len() implies #[trigger] shifted_text(e, shift, false)[i]
        == s[i] by {
        if is_letter(s[i]) {
            lemma_shift_round_trip(s[i], shift);
        }
    }
    assert(shifted_text(e, shift, false) =~= s);
}

} // verus!
