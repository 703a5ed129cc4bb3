//! Text as a sequence of characters: reading it, splitting it, searching it.

use vstd::prelude::*;

verus! {

/// The tokens of `text` between occurrences of `sep`. Reading from the left,
/// a separator closes the token at hand and opens an empty one; any other
/// character is added to the token at hand. So there is always one token
/// more than there are separators, and the empty text has one empty token.
pub open spec fn split(text: Seq<char>, sep: char) -> Seq<Seq<char>>
    decreases text.len(),
{
    if text.len() == 0 {
        seq![Seq::<char>::empty()]
    } else {
        let before = split(text.drop_last(), sep);
        if text.last() == sep {
            before.push(Seq::<char>::empty())
        } else {
            before.drop_last().push(before.last().push(text.last()))
        }
    }
}

/// What each of `tokens` holds.
pub open spec fn token_texts(tokens: Seq<Vec<char>>) -> Seq<Seq<char>> {
    Seq::new(tokens.len(), |i: int| tokens[i]@)
}

/// A text without separator is its own single token.
pub proof fn lemma_split_single(text: Seq<char>, sep: char)
    requires
        !text.contains(sep),
    ensures
        split(text, sep) == seq![text],
    decreases text.len(),
{
    if text.len() > 0 {
        let shorter = text.drop_last();
        assert(!shorter.contains(sep)) by {
            if shorter.contains(sep) {
                let i = choose|i: int| 0 <= i < shorter.len() && shorter[i] == sep;
                assert(text[i] == sep);
            }
        }
        lemma_split_single(shorter, sep);
        assert(text[text.len() - 1] != sep);
        assert(shorter.push(text.last()) == text);
        assert(seq![shorter].drop_last().push(shorter.push(text.last())) == seq![text]);
    } else {
        assert(text == Seq::<char>::empty());
    }
}

/// A separator followed by a text without separator adds that text as one
/// more token.
pub proof fn lemma_split_append(head: Seq<char>, sep: char, tail: Seq<char>)
    requires
        !tail.contains(sep),
    ensures
        split(head + seq![sep] + tail, sep) == split(head, sep).push(tail),
    decreases tail.len(),
{
    let whole = head + seq![sep] + tail;
    if tail.len() == 0 {
        assert(whole.drop_last() == head);
        assert(tail == Seq::<char>::empty());
    } else {
        let shorter = tail.drop_last();
        assert(!shorter.contains(sep)) by {
            if shorter.contains(sep) {
                let i = choose|i: int| 0 <= i < shorter.len() && shorter[i] == sep;
                assert(tail[i] == sep);
            }
        }
        lemma_split_append(head, sep, shorter);
        assert(whole.drop_last() == head + seq![sep] + shorter);
        assert(tail[tail.len() - 1] != sep);
        assert(whole.last() == tail.last());
        assert(shorter.push(tail.last()) == tail);
        assert(split(head, sep).push(shorter).drop_last() == split(head, sep));
    }
}

/// `tokens` written one after the other with `sep` between each two.
pub open spec fn join(tokens: Seq<Seq<char>>, sep: char) -> Seq<char>
    decreases tokens.len(),
{
    if tokens.len() == 0 {
        Seq::<char>::empty()
    } else if tokens.len() == 1 {
        tokens[0]
    } else {
        join(tokens.drop_last(), sep) + seq![sep] + tokens.last()
    }
}

/// Splitting undoes joining: tokens that hold no separator, at least one of
/// them, come back from their joined text as they were.
pub proof fn lemma_split_join(tokens: Seq<Seq<char>>, sep: char)
    requires
        tokens.len() >= 1,
        forall|i: int| 0 <= i < tokens.len() ==> !(#[trigger] tokens[i]).contains(sep),
    ensures
        split(join(tokens, sep), sep) == tokens,
    decreases tokens.len(),
{
    if tokens.len() == 1 {
        lemma_split_single(tokens[0], sep);
        assert(seq![tokens[0]] == tokens);
    } else {
        let front = tokens.drop_last();
        lemma_split_join(front, sep);
        lemma_split_append(join(front, sep), sep, tokens.last());
        assert(front.push(tokens.last()) == tokens);
    }
}

/// Whether `part` stands in `text` from position `at` on.
pub open spec fn occurs_at(text: Seq<char>, part: Seq<char>, at: int) -> bool {
    0 <= at && at + part.len() <= text.len() && text.subrange(at, at + part.len()) == part
}

/// Whether `part` stands somewhere in `text`, character for character.
pub open spec fn contains_text(text: Seq<char>, part: Seq<char>) -> bool {
    exists|at: int| occurs_at(text, part, at)
}

/// The characters of `text`, in order.
pub fn chars_of(text: &str) -> (chars: Vec<char>)
    ensures
        chars@ == text@,
{
    let mut chars: Vec<char> = Vec::new();
    for c in it: text.chars()
        invariant
            it.seq() == text@,
            chars@ == it.seq().take(it.index()),
    {
        chars.push(c);
    }
    chars
}

/// Splits `text` at each occurrence of `sep`.
pub fn split_text(text: &str, sep: char) -> (tokens: Vec<Vec<char>>)
    ensures
        token_texts(tokens@) == split(text@, sep),
{
    let mut done: Vec<Vec<char>> = Vec::new();
    let mut token: Vec<char> = Vec::new();
    for c in it: text.chars()
        invariant
            it.seq() == text@,
            split(it.seq().take(it.index()), sep) == token_texts(done@).push(token@),
    {
        let ghost read = it.seq().take(it.index());
        let ghost longer = it.seq().take(it.index() + 1);
        proof {
            assert(longer.drop_last() == read);
            assert(longer.last() == c);
        }
        if c == sep {
            let ghost closed = token_texts(done@).push(token@);
            done.push(token);
            token = Vec::new();
            assert(token_texts(done@) == closed);
        } else {
            let ghost open = token@;
            token.push(c);
            assert(token_texts(done@).push(open).drop_last() == token_texts(done@));
        }
    }
    assert(text@.take(text@.len() as int) == text@);
    let ghost all = token_texts(done@).push(token@);
    done.push(token);
    assert(token_texts(done@) == all);
    done
}

/// Whether `part` stands in `text` from position `at` on.
fn matches_at(text: &Vec<char>, part: &Vec<char>, at: usize) -> (found: bool)
    requires
        at + part.len() <= text.len(),
    ensures
        found == occurs_at(text@, part@, at as int),
{
    let mut k: usize = 0;
    while k < part.len()
        invariant
            k <= part.len(),
            at + part.len() <= text.len(),
            forall|j: int| 0 <= j < k ==> text@[at + j] == part@[j],
        decreases part.len() - k,
    {
        if text[at + k] != part[k] {
            assert(text@.subrange(at as int, at + part.len())[k as int] == text@[at + k]);
            return false;
        }
        k += 1;
    }
    assert(text@.subrange(at as int, at + part.len()) =~= part@);
    true
}

/// Whether `part` stands somewhere in `text`, character for character.
pub fn contains(text: &str, part: &str) -> (found: bool)
    ensures
        found == contains_text(text@, part@),
{
    let hay = chars_of(text);
    let needle = chars_of(part);
    let mut at: usize = 0;
    while at <= hay.len() && needle.len() <= hay.len() - at
        invariant
            hay@ == text@,
            needle@ == part@,
            forall|i: int| 0 <= i < at ==> !occurs_at(hay@, needle@, i),
        decreases hay.len() + 1 - at,
    {
        if matches_at(&hay, &needle, at) {
            return true;
        }
        assert(at < hay.len()) by {
            if needle.len() == 0 {
                assert(hay@.subrange(at as int, at as int) =~= needle@);
            }
        }
        at += 1;
    }
    false
}

} // verus!
