//! Words: the maximal runs of characters that are not whitespace.
//!
//! Every such run has exactly one first character, so the words of a text are
//! counted by the indices at which a run begins.

use crate::whitespace::is_whitespace;
use vstd::prelude::*;

verus! {

/// True when a word begins at index `i` of `text`: the character there is not
/// whitespace, and it is the first of the text or follows whitespace.
pub open spec fn starts_word(text: Seq<char>, i: int) -> bool {
    &&& 0 <= i < text.len()
    &&& !is_whitespace(text[i])
    &&& (i == 0 || is_whitespace(text[i - 1]))
}

/// The number of words in `text`.
pub open spec fn word_count(text: Seq<char>) -> nat
    decreases text.len(),
{
    if text.len() == 0 {
        0
    } else {
        word_count(text.drop_last()) + if starts_word(text, text.len() - 1) {
            1nat
        } else {
            0nat
        }
    }
}

/// True when `text` ends inside a word.
pub open spec fn ends_in_word(text: Seq<char>) -> bool {
    text.len() > 0 && !is_whitespace(text.last())
}

/// True when `text` begins inside a word.
pub open spec fn begins_in_word(text: Seq<char>) -> bool {
    text.len() > 0 && !is_whitespace(text.first())
}

/// True when every character of `text` is whitespace.
pub open spec fn is_blank(text: Seq<char>) -> bool {
    forall|i: int| 0 <= i < text.len() ==> is_whitespace(#[trigger] text[i])
}

/// One if a word that ends `left` runs on into `right`, else zero.
pub open spec fn joined(left: Seq<char>, right: Seq<char>) -> nat {
    if ends_in_word(left) && begins_in_word(right) {
        1
    } else {
        0
    }
}

/// Appending one character adds a word exactly when the character is not
/// whitespace and the text before it does not end inside a word.
pub proof fn lemma_word_count_push(text: Seq<char>, c: char)
    ensures
        word_count(text.push(c)) == word_count(text) + if !is_whitespace(c) && !ends_in_word(text) {
            1nat
        } else {
            0nat
        },
{
    assert(text.push(c).drop_last() =~= text);
}

/// A text has no more words than characters.
pub proof fn lemma_word_count_bound(text: Seq<char>)
    ensures
        word_count(text) <= text.len(),
    decreases text.len(),
{
    if text.len() > 0 {
        lemma_word_count_bound(text.drop_last());
    }
}

/// The words of two texts put together are the words of each, less the one
/// that is formed where a word ending the first runs on into the second.
pub proof fn lemma_word_count_concat(left: Seq<char>, right: Seq<char>)
    ensures
        word_count(left + right) + joined(left, right) == word_count(left) + word_count(right),
    decreases right.len(),
{
    if right.len() == 0 {
        assert(left + right =~= left);
    } else {
        let front = right.drop_last();
        let c = right.last();
        assert(left + right =~= (left + front).push(c));
        assert(right =~= front.push(c));
        lemma_word_count_push(left + front, c);
        lemma_word_count_push(front, c);
        lemma_word_count_concat(left, front);
        if front.len() == 0 {
            assert(left + front =~= left);
        } else {
            assert((left + front).last() == front.last());
            assert((left + front).len() > 0);
            assert(right.first() == front.first());
        }
    }
}

/// Whitespace alone holds no word.
pub proof fn lemma_word_count_blank(text: Seq<char>)
    requires
        is_blank(text),
    ensures
        word_count(text) == 0,
    decreases text.len(),
{
    if text.len() > 0 {
        lemma_word_count_blank(text.drop_last());
    }
}

/// Text put in between two words that it touches neither of adds its own
/// words and changes no other: the count grows by exactly the number of runs
/// that were put in.
pub proof fn lemma_word_count_insert(before: Seq<char>, inserted: Seq<char>, after: Seq<char>)
    requires
        joined(before, after) == 0,
        joined(before, inserted) == 0,
        joined(inserted, after) == 0,
    ensures
        word_count(before + inserted + after) == word_count(before + after) + word_count(inserted),
{
    lemma_word_count_concat(before, after);
    lemma_word_count_concat(before, inserted);
    lemma_word_count_concat(before + inserted, after);
    if inserted.len() > 0 {
        assert((before + inserted).last() == inserted.last());
    } else {
        assert(before + inserted =~= before);
    }
}

/// Whitespace put in where no word is cut in two leaves the number of words
/// as it was.
pub proof fn lemma_word_count_insert_whitespace(
    before: Seq<char>,
    blank: Seq<char>,
    after: Seq<char>,
)
    requires
        is_blank(blank),
        joined(before, after) == 0,
    ensures
        word_count(before + blank + after) == word_count(before + after),
{
    lemma_word_count_blank(blank);
    if blank.len() > 0 {
        assert(is_whitespace(blank.last()));
        assert(is_whitespace(blank.first()));
    }
    lemma_word_count_insert(before, blank, after);
}

/// Whitespace put in inside a word cuts it in two.
pub proof fn lemma_word_count_split_word(before: Seq<char>, blank: Seq<char>, after: Seq<char>)
    requires
        is_blank(blank),
        blank.len() > 0,
        joined(before, after) == 1,
    ensures
        word_count(before + blank + after) == word_count(before + after) + 1,
{
    lemma_word_count_blank(blank);
    assert(is_whitespace(blank.last()));
    assert(is_whitespace(blank.first()));
    lemma_word_count_concat(before, after);
    lemma_word_count_concat(before, blank);
    lemma_word_count_concat(before + blank, after);
    assert((before + blank).last() == blank.last());
}

} // verus!
