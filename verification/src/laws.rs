//! What holds of the counts of every input.

use crate::counter::{is_count_of, summary, CountError, FileInfo, Summary};
use crate::lines::{ends_in_line, line_count, NEWLINE};
use crate::lines::{lemma_line_count_bound, lemma_line_count_concat};
use crate::text::{lemma_chars_at_most_bytes, lemma_first_scalar_width, lemma_text_concat};
use crate::text::text_of;
use crate::words::{begins_in_word, ends_in_word, is_blank, joined, word_count};
use crate::words::{lemma_word_count_bound, lemma_word_count_concat, lemma_word_count_insert};
use crate::words::lemma_word_count_insert_whitespace;
use vstd::prelude::*;
use vstd::utf8::*;

verus! {

/// Counting is repeatable: two counts of inputs that hold the same bytes
/// come to the same, be it the same counts or the same refusal.
pub proof fn lemma_count_repeatable(
    first: Result<FileInfo, CountError>,
    second: Result<FileInfo, CountError>,
    input: Seq<u8>,
    again: Seq<u8>,
)
    requires
        input == again,
        is_count_of(first, input),
        is_count_of(second, again),
    ensures
        first == second,
{
}

/// The empty input has no line, no word, no byte and no character.
pub proof fn lemma_summary_empty()
    ensures
        valid_utf8(Seq::<u8>::empty()),
        summary(Seq::<u8>::empty()) == (Summary { lines: 0, words: 0, bytes: 0, chars: 0 }),
{
}

/// How the counts of a well-formed input bound each other: no more words
/// than characters, no more characters than bytes, no more lines than bytes,
/// and no line exactly when there is no byte.
pub proof fn lemma_summary_bounds(bytes: Seq<u8>)
    requires
        valid_utf8(bytes),
    ensures
        summary(bytes).words <= summary(bytes).chars <= summary(bytes).bytes,
        summary(bytes).lines <= summary(bytes).bytes,
        summary(bytes).lines == 0 <==> summary(bytes).bytes == 0,
{
    lemma_word_count_bound(text_of(bytes));
    lemma_chars_at_most_bytes(bytes);
    lemma_line_count_bound(bytes);
    if bytes.len() > 0 {
        lemma_line_count_positive(bytes);
    }
}

/// An input that is not empty has a line, even where no newline ends it.
pub proof fn lemma_line_count_positive(bytes: Seq<u8>)
    requires
        bytes.len() > 0,
    ensures
        line_count(bytes) >= 1,
    decreases bytes.len(),
{
    if bytes.len() > 1 {
        lemma_line_count_positive(bytes.drop_last());
    }
}

/// A text that begins inside a word has a word.
pub proof fn lemma_word_count_positive(text: Seq<char>)
    requires
        begins_in_word(text),
    ensures
        word_count(text) >= 1,
    decreases text.len(),
{
    if text.len() > 1 {
        assert(text.drop_last().first() == text.first());
        lemma_word_count_positive(text.drop_last());
    }
}

/// No count falls as more input is consumed.
pub proof fn lemma_summary_grows(consumed: Seq<u8>, more: Seq<u8>)
    requires
        valid_utf8(consumed),
        valid_utf8(more),
    ensures
        valid_utf8(consumed + more),
        summary(consumed).lines <= summary(consumed + more).lines,
        summary(consumed).words <= summary(consumed + more).words,
        summary(consumed).bytes <= summary(consumed + more).bytes,
        summary(consumed).chars <= summary(consumed + more).chars,
{
    lemma_text_concat(consumed, more);
    lemma_line_count_concat(consumed, more);
    if more.len() > 0 {
        lemma_line_count_positive(more);
    }
    lemma_word_count_concat(text_of(consumed), text_of(more));
    if begins_in_word(text_of(more)) {
        lemma_word_count_positive(text_of(more));
    }
}

/// A well-formed input that ends with a newline encodes a text that ends with
/// the newline character, and so outside any word.
pub proof fn lemma_text_ends_with_newline(bytes: Seq<u8>)
    requires
        valid_utf8(bytes),
        bytes.len() > 0,
        bytes.last() == NEWLINE,
    ensures
        text_of(bytes).len() > 0,
        text_of(bytes).last() == '\n',
        !ends_in_word(text_of(bytes)),
    decreases bytes.len(),
{
    let rest = pop_first_scalar(bytes);
    let v = decode_first_scalar(bytes);
    let w = length_of_first_scalar(bytes);
    lemma_first_scalar_width(bytes);
    assert(text_of(bytes) =~= seq![v as char] + text_of(rest));
    if rest.len() == 0 {
        assert(w == bytes.len());
        assert(bytes.last() == bytes[w - 1]);
        let b0 = bytes[0];
        assert(b0 == 0x0A ==> b0 & 0x7F == 0x0A) by (bit_vector);
        assert(text_of(rest) =~= Seq::<char>::empty());
        assert(text_of(bytes).last() == v as char);
    } else {
        assert(rest.last() == bytes.last());
        lemma_text_ends_with_newline(rest);
        assert(text_of(bytes).last() == text_of(rest).last());
    }
}

/// Counting line by line: where an input stops at the end of a line, the
/// counts of it and of what follows add up to the counts of both together.
pub proof fn lemma_summary_by_lines(consumed: Seq<u8>, more: Seq<u8>)
    requires
        valid_utf8(consumed),
        valid_utf8(more),
        !ends_in_line(consumed),
    ensures
        valid_utf8(consumed + more),
        summary(consumed + more) == (Summary {
            lines: summary(consumed).lines + summary(more).lines,
            words: summary(consumed).words + summary(more).words,
            bytes: summary(consumed).bytes + summary(more).bytes,
            chars: summary(consumed).chars + summary(more).chars,
        }),
{
    lemma_text_concat(consumed, more);
    lemma_line_count_concat(consumed, more);
    lemma_word_count_concat(text_of(consumed), text_of(more));
    if consumed.len() > 0 {
        lemma_text_ends_with_newline(consumed);
    } else {
        assert(text_of(consumed) =~= Seq::<char>::empty());
    }
}

/// Whitespace put into an input where no word is cut in two leaves the count
/// of words as it was.
pub proof fn lemma_words_keep_under_whitespace(before: Seq<u8>, blank: Seq<u8>, after: Seq<u8>)
    requires
        valid_utf8(before),
        valid_utf8(blank),
        valid_utf8(after),
        is_blank(text_of(blank)),
        joined(text_of(before), text_of(after)) == 0,
    ensures
        valid_utf8(before + blank + after),
        valid_utf8(before + after),
        summary(before + blank + after).words == summary(before + after).words,
{
    lemma_text_concat(before, blank);
    lemma_text_concat(before + blank, after);
    lemma_text_concat(before, after);
    lemma_word_count_insert_whitespace(text_of(before), text_of(blank), text_of(after));
}

/// Text put into an input between two words, touching neither, raises the
/// count of words by the number of words put in.
pub proof fn lemma_words_grow_by_inserted(before: Seq<u8>, inserted: Seq<u8>, after: Seq<u8>)
    requires
        valid_utf8(before),
        valid_utf8(inserted),
        valid_utf8(after),
        joined(text_of(before), text_of(after)) == 0,
        joined(text_of(before), text_of(inserted)) == 0,
        joined(text_of(inserted), text_of(after)) == 0,
    ensures
        valid_utf8(before + inserted + after),
        valid_utf8(before + after),
        summary(before + inserted + after).words == summary(before + after).words + summary(
            inserted,
        ).words,
{
    lemma_text_concat(before, inserted);
    lemma_text_concat(before + inserted, after);
    lemma_text_concat(before, after);
    lemma_word_count_insert(text_of(before), text_of(inserted), text_of(after));
}

} // verus!
