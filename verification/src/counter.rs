//! The counter: one pass over an input that yields its four counts.

use crate::lines::{is_line, line_count, lines, NEWLINE};
use crate::lines::{lemma_line_count_concat, lemma_line_count_is_reads, lemma_line_count_one};
use crate::scalar::decode_scalar;
use crate::text::{lemma_chars_at_most_bytes, lemma_first_scalar_width, lemma_ill_formed_after};
use crate::text::{lemma_text_step, text_of};
use crate::whitespace::scalar_is_whitespace;
use crate::words::{ends_in_word, lemma_word_count_push, word_count};
use vstd::prelude::*;
use vstd::utf8::*;

verus! {

/// The four counts of an input, as mathematical numbers.
pub struct Summary {
    pub lines: nat,
    pub words: nat,
    pub bytes: nat,
    pub chars: nat,
}

/// The counts of `bytes`: its line reads, the words and characters of the
/// text that it encodes, and its length. It is meaningful where `bytes` is
/// well-formed UTF-8.
pub open spec fn summary(bytes: Seq<u8>) -> Summary {
    Summary {
        lines: line_count(bytes),
        words: word_count(text_of(bytes)),
        bytes: bytes.len(),
        chars: text_of(bytes).len(),
    }
}

/// The counts of one input that was read to its end.
#[derive(Debug, Clone, Copy, PartialEq, Eq, Structural)]
pub struct FileInfo {
    pub num_lines: usize,
    pub num_words: usize,
    pub num_bytes: usize,
    pub num_chars: usize,
}

impl View for FileInfo {
    type V = Summary;

    open spec fn view(&self) -> Summary {
        Summary {
            lines: self.num_lines as nat,
            words: self.num_words as nat,
            bytes: self.num_bytes as nat,
            chars: self.num_chars as nat,
        }
    }
}

/// Why an input has no counts.
#[derive(Debug, Clone, Copy, PartialEq, Eq, Structural)]
pub enum CountError {
    /// The input is not well-formed UTF-8, so it encodes no text.
    InvalidEncoding,
}

/// True when `outcome` is what counting `input` comes to: the counts of
/// `input` where it is well-formed UTF-8, a refusal where it is not.
pub open spec fn is_count_of(outcome: Result<FileInfo, CountError>, input: Seq<u8>) -> bool {
    match outcome {
        Ok(info) => valid_utf8(input) && info@ == summary(input),
        Err(e) => !valid_utf8(input) && e == CountError::InvalidEncoding,
    }
}

/// Counts the lines, words, bytes and characters of `input`.
///
/// An input that is not well-formed UTF-8 has no counts, not even those of
/// the part before the first ill-formed byte.
pub fn count(input: &[u8]) -> (r: Result<FileInfo, CountError>)
    ensures
        is_count_of(r, input@),
        r is Ok <==> valid_utf8(input@),
        r matches Ok(info) ==> info@ == summary(input@),
        r matches Ok(info) ==> info.num_lines == lines(input@).len(),
        r matches Ok(info) ==> info.num_chars <= info.num_bytes,
        r matches Ok(info) ==> (info.num_chars == info.num_bytes <==> is_ascii_chars(
            text_of(input@),
        )),
        input@.len() == 0 ==> r == Ok::<FileInfo, CountError>(
            (FileInfo { num_lines: 0, num_words: 0, num_bytes: 0, num_chars: 0 }),
        ),
{
    let n: usize = input.len();
    let mut pos: usize = 0;
    let mut num_lines: usize = 0;
    let mut num_words: usize = 0;
    let mut num_chars: usize = 0;
    let mut in_word: bool = false;
    while pos < n
        invariant
            n == input@.len(),
            pos <= n,
            valid_utf8(input@.take(pos as int)),
            num_lines == line_count(input@.take(pos as int)),
            num_words == word_count(text_of(input@.take(pos as int))),
            num_chars == text_of(input@.take(pos as int)).len(),
            in_word == ends_in_word(text_of(input@.take(pos as int))),
            num_lines <= pos,
            num_words <= num_chars <= pos,
        decreases n - pos,
    {
        let ghost seen = input@.take(pos as int);
        match decode_scalar(input, pos) {
            None => {
                proof {
                    lemma_ill_formed_after(input@, pos as int);
                }
                return Err(CountError::InvalidEncoding);
            },
            Some((v, w)) => {
                proof {
                    let tail = input@.skip(pos as int);
                    lemma_text_step(input@, pos as int);
                    lemma_first_scalar_width(tail);
                    lemma_word_count_push(text_of(seen), v as char);
                    lemma_scalar_is_line(tail);
                    lemma_line_count_one(tail.take(w as int));
                    lemma_line_count_concat(seen, tail.take(w as int));
                    assert(seen + tail.take(w as int) =~= input@.take(pos + w));
                    if pos > 0 {
                        assert(seen.last() == input@[pos - 1]);
                    }
                }
                let blank = scalar_is_whitespace(v);
                if !blank && !in_word {
                    num_words += 1;
                }
                in_word = !blank;
                if pos == 0 || input[pos - 1] == NEWLINE {
                    num_lines += 1;
                }
                num_chars += 1;
                pos += w;
            },
        }
    }
    proof {
        assert(input@.take(pos as int) =~= input@);
        lemma_chars_at_most_bytes(input@);
        lemma_line_count_is_reads(input@);
    }
    Ok(FileInfo { num_lines, num_words, num_bytes: n, num_chars })
}

/// The bytes that encode one scalar value hold no newline before their last
/// byte, so a line read never stops inside them.
pub proof fn lemma_scalar_is_line(bytes: Seq<u8>)
    requires
        valid_first_scalar(bytes),
    ensures
        is_line(bytes.take(length_of_first_scalar(bytes))),
{
    let one = bytes.take(length_of_first_scalar(bytes));
    assert forall|j: int| 0 <= j < one.len() - 1 implies #[trigger] one[j] != NEWLINE by {
        assert(one[j] == bytes[j]);
    }
}

} // verus!
