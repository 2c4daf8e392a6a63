//! Counting line by line comes to the same as counting the whole input.
//!
//! A reader that takes one line at a time, counts it, and adds what it found
//! to a running total ends with the counts of the whole input, and it meets an
//! ill-formed line exactly when the whole input is ill-formed.

use crate::counter::{summary, Summary};
use crate::laws::lemma_summary_by_lines;
use crate::lines::{first_line_len, is_line, lemma_first_line, lemma_line_count_one, lines};
use crate::lines::NEWLINE;
use crate::text::{lemma_text_concat, text_of};
use crate::words::word_count;
use vstd::prelude::*;
use vstd::utf8::*;

verus! {

/// The running total after one more line was read and counted.
pub open spec fn after_line(total: Summary, line: Seq<u8>) -> Summary {
    Summary {
        lines: total.lines + 1,
        words: total.words + word_count(text_of(line)),
        bytes: total.bytes + line.len(),
        chars: total.chars + text_of(line).len(),
    }
}

/// The total after the lines `read` were counted one after another.
pub open spec fn tally(read: Seq<Seq<u8>>) -> Summary
    decreases read.len(),
{
    if read.len() == 0 {
        Summary { lines: 0, words: 0, bytes: 0, chars: 0 }
    } else {
        after_line(tally(read.drop_first()), read.first())
    }
}

/// True when every one of the lines `read` is well-formed UTF-8.
pub open spec fn all_well_formed(read: Seq<Seq<u8>>) -> bool {
    forall|k: int| 0 <= k < read.len() ==> valid_utf8(#[trigger] read[k])
}

/// In a well-formed input a character begins after every byte that encodes a
/// character by itself.
pub proof fn lemma_boundary_after_single_byte(bytes: Seq<u8>, at: int)
    requires
        valid_utf8(bytes),
        0 <= at < bytes.len(),
        bytes[at] <= 0x7f,
    ensures
        is_char_boundary(bytes, at + 1),
    decreases bytes.len(),
{
    let w = length_of_first_scalar(bytes);
    let rest = pop_first_scalar(bytes);
    reveal_with_fuel(is_char_boundary, 2);
    if at >= w {
        assert(rest[at - w] == bytes[at]);
        lemma_boundary_after_single_byte(rest, at - w);
    }
}

/// The first line of a well-formed input is well-formed, and so is what
/// follows it.
pub proof fn lemma_first_line_well_formed(bytes: Seq<u8>)
    requires
        valid_utf8(bytes),
        bytes.len() > 0,
    ensures
        valid_utf8(bytes.take(first_line_len(bytes) as int)),
        valid_utf8(bytes.skip(first_line_len(bytes) as int)),
{
    let n = first_line_len(bytes) as int;
    lemma_first_line(bytes);
    if n < bytes.len() {
        lemma_boundary_after_single_byte(bytes, n - 1);
    } else {
        is_char_boundary_start_end_of_seq(bytes);
    }
    valid_utf8_split(bytes, n);
}

/// An input is well-formed exactly when every one of its lines is.
pub proof fn lemma_lines_well_formed(bytes: Seq<u8>)
    ensures
        valid_utf8(bytes) <==> all_well_formed(lines(bytes)),
    decreases bytes.len(),
{
    if bytes.len() > 0 {
        lemma_first_line(bytes);
        let n = first_line_len(bytes) as int;
        let head = bytes.take(n);
        let tail = bytes.skip(n);
        let read = lines(bytes);
        lemma_lines_well_formed(tail);
        assert(head + tail =~= bytes);
        assert(read.first() == head);
        assert(read.drop_first() =~= lines(tail));
        if valid_utf8(bytes) {
            lemma_first_line_well_formed(bytes);
            assert forall|k: int| 0 <= k < read.len() implies valid_utf8(#[trigger] read[k]) by {
                if k > 0 {
                    assert(read[k] == lines(tail)[k - 1]);
                }
            }
        }
        if all_well_formed(read) {
            assert(valid_utf8(read[0]));
            assert forall|k: int| 0 <= k < lines(tail).len() implies valid_utf8(
                #[trigger] lines(tail)[k],
            ) by {
                assert(lines(tail)[k] == read[k + 1]);
            }
            lemma_text_concat(head, tail);
        }
    }
}

/// The counts of a well-formed input are the total that counting its lines
/// one after another comes to.
pub proof fn lemma_summary_is_tally(bytes: Seq<u8>)
    requires
        valid_utf8(bytes),
    ensures
        summary(bytes) == tally(lines(bytes)),
    decreases bytes.len(),
{
    if bytes.len() == 0 {
        assert(text_of(bytes) =~= Seq::<char>::empty());
    } else {
        lemma_first_line(bytes);
        lemma_first_line_well_formed(bytes);
        let n = first_line_len(bytes) as int;
        let head = bytes.take(n);
        let tail = bytes.skip(n);
        let read = lines(bytes);
        assert(head + tail =~= bytes);
        assert(read.first() == head);
        assert(read.drop_first() =~= lines(tail));
        lemma_summary_is_tally(tail);
        lemma_line_count_one(head);
        if tail.len() == 0 {
            assert(head =~= bytes);
            assert(text_of(tail) =~= Seq::<char>::empty());
        } else {
            assert(head.last() == bytes[n - 1]);
            lemma_summary_by_lines(head, tail);
        }
    }
}

} // verus!
