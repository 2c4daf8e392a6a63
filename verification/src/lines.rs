//! Lines: what successive line reads hand out.
//!
//! A line read takes the bytes up to and including the next newline, or all
//! that is left when no newline follows. Reads therefore begin at the first
//! byte and after every newline, and the lines of an input are counted by the
//! offsets at which a read begins.

use vstd::prelude::*;

verus! {

/// The byte that ends a line.
pub const NEWLINE: u8 = 0x0A;

/// True when a line read begins at offset `i` of `bytes`.
pub open spec fn starts_line(bytes: Seq<u8>, i: int) -> bool {
    &&& 0 <= i < bytes.len()
    &&& (i == 0 || bytes[i - 1] == NEWLINE)
}

/// The number of line reads that it takes to exhaust `bytes`.
pub open spec fn line_count(bytes: Seq<u8>) -> nat
    decreases bytes.len(),
{
    if bytes.len() == 0 {
        0
    } else {
        line_count(bytes.drop_last()) + if starts_line(bytes, bytes.len() - 1) {
            1nat
        } else {
            0nat
        }
    }
}

/// True when `bytes` ends in the middle of a line: it is not empty and its
/// last byte is no newline.
pub open spec fn ends_in_line(bytes: Seq<u8>) -> bool {
    bytes.len() > 0 && bytes.last() != NEWLINE
}

/// True when `bytes` is what one line read can hand out: not empty, with no
/// newline before its last byte.
pub open spec fn is_line(bytes: Seq<u8>) -> bool {
    &&& bytes.len() > 0
    &&& forall|j: int| 0 <= j < bytes.len() - 1 ==> #[trigger] bytes[j] != NEWLINE
}

/// The length of what the first line read hands out.
pub open spec fn first_line_len(bytes: Seq<u8>) -> nat
    decreases bytes.len(),
{
    if bytes.len() == 0 {
        0
    } else if bytes[0] == NEWLINE {
        1
    } else {
        1 + first_line_len(bytes.drop_first())
    }
}

/// What successive line reads hand out, in order.
pub open spec fn lines(bytes: Seq<u8>) -> Seq<Seq<u8>>
    decreases bytes.len(),
    via lines_terminates
{
    if bytes.len() == 0 {
        Seq::empty()
    } else {
        let n = first_line_len(bytes) as int;
        seq![bytes.take(n)] + lines(bytes.skip(n))
    }
}

#[via_fn]
proof fn lines_terminates(bytes: Seq<u8>) {
    if bytes.len() > 0 {
        lemma_first_line(bytes);
    }
}

/// The first line read takes at least one byte, stops at the first newline,
/// and reaches the end only when no newline comes before it.
pub proof fn lemma_first_line(bytes: Seq<u8>)
    requires
        bytes.len() > 0,
    ensures
        1 <= first_line_len(bytes) <= bytes.len(),
        is_line(bytes.take(first_line_len(bytes) as int)),
        first_line_len(bytes) < bytes.len() ==> bytes[first_line_len(bytes) - 1] == NEWLINE,
    decreases bytes.len(),
{
    let n = first_line_len(bytes) as int;
    let rest = bytes.drop_first();
    if bytes[0] == NEWLINE {
    } else if rest.len() == 0 {
        assert(first_line_len(rest) == 0);
    } else {
        lemma_first_line(rest);
        let m = first_line_len(rest) as int;
        assert forall|j: int| 0 <= j < n - 1 implies #[trigger] bytes.take(n)[j] != NEWLINE by {
            if j > 0 {
                assert(bytes.take(n)[j] == rest.take(m)[j - 1]);
            }
        }
        if n < bytes.len() {
            assert(bytes[n - 1] == rest[m - 1]);
        }
    }
}

/// Appending one byte begins a new line exactly when the bytes before it are
/// empty or end with a newline.
pub proof fn lemma_line_count_push(bytes: Seq<u8>, b: u8)
    ensures
        line_count(bytes.push(b)) == line_count(bytes) + if ends_in_line(bytes) {
            0nat
        } else {
            1nat
        },
{
    assert(bytes.push(b).drop_last() =~= bytes);
}

/// An input has no more lines than bytes.
pub proof fn lemma_line_count_bound(bytes: Seq<u8>)
    ensures
        line_count(bytes) <= bytes.len(),
    decreases bytes.len(),
{
    if bytes.len() > 0 {
        lemma_line_count_bound(bytes.drop_last());
    }
}

/// What one line read hands out counts as one line.
pub proof fn lemma_line_count_one(line: Seq<u8>)
    requires
        is_line(line),
    ensures
        line_count(line) == 1,
    decreases line.len(),
{
    let front = line.drop_last();
    if front.len() == 0 {
        assert(line_count(front) == 0);
    } else {
        assert forall|j: int| 0 <= j < front.len() - 1 implies #[trigger] front[j] != NEWLINE by {
            assert(front[j] == line[j]);
        }
        lemma_line_count_one(front);
        assert(line[line.len() - 2] != NEWLINE);
    }
}

/// The lines of two inputs put together are the lines of each, less one where
/// the first input stops in the middle of a line that the second goes on with.
pub proof fn lemma_line_count_concat(left: Seq<u8>, right: Seq<u8>)
    ensures
        line_count(left + right) + (if ends_in_line(left) && right.len() > 0 {
            1nat
        } else {
            0nat
        }) == line_count(left) + line_count(right),
    decreases right.len(),
{
    if right.len() == 0 {
        assert(left + right =~= left);
    } else {
        let front = right.drop_last();
        let b = right.last();
        assert(left + right =~= (left + front).push(b));
        assert(right =~= front.push(b));
        lemma_line_count_push(left + front, b);
        lemma_line_count_push(front, b);
        lemma_line_count_concat(left, front);
        if front.len() == 0 {
            assert(left + front =~= left);
        } else {
            assert((left + front).last() == front.last());
        }
    }
}

/// The count of lines is the number of line reads.
pub proof fn lemma_line_count_is_reads(bytes: Seq<u8>)
    ensures
        lines(bytes).len() == line_count(bytes),
    decreases bytes.len(),
{
    if bytes.len() > 0 {
        lemma_first_line(bytes);
        let n = first_line_len(bytes) as int;
        let head = bytes.take(n);
        let tail = bytes.skip(n);
        lemma_line_count_is_reads(tail);
        lemma_line_count_one(head);
        lemma_line_count_concat(head, tail);
        assert(head + tail =~= bytes);
        assert(head.last() == bytes[n - 1]);
    }
}

/// Every line read hands out a line; all but the last end with a newline;
/// put together in order, the lines are the input.
pub proof fn lemma_lines_cover(bytes: Seq<u8>)
    ensures
        forall|k: int| 0 <= k < lines(bytes).len() ==> is_line(#[trigger] lines(bytes)[k]),
        forall|k: int|
            0 <= k < lines(bytes).len() - 1 ==> (#[trigger] lines(bytes)[k]).last() == NEWLINE,
        lines(bytes).flatten() == bytes,
    decreases bytes.len(),
{
    if bytes.len() == 0 {
        assert(lines(bytes).flatten() =~= bytes);
    } else {
        lemma_first_line(bytes);
        let n = first_line_len(bytes) as int;
        let head = bytes.take(n);
        let tail = bytes.skip(n);
        let all = lines(bytes);
        lemma_lines_cover(tail);
        assert(all.first() == head);
        assert(all.drop_first() =~= lines(tail));
        assert(all.flatten() =~= head + lines(tail).flatten());
        assert(head + tail =~= bytes);
        assert forall|k: int| 0 <= k < all.len() implies is_line(#[trigger] all[k]) by {
            if k > 0 {
                assert(all[k] == lines(tail)[k - 1]);
            }
        }
        assert forall|k: int| 0 <= k < all.len() - 1 implies (#[trigger] all[k]).last()
            == NEWLINE by {
            if k > 0 {
                assert(all[k] == lines(tail)[k - 1]);
            } else {
                assert(lines(tail).len() > 0);
                assert(tail.len() > 0);
                assert(head.last() == bytes[n - 1]);
            }
        }
    }
}

} // verus!
