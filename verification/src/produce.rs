//! The produce pipeline's core: where a fill pass stops reading, and what a
//! drained buffer becomes before it is handed to the broker producer as one
//! batch.
//!
//! Reading from the input stream and publishing the batch are blocking calls
//! into collaborators, so the loop lives in the unverified front end; it
//! drains the buffer it filled into `plan_publish` and obeys the plan.

use vstd::prelude::*;

use crate::lines::{line_end, lemma_line_end_bounds, lemma_line_end_is, lemma_records_append,
    lines_of, non_empty, records_of, split_records, DELIMITER};

verus! {

/// Hard capacity of the input line buffer.
pub const BUF_LENGTH: usize = 8192 * 10;

/// A fill pass stops once this many bytes have accumulated, leaving slack
/// below the hard capacity for a line that straddles the threshold.
pub const REASONABLE_AMOUNT_OF_BYTES: usize = BUF_LENGTH - 8192;

/// What one produce iteration does with the buffer its fill pass gathered.
pub enum PublishPlan {
    /// The buffer is empty: nothing was read this round, nothing to publish.
    /// This is the normal end at a true end of input.
    Idle,
    /// The buffer holds bytes but not one usable line. That signals a
    /// delimiter mismatch, not a transient error: the pipeline terminates.
    Anomaly,
    /// One record per non-empty line, in buffer order, to publish to the
    /// configured topic as a single batch call.
    Publish(Vec<Vec<u8>>),
}

/// Decide what to do with a drained buffer: nothing for an empty buffer, a
/// fatal anomaly for bytes without a single usable line, otherwise the batch
/// of records, one per non-empty line, in order.
pub fn plan_publish(buf: &Vec<u8>) -> (plan: PublishPlan)
    ensures
        match plan {
            PublishPlan::Idle => buf@.len() == 0,
            PublishPlan::Anomaly => buf@.len() > 0 && records_of(buf@).len() == 0,
            PublishPlan::Publish(recs) => recs.deep_view() == records_of(buf@) && records_of(
                buf@,
            ).len() > 0,
        },
{
    if buf.len() == 0 {
        return PublishPlan::Idle;
    }
    let recs = split_records(buf);
    if recs.len() == 0 {
        PublishPlan::Anomaly
    } else {
        PublishPlan::Publish(recs)
    }
}

/// Whether the fill pass keeps reading: it does until the accumulated byte
/// count reaches the threshold. End of input stops it too, which the reader
/// observes as a zero-byte read.
pub fn fill_wants_more(got: usize, threshold: usize) -> (r: bool)
    ensures
        r == (got < threshold),
{
    got < threshold
}

/// Where a fill pass over `s` stops when it starts at `pos` with `got` bytes
/// already accumulated: delimiter-terminated reads are consumed until the
/// byte count reaches `threshold` or the input is exhausted.
pub open spec fn fill_end(s: Seq<u8>, pos: int, got: int, threshold: int) -> int
    decreases s.len() - pos when 0 <= pos
{
    if got >= threshold || pos >= s.len() {
        pos
    } else {
        let e = line_end(s, pos);
        let next = if pos < e + 1 && e + 1 <= s.len() {
            e + 1
        } else {
            s.len() as int
        };
        fill_end(s, next, got + (next - pos), threshold)
    }
}

/// Where a fill pass stops lies inside the input; it lies strictly beyond
/// where the pass started whenever there was anything left to read; and
/// unless the input is exhausted it lies just past a delimiter: a pass
/// consumes whole lines only.
pub proof fn lemma_fill_end_props(s: Seq<u8>, pos: int, got: int, threshold: int)
    requires
        0 <= pos <= s.len(),
    ensures
        pos <= fill_end(s, pos, got, threshold) <= s.len(),
        got < threshold && pos < s.len() ==> fill_end(s, pos, got, threshold) > pos,
        pos < fill_end(s, pos, got, threshold) < s.len() ==> s[fill_end(s, pos, got, threshold)
            - 1] == DELIMITER,
    decreases s.len() - pos,
{
    if got >= threshold || pos >= s.len() {
    } else {
        let e = line_end(s, pos);
        lemma_line_end_bounds(s, pos);
        let next = if pos < e + 1 && e + 1 <= s.len() {
            e + 1
        } else {
            s.len() as int
        };
        lemma_fill_end_props(s, next, got + (next - pos), threshold);
        let end = fill_end(s, pos, got, threshold);
        if end == next && next < s.len() {
            // The read stopped on a delimiter, which `next` is just past.
            assert(s[next - 1] == DELIMITER);
        }
    }
}

/// No record is lost, invented or reordered across fill passes: what one
/// pass consumes and what it leaves behind together hold exactly the records
/// of the remaining input, in order.
pub proof fn lemma_fill_preserves_records(s: Seq<u8>, start: int, threshold: int)
    requires
        0 <= start <= s.len(),
        threshold >= 1,
    ensures
        ({
            let end = fill_end(s, start, 0, threshold);
            &&& start <= end <= s.len()
            &&& records_of(s.subrange(start, s.len() as int)) == records_of(
                s.subrange(start, end),
            ) + records_of(s.subrange(end, s.len() as int))
        }),
{
    let end = fill_end(s, start, 0, threshold);
    lemma_fill_end_props(s, start, 0, threshold);
    let a = s.subrange(start, end);
    let b = s.subrange(end, s.len() as int);
    if end == s.len() {
        assert(b =~= Seq::<u8>::empty());
        assert(lines_of(b) =~= Seq::<Seq<u8>>::empty());
        assert(non_empty(lines_of(b)) =~= Seq::<Seq<u8>>::empty());
        assert(a =~= s.subrange(start, s.len() as int));
        assert(records_of(s.subrange(start, s.len() as int)) =~= records_of(a) + records_of(b));
    } else {
        // Something was left to read, so the pass consumed at least one
        // line and stopped just past a delimiter.
        assert(end > start);
        assert(a.len() > 0 && a[a.len() - 1] == DELIMITER);
        lemma_records_append(a, b);
        assert(a + b =~= s.subrange(start, s.len() as int));
    }
}

/// What one fill pass over an in-memory input leaves behind.
pub struct FillOutcome {
    /// The first input position the pass did not consume.
    pub end: usize,
    /// Whether the pass observed end of input: a read returned zero bytes.
    pub eof: bool,
}

/// One fill pass over an in-memory input: consume delimiter-terminated reads
/// from `start` until `threshold` bytes accumulate or the input ends. The
/// consumed chunk is `input[start..end]`; unless the input is exhausted it
/// ends on a delimiter, so no partial trailing line is ever handed on to be
/// split and published.
pub fn fill_span(input: &Vec<u8>, start: usize, threshold: usize) -> (r: FillOutcome)
    requires
        start <= input@.len(),
        threshold >= 1,
    ensures
        start <= r.end <= input@.len(),
        r.end == fill_end(input@, start as int, 0, threshold as int),
        r.eof == (r.end == input@.len() && r.end - start < threshold),
        r.end < input@.len() ==> start < r.end && input@[r.end - 1] == DELIMITER,
{
    let ghost s = input@;
    let mut pos: usize = start;
    let mut got: usize = 0;
    loop
        invariant_except_break
            start <= pos <= input@.len(),
            s == input@,
            threshold >= 1,
            got == pos - start,
            fill_end(s, start as int, 0, threshold as int) == fill_end(
                s,
                pos as int,
                got as int,
                threshold as int,
            ),
            start < pos && pos < s.len() ==> s[pos - 1] == DELIMITER,
        ensures
            start <= pos <= s.len(),
            s == input@,
            pos == fill_end(s, start as int, 0, threshold as int),
            got == pos - start,
            pos < s.len() ==> start < pos && s[pos - 1] == DELIMITER,
            (pos == s.len() && got < threshold) == (pos == s.len() && pos - start < threshold),
        decreases s.len() - pos + 1 + if got < threshold { 1int } else { 0int },
    {
        if got >= threshold {
            break;
        }
        if pos == input.len() {
            return FillOutcome { end: pos, eof: true };
        }
        // One delimiter-terminated read: scan to the next delimiter.
        let mut e: usize = pos;
        while e < input.len() && input[e] != DELIMITER
            invariant
                pos <= e <= input@.len(),
                s == input@,
                forall|j: int| pos <= j < e ==> s[j] != DELIMITER,
            decreases input@.len() - e,
        {
            e += 1;
        }
        proof {
            lemma_line_end_is(s, pos as int, e as int);
        }
        let next = if e < input.len() {
            e + 1
        } else {
            input.len()
        };
        proof {
            lemma_line_end_bounds(s, pos as int);
            assert(fill_end(s, pos as int, got as int, threshold as int) == fill_end(
                s,
                next as int,
                got + (next - pos),
                threshold as int,
            ));
        }
        got = got + (next - pos);
        pos = next;
    }
    FillOutcome { end: pos, eof: pos == input.len() && got < threshold }
}

} // verus!
