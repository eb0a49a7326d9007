//! The consume pipeline's core: sequential-error accounting for the
//! poll / dispatch / commit loop, and the rendering of a consumed batch
//! into output bytes.
//!
//! The loop itself lives in the unverified front end, because polling,
//! writing to the output stream, committing offsets and sleeping between
//! retries are all blocking calls into collaborators. The front end reports
//! each outcome here as an event and obeys the action handed back.

use vstd::prelude::*;

use crate::lines::DELIMITER;

verus! {

/// Saturating bump of the sequential-error counter.
pub open spec fn bumped(c: usize) -> usize {
    if c < usize::MAX {
        (c + 1) as usize
    } else {
        c
    }
}

/// Sequential-error accounting for one consume-pipeline invocation.
///
/// `sequential_errors` counts consecutive transient failures; it is reset by
/// any fully successful round. `max_errors` is the configured budget, with
/// zero meaning "never stop on error count".
pub struct ConsumeState {
    pub max_errors: usize,
    pub sequential_errors: usize,
}

/// What one iteration of the consume loop observed from its collaborators.
pub enum ConsumeEvent {
    /// The poll call failed.
    PollFailed,
    /// The poll call returned no messages.
    EmptyBatch,
    /// Writing a payload to the output stream failed.
    WriteFailed,
    /// Marking a partition's messages as locally consumed failed.
    MarkFailed,
    /// Committing the locally consumed offsets failed.
    CommitFailed,
    /// Committing the locally consumed offsets succeeded.
    CommitSucceeded,
}

/// What the consume loop must do next after an event is accounted for.
pub enum ConsumeAction {
    /// Sleep the long backoff, then start the next iteration with a poll.
    BackoffLong,
    /// Sleep the short backoff, then start the next iteration with a poll.
    BackoffShort,
    /// Fatal: signal shutdown at once. Dispatched but uncommitted messages
    /// are deliberately left uncommitted, for at-least-once redelivery.
    Shutdown,
    /// Keep going with the current iteration or the next poll.
    Proceed,
}

impl ConsumeState {
    /// A fresh invocation: no errors seen yet.
    pub fn new(max_errors: usize) -> (s: Self)
        ensures
            s.max_errors == max_errors,
            s.sequential_errors == 0,
    {
        ConsumeState { max_errors, sequential_errors: 0 }
    }

    /// The threshold check at the top of every iteration, before polling:
    /// the pipeline stops exactly when the counter has reached the budget
    /// (equal or greater both stop, so no path can overshoot), and a budget
    /// of zero never stops the pipeline on its error count.
    pub fn should_stop(&self) -> (r: bool)
        ensures
            r == (self.max_errors > 0 && self.sequential_errors >= self.max_errors),
    {
        self.max_errors > 0 && self.sequential_errors >= self.max_errors
    }

    /// Advance the error accounting by one observed event and say what the
    /// loop does next.
    ///
    /// A poll failure is counted and retried after the long backoff. An empty
    /// batch is no error: it resets the counter, whatever it was, and repolls
    /// after the short backoff. A failed output write is fatal and not
    /// counted: the process is terminating. Failures to mark or commit
    /// offsets are counted; a successful commit ends a fully successful
    /// round and resets the counter.
    pub fn on_event(&mut self, event: ConsumeEvent) -> (action: ConsumeAction)
        ensures
            final(self).max_errors == old(self).max_errors,
            match event {
                ConsumeEvent::PollFailed => final(self).sequential_errors == bumped(
                    old(self).sequential_errors,
                ) && action is BackoffLong,
                ConsumeEvent::EmptyBatch => final(self).sequential_errors == 0
                    && action is BackoffShort,
                ConsumeEvent::WriteFailed => final(self).sequential_errors == old(
                    self,
                ).sequential_errors && action is Shutdown,
                ConsumeEvent::MarkFailed => final(self).sequential_errors == bumped(
                    old(self).sequential_errors,
                ) && action is Proceed,
                ConsumeEvent::CommitFailed => final(self).sequential_errors == bumped(
                    old(self).sequential_errors,
                ) && action is Proceed,
                ConsumeEvent::CommitSucceeded => final(self).sequential_errors == 0
                    && action is Proceed,
            },
    {
        match event {
            ConsumeEvent::PollFailed => {
                self.bump();
                ConsumeAction::BackoffLong
            },
            ConsumeEvent::EmptyBatch => {
                self.sequential_errors = 0;
                ConsumeAction::BackoffShort
            },
            ConsumeEvent::WriteFailed => ConsumeAction::Shutdown,
            ConsumeEvent::MarkFailed => {
                self.bump();
                ConsumeAction::Proceed
            },
            ConsumeEvent::CommitFailed => {
                self.bump();
                ConsumeAction::Proceed
            },
            ConsumeEvent::CommitSucceeded => {
                self.sequential_errors = 0;
                ConsumeAction::Proceed
            },
        }
    }

    /// Count one more consecutive error, saturating at the counter's limit.
    fn bump(&mut self)
        ensures
            final(self).max_errors == old(self).max_errors,
            final(self).sequential_errors == bumped(old(self).sequential_errors),
    {
        if self.sequential_errors < usize::MAX {
            self.sequential_errors = self.sequential_errors + 1;
        }
    }
}

/// The bytes a consumed batch prints: each payload followed by exactly one
/// delimiter, in the order the consumer yielded the messages.
pub open spec fn rendered(batch: Seq<Seq<u8>>) -> Seq<u8>
    decreases batch.len(),
{
    if batch.len() == 0 {
        Seq::empty()
    } else {
        rendered(batch.drop_last()) + batch.last() + seq![DELIMITER]
    }
}

/// Each message's payload stands in the output right after the rendering of
/// the messages before it, followed by exactly one delimiter: dispatch
/// order is the order the consumer yielded.
pub proof fn lemma_rendered_step(batch: Seq<Seq<u8>>, k: int)
    requires
        0 <= k < batch.len(),
    ensures
        rendered(batch.take(k + 1)) == rendered(batch.take(k)) + batch[k] + seq![DELIMITER],
{
    assert(batch.take(k + 1).drop_last() =~= batch.take(k));
    assert(batch.take(k + 1).last() == batch[k]);
}

/// Render a consumed batch for the output stream: every message's payload is
/// written followed by exactly one newline byte, in the order the external
/// consumer yielded the messages within the poll.
pub fn render_batch(payloads: &Vec<Vec<u8>>) -> (out: Vec<u8>)
    ensures
        out@ == rendered(payloads.deep_view()),
{
    let ghost batch = payloads.deep_view();
    let mut out: Vec<u8> = Vec::new();
    let mut k: usize = 0;
    while k < payloads.len()
        invariant
            k <= payloads.len(),
            batch == payloads.deep_view(),
            out@ == rendered(batch.take(k as int)),
        decreases payloads.len() - k,
    {
        let msg = &payloads[k];
        let mut j: usize = 0;
        while j < msg.len()
            invariant
                j <= msg.len(),
                k < payloads.len(),
                batch == payloads.deep_view(),
                msg@ == batch[k as int],
                out@ == rendered(batch.take(k as int)) + msg@.subrange(0, j as int),
            decreases msg.len() - j,
        {
            out.push(msg[j]);
            proof {
                assert(msg@.subrange(0, j + 1) =~= msg@.subrange(0, j as int).push(msg@[j as int]));
            }
            j += 1;
        }
        out.push(DELIMITER);
        proof {
            let upto = batch.take(k + 1);
            assert(upto.drop_last() =~= batch.take(k as int));
            assert(msg@ =~= msg@.subrange(0, msg@.len() as int));
            assert(out@ =~= rendered(upto));
        }
        k += 1;
    }
    proof {
        assert(batch.take(payloads@.len() as int) =~= batch);
    }
    out
}

} // verus!
