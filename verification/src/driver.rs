//! Driving one batch of statements through the engine, strictly in order.
//!
//! The driver owns the order and the stop condition; the engine call itself
//! happens outside the library. The caller repeatedly asks for the next
//! statement to submit, submits it, and records whether it succeeded (its
//! output fully rendered) or failed. A failure abandons the remainder of the
//! batch: no later statement is ever handed out again. The caller reports
//! the engine's message itself; in an interactive session the failure ends
//! only the batch, never the session.

use vstd::prelude::*;
use crate::split::split_statements;
use crate::split::statements_of;

verus! {

/// The driver for one statement batch.
pub struct ExecutionDriver {
    statements: Vec<String>,
    next: usize,
    failed: bool,
}

impl ExecutionDriver {
    /// The position already handed out never runs past the batch.
    pub closed spec fn wf(self) -> bool {
        self.next <= self.statements@.len()
    }

    /// The whole batch, in submission order.
    pub closed spec fn batch(self) -> Seq<Seq<char>> {
        self.statements.deep_view()
    }

    /// The statements submitted so far, in order: a prefix of the batch.
    pub closed spec fn submitted(self) -> Seq<Seq<char>> {
        self.statements.deep_view().take(self.next as int)
    }

    /// Whether a failure has abandoned the rest of the batch.
    pub closed spec fn aborted(self) -> bool {
        self.failed
    }

    /// Whether a statement is still owed to the engine.
    pub open spec fn pending(self) -> bool {
        !self.aborted() && self.submitted().len() < self.batch().len()
    }

    /// A fresh driver for a batch: nothing submitted, nothing aborted.
    pub fn new(statements: Vec<String>) -> (d: ExecutionDriver)
        ensures
            d.wf(),
            d.batch() == statements.deep_view(),
            d.submitted() == Seq::<Seq<char>>::empty(),
            !d.aborted(),
    {
        let d = ExecutionDriver { statements, next: 0, failed: false };
        proof {
            assert(d.submitted() =~= Seq::<Seq<char>>::empty());
        }
        d
    }

    /// A fresh driver for raw statement text: the batch is exactly what the
    /// splitter makes of the text.
    pub fn for_text(text: &str) -> (d: ExecutionDriver)
        ensures
            d.wf(),
            d.batch() == statements_of(text@),
            d.submitted() == Seq::<Seq<char>>::empty(),
            !d.aborted(),
    {
        ExecutionDriver::new(split_statements(text))
    }

    /// The statement to submit next, in batch order; nothing once the batch
    /// is exhausted or aborted.
    pub fn next_statement(&self) -> (r: Option<&String>)
        requires
            self.wf(),
        ensures
            r is Some <==> self.pending(),
            r matches Some(s) ==> s@ == self.batch()[self.submitted().len() as int],
    {
        if self.failed || self.next >= self.statements.len() {
            None
        } else {
            Some(&self.statements[self.next])
        }
    }

    /// Records that the pending statement completed and its output was fully
    /// rendered; the driver moves on to the following statement.
    pub fn record_success(&mut self)
        requires
            old(self).wf(),
            old(self).pending(),
        ensures
            final(self).wf(),
            final(self).batch() == old(self).batch(),
            !final(self).aborted(),
            final(self).submitted() == old(self).submitted().push(
                old(self).batch()[old(self).submitted().len() as int],
            ),
    {
        let n = self.statements.len();
        proof {
            assert(old(self).submitted().len() == self.next as int);
            assert(self.next < n);
        }
        self.next += 1;
        proof {
            assert(final(self).submitted() =~= old(self).submitted().push(
                old(self).batch()[old(self).submitted().len() as int],
            ));
        }
    }

    /// Records that the pending statement failed: it counts as submitted,
    /// and the rest of the batch is abandoned for good.
    pub fn record_failure(&mut self)
        requires
            old(self).wf(),
            old(self).pending(),
        ensures
            final(self).wf(),
            final(self).batch() == old(self).batch(),
            final(self).aborted(),
            final(self).submitted() == old(self).submitted().push(
                old(self).batch()[old(self).submitted().len() as int],
            ),
    {
        let n = self.statements.len();
        proof {
            assert(old(self).submitted().len() == self.next as int);
            assert(self.next < n);
        }
        self.next += 1;
        self.failed = true;
        proof {
            assert(final(self).submitted() =~= old(self).submitted().push(
                old(self).batch()[old(self).submitted().len() as int],
            ));
        }
    }

    /// Whether the batch is over, by exhaustion or by failure.
    pub fn is_finished(&self) -> (r: bool)
        requires
            self.wf(),
        ensures
            r <==> !self.pending(),
    {
        self.failed || self.next >= self.statements.len()
    }

    /// Once a statement has failed, the batch is over: no further statement
    /// is ever pending, so none after the failed one is ever submitted.
    pub proof fn lemma_abort_is_final(self)
        requires
            self.aborted(),
        ensures
            !self.pending(),
    {
    }
}

} // verus!
