//! The interactive session's line buffering.
//!
//! The session reads one line at a time and folds it, followed by a single
//! separating space, into a pending buffer. As soon as the buffer, once its
//! trailing whitespace is ignored, ends with `;`, the whole buffer is handed
//! out for dispatch and cleared. An interrupt or the end of input closes the
//! session; whatever incomplete statement the buffer held is silently
//! discarded, never executed. Reading lines, echoing a prompt, appending to
//! the history and running the dispatched text all happen outside this
//! module; it only decides, for each event, what the session does next.

use vstd::prelude::*;
use crate::split::is_space;
use crate::split::is_space_char;
use crate::split::lemma_trim_end_is;
use crate::split::trim_end;

verus! {

/// One event of the interactive session.
pub enum ReplEvent {
    /// A line of input was read.
    Line(String),
    /// The interrupt key was pressed.
    Interrupted,
    /// The input reached its end.
    EndOfInput,
}

/// What the session does in reaction to one event.
pub enum ReplAction {
    /// The buffer formed a complete statement batch: run this text, the
    /// buffer has been cleared.
    Dispatch(String),
    /// The buffer is not yet a complete statement: keep reading.
    KeepReading,
    /// Persist the history and stop the loop.
    Close,
}

/// A pending buffer is complete when it ends with `;`, ignoring trailing
/// whitespace.
pub open spec fn buffer_complete(b: Seq<char>) -> bool {
    trim_end(b).len() > 0 && trim_end(b).last() == ';'
}

/// The pending buffer after one more input line: the line, then a single
/// separating space.
pub open spec fn buffer_after_line(b: Seq<char>, line: Seq<char>) -> Seq<char> {
    b + line + seq![' ']
}

/// The mutable state of one interactive session: the pending input buffer.
pub struct ReplState {
    buffer: String,
}

impl ReplState {
    /// The pending buffer's characters.
    pub closed spec fn buffer_view(self) -> Seq<char> {
        self.buffer@
    }

    /// A fresh session: nothing buffered.
    pub fn new() -> (s: ReplState)
        ensures
            s.buffer_view() == Seq::<char>::empty(),
    {
        let s = ReplState { buffer: String::new() };
        proof {
            assert(s.buffer_view() =~= Seq::<char>::empty());
        }
        s
    }

    /// Whether the pending buffer is a complete statement batch.
    fn buffer_is_complete(&self) -> (r: bool)
        ensures
            r == buffer_complete(self.buffer_view()),
    {
        let b = self.buffer.as_str();
        let n = b.unicode_len();
        let mut e: usize = n;
        while e > 0 && is_space_char(b.get_char(e - 1))
            invariant
                n == b@.len(),
                e <= n,
                forall|k: int| e <= k < n ==> is_space(b@[k]),
            decreases e,
        {
            e -= 1;
        }
        proof {
            lemma_trim_end_is(b@, e as int);
        }
        if e == 0 {
            false
        } else {
            b.get_char(e - 1) == ';'
        }
    }

    /// Reacts to one session event.
    ///
    /// A read line is folded into the buffer with a separating space; if the
    /// buffer then ends with `;` (trailing whitespace ignored), the whole
    /// buffer is handed out for dispatch and cleared. An interrupt or the
    /// end of input closes the session and discards the buffer unexecuted.
    pub fn on_event(&mut self, event: ReplEvent) -> (a: ReplAction)
        ensures
            (match event {
                ReplEvent::Line(line) => {
                    let nb = buffer_after_line(old(self).buffer_view(), line@);
                    if buffer_complete(nb) {
                        &&& (a matches ReplAction::Dispatch(t) && t@ == nb)
                        &&& final(self).buffer_view() == Seq::<char>::empty()
                    } else {
                        &&& a is KeepReading
                        &&& final(self).buffer_view() == nb
                    }
                },
                ReplEvent::Interrupted => a is Close && final(self).buffer_view() == Seq::<
                    char,
                >::empty(),
                ReplEvent::EndOfInput => a is Close && final(self).buffer_view() == Seq::<
                    char,
                >::empty(),
            }),
    {
        match event {
            ReplEvent::Line(line) => {
                self.buffer.append(line.as_str());
                self.buffer.append(" ");
                proof {
                    reveal_strlit(" ");
                    assert(self.buffer@ =~= buffer_after_line(old(self).buffer_view(), line@));
                }
                if self.buffer_is_complete() {
                    let text = self.buffer.clone();
                    self.buffer = String::new();
                    proof {
                        assert(final(self).buffer_view() =~= Seq::<char>::empty());
                    }
                    ReplAction::Dispatch(text)
                } else {
                    ReplAction::KeepReading
                }
            },
            ReplEvent::Interrupted => {
                self.buffer = String::new();
                proof {
                    assert(final(self).buffer_view() =~= Seq::<char>::empty());
                }
                ReplAction::Close
            },
            ReplEvent::EndOfInput => {
                self.buffer = String::new();
                proof {
                    assert(final(self).buffer_view() =~= Seq::<char>::empty());
                }
                ReplAction::Close
            },
        }
    }
}

} // verus!
