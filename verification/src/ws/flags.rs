//! The two per-connection flags: `closing`, set once a close is under
//! way, and `closed`, set when the reader has terminated. The reader's
//! shutdown delivers the final `Closed` event exactly once.

use vstd::prelude::*;

verus! {

/// The close-handshake flags of one connection.
#[derive(Debug, Copy, Clone, PartialEq, Eq, Structural)]
pub struct ConnFlags {
    /// A close has been initiated locally or a peer close was received.
    pub closing: bool,
    /// The reader has terminated; no more events will be produced.
    pub closed: bool,
}

/// The transition taken when a close is initiated: `closing` is set and
/// the caller learns whether it was first.
pub open spec fn spec_begin_close(f: ConnFlags) -> (ConnFlags, bool) {
    (ConnFlags { closing: true, closed: f.closed }, !f.closing)
}

/// The transition taken when the reader terminates: both flags are set
/// and `Closed` is emitted exactly when `closed` was not yet set.
pub open spec fn spec_reader_finished(f: ConnFlags) -> (ConnFlags, bool) {
    (ConnFlags { closing: true, closed: true }, !f.closed)
}

impl ConnFlags {
    /// A fresh connection: not closing, not closed.
    pub fn new() -> (r: Self)
        ensures
            !r.closing,
            !r.closed,
    {
        ConnFlags { closing: false, closed: false }
    }

    /// Initiates a close; true exactly for the first initiator, whose
    /// duty it is to enqueue the Close frame.
    pub fn begin_close(&mut self) -> (first: bool)
        ensures
            (*final(self), first) == spec_begin_close(*old(self)),
    {
        let first = !self.closing;
        self.closing = true;
        first
    }

    /// Records that the reader terminated; true exactly when the caller
    /// must emit the final `Closed` event.
    pub fn reader_finished(&mut self) -> (emit: bool)
        ensures
            (*final(self), emit) == spec_reader_finished(*old(self)),
    {
        let emit = !self.closed;
        self.closing = true;
        self.closed = true;
        emit
    }
}

/// The close handshake produces exactly one `Closed` event: on a
/// connection whose reader has not yet terminated, the reader's shutdown
/// emits it, and no later shutdown or close initiation ever emits it
/// again.
pub proof fn lemma_closed_emitted_once(f: ConnFlags)
    ensures
        !f.closed ==> spec_reader_finished(f).1,
        !spec_reader_finished(spec_reader_finished(f).0).1,
        !spec_reader_finished(spec_begin_close(spec_reader_finished(f).0).0).1,
{
}

} // verus!
