//! The anchor processor: one record per accepted invocation.

use vstd::prelude::*;

use crate::record::{anchor_record, record_line};

verus! {

/// Why an invocation did not anchor its payload.
#[derive(Debug, Clone, Copy, PartialEq, Eq, Structural)]
pub enum AnchorError {
    /// The host refused the invocation (malformed framing, size limits)
    /// before the processor's logic ran.
    InvocationRejected,
}

/// The input of one anchoring operation: an opaque fingerprint, already
/// hashed by the caller. It is neither decoded nor checked.
pub struct AnchorRequest {
    pub payload: Vec<u8>,
}

/// What the host hands to the processor for one invocation.
pub enum Invocation {
    /// The host framed the call and delivers its request.
    Delivered(AnchorRequest),
    /// The host refused the call before the processor could run.
    Rejected,
}

/// An append-only log of record texts, in the order they were emitted.
/// Records are only ever added at the end, one per successful anchor call.
pub struct AnchorLog {
    records: Vec<String>,
}

impl View for AnchorLog {
    type V = Seq<Seq<char>>;

    closed spec fn view(&self) -> Seq<Seq<char>> {
        self.records@.map_values(|s: String| s@)
    }
}

impl AnchorLog {
    /// An empty log.
    pub fn new() -> (r: Self)
        ensures
            r@ == Seq::<Seq<char>>::empty(),
    {
        let r = AnchorLog { records: Vec::new() };
        assert(r@ =~= Seq::<Seq<char>>::empty());
        r
    }

    /// The number of records emitted so far.
    pub fn len(&self) -> (n: usize)
        ensures
            n == self@.len(),
    {
        self.records.len()
    }

    /// Whether no record has been emitted yet.
    pub fn is_empty(&self) -> (b: bool)
        ensures
            b == (self@.len() == 0),
    {
        self.records.len() == 0
    }

    /// The text of the `i`-th record, counting from the oldest.
    pub fn record(&self, i: usize) -> (r: &String)
        requires
            i < self@.len(),
        ensures
            r@ == self@[i as int],
    {
        &self.records[i]
    }

    /// Adds `line` as the newest record.
    fn append(&mut self, line: String)
        ensures
            final(self)@ == old(self)@.push(line@),
    {
        self.records.push(line);
        assert(self@ =~= old(self)@.push(line@));
    }
}

/// Anchors `request.payload`: appends exactly one record, the deterministic
/// rendering of the payload, to `log`, and succeeds. Every payload is
/// accepted, the empty one included; nothing else changes.
pub fn anchor(request: &AnchorRequest, log: &mut AnchorLog) -> (r: Result<(), AnchorError>)
    ensures
        r is Ok,
        final(log)@ == old(log)@.push(anchor_record(request.payload@)),
{
    let line = record_line(request.payload.as_slice());
    log.append(line);
    Ok(())
}

/// Handles one invocation as the host hands it over: a delivered request is
/// anchored; a call the host refused fails with `InvocationRejected` and
/// leaves the log as it was.
pub fn process_invocation(invocation: &Invocation, log: &mut AnchorLog) -> (r: Result<(), AnchorError>)
    ensures
        match invocation {
            Invocation::Delivered(request) => r is Ok && final(log)@ == old(log)@.push(
                anchor_record(request.payload@),
            ),
            Invocation::Rejected => r == Err::<(), AnchorError>(AnchorError::InvocationRejected)
                && final(log)@ == old(log)@,
        },
{
    match invocation {
        Invocation::Delivered(request) => anchor(request, log),
        Invocation::Rejected => Err(AnchorError::InvocationRejected),
    }
}

} // verus!
