//! Piped streams of a child, served one request at a time by a thread that owns
//! the pipe.
use vstd::prelude::*;

verus! {

/// What reading from the pipe gave.
#[derive(Debug, Clone, Copy, PartialEq, Eq, Structural)]
pub enum ReadOutcome {
    /// So many bytes.
    Bytes(usize),
    /// An error.
    Failed,
}

/// What a reader answers a request with.
#[derive(Debug, Clone, Copy, PartialEq, Eq, Structural)]
pub enum ReadReply {
    /// The next chunk, of so many bytes.
    Chunk(usize),
    /// The end of the stream.
    End,
    /// The error of the read.
    Error,
}

/// A demand-driven reader: it reads only while a request is pending, so a child
/// that outruns its consumer blocks on a full pipe.
#[derive(Debug, PartialEq, Eq)]
pub struct ReaderState {
    open: bool,
}

impl ReaderState {
    /// Whether the pipe is still open.
    pub closed spec fn spec_open(self) -> bool {
        self.open
    }

    /// A reader of an open pipe.
    pub fn new() -> (reader: ReaderState)
        ensures
            reader.spec_open(),
    {
        ReaderState { open: true }
    }

    /// Whether a request is answered by a read. Else it is answered with the end
    /// of the stream.
    pub fn reads(&self) -> (yes: bool)
        ensures
            yes == self.spec_open(),
    {
        self.open
    }

    /// The answer to a request once a read has returned. The end of the stream
    /// and an error close the pipe.
    pub fn after_read(&mut self, outcome: ReadOutcome) -> (reply: ReadReply)
        ensures
            reply == reply_to(outcome),
            final(self).spec_open() == (old(self).spec_open() && reply is Chunk),
    {
        match outcome {
            ReadOutcome::Bytes(n) => {
                if n == 0 {
                    self.open = false;
                    ReadReply::End
                } else {
                    ReadReply::Chunk(n)
                }
            },
            ReadOutcome::Failed => {
                self.open = false;
                ReadReply::Error
            },
        }
    }
}

/// What a read is answered with: no bytes mean the end of the stream.
pub open spec fn reply_to(outcome: ReadOutcome) -> ReadReply {
    match outcome {
        ReadOutcome::Bytes(n) => if n == 0 {
            ReadReply::End
        } else {
            ReadReply::Chunk(n)
        },
        ReadOutcome::Failed => ReadReply::Error,
    }
}

/// The replies of a reader to the first `n` requests, where the read for request
/// `i`, if there is one, gives `outcomes[i]`.
pub open spec fn replies(outcomes: Seq<ReadOutcome>, n: int) -> Seq<ReadReply>
    decreases n,
{
    if n <= 0 {
        seq![]
    } else {
        replies(outcomes, n - 1).push(
            if is_open_after(outcomes, n - 1) {
                reply_to(outcomes[n - 1])
            } else {
                ReadReply::End
            },
        )
    }
}

/// Whether the pipe is open after the first `n` requests.
pub open spec fn is_open_after(outcomes: Seq<ReadOutcome>, n: int) -> bool
    decreases n,
{
    n <= 0 || (is_open_after(outcomes, n - 1) && reply_to(outcomes[n - 1]) is Chunk)
}

/// The end of the stream is sticky: once a request was not answered with a chunk,
/// every later one is answered with the end of the stream.
pub proof fn law_end_of_stream_is_sticky(outcomes: Seq<ReadOutcome>, i: int, n: int)
    requires
        0 <= i < n - 1 < outcomes.len(),
        !(replies(outcomes, n)[i] is Chunk),
    ensures
        replies(outcomes, n).len() == n,
        replies(outcomes, n)[n - 1] == ReadReply::End,
{
    lemma_replies(outcomes, i, n);
    lemma_closed_stays(outcomes, i + 1, n - 1);
}

/// There is one reply for each request, and a reply stays the same when later
/// requests come.
proof fn lemma_replies(outcomes: Seq<ReadOutcome>, i: int, n: int)
    requires
        0 <= i < n <= outcomes.len(),
    ensures
        replies(outcomes, n).len() == n,
        replies(outcomes, n)[i] == (if is_open_after(outcomes, i) {
            reply_to(outcomes[i])
        } else {
            ReadReply::End
        }),
    decreases n,
{
    if n > 1 {
        lemma_replies(
            outcomes,
            if i == n - 1 {
                0
            } else {
                i
            },
            n - 1,
        );
    } else {
        assert(replies(outcomes, n - 1).len() == 0);
    }
}

/// A closed pipe stays closed.
proof fn lemma_closed_stays(outcomes: Seq<ReadOutcome>, i: int, n: int)
    requires
        0 <= i <= n,
        !is_open_after(outcomes, i),
    ensures
        !is_open_after(outcomes, n),
    decreases n,
{
    if n > i {
        lemma_closed_stays(outcomes, i, n - 1);
    }
}

/// What a writer is asked to do.
#[derive(Debug, Clone, Copy, PartialEq, Eq, Structural)]
pub enum WriteRequest {
    /// Write some bytes.
    Write,
    /// Close the pipe.
    End,
}

/// What a writer does about a request.
#[derive(Debug, Clone, Copy, PartialEq, Eq, Structural)]
pub enum WriteAction {
    /// Write the bytes to the pipe.
    WriteAll,
    /// Close the pipe, if it is open, and report success.
    Close,
    /// Refuse: the pipe was closed.
    RejectEnded,
}

/// An order-preserving writer: requests are handled in the order in which they
/// arrive, so what was queued before an end is written before the pipe is closed.
#[derive(Debug, PartialEq, Eq)]
pub struct WriterState {
    open: bool,
}

impl WriterState {
    /// Whether the pipe is still open.
    pub closed spec fn spec_open(self) -> bool {
        self.open
    }

    /// A writer to an open pipe.
    pub fn new() -> (writer: WriterState)
        ensures
            writer.spec_open(),
    {
        WriterState { open: true }
    }

    /// What to do about a request.
    pub fn on_request(&mut self, request: WriteRequest) -> (action: WriteAction)
        ensures
            action == action_for(old(self).spec_open(), request),
            final(self).spec_open() == (old(self).spec_open() && request == WriteRequest::Write),
    {
        match request {
            WriteRequest::Write => if self.open {
                WriteAction::WriteAll
            } else {
                WriteAction::RejectEnded
            },
            WriteRequest::End => {
                self.open = false;
                WriteAction::Close
            },
        }
    }

    /// Whether a write that returned is reported as a success. A broken pipe
    /// stays broken.
    pub fn after_write(&mut self, written: bool) -> (success: bool)
        ensures
            success == written,
            final(self).spec_open() == (old(self).spec_open() && written),
    {
        if !written {
            self.open = false;
        }
        written
    }
}

/// What a writer does about a request.
pub open spec fn action_for(open: bool, request: WriteRequest) -> WriteAction {
    match request {
        WriteRequest::Write => if open {
            WriteAction::WriteAll
        } else {
            WriteAction::RejectEnded
        },
        WriteRequest::End => WriteAction::Close,
    }
}

/// Whether the pipe is open after the first `n` requests, of which each write
/// succeeds.
pub open spec fn is_writable_after(requests: Seq<WriteRequest>, n: int) -> bool
    decreases n,
{
    n <= 0 || (is_writable_after(requests, n - 1) && requests[n - 1] == WriteRequest::Write)
}

/// After an end every write is refused, and before one none is.
pub proof fn law_writes_are_refused_exactly_after_an_end(requests: Seq<WriteRequest>, n: int)
    requires
        0 <= n < requests.len(),
        requests[n] == WriteRequest::Write,
    ensures
        action_for(is_writable_after(requests, n), requests[n]) == WriteAction::RejectEnded
            <==> exists|i: int| 0 <= i < n && #[trigger] requests[i] == WriteRequest::End,
{
    lemma_writable(requests, n);
}

/// The pipe is open as long as there was no end.
proof fn lemma_writable(requests: Seq<WriteRequest>, n: int)
    requires
        0 <= n <= requests.len(),
    ensures
        is_writable_after(requests, n) <==> forall|i: int|
            0 <= i < n ==> #[trigger] requests[i] == WriteRequest::Write,
    decreases n,
{
    if n > 0 {
        lemma_writable(requests, n - 1);
    }
}

/// As long as the pipe gave bytes, each request is answered with what its read gave: so
/// many bytes, the end of the stream for none, or the error.
pub proof fn law_reads_are_answered_until_the_end(outcomes: Seq<ReadOutcome>, i: int, n: int)
    requires
        0 <= i < n <= outcomes.len(),
        forall|j: int|
            0 <= j < i ==> (#[trigger] outcomes[j] matches ReadOutcome::Bytes(count) && count > 0),
    ensures
        outcomes[i] matches ReadOutcome::Bytes(count) ==> replies(outcomes, n)[i] == if count == 0 {
            ReadReply::End
        } else {
            ReadReply::Chunk(count)
        },
        outcomes[i] == ReadOutcome::Failed ==> replies(outcomes, n)[i] == ReadReply::Error,
{
    lemma_replies(outcomes, i, n);
    lemma_open_while_bytes(outcomes, i);
}

/// A pipe that gives bytes stays open.
proof fn lemma_open_while_bytes(outcomes: Seq<ReadOutcome>, i: int)
    requires
        0 <= i <= outcomes.len(),
        forall|j: int|
            0 <= j < i ==> (#[trigger] outcomes[j] matches ReadOutcome::Bytes(count) && count > 0),
    ensures
        is_open_after(outcomes, i),
    decreases i,
{
    if i > 0 {
        lemma_open_while_bytes(outcomes, i - 1);
        assert(outcomes[i - 1] matches ReadOutcome::Bytes(count) && count > 0);
    }
}

/// What a writer does about a request: bytes are written exactly as long as there was no
/// end, an end always closes, and nothing else happens.
pub proof fn law_writes_are_done_before_the_end(requests: Seq<WriteRequest>, n: int)
    requires
        0 <= n < requests.len(),
    ensures
        ({
            let action = action_for(is_writable_after(requests, n), requests[n]);
            &&& action == WriteAction::Close <==> requests[n] == WriteRequest::End
            &&& action == WriteAction::WriteAll <==> requests[n] == WriteRequest::Write
                && forall|i: int| 0 <= i < n ==> #[trigger] requests[i] == WriteRequest::Write
        }),
{
    lemma_writable(requests, n);
}

} // verus!
