//! The client's decisions on what the kernel connection delivers: the
//! broadcast listener, and the completion exchange on the request channel
//! that fire-and-forget execute requests share.

use vstd::prelude::*;
use crate::events::{IopubEvent, KernelMessage};

verus! {

/// The content of a completion reply.
pub struct CompletionReply {
    /// Candidate completions.
    pub matches: Vec<String>,
    /// Start of the text to replace, as a byte offset.
    pub cursor_start: usize,
    /// End of the text to replace, as a byte offset.
    pub cursor_end: usize,
}

/// Why a completion exchange failed.
pub enum CompletionError {
    /// No matching reply came before the deadline.
    Timeout,
    /// Reading the request channel failed with this message.
    ReadFailed(String),
}

/// One read on the request channel while a completion reply is awaited.
pub enum ShellRead {
    /// A reply: the identifier of the request it answers, and its content
    /// when it is a completion reply.
    Reply { parent_id: Option<String>, completion: Option<CompletionReply> },
    /// The read failed with this message.
    Failed(String),
    /// The deadline passed first.
    TimedOut,
}

/// What the exchange does after one read.
pub enum CompletionStep {
    /// Keep reading.
    Wait,
    /// Stop with this result.
    Finish(Result<CompletionReply, CompletionError>),
}

/// Whether `read` is the completion reply to request `id`.
pub open spec fn answers(id: Seq<char>, read: ShellRead) -> bool {
    match read {
        ShellRead::Reply { parent_id: Some(p), completion: Some(_) } => p@ == id,
        _ => false,
    }
}

/// Whether `read` ends the exchange for request `id`.
pub open spec fn ends_exchange(id: Seq<char>, read: ShellRead) -> bool {
    answers(id, read) || read is Failed || read is TimedOut
}

/// The result of the exchange when it ends on `read`.
pub open spec fn outcome_of(read: ShellRead) -> Result<CompletionReply, CompletionError> {
    match read {
        ShellRead::Reply { completion: Some(c), .. } => Ok(c),
        ShellRead::Failed(e) => Err(CompletionError::ReadFailed(e)),
        _ => Err(CompletionError::Timeout),
    }
}

/// The result of the exchange for request `id` over the reads `reads`, in
/// order: the first read that ends it decides; when none does, it times out.
pub open spec fn exchange_outcome(id: Seq<char>, reads: Seq<ShellRead>) -> Result<
    CompletionReply,
    CompletionError,
>
    decreases reads.len(),
{
    if reads.len() == 0 {
        Err(CompletionError::Timeout)
    } else if ends_exchange(id, reads[0]) {
        outcome_of(reads[0])
    } else {
        exchange_outcome(id, reads.drop_first())
    }
}

/// Decides on one read of the completion exchange for request `id`: the
/// completion reply to `id` finishes it with that reply, a failed read or
/// the deadline finishes it with an error, and any other reply (one that
/// answers another request, or that answers `id` but is no completion
/// reply) is passed over.
pub fn completion_step(id: &String, read: ShellRead) -> (r: CompletionStep)
    ensures
        ends_exchange(id@, read) ==> r == CompletionStep::Finish(outcome_of(read)),
        !ends_exchange(id@, read) ==> r is Wait,
{
    match read {
        ShellRead::Reply { parent_id, completion } => {
            let ours = match &parent_id {
                Some(p) => p.eq(id),
                None => false,
            };
            match completion {
                Some(c) => if ours {
                    CompletionStep::Finish(Ok(c))
                } else {
                    CompletionStep::Wait
                },
                None => CompletionStep::Wait,
            }
        },
        ShellRead::Failed(e) => CompletionStep::Finish(Err(CompletionError::ReadFailed(e))),
        ShellRead::TimedOut => CompletionStep::Finish(Err(CompletionError::Timeout)),
    }
}

/// Replies to other requests are skipped, not taken as the answer: when
/// every read before position `k` is such a reply and read `k` is the
/// completion reply to `id`, the exchange returns read `k`'s content.
pub proof fn lemma_unrelated_replies_skipped(id: Seq<char>, reads: Seq<ShellRead>, k: int)
    requires
        0 <= k < reads.len(),
        forall|i: int|
            0 <= i < k ==> #[trigger] reads[i] is Reply && !answers(id, reads[i]),
        answers(id, reads[k]),
    ensures
        exchange_outcome(id, reads) == outcome_of(reads[k]),
        exchange_outcome(id, reads) is Ok,
    decreases k,
{
    if k > 0 {
        assert(reads[0] is Reply && !answers(id, reads[0]));
        let rest = reads.drop_first();
        assert forall|i: int| 0 <= i < k - 1 implies #[trigger] rest[i] is Reply && !answers(
            id,
            rest[i],
        ) by {
            assert(rest[i] == reads[i + 1]);
        }
        assert(rest[k - 1] == reads[k]);
        lemma_unrelated_replies_skipped(id, rest, k - 1);
    }
}

/// When no reply answers the request before the deadline passes, the
/// exchange times out.
pub proof fn lemma_no_answer_times_out(id: Seq<char>, reads: Seq<ShellRead>)
    requires
        reads.len() > 0,
        forall|i: int|
            0 <= i < reads.len() - 1 ==> #[trigger] reads[i] is Reply && !answers(id, reads[i]),
        reads.last() is TimedOut,
    ensures
        exchange_outcome(id, reads) == Err::<CompletionReply, CompletionError>(
            CompletionError::Timeout,
        ),
    decreases reads.len(),
{
    if reads.len() > 1 {
        assert(reads[0] is Reply && !answers(id, reads[0]));
        let rest = reads.drop_first();
        assert forall|i: int| 0 <= i < rest.len() - 1 implies #[trigger] rest[i] is Reply
            && !answers(id, rest[i]) by {
            assert(rest[i] == reads[i + 1]);
        }
        assert(rest.last() == reads.last());
        lemma_no_answer_times_out(id, rest);
    }
}

/// What the broadcast listener does with one read: forward the event and go
/// on, or, when the read failed, forward one error marker and stop. The
/// boolean says whether to go on.
pub fn listener_step(read: Result<IopubEvent, String>) -> (r: (KernelMessage, bool))
    ensures
        read matches Ok(ev) ==> r.0 == KernelMessage::IoPub(ev) && r.1,
        read matches Err(e) ==> r.0 == KernelMessage::IoPubError(e) && !r.1,
{
    match read {
        Ok(ev) => (KernelMessage::IoPub(ev), true),
        Err(e) => (KernelMessage::IoPubError(e), false),
    }
}

} // verus!
