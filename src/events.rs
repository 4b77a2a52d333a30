//! What arrives from the kernel, in the library's own terms.

use vstd::prelude::*;
use crate::model::{bundle_view, lines_view};

verus! {

/// The content of one broadcast (iopub) event.
pub enum EventContent {
    /// The kernel's execution state, as a lowercase name ("busy", "idle", ...).
    Status { execution_state: String },
    /// Text written to a named stream ("stdout", "stderr").
    Stream { name: String, text: String },
    /// The value of the executed expression, as (MIME type, payload) pairs.
    ExecuteResult { execution_count: usize, data: Vec<(String, String)> },
    /// Rich output, as (MIME type, payload) pairs.
    DisplayData { data: Vec<(String, String)> },
    /// An error with its traceback.
    Error { ename: String, evalue: String, traceback: Vec<String> },
    /// The kernel echoing the code it was sent.
    ExecuteInput,
    /// Any other kind of event.
    Other,
}

/// One broadcast event, with the identifier of the request that caused it.
pub struct IopubEvent {
    pub parent_id: Option<String>,
    pub content: EventContent,
}

/// What the kernel connection delivers to the foreground loop.
pub enum KernelMessage {
    /// An event read from the broadcast channel.
    IoPub(IopubEvent),
    /// A reply read from the request channel.
    ShellReply,
    /// The broadcast listener failed with this message and stopped.
    IoPubError(String),
}

pub ghost enum ContentModel {
    Status { execution_state: Seq<char> },
    Stream { name: Seq<char>, text: Seq<char> },
    ExecuteResult { execution_count: usize, data: Seq<(Seq<char>, Seq<char>)> },
    DisplayData { data: Seq<(Seq<char>, Seq<char>)> },
    Error { ename: Seq<char>, evalue: Seq<char>, traceback: Seq<Seq<char>> },
    ExecuteInput,
    Other,
}

pub ghost struct EventModel {
    pub parent_id: Option<Seq<char>>,
    pub content: ContentModel,
}

impl View for EventContent {
    type V = ContentModel;

    open spec fn view(&self) -> ContentModel {
        match self {
            EventContent::Status { execution_state } => ContentModel::Status {
                execution_state: execution_state@,
            },
            EventContent::Stream { name, text } => ContentModel::Stream { name: name@, text: text@ },
            EventContent::ExecuteResult { execution_count, data } => ContentModel::ExecuteResult {
                execution_count: *execution_count,
                data: bundle_view(data@),
            },
            EventContent::DisplayData { data } => ContentModel::DisplayData { data: bundle_view(data@) },
            EventContent::Error { ename, evalue, traceback } => ContentModel::Error {
                ename: ename@,
                evalue: evalue@,
                traceback: lines_view(traceback@),
            },
            EventContent::ExecuteInput => ContentModel::ExecuteInput,
            EventContent::Other => ContentModel::Other,
        }
    }
}

impl View for IopubEvent {
    type V = EventModel;

    open spec fn view(&self) -> EventModel {
        EventModel {
            parent_id: match self.parent_id {
                Some(p) => Some(p@),
                None => None,
            },
            content: self.content@,
        }
    }
}

} // verus!
