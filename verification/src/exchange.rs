//! The two sides of one exchange between the watcher and its driver.

use vstd::prelude::*;
use crate::event::{delivery_view, EventView, LogWatcherAction, LogWatcherEvent};

verus! {

/// What opening the watched path again gave.
#[derive(Debug, Clone, Copy, PartialEq, Eq)]
pub enum ProbeOutcome {
    /// The path was opened and names the file with this identity.
    Opened(u64),
    /// Nothing exists at the path right now.
    NotFound,
    /// The path could not be opened, or its identity not read, for another reason.
    Failed,
}

/// The outcome of the operation that the watcher asked for last.
#[derive(Debug, PartialEq, Eq)]
pub enum WatchReply<E> {
    /// Nothing was asked for yet: the watch begins.
    Begin,
    /// A read took `len` bytes and decoded them to `line`; `len` is 0 at the
    /// end of the file.
    Read { len: u64, line: String },
    /// The read failed.
    ReadFailed(E),
    /// The path was probed.
    Probed(ProbeOutcome),
    /// The reader stands at the end of its file, at this offset.
    End(u64),
    /// The consumer took what was delivered and answers with this action.
    Action(LogWatcherAction),
    /// A reposition, a wait or an adoption was carried out.
    Ack,
}

/// The operation that the watcher wants carried out next.
#[derive(Debug, PartialEq, Eq)]
pub enum WatchRequest<E> {
    /// Read one line at the reader's position. Answer: `Read` or `ReadFailed`.
    ReadLine,
    /// Put the reader at this offset from the start of its file. Answer: `Ack`.
    SeekTo(u64),
    /// Put the reader at the end of its file. Answer: `End`.
    SeekToEnd,
    /// Open the watched path again and report which file it names. Answer: `Probed`.
    Probe,
    /// Read from the file that the last probe opened, from its start. Answer: `Ack`.
    Adopt,
    /// Wait this many seconds. Answer: `Ack`.
    Backoff(u64),
    /// Hand this to the consumer. Answer: `Action`.
    Deliver(Result<LogWatcherEvent, E>),
    /// The watch is over.
    Exit,
}

/// The mathematical value of a `WatchReply`.
pub enum ReplyView<E> {
    Begin,
    Read { len: u64, line: Seq<char> },
    ReadFailed(E),
    Probed(ProbeOutcome),
    End(u64),
    Action(LogWatcherAction),
    Ack,
}

/// The mathematical value of a `WatchRequest`.
pub enum RequestView<E> {
    ReadLine,
    SeekTo(u64),
    SeekToEnd,
    Probe,
    Adopt,
    Backoff(u64),
    Deliver(Result<EventView, E>),
    Exit,
}

impl<E> View for WatchReply<E> {
    type V = ReplyView<E>;

    open spec fn view(&self) -> ReplyView<E> {
        match *self {
            WatchReply::Begin => ReplyView::Begin,
            WatchReply::Read { len, line } => ReplyView::Read { len, line: line@ },
            WatchReply::ReadFailed(error) => ReplyView::ReadFailed(error),
            WatchReply::Probed(outcome) => ReplyView::Probed(outcome),
            WatchReply::End(at) => ReplyView::End(at),
            WatchReply::Action(action) => ReplyView::Action(action),
            WatchReply::Ack => ReplyView::Ack,
        }
    }
}

impl<E> View for WatchRequest<E> {
    type V = RequestView<E>;

    open spec fn view(&self) -> RequestView<E> {
        match *self {
            WatchRequest::ReadLine => RequestView::ReadLine,
            WatchRequest::SeekTo(at) => RequestView::SeekTo(at),
            WatchRequest::SeekToEnd => RequestView::SeekToEnd,
            WatchRequest::Probe => RequestView::Probe,
            WatchRequest::Adopt => RequestView::Adopt,
            WatchRequest::Backoff(seconds) => RequestView::Backoff(seconds),
            WatchRequest::Deliver(item) => RequestView::Deliver(delivery_view(item)),
            WatchRequest::Exit => RequestView::Exit,
        }
    }
}

} // verus!
