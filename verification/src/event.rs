//! Events for the consumer, the consumer's answers, and the text of a line.

use vstd::prelude::*;
use vstd::string::*;

verus! {

/// What the watcher hands to its consumer.
#[derive(Debug, PartialEq, Eq)]
pub enum LogWatcherEvent {
    /// One line of the file, without its terminating newline.
    Line(String),
    /// The path now names another file than the one that was being read.
    LogRotation,
}

/// What the consumer answers after each event or error.
#[derive(Debug, Clone, Copy, PartialEq, Eq)]
pub enum LogWatcherAction {
    /// Go on.
    Continue,
    /// End the watch after this round.
    Finish,
    /// Drop whatever is unread and go on from the current end of the file.
    SeekToEnd,
}

/// The mathematical value of a `LogWatcherEvent`.
pub enum EventView {
    Line(Seq<char>),
    LogRotation,
}

impl View for LogWatcherEvent {
    type V = EventView;

    open spec fn view(&self) -> EventView {
        match self {
            LogWatcherEvent::Line(text) => EventView::Line(text@),
            LogWatcherEvent::LogRotation => EventView::LogRotation,
        }
    }
}

/// The text of a line as read, without the newline that ends it. A text that
/// does not end in a newline (the unfinished last line of a file) is kept whole.
pub open spec fn without_newline(text: Seq<char>) -> Seq<char> {
    if text.len() > 0 && text.last() == '\n' {
        text.drop_last()
    } else {
        text
    }
}

/// What the consumer is given: an event, or the error of a failed read.
pub open spec fn delivery_view<E>(item: Result<LogWatcherEvent, E>) -> Result<EventView, E> {
    match item {
        Ok(event) => Ok(event@),
        Err(error) => Err(error),
    }
}

/// Removes the terminating newline of a line that was read.
pub fn strip_newline(line: String) -> (stripped: String)
    ensures
        stripped@ == without_newline(line@),
{
    let text = line.as_str();
    let n: usize = text.unicode_len();
    if n > 0 && text.get_char(n - 1) == '\n' {
        text.substring_char(0, n - 1).to_owned()
    } else {
        line
    }
}

} // verus!
