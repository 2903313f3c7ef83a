//! A model of what the watcher's driver works on: files as byte sequences,
//! the file that the watched path names, and a reader on one open file.
//!
//! `serve` says how each request is carried out in this model and which reply
//! it yields. The laws of this crate are stated over it.

use vstd::prelude::*;
use vstd::utf8::{decode_utf8, valid_utf8};
use crate::event::LogWatcherAction;
use crate::exchange::{ProbeOutcome, ReplyView, RequestView};

verus! {

/// The byte that ends a line.
pub const NEWLINE: u8 = 0x0A;

/// The files, the path and the reader.
pub struct World {
    /// What each file holds, by the file's identity.
    pub files: Map<u64, Seq<u8>>,
    /// The file that the watched path names, if it names one.
    pub linked: Option<u64>,
    /// The file that the reader has open.
    pub open: u64,
    /// The reader's position in that file.
    pub offset: nat,
    /// The file that the last successful probe opened.
    pub probed: Option<u64>,
}

impl World {
    /// What the open file holds.
    pub open spec fn content(self) -> Seq<u8> {
        self.files[self.open]
    }

    /// The open file exists, the path names an existing file or none, and
    /// every offset into a file fits the watcher's cursor.
    pub open spec fn sound(self) -> bool {
        &&& self.files.dom().contains(self.open)
        &&& self.linked matches Some(identity) ==> self.files.dom().contains(identity)
        &&& forall|identity: u64| #[trigger]
            self.files.dom().contains(identity) ==> self.files[identity].len() <= u64::MAX
    }

    /// Nothing of the open file is left to read.
    pub open spec fn exhausted(self) -> bool {
        self.offset == self.content().len()
    }
}

/// How many bytes one read takes at `from`: up to and including the next
/// newline, or up to the end of the content where no newline follows.
pub open spec fn line_len(content: Seq<u8>, from: int) -> nat
    decreases content.len() - from,
{
    if from < 0 || from >= content.len() {
        0
    } else if content[from] == NEWLINE {
        1
    } else {
        1 + line_len(content, from + 1)
    }
}

/// The bytes that one read takes at `from`.
pub open spec fn line_at(content: Seq<u8>, from: int) -> Seq<u8> {
    content.subrange(from, from + line_len(content, from))
}

/// Carries out `request` in world `w`: the world afterwards and the reply.
/// `answer` is what the consumer says to a delivery.
///
/// A read takes the bytes of one line and moves the reader behind them; bytes
/// that are no UTF-8 make it fail, with an error of which nothing is known.
/// A probe finds the file that the path names. An adoption turns the reader
/// to the start of the probed file.
pub open spec fn serve<E>(w: World, request: RequestView<E>, answer: LogWatcherAction) -> (
    World,
    ReplyView<E>,
) {
    match request {
        RequestView::ReadLine => {
            let taken = line_at(w.content(), w.offset as int);
            let behind = World { offset: w.offset + taken.len(), ..w };
            if taken.len() == 0 {
                (w, ReplyView::Read { len: 0, line: Seq::empty() })
            } else if valid_utf8(taken) {
                (behind, ReplyView::Read { len: taken.len() as u64, line: decode_utf8(taken) })
            } else {
                (behind, ReplyView::ReadFailed(arbitrary()))
            }
        },
        RequestView::SeekTo(at) => (World { offset: at as nat, ..w }, ReplyView::Ack),
        RequestView::SeekToEnd => (
            World { offset: w.content().len(), ..w },
            ReplyView::End(w.content().len() as u64),
        ),
        RequestView::Probe => match w.linked {
            Some(identity) => (
                World { probed: Some(identity), ..w },
                ReplyView::Probed(ProbeOutcome::Opened(identity)),
            ),
            None => (w, ReplyView::Probed(ProbeOutcome::NotFound)),
        },
        RequestView::Adopt => match w.probed {
            Some(identity) => (World { open: identity, offset: 0, ..w }, ReplyView::Ack),
            None => (w, ReplyView::Ack),
        },
        RequestView::Backoff(_) => (w, ReplyView::Ack),
        RequestView::Deliver(_) => (w, ReplyView::Action(answer)),
        RequestView::Exit => (w, ReplyView::Begin),
    }
}

/// A line as it is written: bytes that are UTF-8, with one newline, at the end.
pub open spec fn complete_line(line: Seq<u8>) -> bool {
    &&& line.len() > 0
    &&& line.last() == NEWLINE
    &&& forall|i: int| 0 <= i < line.len() - 1 ==> line[i] != NEWLINE
    &&& valid_utf8(line)
}

/// Every one of `lines` is a complete line.
pub open spec fn complete_lines(lines: Seq<Seq<u8>>) -> bool {
    forall|i: int| 0 <= i < lines.len() ==> complete_line(#[trigger] lines[i])
}

/// The bytes of `lines`, one after the other.
pub open spec fn joined(lines: Seq<Seq<u8>>) -> Seq<u8>
    decreases lines.len(),
{
    if lines.len() == 0 {
        Seq::empty()
    } else {
        lines.first() + joined(lines.drop_first())
    }
}

/// A read at the start of a complete line takes exactly that line.
pub proof fn lemma_read_takes_line(content: Seq<u8>, from: int, line: Seq<u8>)
    requires
        complete_line(line),
        0 <= from,
        from + line.len() <= content.len(),
        content.subrange(from, from + line.len()) == line,
    ensures
        line_len(content, from) == line.len(),
        line_at(content, from) == line,
{
    lemma_rest_of_line(content, from, line, 0);
}

proof fn lemma_rest_of_line(content: Seq<u8>, from: int, line: Seq<u8>, k: int)
    requires
        complete_line(line),
        0 <= from,
        from + line.len() <= content.len(),
        content.subrange(from, from + line.len()) == line,
        0 <= k < line.len(),
    ensures
        line_len(content, from + k) == line.len() - k,
    decreases line.len() - k,
{
    assert(content[from + k] == content.subrange(from, from + line.len())[k]);
    if k < line.len() - 1 {
        lemma_rest_of_line(content, from, line, k + 1);
    }
}

} // verus!
