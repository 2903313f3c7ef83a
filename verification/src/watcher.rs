//! The watcher: what it remembers, and what it decides at each exchange.

use vstd::prelude::*;
use crate::event::{strip_newline, without_newline, EventView, LogWatcherAction, LogWatcherEvent};
use crate::exchange::{ProbeOutcome, ReplyView, RequestView, WatchReply, WatchRequest};

verus! {

/// The fixed wait before a probe is repeated, and after a probe that found
/// the same file with nothing new in it.
pub const BACKOFF_SECONDS: u64 = 1;

/// Which answer the watcher is waiting for.
#[derive(Debug, Clone, Copy, PartialEq, Eq)]
pub enum Phase {
    /// No request is outstanding: the watch has not begun, or it is over.
    Idle,
    /// A line is being read.
    Reading,
    /// A line is with the consumer; the cursor already stands behind it.
    LineDelivered,
    /// The reader is being put at the cursor after a line; the consumer's
    /// answer to that line is applied afterwards.
    Repositioning(LogWatcherAction),
    /// A read error is with the consumer.
    FailureDelivered,
    /// The path is being opened again.
    Probing,
    /// Waiting after a probe that could not open the path; the probe is then repeated.
    Retrying,
    /// Waiting after a probe that found the file that is already open.
    Resting,
    /// The file that the probe opened is being taken over.
    Adopting,
    /// The rotation event is with the consumer.
    RotationDelivered,
    /// The reader is being put at the end of its file; `rotated` says whether
    /// this follows a rotation event.
    Skipping { rotated: bool },
    /// The reader is being put at the cursor at the end of rotation detection.
    Settling,
}

/// Where the watcher stands in rotation detection.
#[derive(Debug, Clone, Copy, PartialEq, Eq)]
pub enum RotationState {
    /// Tailing the open file.
    Stable,
    /// The open file gave nothing more; the path is being checked.
    Probing,
    /// Another file was found at the path and is being taken over.
    Rotated,
}

/// What a probe means for the watcher.
#[derive(Debug, Clone, Copy, PartialEq, Eq)]
pub enum ProbeVerdict {
    /// The path names another file: it was rotated.
    Rotated,
    /// The path names the file that is open.
    Unchanged,
    /// The path could not be opened; the probe is to be repeated after a wait.
    Retry,
}

/// The mathematical value of a `LogWatcher`.
pub struct WatcherState {
    /// The watched path.
    pub path: Seq<char>,
    /// The identity of the file that is being read.
    pub identity: u64,
    /// How many bytes of that file are behind the watcher.
    pub cursor: u64,
    /// Whether the consumer has asked to finish.
    pub finished: bool,
    /// Which answer is awaited.
    pub phase: Phase,
}

/// The state right after registration on a file of `len` bytes: the cursor
/// stands at the end of what the file holds, so none of it is read.
pub open spec fn registered(path: Seq<char>, identity: u64, len: u64) -> WatcherState {
    WatcherState { path, identity, cursor: len, finished: false, phase: Phase::Idle }
}

/// The state after the consumer's answer is taken note of: `Finish` marks the
/// watch as finished, the other answers change nothing here.
pub open spec fn noted(s: WatcherState, action: LogWatcherAction) -> WatcherState {
    WatcherState { finished: s.finished || action is Finish, ..s }
}

/// What a probe means in state `s`.
pub open spec fn verdict(s: WatcherState, outcome: ProbeOutcome) -> ProbeVerdict {
    match outcome {
        ProbeOutcome::Opened(identity) => if identity != s.identity {
            ProbeVerdict::Rotated
        } else {
            ProbeVerdict::Unchanged
        },
        ProbeOutcome::NotFound => ProbeVerdict::Retry,
        ProbeOutcome::Failed => ProbeVerdict::Retry,
    }
}

/// The state after a probe is taken note of: on a rotation the watcher turns
/// to the new file and its cursor to that file's start.
pub open spec fn reopened(s: WatcherState, outcome: ProbeOutcome) -> WatcherState {
    match outcome {
        ProbeOutcome::Opened(identity) => if identity != s.identity {
            WatcherState { identity, cursor: 0, ..s }
        } else {
            s
        },
        _ => s,
    }
}

/// The head of a round: a finished watch exits, any other reads a line.
pub open spec fn resume<E>(s: WatcherState) -> (WatcherState, RequestView<E>) {
    if s.finished {
        (WatcherState { phase: Phase::Idle, ..s }, RequestView::Exit)
    } else {
        (WatcherState { phase: Phase::Reading, ..s }, RequestView::ReadLine)
    }
}

/// The end of rotation detection: the reader is put at the cursor.
pub open spec fn settle<E>(s: WatcherState) -> (WatcherState, RequestView<E>) {
    (WatcherState { phase: Phase::Settling, ..s }, RequestView::SeekTo(s.cursor))
}

/// What follows once the consumer's answer `action` is noted: `SeekToEnd`
/// sends the reader to the end of its file; otherwise rotation detection is
/// brought to its end if a rotation event was answered, and the next round
/// begins if a line or an error was.
pub open spec fn proceed<E>(s: WatcherState, action: LogWatcherAction, rotated: bool) -> (
    WatcherState,
    RequestView<E>,
) {
    if action is SeekToEnd {
        (WatcherState { phase: Phase::Skipping { rotated }, ..s }, RequestView::SeekToEnd)
    } else if rotated {
        settle(s)
    } else {
        resume(s)
    }
}

/// Whether `reply` answers the request that is outstanding in state `s`. A
/// read that would carry the cursor past the largest offset is no answer.
pub open spec fn accepts<E>(s: WatcherState, reply: ReplyView<E>) -> bool {
    match reply {
        ReplyView::Begin => s.phase is Idle,
        ReplyView::Read { len, line } => s.phase is Reading && s.cursor + len <= u64::MAX,
        ReplyView::ReadFailed(_) => s.phase is Reading,
        ReplyView::Probed(_) => s.phase is Probing,
        ReplyView::End(_) => s.phase is Skipping,
        ReplyView::Action(_) => s.phase is LineDelivered || s.phase is FailureDelivered
            || s.phase is RotationDelivered,
        ReplyView::Ack => s.phase is Repositioning || s.phase is Retrying || s.phase is Resting
            || s.phase is Adopting || s.phase is Settling,
    }
}

/// One exchange: the state after `reply` and the request that answers it.
/// It is meant for the replies that `accepts` admits.
pub open spec fn step<E>(s: WatcherState, reply: ReplyView<E>) -> (WatcherState, RequestView<E>) {
    match reply {
        ReplyView::Begin => resume(s),
        ReplyView::Read { len, line } => if len > 0 {
            (
                WatcherState { cursor: (s.cursor + len) as u64, phase: Phase::LineDelivered, ..s },
                RequestView::Deliver(Ok(EventView::Line(without_newline(line)))),
            )
        } else {
            (WatcherState { phase: Phase::Probing, ..s }, RequestView::Probe)
        },
        ReplyView::ReadFailed(error) => (
            WatcherState { phase: Phase::FailureDelivered, ..s },
            RequestView::Deliver(Err(error)),
        ),
        ReplyView::Probed(outcome) => match verdict(s, outcome) {
            ProbeVerdict::Rotated => (
                WatcherState { phase: Phase::Adopting, ..reopened(s, outcome) },
                RequestView::Adopt,
            ),
            ProbeVerdict::Unchanged => (
                WatcherState { phase: Phase::Resting, ..s },
                RequestView::Backoff(BACKOFF_SECONDS),
            ),
            ProbeVerdict::Retry => (
                WatcherState { phase: Phase::Retrying, ..s },
                RequestView::Backoff(BACKOFF_SECONDS),
            ),
        },
        ReplyView::End(at) => if s.phase == (Phase::Skipping { rotated: true }) {
            settle(WatcherState { cursor: at, ..s })
        } else {
            resume(WatcherState { cursor: at, ..s })
        },
        ReplyView::Action(action) => match s.phase {
            Phase::LineDelivered => (
                WatcherState { phase: Phase::Repositioning(action), ..s },
                RequestView::SeekTo(s.cursor),
            ),
            Phase::RotationDelivered => proceed(noted(s, action), action, true),
            _ => proceed(noted(s, action), action, false),
        },
        ReplyView::Ack => match s.phase {
            Phase::Repositioning(action) => proceed(noted(s, action), action, false),
            Phase::Retrying => (WatcherState { phase: Phase::Probing, ..s }, RequestView::Probe),
            Phase::Resting => settle(s),
            Phase::Adopting => (
                WatcherState { phase: Phase::RotationDelivered, ..s },
                RequestView::Deliver(Ok(EventView::LogRotation)),
            ),
            _ => resume(s),
        },
    }
}

/// Where a phase stands in rotation detection.
pub open spec fn rotation_state_of(phase: Phase) -> RotationState {
    match phase {
        Phase::Probing | Phase::Retrying | Phase::Resting => RotationState::Probing,
        Phase::Adopting | Phase::RotationDelivered => RotationState::Rotated,
        Phase::Skipping { rotated } => if rotated {
            RotationState::Rotated
        } else {
            RotationState::Stable
        },
        _ => RotationState::Stable,
    }
}

/// Follows one file by its path: remembers which file is open, how far it was
/// read, and which answer of the driver is awaited.
pub struct LogWatcher {
    filename: String,
    inode: u64,
    pos: u64,
    finish: bool,
    phase: Phase,
}

impl View for LogWatcher {
    type V = WatcherState;

    closed spec fn view(&self) -> WatcherState {
        WatcherState {
            path: self.filename@,
            identity: self.inode,
            cursor: self.pos,
            finished: self.finish,
            phase: self.phase,
        }
    }
}

impl LogWatcher {
    /// A watcher for the file at `filename`, which was opened and found to
    /// have identity `inode` and to hold `len` bytes. The cursor starts at
    /// `len`: what the file holds already is never read. The driver puts its
    /// reader at `position()` before the watch begins.
    pub fn register(filename: String, inode: u64, len: u64) -> (watcher: LogWatcher)
        ensures
            watcher@ == registered(filename@, inode, len),
    {
        LogWatcher { filename, inode, pos: len, finish: false, phase: Phase::Idle }
    }

    /// The watched path.
    pub fn filename(&self) -> (name: &str)
        ensures
            name@ == self@.path,
    {
        self.filename.as_str()
    }

    /// The identity of the file that is being read.
    pub fn inode(&self) -> (identity: u64)
        ensures
            identity == self@.identity,
    {
        self.inode
    }

    /// The cursor: how many bytes of the open file are behind the watcher.
    pub fn position(&self) -> (cursor: u64)
        ensures
            cursor == self@.cursor,
    {
        self.pos
    }

    /// Whether the consumer has asked to finish.
    pub fn is_finished(&self) -> (finished: bool)
        ensures
            finished == self@.finished,
    {
        self.finish
    }

    /// Which answer is awaited.
    pub fn phase(&self) -> (phase: Phase)
        ensures
            phase == self@.phase,
    {
        self.phase
    }

    /// Where the watcher stands in rotation detection.
    pub fn rotation_state(&self) -> (state: RotationState)
        ensures
            state == rotation_state_of(self@.phase),
    {
        match self.phase {
            Phase::Probing | Phase::Retrying | Phase::Resting => RotationState::Probing,
            Phase::Adopting | Phase::RotationDelivered => RotationState::Rotated,
            Phase::Skipping { rotated } => if rotated {
                RotationState::Rotated
            } else {
                RotationState::Stable
            },
            _ => RotationState::Stable,
        }
    }

    /// Decides what a probe of the path means. Another identity than the one
    /// on record is a rotation: the watcher turns to the new file and its
    /// cursor to 0. The same identity changes nothing. A path that could not
    /// be opened, whether it is missing or failed otherwise, changes nothing
    /// and calls for another probe.
    fn reopen_if_log_rotated(&mut self, outcome: ProbeOutcome) -> (found: ProbeVerdict)
        ensures
            found == verdict(old(self)@, outcome),
            final(self)@ == reopened(old(self)@, outcome),
    {
        match outcome {
            ProbeOutcome::Opened(identity) => {
                if identity != self.inode {
                    self.pos = 0;
                    self.inode = identity;
                    ProbeVerdict::Rotated
                } else {
                    ProbeVerdict::Unchanged
                }
            },
            ProbeOutcome::NotFound => ProbeVerdict::Retry,
            ProbeOutcome::Failed => ProbeVerdict::Retry,
        }
    }

    /// Takes note of the consumer's answer: `Finish` marks the watch as
    /// finished. Returns whether the reader has to go to the end of its file.
    fn handle_callback_action(&mut self, action: LogWatcherAction) -> (skip: bool)
        ensures
            final(self)@ == noted(old(self)@, action),
            skip == (action is SeekToEnd),
    {
        match action {
            LogWatcherAction::SeekToEnd => true,
            LogWatcherAction::Finish => {
                self.finish = true;
                false
            },
            LogWatcherAction::Continue => false,
        }
    }

    /// The head of a round.
    fn next_round<E>(&mut self) -> (request: WatchRequest<E>)
        ensures
            (final(self)@, request@) == resume::<E>(old(self)@),
    {
        if self.finish {
            self.phase = Phase::Idle;
            WatchRequest::Exit
        } else {
            self.phase = Phase::Reading;
            WatchRequest::ReadLine
        }
    }

    /// The end of rotation detection.
    fn reposition<E>(&mut self) -> (request: WatchRequest<E>)
        ensures
            (final(self)@, request@) == settle::<E>(old(self)@),
    {
        self.phase = Phase::Settling;
        WatchRequest::SeekTo(self.pos)
    }

    /// Notes the consumer's answer and says what follows it.
    fn answer<E>(&mut self, action: LogWatcherAction, rotated: bool) -> (request: WatchRequest<E>)
        ensures
            (final(self)@, request@) == proceed::<E>(noted(old(self)@, action), action, rotated),
    {
        if self.handle_callback_action(action) {
            self.phase = Phase::Skipping { rotated };
            WatchRequest::SeekToEnd
        } else if rotated {
            self.reposition()
        } else {
            self.next_round()
        }
    }

    /// One exchange of the watch. `reply` is the outcome of the request that
    /// this function returned last, `Begin` at the start; the result is the
    /// next request. The driver carries each request out and calls again,
    /// until the request is `Exit`.
    ///
    /// A round reads a line. A line of `len > 0` bytes moves the cursor by
    /// `len` and goes to the consumer without its newline; the reader is then
    /// put at the cursor and the consumer's answer applied. A failed read goes
    /// to the consumer as it is, the cursor stays, and the answer is applied.
    /// A read of 0 bytes starts rotation detection: the path is probed, again
    /// after every wait while it cannot be opened; another file at the path is
    /// adopted from its start and announced to the consumer; the same file
    /// only costs a wait. Detection ends with the reader put at the cursor.
    /// `Finish` ends the watch at the head of the next round, `SeekToEnd`
    /// moves reader and cursor to the end of the open file.
    ///
    /// A reply that does not answer the outstanding request is handed back,
    /// and the watcher stays as it was.
    pub fn watch<E>(&mut self, reply: WatchReply<E>) -> (outcome: Result<
        WatchRequest<E>,
        WatchReply<E>,
    >)
        ensures
            match outcome {
                Ok(request) => accepts(old(self)@, reply@) && (final(self)@, request@) == step(
                    old(self)@,
                    reply@,
                ),
                Err(refused) => !accepts(old(self)@, reply@) && refused == reply && *final(self)
                    == *old(self),
            },
    {
        match reply {
            WatchReply::Begin => match self.phase {
                Phase::Idle => Ok(self.next_round()),
                _ => Err(WatchReply::Begin),
            },
            WatchReply::Read { len, line } => match self.phase {
                Phase::Reading => {
                    if len > u64::MAX - self.pos {
                        Err(WatchReply::Read { len, line })
                    } else if len > 0 {
                        self.pos = self.pos + len;
                        self.phase = Phase::LineDelivered;
                        Ok(WatchRequest::Deliver(Ok(LogWatcherEvent::Line(strip_newline(line)))))
                    } else {
                        self.phase = Phase::Probing;
                        Ok(WatchRequest::Probe)
                    }
                },
                _ => Err(WatchReply::Read { len, line }),
            },
            WatchReply::ReadFailed(error) => match self.phase {
                Phase::Reading => {
                    self.phase = Phase::FailureDelivered;
                    Ok(WatchRequest::Deliver(Err(error)))
                },
                _ => Err(WatchReply::ReadFailed(error)),
            },
            WatchReply::Probed(outcome) => match self.phase {
                Phase::Probing => {
                    match self.reopen_if_log_rotated(outcome) {
                        ProbeVerdict::Rotated => {
                            self.phase = Phase::Adopting;
                            Ok(WatchRequest::Adopt)
                        },
                        ProbeVerdict::Unchanged => {
                            self.phase = Phase::Resting;
                            Ok(WatchRequest::Backoff(BACKOFF_SECONDS))
                        },
                        ProbeVerdict::Retry => {
                            self.phase = Phase::Retrying;
                            Ok(WatchRequest::Backoff(BACKOFF_SECONDS))
                        },
                    }
                },
                _ => Err(WatchReply::Probed(outcome)),
            },
            WatchReply::End(at) => match self.phase {
                Phase::Skipping { rotated } => {
                    self.pos = at;
                    if rotated {
                        Ok(self.reposition())
                    } else {
                        Ok(self.next_round())
                    }
                },
                _ => Err(WatchReply::End(at)),
            },
            WatchReply::Action(action) => match self.phase {
                Phase::LineDelivered => {
                    self.phase = Phase::Repositioning(action);
                    Ok(WatchRequest::SeekTo(self.pos))
                },
                Phase::RotationDelivered => Ok(self.answer(action, true)),
                Phase::FailureDelivered => Ok(self.answer(action, false)),
                _ => Err(WatchReply::Action(action)),
            },
            WatchReply::Ack => match self.phase {
                Phase::Repositioning(action) => Ok(self.answer(action, false)),
                Phase::Retrying => {
                    self.phase = Phase::Probing;
                    Ok(WatchRequest::Probe)
                },
                Phase::Resting => Ok(self.reposition()),
                Phase::Adopting => {
                    self.phase = Phase::RotationDelivered;
                    Ok(WatchRequest::Deliver(Ok(LogWatcherEvent::LogRotation)))
                },
                Phase::Settling => Ok(self.next_round()),
                _ => Err(WatchReply::Ack),
            },
        }
    }
}

} // verus!
