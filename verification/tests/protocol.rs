//! The watcher exchange by exchange: each reply against the request it yields.

use logwatcher::{
    strip_newline, LogWatcher, LogWatcherAction, LogWatcherEvent, Phase, ProbeOutcome,
    RotationState, WatchReply, WatchRequest, BACKOFF_SECONDS,
};

type Reply = WatchReply<String>;
type Request = WatchRequest<String>;

fn fresh(len: u64) -> LogWatcher {
    LogWatcher::register(String::from("/var/log/app.log"), 7, len)
}

fn ask(watcher: &mut LogWatcher, reply: Reply) -> Request {
    match watcher.watch(reply) {
        Ok(request) => request,
        Err(refused) => panic!("refused {:?} in {:?}", refused, watcher.phase()),
    }
}

fn read(len: u64, line: &str) -> Reply {
    WatchReply::Read { len, line: String::from(line) }
}

fn line(text: &str) -> Request {
    WatchRequest::Deliver(Ok(LogWatcherEvent::Line(String::from(text))))
}

/// A watcher that has just read nothing and asked for a probe.
fn probing(len: u64) -> LogWatcher {
    let mut watcher = fresh(len);
    assert_eq!(ask(&mut watcher, WatchReply::Begin), WatchRequest::ReadLine);
    assert_eq!(ask(&mut watcher, read(0, "")), WatchRequest::Probe);
    watcher
}

/// A watcher that has adopted file 8 and delivered the rotation event.
fn rotated(len: u64) -> LogWatcher {
    let mut watcher = probing(len);
    assert_eq!(
        ask(&mut watcher, WatchReply::Probed(ProbeOutcome::Opened(8))),
        WatchRequest::Adopt
    );
    assert_eq!(
        ask(&mut watcher, WatchReply::Ack),
        WatchRequest::Deliver(Ok(LogWatcherEvent::LogRotation))
    );
    watcher
}

#[test]
fn register_starts_at_the_end_of_the_file() {
    let watcher = fresh(120);
    assert_eq!(watcher.filename(), "/var/log/app.log");
    assert_eq!(watcher.inode(), 7);
    assert_eq!(watcher.position(), 120);
    assert!(!watcher.is_finished());
    assert_eq!(watcher.phase(), Phase::Idle);
    assert_eq!(watcher.rotation_state(), RotationState::Stable);
}

#[test]
fn register_on_an_empty_file_starts_at_zero() {
    let watcher = LogWatcher::register(String::new(), 0, 0);
    assert_eq!(watcher.filename(), "");
    assert_eq!(watcher.position(), 0);
}

#[test]
fn strip_newline_removes_one_trailing_newline() {
    assert_eq!(strip_newline(String::from("This is a log line\n")), "This is a log line");
    assert_eq!(strip_newline(String::from("no newline")), "no newline");
    assert_eq!(strip_newline(String::from("")), "");
    assert_eq!(strip_newline(String::from("\n")), "");
    assert_eq!(strip_newline(String::from("\n\n")), "\n");
    assert_eq!(strip_newline(String::from("a\nb\n")), "a\nb");
    assert_eq!(strip_newline(String::from("dos\r\n")), "dos\r");
    assert_eq!(strip_newline(String::from("gr\u{fc}\u{df}e \u{4e16}\u{754c}\n")), "gr\u{fc}\u{df}e \u{4e16}\u{754c}");
    assert_eq!(strip_newline(String::from("\u{1f980}")), "\u{1f980}");
}

#[test]
fn begin_asks_for_a_line() {
    let mut watcher = fresh(0);
    assert_eq!(ask(&mut watcher, WatchReply::Begin), WatchRequest::ReadLine);
    assert_eq!(watcher.phase(), Phase::Reading);
}

#[test]
fn a_line_moves_the_cursor_and_goes_to_the_consumer() {
    let mut watcher = fresh(100);
    ask(&mut watcher, WatchReply::Begin);
    assert_eq!(ask(&mut watcher, read(19, "This is a log line\n")), line("This is a log line"));
    assert_eq!(watcher.position(), 119);
    assert_eq!(watcher.phase(), Phase::LineDelivered);
    assert_eq!(
        ask(&mut watcher, WatchReply::Action(LogWatcherAction::Continue)),
        WatchRequest::SeekTo(119)
    );
    assert_eq!(watcher.phase(), Phase::Repositioning(LogWatcherAction::Continue));
    assert_eq!(ask(&mut watcher, WatchReply::Ack), WatchRequest::ReadLine);
    assert_eq!(watcher.position(), 119);
    assert!(!watcher.is_finished());
}

#[test]
fn the_cursor_moves_by_the_bytes_read_not_by_the_characters() {
    let mut watcher = fresh(0);
    ask(&mut watcher, WatchReply::Begin);
    // Five characters and a newline, in eight bytes.
    assert_eq!(ask(&mut watcher, read(8, "gr\u{fc}\u{df}e\n")), line("gr\u{fc}\u{df}e"));
    assert_eq!(watcher.position(), 8);
}

#[test]
fn an_unfinished_last_line_is_delivered_whole() {
    let mut watcher = fresh(10);
    ask(&mut watcher, WatchReply::Begin);
    assert_eq!(ask(&mut watcher, read(4, "part")), line("part"));
    assert_eq!(watcher.position(), 14);
}

#[test]
fn finish_ends_the_watch_after_the_reader_is_repositioned() {
    let mut watcher = fresh(0);
    ask(&mut watcher, WatchReply::Begin);
    ask(&mut watcher, read(2, "a\n"));
    assert_eq!(
        ask(&mut watcher, WatchReply::Action(LogWatcherAction::Finish)),
        WatchRequest::SeekTo(2)
    );
    assert!(!watcher.is_finished());
    assert_eq!(ask(&mut watcher, WatchReply::Ack), WatchRequest::Exit);
    assert!(watcher.is_finished());
    assert_eq!(watcher.phase(), Phase::Idle);
    assert_eq!(watcher.position(), 2);
}

#[test]
fn a_finished_watcher_exits_at_once_when_watched_again() {
    let mut watcher = fresh(0);
    ask(&mut watcher, WatchReply::Begin);
    ask(&mut watcher, read(2, "a\n"));
    ask(&mut watcher, WatchReply::Action(LogWatcherAction::Finish));
    ask(&mut watcher, WatchReply::Ack);
    assert_eq!(ask(&mut watcher, WatchReply::Begin), WatchRequest::Exit);
    assert_eq!(ask(&mut watcher, WatchReply::Begin), WatchRequest::Exit);
    assert!(watcher.is_finished());
}

#[test]
fn seek_to_end_after_a_line_moves_the_cursor_to_the_end() {
    let mut watcher = fresh(0);
    ask(&mut watcher, WatchReply::Begin);
    ask(&mut watcher, read(2, "a\n"));
    assert_eq!(
        ask(&mut watcher, WatchReply::Action(LogWatcherAction::SeekToEnd)),
        WatchRequest::SeekTo(2)
    );
    assert_eq!(ask(&mut watcher, WatchReply::Ack), WatchRequest::SeekToEnd);
    assert_eq!(watcher.phase(), Phase::Skipping { rotated: false });
    assert_eq!(watcher.rotation_state(), RotationState::Stable);
    assert_eq!(watcher.position(), 2);
    assert_eq!(ask(&mut watcher, WatchReply::End(57)), WatchRequest::ReadLine);
    assert_eq!(watcher.position(), 57);
    assert!(!watcher.is_finished());
}

#[test]
fn a_read_error_goes_to_the_consumer_and_leaves_the_cursor() {
    let mut watcher = fresh(33);
    ask(&mut watcher, WatchReply::Begin);
    assert_eq!(
        ask(&mut watcher, WatchReply::ReadFailed(String::from("stream did not contain valid UTF-8"))),
        WatchRequest::Deliver(Err(String::from("stream did not contain valid UTF-8")))
    );
    assert_eq!(watcher.position(), 33);
    assert_eq!(watcher.phase(), Phase::FailureDelivered);
    // The watch goes on with the next read, without a reposition.
    assert_eq!(
        ask(&mut watcher, WatchReply::Action(LogWatcherAction::Continue)),
        WatchRequest::ReadLine
    );
    assert_eq!(watcher.position(), 33);
}

#[test]
fn the_answer_to_a_read_error_is_applied() {
    let mut watcher = fresh(33);
    ask(&mut watcher, WatchReply::Begin);
    ask(&mut watcher, WatchReply::ReadFailed(String::from("e")));
    assert_eq!(ask(&mut watcher, WatchReply::Action(LogWatcherAction::Finish)), WatchRequest::Exit);
    assert!(watcher.is_finished());

    let mut watcher = fresh(33);
    ask(&mut watcher, WatchReply::Begin);
    ask(&mut watcher, WatchReply::ReadFailed(String::from("e")));
    assert_eq!(
        ask(&mut watcher, WatchReply::Action(LogWatcherAction::SeekToEnd)),
        WatchRequest::SeekToEnd
    );
    assert_eq!(ask(&mut watcher, WatchReply::End(40)), WatchRequest::ReadLine);
    assert_eq!(watcher.position(), 40);
}

#[test]
fn nothing_read_starts_a_probe() {
    let mut watcher = fresh(5);
    ask(&mut watcher, WatchReply::Begin);
    assert_eq!(ask(&mut watcher, read(0, "")), WatchRequest::Probe);
    assert_eq!(watcher.phase(), Phase::Probing);
    assert_eq!(watcher.rotation_state(), RotationState::Probing);
    assert_eq!(watcher.position(), 5);
}

#[test]
fn the_same_file_at_the_path_costs_a_wait_and_no_event() {
    let mut watcher = probing(5);
    assert_eq!(
        ask(&mut watcher, WatchReply::Probed(ProbeOutcome::Opened(7))),
        WatchRequest::Backoff(1)
    );
    assert_eq!(watcher.phase(), Phase::Resting);
    assert_eq!(watcher.rotation_state(), RotationState::Probing);
    assert_eq!(ask(&mut watcher, WatchReply::Ack), WatchRequest::SeekTo(5));
    assert_eq!(watcher.rotation_state(), RotationState::Stable);
    assert_eq!(ask(&mut watcher, WatchReply::Ack), WatchRequest::ReadLine);
    assert_eq!(watcher.inode(), 7);
    assert_eq!(watcher.position(), 5);
}

#[test]
fn a_missing_path_is_probed_again_after_each_wait() {
    let mut watcher = probing(5);
    for _ in 0..25 {
        assert_eq!(
            ask(&mut watcher, WatchReply::Probed(ProbeOutcome::NotFound)),
            WatchRequest::Backoff(BACKOFF_SECONDS)
        );
        assert_eq!(watcher.phase(), Phase::Retrying);
        assert_eq!(watcher.rotation_state(), RotationState::Probing);
        assert_eq!(ask(&mut watcher, WatchReply::Ack), WatchRequest::Probe);
    }
    assert_eq!(watcher.inode(), 7);
    assert_eq!(watcher.position(), 5);
}

#[test]
fn a_path_that_fails_to_open_is_probed_again_after_each_wait() {
    let mut watcher = probing(5);
    for _ in 0..25 {
        assert_eq!(
            ask(&mut watcher, WatchReply::Probed(ProbeOutcome::Failed)),
            WatchRequest::Backoff(1)
        );
        assert_eq!(ask(&mut watcher, WatchReply::Ack), WatchRequest::Probe);
    }
    assert_eq!(watcher.inode(), 7);
    assert_eq!(watcher.position(), 5);
}

#[test]
fn the_backoff_is_one_second() {
    assert_eq!(BACKOFF_SECONDS, 1);
}

#[test]
fn another_file_at_the_path_is_adopted_and_announced() {
    let mut watcher = probing(500);
    assert_eq!(
        ask(&mut watcher, WatchReply::Probed(ProbeOutcome::Opened(8))),
        WatchRequest::Adopt
    );
    assert_eq!(watcher.inode(), 8);
    assert_eq!(watcher.position(), 0);
    assert_eq!(watcher.phase(), Phase::Adopting);
    assert_eq!(watcher.rotation_state(), RotationState::Rotated);
    assert_eq!(
        ask(&mut watcher, WatchReply::Ack),
        WatchRequest::Deliver(Ok(LogWatcherEvent::LogRotation))
    );
    assert_eq!(watcher.phase(), Phase::RotationDelivered);
    assert_eq!(
        ask(&mut watcher, WatchReply::Action(LogWatcherAction::Continue)),
        WatchRequest::SeekTo(0)
    );
    assert_eq!(watcher.phase(), Phase::Settling);
    assert_eq!(ask(&mut watcher, WatchReply::Ack), WatchRequest::ReadLine);
}

#[test]
fn finish_on_the_rotation_event_ends_the_watch() {
    let mut watcher = rotated(500);
    assert_eq!(
        ask(&mut watcher, WatchReply::Action(LogWatcherAction::Finish)),
        WatchRequest::SeekTo(0)
    );
    assert!(watcher.is_finished());
    assert_eq!(ask(&mut watcher, WatchReply::Ack), WatchRequest::Exit);
}

#[test]
fn seek_to_end_on_the_rotation_event_skips_the_new_file() {
    let mut watcher = rotated(500);
    assert_eq!(
        ask(&mut watcher, WatchReply::Action(LogWatcherAction::SeekToEnd)),
        WatchRequest::SeekToEnd
    );
    assert_eq!(watcher.phase(), Phase::Skipping { rotated: true });
    assert_eq!(watcher.rotation_state(), RotationState::Rotated);
    assert_eq!(ask(&mut watcher, WatchReply::End(135)), WatchRequest::SeekTo(135));
    assert_eq!(watcher.position(), 135);
    assert_eq!(watcher.inode(), 8);
    assert_eq!(ask(&mut watcher, WatchReply::Ack), WatchRequest::ReadLine);
}

#[test]
fn a_reply_that_answers_nothing_is_handed_back() {
    let mut watcher = fresh(5);
    assert_eq!(watcher.watch(WatchReply::Ack), Err::<Request, Reply>(WatchReply::Ack));
    assert_eq!(watcher.watch(read(3, "ab\n")), Err::<Request, Reply>(read(3, "ab\n")));
    assert_eq!(
        watcher.watch(WatchReply::ReadFailed(String::from("e"))),
        Err::<Request, Reply>(WatchReply::ReadFailed(String::from("e")))
    );
    assert_eq!(
        watcher.watch(WatchReply::Probed(ProbeOutcome::Opened(9))),
        Err::<Request, Reply>(WatchReply::Probed(ProbeOutcome::Opened(9)))
    );
    assert_eq!(watcher.watch(WatchReply::End(0)), Err::<Request, Reply>(WatchReply::End(0)));
    assert_eq!(
        watcher.watch(WatchReply::Action(LogWatcherAction::Finish)),
        Err::<Request, Reply>(WatchReply::Action(LogWatcherAction::Finish))
    );
    assert_eq!(watcher.phase(), Phase::Idle);
    assert_eq!(watcher.position(), 5);
    assert_eq!(watcher.inode(), 7);
    assert!(!watcher.is_finished());

    ask(&mut watcher, WatchReply::Begin);
    assert_eq!(watcher.watch(WatchReply::Begin), Err::<Request, Reply>(WatchReply::Begin));
    assert_eq!(watcher.watch(WatchReply::Ack), Err::<Request, Reply>(WatchReply::Ack));
    assert_eq!(watcher.phase(), Phase::Reading);
}

#[test]
fn a_read_that_would_overflow_the_cursor_is_handed_back() {
    let mut watcher = fresh(u64::MAX - 2);
    ask(&mut watcher, WatchReply::Begin);
    assert_eq!(watcher.watch(read(3, "ab\n")), Err::<Request, Reply>(read(3, "ab\n")));
    assert_eq!(watcher.position(), u64::MAX - 2);
    assert_eq!(watcher.phase(), Phase::Reading);
    assert_eq!(ask(&mut watcher, read(2, "a\n")), line("a"));
    assert_eq!(watcher.position(), u64::MAX);
}
