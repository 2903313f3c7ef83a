//! Whole watches against files held in memory.

use logwatcher::{
    LogWatcher, LogWatcherAction, LogWatcherEvent, ProbeOutcome, WatchReply, WatchRequest,
};
use std::collections::HashMap;

/// Files held in memory, a path that names one of them, and a reader.
struct Disk {
    files: HashMap<u64, Vec<u8>>,
    linked: Option<u64>,
    open: u64,
    offset: usize,
    probed: Option<u64>,
    waited: u64,
    /// The reply that the watcher gets next.
    pending: Option<WatchReply<String>>,
}

impl Disk {
    /// One file, with this identity and content, at the path.
    fn with_file(identity: u64, content: &[u8]) -> Disk {
        let mut files = HashMap::new();
        files.insert(identity, content.to_vec());
        Disk {
            files,
            linked: Some(identity),
            open: identity,
            offset: 0,
            probed: None,
            waited: 0,
            pending: Some(WatchReply::Begin),
        }
    }

    /// Registers a watcher on the file at the path and puts the reader at its cursor.
    fn register(&mut self, name: &str) -> LogWatcher {
        let identity = self.linked.unwrap();
        let len = self.files[&identity].len() as u64;
        let watcher = LogWatcher::register(String::from(name), identity, len);
        self.open = identity;
        self.offset = watcher.position() as usize;
        watcher
    }

    /// Appends to the file at the path.
    fn append(&mut self, bytes: &[u8]) {
        let identity = self.linked.unwrap();
        self.files.get_mut(&identity).unwrap().extend_from_slice(bytes);
    }

    /// Moves the file at the path away.
    fn rename_away(&mut self) {
        self.linked = None;
    }

    /// Creates an empty file with this identity at the path.
    fn create(&mut self, identity: u64) {
        self.files.insert(identity, Vec::new());
        self.linked = Some(identity);
    }

    fn read_line(&mut self) -> WatchReply<String> {
        let content = &self.files[&self.open];
        let start = self.offset.min(content.len());
        let mut end = start;
        while end < content.len() {
            end += 1;
            if content[end - 1] == b'\n' {
                break;
            }
        }
        let taken = content[start..end].to_vec();
        self.offset = end;
        match String::from_utf8(taken) {
            Ok(line) => WatchReply::Read { len: (end - start) as u64, line },
            Err(_) => WatchReply::ReadFailed(String::from("stream did not contain valid UTF-8")),
        }
    }

    /// Carries out every request but a delivery.
    fn serve(&mut self, request: &WatchRequest<String>) -> WatchReply<String> {
        match request {
            WatchRequest::ReadLine => self.read_line(),
            WatchRequest::SeekTo(at) => {
                self.offset = *at as usize;
                WatchReply::Ack
            }
            WatchRequest::SeekToEnd => {
                self.offset = self.files[&self.open].len();
                WatchReply::End(self.offset as u64)
            }
            WatchRequest::Probe => match self.linked {
                Some(identity) => {
                    self.probed = Some(identity);
                    WatchReply::Probed(ProbeOutcome::Opened(identity))
                }
                None => WatchReply::Probed(ProbeOutcome::NotFound),
            },
            WatchRequest::Adopt => {
                self.open = self.probed.unwrap();
                self.offset = 0;
                WatchReply::Ack
            }
            WatchRequest::Backoff(seconds) => {
                self.waited += *seconds;
                WatchReply::Ack
            }
            WatchRequest::Deliver(_) => unreachable!(),
            WatchRequest::Exit => unreachable!(),
        }
    }
}

/// What the consumer was given: `Line(..)`, `Rotation` or `Error(..)`, as text.
fn label(item: &Result<LogWatcherEvent, String>) -> String {
    match item {
        Ok(LogWatcherEvent::Line(line)) => format!("Line({})", line),
        Ok(LogWatcherEvent::LogRotation) => String::from("Rotation"),
        Err(error) => format!("Error({})", error),
    }
}

/// Runs the watch for at most `limit` more exchanges. Before each exchange
/// `writer` may change the disk; `consumer` answers each delivery. Returns
/// whether the watcher exited.
fn drive(
    watcher: &mut LogWatcher,
    disk: &mut Disk,
    limit: usize,
    writer: &mut dyn FnMut(usize, &mut Disk),
    consumer: &mut dyn FnMut(Result<LogWatcherEvent, String>) -> LogWatcherAction,
) -> bool {
    for exchange in 0..limit {
        writer(exchange, disk);
        let reply = disk.pending.take().unwrap();
        let request = match watcher.watch(reply) {
            Ok(request) => request,
            Err(refused) => panic!("the watcher refused {:?}", refused),
        };
        let reply = match request {
            WatchRequest::Exit => {
                disk.pending = Some(WatchReply::Begin);
                return true;
            }
            WatchRequest::Deliver(item) => WatchReply::Action(consumer(item)),
            other => disk.serve(&other),
        };
        disk.pending = Some(reply);
    }
    false
}

fn leave_alone(_exchange: usize, _disk: &mut Disk) {}

#[test]
fn logwatch_renaming() {
    let filename = "logwatcher2_test";
    let mut disk = Disk::with_file(1, b"");
    let mut log_watcher = disk.register(filename);
    for _ in 0..10 {
        disk.append(b"This is a log line\n");
    }
    // Rotation
    disk.rename_away();
    // Appending
    disk.create(2);
    for _ in 0..5 {
        disk.append(b"This is a rotated log line\n");
    }

    let mut num_lines = 0;
    let mut rotations = 0;
    let mut order = Vec::new();
    let exited = drive(&mut log_watcher, &mut disk, 1000, &mut leave_alone, &mut |result| {
        order.push(label(&result));
        match result {
            Ok(event) => match event {
                LogWatcherEvent::Line(line) => {
                    num_lines += 1;
                    println!("Line {}", line);
                }
                LogWatcherEvent::LogRotation => {
                    println!("Logfile rotation");
                    rotations += 1;
                }
            },
            Err(err) => {
                println!("Error {}", err);
            }
        }
        if num_lines >= 15 {
            LogWatcherAction::Finish
        } else {
            LogWatcherAction::Continue
        }
    });
    assert!(exited);
    assert_eq!(num_lines, 15);
    assert_eq!(rotations, 1);
    let mut expected = vec![String::from("Line(This is a log line)"); 10];
    expected.push(String::from("Rotation"));
    expected.extend(vec![String::from("Line(This is a rotated log line)"); 5]);
    assert_eq!(order, expected);
    assert_eq!(log_watcher.inode(), 2);
    assert_eq!(log_watcher.position(), 5 * 27);
    assert_eq!(log_watcher.filename(), "logwatcher2_test");
}

#[test]
fn logwatch_renaming_while_watching() {
    // The same writes, made while the watch is under way.
    let mut disk = Disk::with_file(1, b"");
    let mut watcher = disk.register("logwatcher2_test");
    let mut num_lines = 0;
    let mut rotations = 0;
    let mut order = Vec::new();
    let exited = drive(
        &mut watcher,
        &mut disk,
        1000,
        &mut |exchange, disk| {
            if exchange >= 9 && exchange < 19 {
                disk.append(b"This is a log line\n");
            } else if exchange == 60 {
                disk.rename_away();
            } else if exchange == 70 {
                disk.create(2);
            } else if exchange >= 75 && exchange < 80 {
                disk.append(b"This is a rotated log line\n");
            }
        },
        &mut |result| {
            order.push(label(&result));
            match result {
                Ok(LogWatcherEvent::Line(_)) => num_lines += 1,
                Ok(LogWatcherEvent::LogRotation) => rotations += 1,
                Err(_) => {}
            }
            if num_lines >= 15 {
                LogWatcherAction::Finish
            } else {
                LogWatcherAction::Continue
            }
        },
    );
    assert!(exited);
    assert_eq!(num_lines, 15);
    assert_eq!(rotations, 1);
    let mut expected = vec![String::from("Line(This is a log line)"); 10];
    expected.push(String::from("Rotation"));
    expected.extend(vec![String::from("Line(This is a rotated log line)"); 5]);
    assert_eq!(order, expected);
    assert!(disk.waited > 0);
}

#[test]
fn appended_lines_arrive_in_write_order() {
    let mut disk = Disk::with_file(1, b"");
    let mut watcher = disk.register("x.log");
    disk.append(b"first\nsecond\n\nfourth, l\xc3\xa4nger\n");
    let mut seen = Vec::new();
    let exited = drive(&mut watcher, &mut disk, 100, &mut leave_alone, &mut |item| {
        seen.push(label(&item));
        if seen.len() == 4 {
            LogWatcherAction::Finish
        } else {
            LogWatcherAction::Continue
        }
    });
    assert!(exited);
    assert_eq!(seen, vec!["Line(first)", "Line(second)", "Line()", "Line(fourth, l\u{e4}nger)"]);
    assert_eq!(watcher.position(), 6 + 7 + 1 + 16);
    assert!(watcher.is_finished());
}

#[test]
fn n_lines_take_three_exchanges_each_and_one_to_exit() {
    for n in 1..6usize {
        let mut disk = Disk::with_file(1, b"old\n");
        let mut watcher = disk.register("x.log");
        for i in 0..n {
            disk.append(format!("line {}\n", i).as_bytes());
        }
        let mut count = 0;
        let mut answer = |_item: Result<LogWatcherEvent, String>| {
            count += 1;
            if count == n {
                LogWatcherAction::Finish
            } else {
                LogWatcherAction::Continue
            }
        };
        assert!(!drive(&mut watcher, &mut disk, 3 * n, &mut leave_alone, &mut answer));
        let mut disk = Disk::with_file(1, b"old\n");
        let mut watcher = disk.register("x.log");
        for i in 0..n {
            disk.append(format!("line {}\n", i).as_bytes());
        }
        let mut count = 0;
        let mut answer = |_item: Result<LogWatcherEvent, String>| {
            count += 1;
            if count == n {
                LogWatcherAction::Finish
            } else {
                LogWatcherAction::Continue
            }
        };
        assert!(drive(&mut watcher, &mut disk, 3 * n + 1, &mut leave_alone, &mut answer));
        assert_eq!(count, n);
    }
}

#[test]
fn registration_skips_what_the_file_holds() {
    let mut disk = Disk::with_file(1, b"old one\nold two\n");
    let mut watcher = disk.register("x.log");
    assert_eq!(watcher.position(), 16);
    let mut seen = Vec::new();
    let exited = drive(&mut watcher, &mut disk, 400, &mut leave_alone, &mut |item| {
        seen.push(label(&item));
        LogWatcherAction::Continue
    });
    assert!(!exited);
    assert!(seen.is_empty());

    disk.append(b"new\n");
    let exited = drive(&mut watcher, &mut disk, 400, &mut leave_alone, &mut |item| {
        seen.push(label(&item));
        LogWatcherAction::Finish
    });
    assert!(exited);
    assert_eq!(seen, vec!["Line(new)"]);
}

#[test]
fn rotation_comes_between_the_old_lines_and_the_new() {
    let mut disk = Disk::with_file(11, b"before\n");
    let mut watcher = disk.register("x.log");
    disk.append(b"a\nb\nc\n");
    disk.rename_away();
    disk.create(12);
    disk.append(b"d\ne\n");
    let mut seen = Vec::new();
    let exited = drive(&mut watcher, &mut disk, 3 * 3 + 5 + 3 * 2 + 1, &mut leave_alone, &mut |item| {
        seen.push(label(&item));
        if seen.len() == 6 {
            LogWatcherAction::Finish
        } else {
            LogWatcherAction::Continue
        }
    });
    assert!(exited);
    assert_eq!(seen, vec!["Line(a)", "Line(b)", "Line(c)", "Rotation", "Line(d)", "Line(e)"]);
    assert_eq!(watcher.inode(), 12);
    assert_eq!(watcher.position(), 4);
}

#[test]
fn rotation_to_an_empty_file_is_announced_once() {
    let mut disk = Disk::with_file(11, b"");
    let mut watcher = disk.register("x.log");
    disk.rename_away();
    disk.create(12);
    let mut seen = Vec::new();
    let exited = drive(&mut watcher, &mut disk, 500, &mut leave_alone, &mut |item| {
        seen.push(label(&item));
        LogWatcherAction::Continue
    });
    assert!(!exited);
    assert_eq!(seen, vec!["Rotation"]);
}

#[test]
fn nothing_happens_without_writes() {
    let mut disk = Disk::with_file(1, b"all of this is old\n");
    let mut watcher = disk.register("x.log");
    let mut deliveries = 0;
    let exited = drive(&mut watcher, &mut disk, 4000, &mut leave_alone, &mut |_item| {
        deliveries += 1;
        LogWatcherAction::Continue
    });
    assert!(!exited);
    assert_eq!(deliveries, 0);
    assert_eq!(watcher.position(), 19);
    assert_eq!(watcher.inode(), 1);
    // One wait in every round of four exchanges.
    assert_eq!(disk.waited, 1000);
}

#[test]
fn a_missing_path_is_waited_for() {
    let mut disk = Disk::with_file(1, b"");
    let mut watcher = disk.register("x.log");
    disk.rename_away();
    let mut deliveries = 0;
    let exited = drive(
        &mut watcher,
        &mut disk,
        600,
        &mut |exchange, disk| {
            if exchange == 300 {
                disk.create(2);
                disk.append(b"back\n");
            }
        },
        &mut |item| {
            deliveries += 1;
            match item {
                Ok(LogWatcherEvent::Line(line)) => {
                    assert_eq!(line, "back");
                    LogWatcherAction::Finish
                }
                _ => LogWatcherAction::Continue,
            }
        },
    );
    assert!(exited);
    assert_eq!(deliveries, 2);
    assert!(disk.waited >= 100);
}

#[test]
fn seek_to_end_discards_what_was_not_read() {
    let mut disk = Disk::with_file(1, b"");
    let mut watcher = disk.register("x.log");
    disk.append(b"earlier\nnever delivered\nnor this\n");
    let mut seen = Vec::new();
    let exited = drive(&mut watcher, &mut disk, 400, &mut leave_alone, &mut |item| {
        seen.push(label(&item));
        LogWatcherAction::SeekToEnd
    });
    assert!(!exited);
    assert_eq!(seen, vec!["Line(earlier)"]);
    assert_eq!(watcher.position(), 33);

    // What is written afterwards is delivered again.
    disk.append(b"later\n");
    let exited = drive(&mut watcher, &mut disk, 400, &mut leave_alone, &mut |item| {
        seen.push(label(&item));
        LogWatcherAction::Finish
    });
    assert!(exited);
    assert_eq!(seen, vec!["Line(earlier)", "Line(later)"]);
    assert_eq!(watcher.position(), 39);
}

#[test]
fn bytes_that_are_no_text_come_as_an_error_and_the_watch_goes_on() {
    let mut disk = Disk::with_file(1, b"");
    let mut watcher = disk.register("x.log");
    disk.append(b"\xff\xfe\n");
    let mut seen = Vec::new();
    let exited = drive(&mut watcher, &mut disk, 50, &mut leave_alone, &mut |item| {
        seen.push(label(&item));
        LogWatcherAction::Finish
    });
    assert!(exited);
    assert_eq!(seen, vec!["Error(stream did not contain valid UTF-8)"]);
    assert_eq!(watcher.position(), 0);
}

#[test]
fn a_line_written_between_an_empty_read_and_the_rotation_is_lost() {
    let mut disk = Disk::with_file(1, b"");
    let mut watcher = disk.register("x.log");
    let mut seen = Vec::new();
    // One exchange: the read finds nothing.
    assert!(!drive(&mut watcher, &mut disk, 1, &mut leave_alone, &mut |item| {
        seen.push(label(&item));
        LogWatcherAction::Continue
    }));
    disk.append(b"lost\n");
    disk.rename_away();
    disk.create(2);
    disk.append(b"kept\n");
    let exited = drive(&mut watcher, &mut disk, 500, &mut leave_alone, &mut |item| {
        seen.push(label(&item));
        LogWatcherAction::Continue
    });
    assert!(!exited);
    assert_eq!(seen, vec!["Rotation", "Line(kept)"]);
}

#[test]
fn a_line_written_after_an_empty_read_is_read_when_the_rotation_comes_later() {
    let mut disk = Disk::with_file(1, b"");
    let mut watcher = disk.register("x.log");
    let mut seen = Vec::new();
    assert!(!drive(&mut watcher, &mut disk, 1, &mut leave_alone, &mut |item| {
        seen.push(label(&item));
        LogWatcherAction::Continue
    }));
    disk.append(b"late\n");
    // The probe still finds the old file.
    assert!(!drive(&mut watcher, &mut disk, 1, &mut leave_alone, &mut |item| {
        seen.push(label(&item));
        LogWatcherAction::Continue
    }));
    disk.rename_away();
    disk.create(2);
    disk.append(b"kept\n");
    let exited = drive(&mut watcher, &mut disk, 500, &mut leave_alone, &mut |item| {
        seen.push(label(&item));
        LogWatcherAction::Continue
    });
    assert!(!exited);
    assert_eq!(seen, vec!["Line(late)", "Rotation", "Line(kept)"]);
}

#[test]
fn lines_written_while_watching_are_all_delivered_in_time() {
    // Whenever the lines are written, the watch is over three exchanges for
    // each line and four more after the last write.
    for gap in 0..9usize {
        let n = 5;
        let mut disk = Disk::with_file(1, b"held before\n");
        let mut watcher = disk.register("x.log");
        let mut seen = Vec::new();
        let writes_end = 1 + (n - 1) * gap;
        let exited = drive(
            &mut watcher,
            &mut disk,
            writes_end + 3 * n + 4,
            &mut |exchange, disk| {
                for i in 0..n {
                    if exchange == i * gap && (gap > 0 || i == 0) {
                        if gap == 0 {
                            for j in 0..n {
                                disk.append(format!("line {}\n", j).as_bytes());
                            }
                        } else {
                            disk.append(format!("line {}\n", i).as_bytes());
                        }
                    }
                }
            },
            &mut |item| {
                seen.push(label(&item));
                if seen.len() == n {
                    LogWatcherAction::Finish
                } else {
                    LogWatcherAction::Continue
                }
            },
        );
        assert!(exited);
        assert_eq!(seen, vec!["Line(line 0)", "Line(line 1)", "Line(line 2)", "Line(line 3)", "Line(line 4)"]);
        assert_eq!(watcher.position(), 12 + 5 * 7);
    }
}

#[test]
fn a_rotation_while_watching_is_delivered_in_time() {
    for gap in 1..7usize {
        let mut disk = Disk::with_file(1, b"");
        let mut watcher = disk.register("x.log");
        let mut seen = Vec::new();
        let exited = drive(
            &mut watcher,
            &mut disk,
            5 * gap + 3 * 4 + 8,
            &mut |exchange, disk| {
                if exchange == 0 {
                    disk.append(b"a\nb\n");
                } else if exchange == 3 * gap {
                    disk.rename_away();
                } else if exchange == 4 * gap {
                    disk.create(2);
                } else if exchange == 5 * gap {
                    disk.append(b"c\nd\n");
                }
            },
            &mut |item| {
                seen.push(label(&item));
                if seen.len() == 5 {
                    LogWatcherAction::Finish
                } else {
                    LogWatcherAction::Continue
                }
            },
        );
        assert!(exited);
        assert_eq!(seen, vec!["Line(a)", "Line(b)", "Rotation", "Line(c)", "Line(d)"]);
    }
}
