//! What a consumer observes when the watcher runs in the model world.

use vstd::prelude::*;
use vstd::utf8::{
    char_u32_cast, decode_utf8, decode_utf8_split, is_char_boundary_iff_not_is_continuation_byte,
    pop_first_scalar, valid_utf8, valid_utf8_split,
};
use crate::event::{without_newline, EventView, LogWatcherAction};
use crate::exchange::{ProbeOutcome, ReplyView, RequestView};
use crate::run::{begin, exchange, lemma_over_stays, lemma_run_split, poised, run, Run};
use crate::watcher::{accepts, registered, step, Phase, WatcherState};
use crate::world::{
    complete_line, complete_lines, joined, lemma_read_takes_line, World, NEWLINE,
};

verus! {

/// The event that a line of the file gives: its text without the newline.
pub open spec fn line_event(line: Seq<u8>) -> EventView {
    EventView::Line(without_newline(decode_utf8(line)))
}

/// The event of a line carries what was written without the newline: its
/// text is the text that the bytes before the line's newline encode.
pub proof fn law_line_event_is_text_before_newline(line: Seq<u8>)
    requires
        complete_line(line),
    ensures
        valid_utf8(line.drop_last()),
        line_event(line) == EventView::Line(decode_utf8(line.drop_last())),
{
    let n = line.len() - 1;
    let text = line.subrange(0, n);
    let end = line.subrange(n, line.len() as int);
    is_char_boundary_iff_not_is_continuation_byte(line, n);
    valid_utf8_split(line, n);
    decode_utf8_split(line, n);
    assert(text =~= line.drop_last());
    assert(end =~= seq![NEWLINE]);
    assert(decode_utf8(end) =~= seq!['\n']) by {
        reveal_with_fuel(valid_utf8, 2);
        reveal_with_fuel(decode_utf8, 2);
        assert(0x0Au8 & 0x7F == 0x0Au8) by (bit_vector);
        assert(pop_first_scalar(end) =~= Seq::<u8>::empty());
        char_u32_cast('\n', 0x0Au32);
    }
    assert(decode_utf8(line) =~= decode_utf8(text).push('\n'));
    assert(without_newline(decode_utf8(line)) =~= decode_utf8(text));
}

/// The events that `lines` give, in order.
pub open spec fn line_events<E>(lines: Seq<Seq<u8>>) -> Seq<Result<EventView, E>> {
    Seq::new(lines.len(), |i: int| Ok(line_event(lines[i])))
}

/// The rotation event as the consumer is given it.
pub open spec fn rotation_event<E>() -> Result<EventView, E> {
    Ok(EventView::LogRotation)
}

/// The consumer goes on while it has seen less than `expected`, and asks to
/// finish once it has seen all of it.
pub open spec fn stops_after<E>(
    consumer: spec_fn(Seq<Result<EventView, E>>) -> LogWatcherAction,
    expected: Seq<Result<EventView, E>>,
) -> bool {
    &&& forall|k: int|
        0 < k < expected.len() ==> consumer(#[trigger] expected.take(k))
            == LogWatcherAction::Continue
    &&& consumer(expected) == LogWatcherAction::Finish
}

/// The path names the file that is open, or none: it was not rotated.
pub open spec fn unrotated(world: World) -> bool {
    world.linked is None || world.linked == Some(world.open)
}

/// The watch right after the line at the reader was read, delivered and
/// answered, and the reader put behind it.
pub open spec fn after_line<E>(
    r: Run<E>,
    consumer: spec_fn(Seq<Result<EventView, E>>) -> LogWatcherAction,
    line: Seq<u8>,
) -> Run<E> {
    let seen = r.seen.push(Ok(line_event(line)));
    let at = (r.watcher.cursor + line.len()) as u64;
    Run {
        watcher: WatcherState {
            cursor: at,
            phase: Phase::Repositioning(consumer(seen)),
            ..r.watcher
        },
        world: World { offset: at as nat, ..r.world },
        seen,
        reply: ReplyView::Ack,
        over: false,
        stuck: false,
    }
}

/// The same after several lines.
pub open spec fn after_lines<E>(
    r: Run<E>,
    consumer: spec_fn(Seq<Result<EventView, E>>) -> LogWatcherAction,
    lines: Seq<Seq<u8>>,
) -> Run<E> {
    let seen = r.seen + line_events(lines);
    let at = (r.watcher.cursor + joined(lines).len()) as u64;
    Run {
        watcher: WatcherState {
            cursor: at,
            phase: Phase::Repositioning(consumer(seen)),
            ..r.watcher
        },
        world: World { offset: at as nat, ..r.world },
        seen,
        reply: ReplyView::Ack,
        over: false,
        stuck: false,
    }
}

/// The watch right after the file `fresh` was found at the path, adopted,
/// announced and the announcement answered.
pub open spec fn after_rotation<E>(
    r: Run<E>,
    consumer: spec_fn(Seq<Result<EventView, E>>) -> LogWatcherAction,
    fresh: u64,
) -> Run<E> {
    let seen = r.seen.push(rotation_event());
    let answer = consumer(seen);
    let end = r.world.files[fresh].len();
    Run {
        watcher: WatcherState {
            identity: fresh,
            cursor: 0,
            finished: answer is Finish,
            phase: if answer is SeekToEnd {
                Phase::Skipping { rotated: true }
            } else {
                Phase::Settling
            },
            ..r.watcher
        },
        world: World {
            open: fresh,
            offset: if answer is SeekToEnd {
                end
            } else {
                0
            },
            probed: Some(fresh),
            ..r.world
        },
        seen,
        reply: if answer is SeekToEnd {
            ReplyView::End(end as u64)
        } else {
            ReplyView::Ack
        },
        over: false,
        stuck: false,
    }
}

/// Three exchanges deliver the complete line that lies at the reader.
pub proof fn lemma_line_delivered<E>(
    r: Run<E>,
    consumer: spec_fn(Seq<Result<EventView, E>>) -> LogWatcherAction,
    line: Seq<u8>,
)
    requires
        poised(r),
        complete_line(line),
        r.world.offset + line.len() <= r.world.content().len(),
        r.world.content().subrange(
            r.world.offset as int,
            (r.world.offset + line.len()) as int,
        ) == line,
    ensures
        run(r, consumer, 3) == after_line(r, consumer, line),
        consumer(r.seen.push(Ok(line_event(line)))) == LogWatcherAction::Continue ==> poised(
            after_line(r, consumer, line),
        ),
{
    reveal_with_fuel(run, 4);
    lemma_read_takes_line(r.world.content(), r.world.offset as int, line);
    let r1 = exchange(r, consumer);
    assert(r1.reply == ReplyView::<E>::Read { len: line.len() as u64, line: decode_utf8(line) });
    let r2 = exchange(r1, consumer);
    assert(r2.seen == r.seen.push(Ok(line_event(line))));
    let r3 = exchange(r2, consumer);
    assert(r3 == after_line(r, consumer, line));
}

/// Three exchanges for each deliver the complete lines that lie at the
/// reader, while the consumer goes on after each but the last.
pub proof fn lemma_lines_delivered<E>(
    r: Run<E>,
    consumer: spec_fn(Seq<Result<EventView, E>>) -> LogWatcherAction,
    lines: Seq<Seq<u8>>,
)
    requires
        poised(r),
        lines.len() > 0,
        complete_lines(lines),
        r.world.offset + joined(lines).len() <= r.world.content().len(),
        r.world.content().subrange(
            r.world.offset as int,
            (r.world.offset + joined(lines).len()) as int,
        ) == joined(lines),
        forall|k: int|
            0 < k < lines.len() ==> consumer(r.seen + #[trigger] line_events::<E>(lines).take(k))
                == LogWatcherAction::Continue,
    ensures
        run(r, consumer, 3 * lines.len()) == after_lines(r, consumer, lines),
        consumer(r.seen + line_events(lines)) == LogWatcherAction::Continue ==> poised(
            after_lines(r, consumer, lines),
        ),
    decreases lines.len(),
{
    let first = lines.first();
    let rest = lines.drop_first();
    let content = r.world.content();
    let from = r.world.offset as int;
    assert(joined(lines) == first + joined(rest));
    assert(content.subrange(from, from + first.len()) =~= first) by {
        assert(content.subrange(from, from + joined(lines).len()).subrange(0, first.len() as int)
            =~= first);
    }
    lemma_line_delivered(r, consumer, first);
    let next = after_line(r, consumer, first);
    let head: Result<EventView, E> = Ok(line_event(first));
    if rest.len() == 0 {
        assert(joined(rest) =~= Seq::<u8>::empty());
        assert(joined(lines) =~= first);
        assert(r.seen + line_events::<E>(lines) =~= r.seen.push(head));
        assert(3 * lines.len() == 3);
        assert(next == after_lines(r, consumer, lines));
    } else {
        assert(r.seen + line_events::<E>(lines).take(1) =~= r.seen.push(head));
        assert(poised(next));
        assert(content.subrange(from + first.len(), from + first.len() + joined(rest).len())
            =~= joined(rest)) by {
            assert(content.subrange(from, from + joined(lines).len()).subrange(
                first.len() as int,
                joined(lines).len() as int,
            ) =~= joined(rest));
        }
        assert(complete_lines(rest)) by {
            assert forall|i: int| 0 <= i < rest.len() implies complete_line(#[trigger] rest[i]) by {
                assert(rest[i] == lines[i + 1]);
            }
        }
        assert forall|k: int| 0 < k < rest.len() implies consumer(
            next.seen + #[trigger] line_events::<E>(rest).take(k),
        ) == LogWatcherAction::Continue by {
            assert(next.seen + line_events::<E>(rest).take(k) =~= r.seen + line_events::<E>(
                lines,
            ).take(k + 1));
        }
        lemma_lines_delivered(next, consumer, rest);
        lemma_run_split(r, consumer, 3, (3 * rest.len()) as nat);
        assert(3 + 3 * rest.len() == 3 * lines.len());
        assert(next.seen + line_events::<E>(rest) =~= r.seen + line_events::<E>(lines));
        assert(after_lines(next, consumer, rest) == after_lines(r, consumer, lines));
    }
}

/// Five exchanges on a file with nothing left to read, whose path names
/// another file, adopt that file and announce the rotation.
pub proof fn lemma_rotation_announced<E>(
    r: Run<E>,
    consumer: spec_fn(Seq<Result<EventView, E>>) -> LogWatcherAction,
    fresh: u64,
)
    requires
        poised(r),
        r.world.exhausted(),
        r.world.linked == Some(fresh),
        fresh != r.watcher.identity,
    ensures
        run(r, consumer, 5) == after_rotation(r, consumer, fresh),
        consumer(r.seen.push(rotation_event())) == LogWatcherAction::Continue ==> poised(
            after_rotation(r, consumer, fresh),
        ),
{
    reveal_with_fuel(run, 6);
    let r1 = exchange(r, consumer);
    assert(r1.reply == ReplyView::<E>::Read { len: 0, line: Seq::empty() });
    let r2 = exchange(r1, consumer);
    assert(r2.reply == ReplyView::<E>::Probed(ProbeOutcome::Opened(fresh)));
    let r3 = exchange(r2, consumer);
    let r4 = exchange(r3, consumer);
    assert(r4.seen == r.seen.push(rotation_event()));
    let r5 = exchange(r4, consumer);
    assert(r5 == after_rotation(r, consumer, fresh));
}

/// The watcher has nothing to read and the path was not rotated: it stands
/// at the head of a round or somewhere in a fruitless rotation check.
pub open spec fn idling<E>(r: Run<E>) -> bool {
    &&& !r.over
    &&& !r.stuck
    &&& !r.watcher.finished
    &&& r.world.sound()
    &&& r.world.open == r.watcher.identity
    &&& r.world.offset == r.watcher.cursor
    &&& r.world.exhausted()
    &&& unrotated(r.world)
    &&& {
        ||| accepts(r.watcher, r.reply) && step(r.watcher, r.reply) == (
            WatcherState { phase: Phase::Reading, ..r.watcher },
            RequestView::<E>::ReadLine,
        )
        ||| r.watcher.phase is Reading && r.reply == ReplyView::<E>::Read {
            len: 0,
            line: Seq::empty(),
        }
        ||| r.watcher.phase is Probing && r.world.linked is Some && r.reply == ReplyView::<
            E,
        >::Probed(ProbeOutcome::Opened(r.watcher.identity))
        ||| r.watcher.phase is Probing && r.world.linked is None && r.reply == ReplyView::<
            E,
        >::Probed(ProbeOutcome::NotFound)
        ||| r.watcher.phase is Resting && r.reply == ReplyView::<E>::Ack
        ||| r.watcher.phase is Retrying && r.world.linked is None && r.reply == ReplyView::<
            E,
        >::Ack
    }
}

/// An exchange of an idling watcher delivers nothing and leaves it idling,
/// with the same cursor on the same file.
pub proof fn lemma_idling_exchange<E>(
    r: Run<E>,
    consumer: spec_fn(Seq<Result<EventView, E>>) -> LogWatcherAction,
)
    requires
        idling(r),
    ensures
        idling(exchange(r, consumer)),
        exchange(r, consumer).seen == r.seen,
        exchange(r, consumer).watcher.cursor == r.watcher.cursor,
        exchange(r, consumer).watcher.identity == r.watcher.identity,
        exchange(r, consumer).world.files == r.world.files,
        exchange(r, consumer).world.linked == r.world.linked,
{
}

/// Without writes and without a rotation the watcher delivers nothing and
/// never ends, however many exchanges are made: it reads nothing, probes the
/// path, waits, and begins again.
pub proof fn law_idle_without_writes<E>(
    r: Run<E>,
    consumer: spec_fn(Seq<Result<EventView, E>>) -> LogWatcherAction,
    exchanges: nat,
)
    requires
        idling(r),
    ensures
        idling(run(r, consumer, exchanges)),
        run(r, consumer, exchanges).seen == r.seen,
        run(r, consumer, exchanges).watcher.cursor == r.watcher.cursor,
        run(r, consumer, exchanges).watcher.identity == r.watcher.identity,
        run(r, consumer, exchanges).world.files == r.world.files,
        !run(r, consumer, exchanges).over,
        !run(r, consumer, exchanges).stuck,
    decreases exchanges,
{
    if exchanges > 0 {
        lemma_idling_exchange(r, consumer);
        law_idle_without_writes(exchange(r, consumer), consumer, (exchanges - 1) as nat);
    }
}

/// A watcher registered on a file delivers nothing of what the file held at
/// registration: while nothing is appended and the path is not rotated, the
/// consumer is given nothing, however many exchanges are made.
pub proof fn law_registration_skips_existing_content<E>(
    path: Seq<char>,
    world: World,
    consumer: spec_fn(Seq<Result<EventView, E>>) -> LogWatcherAction,
    exchanges: nat,
)
    requires
        world.sound(),
        world.exhausted(),
        unrotated(world),
    ensures
        run(
            begin(registered(path, world.open, world.content().len() as u64), world),
            consumer,
            exchanges,
        ).seen == Seq::<Result<EventView, E>>::empty(),
{
    let r = begin::<E>(registered(path, world.open, world.content().len() as u64), world);
    law_idle_without_writes(r, consumer, exchanges);
}

/// Lines that were appended behind the cursor of an idle watcher reach the
/// consumer one by one, in the order in which they were written, each as the
/// text of the line without its newline, and nothing else does. Once the
/// consumer asks to finish, on the last of them, the watch ends with the
/// cursor at the end of the file; further exchanges change nothing.
pub proof fn law_appended_lines_in_order<E>(
    watcher: WatcherState,
    world: World,
    lines: Seq<Seq<u8>>,
    consumer: spec_fn(Seq<Result<EventView, E>>) -> LogWatcherAction,
    more: nat,
)
    requires
        watcher.phase is Idle,
        !watcher.finished,
        world.sound(),
        world.open == watcher.identity,
        world.offset == watcher.cursor,
        world.offset <= world.content().len(),
        world.content().skip(world.offset as int) == joined(lines),
        lines.len() > 0,
        complete_lines(lines),
        stops_after(consumer, line_events::<E>(lines)),
    ensures
        ({
            let end = run(begin(watcher, world), consumer, 3 * lines.len() + 1);
            &&& end.seen == line_events::<E>(lines)
            &&& end.over
            &&& !end.stuck
            &&& end.watcher.finished
            &&& end.watcher.cursor == world.content().len()
            &&& run(begin(watcher, world), consumer, 3 * lines.len() + 1 + more) == end
        }),
{
    let r = begin::<E>(watcher, world);
    let expected = line_events::<E>(lines);
    assert(r.seen + expected =~= expected);
    assert forall|k: int| 0 < k < lines.len() implies consumer(
        r.seen + #[trigger] line_events::<E>(lines).take(k),
    ) == LogWatcherAction::Continue by {
        assert(r.seen + expected.take(k) =~= expected.take(k));
    }
    assert(world.content().subrange(
        world.offset as int,
        (world.offset + joined(lines).len()) as int,
    ) =~= joined(lines));
    lemma_lines_delivered(r, consumer, lines);
    lemma_finish_after_lines(r, consumer, lines, more);
}

/// One more exchange ends a watch whose consumer asked to finish on the last
/// of `lines`.
proof fn lemma_finish_after_lines<E>(
    r: Run<E>,
    consumer: spec_fn(Seq<Result<EventView, E>>) -> LogWatcherAction,
    lines: Seq<Seq<u8>>,
    more: nat,
)
    requires
        poised(r),
        r.world.offset + joined(lines).len() <= r.world.content().len(),
        run(r, consumer, 3 * lines.len()) == after_lines(r, consumer, lines),
        consumer(r.seen + line_events(lines)) == LogWatcherAction::Finish,
    ensures
        ({
            let end = run(r, consumer, 3 * lines.len() + 1);
            &&& end.seen == r.seen + line_events(lines)
            &&& end.over
            &&& !end.stuck
            &&& end.watcher.finished
            &&& end.watcher.cursor == r.watcher.cursor + joined(lines).len()
            &&& end.watcher.identity == r.watcher.identity
            &&& run(r, consumer, 3 * lines.len() + 1 + more) == end
        }),
{
    reveal_with_fuel(run, 2);
    let last = after_lines(r, consumer, lines);
    lemma_run_split(r, consumer, 3 * lines.len(), 1);
    let end = exchange(last, consumer);
    assert(run(last, consumer, 1) == end);
    lemma_run_split(r, consumer, 3 * lines.len() + 1, more);
    lemma_over_stays(end, consumer, more);
}

/// Rotation: with the lines `first` unread in the open file, and the path
/// naming another file that holds the lines `second`, the consumer is given
/// the lines of `first`, then one rotation event, then the lines of `second`,
/// in this order and nothing else. Once it asks to finish, on the last of
/// them, the watch ends on the new file; further exchanges change nothing.
pub proof fn law_rotation_in_order<E>(
    watcher: WatcherState,
    world: World,
    first: Seq<Seq<u8>>,
    fresh: u64,
    second: Seq<Seq<u8>>,
    consumer: spec_fn(Seq<Result<EventView, E>>) -> LogWatcherAction,
    more: nat,
)
    requires
        watcher.phase is Idle,
        !watcher.finished,
        world.sound(),
        world.open == watcher.identity,
        world.offset == watcher.cursor,
        world.offset <= world.content().len(),
        world.content().skip(world.offset as int) == joined(first),
        complete_lines(first),
        world.linked == Some(fresh),
        fresh != world.open,
        world.files[fresh] == joined(second),
        complete_lines(second),
        stops_after(
            consumer,
            line_events::<E>(first) + seq![rotation_event::<E>()] + line_events::<E>(second),
        ),
    ensures
        ({
            let exchanges = 3 * first.len() + 5 + 3 * second.len() + 1;
            let end = run(begin(watcher, world), consumer, exchanges);
            &&& end.seen == line_events::<E>(first) + seq![rotation_event::<E>()] + line_events::<
                E,
            >(second)
            &&& end.over
            &&& !end.stuck
            &&& end.watcher.finished
            &&& end.watcher.identity == fresh
            &&& end.watcher.cursor == joined(second).len()
            &&& run(begin(watcher, world), consumer, exchanges + more) == end
        }),
{
    let r = begin::<E>(watcher, world);
    let n = first.len();
    let m = second.len();
    let olds = line_events::<E>(first);
    let news = line_events::<E>(second);
    let expected = olds + seq![rotation_event::<E>()] + news;
    assert(expected.len() == n + 1 + m);
    // The lines of the file that is open.
    let drained = if n == 0 {
        r
    } else {
        after_lines(r, consumer, first)
    };
    assert(joined(first).len() == world.content().len() - world.offset);
    if n > 0 {
        assert forall|k: int| 0 < k < n implies consumer(r.seen + #[trigger] olds.take(k))
            == LogWatcherAction::Continue by {
            assert(r.seen + olds.take(k) =~= expected.take(k));
        }
        assert(r.seen + olds =~= expected.take(n as int));
        assert(world.content().subrange(
            world.offset as int,
            (world.offset + joined(first).len()) as int,
        ) =~= joined(first));
        lemma_lines_delivered(r, consumer, first);
    } else {
        assert(joined(first) =~= Seq::<u8>::empty());
    }
    assert(run(r, consumer, 3 * n) == drained);
    assert(poised(drained));
    assert(drained.seen =~= olds);
    assert(drained.world.exhausted());
    // The rotation.
    lemma_rotation_announced(drained, consumer, fresh);
    let turned = after_rotation(drained, consumer, fresh);
    lemma_run_split(r, consumer, 3 * n, 5);
    assert(run(r, consumer, 3 * n + 5) == turned);
    assert(turned.seen =~= expected.take((n + 1) as int));
    assert(turned.seen =~= olds + seq![rotation_event::<E>()]);
    // The lines of the file that the path names now.
    if m > 0 {
        assert(consumer(turned.seen) == LogWatcherAction::Continue);
        assert(poised(turned));
        assert forall|k: int| 0 < k < m implies consumer(turned.seen + #[trigger] news.take(k))
            == LogWatcherAction::Continue by {
            assert(turned.seen + news.take(k) =~= expected.take((n + 1 + k) as int));
        }
        assert(turned.seen + news =~= expected);
        assert(turned.world.content().subrange(
            turned.world.offset as int,
            (turned.world.offset + joined(second).len()) as int,
        ) =~= joined(second));
        lemma_lines_delivered(turned, consumer, second);
        lemma_finish_after_lines(turned, consumer, second, more);
        lemma_run_split(r, consumer, 3 * n + 5, 3 * m + 1);
        lemma_run_split(r, consumer, 3 * n + 5, 3 * m + 1 + more);
    } else {
        assert(news =~= Seq::<Result<EventView, E>>::empty());
        assert(turned.seen =~= expected);
        assert(joined(second) =~= Seq::<u8>::empty());
        reveal_with_fuel(run, 2);
        let end = exchange(turned, consumer);
        assert(run(turned, consumer, 1) == end);
        assert(end.over);
        lemma_run_split(r, consumer, 3 * n + 5, 1);
        lemma_run_split(r, consumer, 3 * n + 5 + 1, more);
        lemma_over_stays(end, consumer, more);
    }
}

/// Four exchanges after the consumer has answered the line at the reader
/// with `SeekToEnd`, the reader stands at the end of its file and the watcher
/// is about to take note of it; the consumer has seen that line and nothing
/// after it.
pub proof fn lemma_seek_to_end_applied<E>(
    r: Run<E>,
    consumer: spec_fn(Seq<Result<EventView, E>>) -> LogWatcherAction,
    line: Seq<u8>,
)
    requires
        poised(r),
        complete_line(line),
        r.world.offset + line.len() <= r.world.content().len(),
        r.world.content().subrange(
            r.world.offset as int,
            (r.world.offset + line.len()) as int,
        ) == line,
        consumer(r.seen.push(Ok(line_event(line)))) == LogWatcherAction::SeekToEnd,
    ensures
        ({
            let skipped = run(r, consumer, 4);
            &&& !skipped.over
            &&& !skipped.stuck
            &&& skipped.watcher == WatcherState {
                cursor: (r.watcher.cursor + line.len()) as u64,
                phase: Phase::Skipping { rotated: false },
                ..r.watcher
            }
            &&& skipped.reply == ReplyView::<E>::End(r.world.content().len() as u64)
            &&& skipped.world == World { offset: r.world.content().len(), ..r.world }
            &&& skipped.seen == r.seen.push(Ok(line_event(line)))
        }),
{
    reveal_with_fuel(run, 2);
    lemma_line_delivered(r, consumer, line);
    let r3 = after_line(r, consumer, line);
    let r4 = exchange(r3, consumer);
    assert(run(r3, consumer, 1) == r4);
    lemma_run_split(r, consumer, 3, 1);
}

/// `SeekToEnd` discards what is unread. When the consumer answers the line
/// at the reader with `SeekToEnd`, whatever the file holds behind that line
/// is never delivered: without further writes and without a rotation, the
/// consumer has seen that one line and nothing after it, however many
/// exchanges are made, and the cursor stands at the end of the file.
pub proof fn law_seek_to_end_discards_unread<E>(
    r: Run<E>,
    consumer: spec_fn(Seq<Result<EventView, E>>) -> LogWatcherAction,
    line: Seq<u8>,
    exchanges: nat,
)
    requires
        poised(r),
        unrotated(r.world),
        complete_line(line),
        r.world.offset + line.len() <= r.world.content().len(),
        r.world.content().subrange(
            r.world.offset as int,
            (r.world.offset + line.len()) as int,
        ) == line,
        consumer(r.seen.push(Ok(line_event(line)))) == LogWatcherAction::SeekToEnd,
        exchanges >= 5,
    ensures
        run(r, consumer, exchanges).seen == r.seen.push(Ok(line_event(line))),
        run(r, consumer, exchanges).watcher.cursor == r.world.content().len(),
        run(r, consumer, exchanges).world.offset == r.world.content().len(),
        !run(r, consumer, exchanges).over,
        !run(r, consumer, exchanges).stuck,
{
    reveal_with_fuel(run, 2);
    lemma_seek_to_end_applied(r, consumer, line);
    let r4 = run(r, consumer, 4);
    let r5 = exchange(r4, consumer);
    assert(run(r4, consumer, 1) == r5);
    lemma_run_split(r, consumer, 4, 1);
    assert(r5.reply == ReplyView::<E>::Read { len: 0, line: Seq::empty() });
    assert(idling(r5));
    lemma_run_split(r, consumer, 5, (exchanges - 5) as nat);
    law_idle_without_writes(r5, consumer, (exchanges - 5) as nat);
}

/// `SeekToEnd` as the answer to a rotation event discards what the new file
/// holds: without further writes and without another rotation, the consumer
/// is given nothing after the rotation event, however many exchanges are
/// made, and the cursor stands at the end of the new file.
pub proof fn law_seek_to_end_discards_new_file<E>(
    r: Run<E>,
    consumer: spec_fn(Seq<Result<EventView, E>>) -> LogWatcherAction,
    fresh: u64,
    exchanges: nat,
)
    requires
        poised(r),
        r.world.exhausted(),
        r.world.linked == Some(fresh),
        fresh != r.watcher.identity,
        consumer(r.seen.push(rotation_event())) == LogWatcherAction::SeekToEnd,
        exchanges >= 6,
    ensures
        run(r, consumer, exchanges).seen == r.seen.push(rotation_event()),
        run(r, consumer, exchanges).watcher.identity == fresh,
        run(r, consumer, exchanges).watcher.cursor == r.world.files[fresh].len(),
        !run(r, consumer, exchanges).over,
        !run(r, consumer, exchanges).stuck,
{
    reveal_with_fuel(run, 2);
    lemma_rotation_announced(r, consumer, fresh);
    let r5 = after_rotation(r, consumer, fresh);
    let r6 = exchange(r5, consumer);
    assert(run(r5, consumer, 1) == r6);
    lemma_run_split(r, consumer, 5, 1);
    assert(idling(r6));
    lemma_run_split(r, consumer, 6, (exchanges - 6) as nat);
    law_idle_without_writes(r6, consumer, (exchanges - 6) as nat);
}

} // verus!
