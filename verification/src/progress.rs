//! The watch comes to its end: once the writes are over and the consumer
//! asks to finish on the last event that is due, every exchange brings the
//! end nearer.

use vstd::prelude::*;
use crate::event::{EventView, LogWatcherAction};
use crate::exchange::{ProbeOutcome, ReplyView};
use crate::laws::{line_events, rotation_event, stops_after};
use crate::run::{begin, exchange, lemma_over_stays, run, Run};
use crate::schedule::{
    created, delivered_after_exchange, following, lemma_following_begin, lemma_following_create,
    lemma_following_exchange, lemma_following_unlink, lemma_joined_push, lemma_line_in_content,
    lemma_play_follows, lines_after, never_skips, never_skips_beyond, play, unlinked,
    unread_after_empty_read, writes_lines, written, Move,
};
use crate::watcher::{Phase, WatcherState};
use crate::world::{complete_line, joined, lemma_read_takes_line, World};

verus! {

/// The watcher has applied every answer of the consumer but the one that is
/// pending: it is finished exactly if the consumer's last answer was
/// `Finish`, and a finished watch is on its way out.
pub open spec fn heeding<E>(
    r: Run<E>,
    consumer: spec_fn(Seq<Result<EventView, E>>) -> LogWatcherAction,
) -> bool {
    let asked = r.seen.len() > 0;
    &&& r.over ==> r.watcher.finished
    &&& r.watcher.finished && !r.over ==> r.watcher.phase is Settling
    &&& match r.watcher.phase {
        Phase::LineDelivered | Phase::RotationDelivered | Phase::FailureDelivered => {
            &&& !r.watcher.finished
            &&& asked
            &&& r.reply == ReplyView::<E>::Action(consumer(r.seen))
        },
        Phase::Repositioning(action) => {
            &&& !r.watcher.finished
            &&& asked
            &&& action == consumer(r.seen)
        },
        _ => r.watcher.finished == (asked && consumer(r.seen) is Finish),
    }
}

/// An exchange leaves the watcher heeding its consumer.
pub proof fn lemma_heeding_exchange<E>(
    r: Run<E>,
    consumer: spec_fn(Seq<Result<EventView, E>>) -> LogWatcherAction,
    past: Seq<Result<EventView, E>>,
    origin: u64,
    base: nat,
    first: Seq<Seq<u8>>,
    second: Seq<Seq<u8>>,
    d: nat,
)
    requires
        following(r, past, origin, base, first, second, d),
        heeding(r, consumer),
    ensures
        heeding(exchange(r, consumer), consumer),
{
}

/// Whatever the order of exchanges and writes, the watcher goes on heeding
/// its consumer.
pub proof fn lemma_play_heeds<E>(
    r: Run<E>,
    consumer: spec_fn(Seq<Result<EventView, E>>) -> LogWatcherAction,
    moves: Seq<Move>,
    past: Seq<Result<EventView, E>>,
    origin: u64,
    base: nat,
    first: Seq<Seq<u8>>,
    second: Seq<Seq<u8>>,
    d: nat,
)
    requires
        following(r, past, origin, base, first, second, d),
        heeding(r, consumer),
        never_skips_beyond(consumer, past),
        writes_lines(moves),
        r.world.linked matches Some(identity) ==> r.world.files[identity].len() + joined(
            written(moves),
        ).len() <= u64::MAX,
    ensures
        heeding(play(r, consumer, moves), consumer),
    decreases moves.len(),
{
    if moves.len() > 0 {
        let earlier = moves.drop_last();
        assert(writes_lines(earlier)) by {
            assert forall|i: int| 0 <= i < earlier.len() implies (#[trigger] earlier[i]
                matches Move::Append(bytes) ==> complete_line(bytes)) by {
                assert(earlier[i] == moves[i]);
            }
        }
        match moves.last() {
            Move::Exchange => {},
            Move::Append(line) => {
                lemma_joined_push(written(earlier), line);
            },
        }
        lemma_play_heeds(r, consumer, earlier, past, origin, base, first, second, d);
        let reached = lemma_play_follows(
            r,
            consumer,
            earlier,
            past,
            origin,
            base,
            first,
            second,
            d,
        );
        let (olds, news) = lines_after(r.world.linked, origin, first, second, earlier);
        lemma_heeding_exchange(
            play(r, consumer, earlier),
            consumer,
            past,
            origin,
            base,
            olds,
            news,
            reached,
        );
    }
}

/// What is due to the consumer: the lines of the first file and, with a
/// rotation, the rotation event and the lines of the second file.
pub open spec fn due<E>(first: Seq<Seq<u8>>, second: Seq<Seq<u8>>, rotates: bool) -> Seq<
    Result<EventView, E>,
> {
    if rotates {
        line_events::<E>(first) + seq![rotation_event::<E>()] + line_events::<E>(second)
    } else {
        line_events::<E>(first)
    }
}

/// The path names a file. With a rotation, it names another file than
/// `origin`, which the watcher has turned to or is still to find; without,
/// it names `origin`, which holds lines to deliver.
pub open spec fn written_out<E>(r: Run<E>, origin: u64, first: Seq<Seq<u8>>, rotates: bool) -> bool {
    if rotates {
        r.world.linked is Some && (r.world.open != origin || r.world.linked != Some(
            r.world.open,
        ))
    } else {
        r.world.linked == Some(r.world.open) && r.world.open == origin && first.len() > 0
    }
}

/// How many exchanges the watch still takes, once the writes are over and
/// the consumer asks to finish on the last event that is due: three for each
/// line that is left, five to find and announce the new file, one to leave,
/// and what the round under way adds to or takes from that.
pub open spec fn exchanges_left<E>(
    r: Run<E>,
    origin: u64,
    first: Seq<Seq<u8>>,
    second: Seq<Seq<u8>>,
    d: nat,
) -> int {
    let adopted = r.world.open != origin;
    let same = r.world.linked == Some(r.world.open);
    let lines = if adopted {
        second
    } else {
        first
    };
    let tail = if !adopted && !same {
        5 + 3 * second.len()
    } else {
        0
    };
    let round = 3 * (lines.len() - d) + tail + 1;
    if r.over {
        0
    } else {
        match (r.watcher.phase, r.reply) {
            (Phase::Reading, ReplyView::Read { len, .. }) => if len == 0 && same {
                round + 3
            } else {
                round - 1
            },
            (Phase::LineDelivered, _) => round + 1,
            (Phase::RotationDelivered, _) => round + 1,
            (Phase::Adopting, _) => round + 2,
            (Phase::Probing, ReplyView::Probed(ProbeOutcome::Opened(identity))) => if identity
                == r.watcher.identity {
                round + 2
            } else {
                round - 2
            },
            (Phase::Retrying, _) => round - 1,
            (Phase::Resting, _) => round + 1,
            _ => round,
        }
    }
}

/// What the consumer has seen is a front part of what is due, and all of it
/// exactly if the consumer's answer to it is `Finish`.
pub proof fn lemma_seen_of_due<E>(
    r: Run<E>,
    consumer: spec_fn(Seq<Result<EventView, E>>) -> LogWatcherAction,
    origin: u64,
    base: nat,
    first: Seq<Seq<u8>>,
    second: Seq<Seq<u8>>,
    d: nat,
    rotates: bool,
)
    requires
        following(r, Seq::empty(), origin, base, first, second, d),
        never_skips(consumer),
        stops_after(consumer, due::<E>(first, second, rotates)),
        written_out(r, origin, first, rotates),
    ensures
        r.seen.len() <= due::<E>(first, second, rotates).len(),
        r.seen == due::<E>(first, second, rotates).take(r.seen.len() as int),
        r.seen.len() > 0 ==> (consumer(r.seen) is Finish <==> r.seen == due::<E>(
            first,
            second,
            rotates,
        )),
        r.seen.len() > 0 && !(consumer(r.seen) is Finish) ==> consumer(r.seen)
            == LogWatcherAction::Continue,
        r.seen.len() == due::<E>(first, second, rotates).len() ==> r.seen == due::<E>(
            first,
            second,
            rotates,
        ),
        due::<E>(first, second, rotates).len() == (if rotates {
            first.len() + 1 + second.len()
        } else {
            first.len()
        }),
        r.seen.len() == (if r.world.open == origin {
            d
        } else if !r.over && r.watcher.phase is Adopting {
            first.len()
        } else {
            first.len() + 1 + d
        }),
{
    let expected = due::<E>(first, second, rotates);
    let nothing = Seq::<Result<EventView, E>>::empty();
    let olds = line_events::<E>(first);
    let news = line_events::<E>(second);
    if r.world.open == origin {
        assert(r.seen =~= nothing + (nothing + olds.take(d as int)));
        assert(r.seen =~= expected.take(d as int));
    } else if !r.over && r.watcher.phase is Adopting {
        assert(r.seen =~= nothing + olds);
        assert(r.seen =~= expected.take(first.len() as int));
    } else {
        assert(r.seen =~= nothing + (olds.push(rotation_event()) + news.take(d as int)));
        assert(r.seen =~= expected.take((first.len() + 1 + d) as int));
    }
    assert(expected.take(expected.len() as int) =~= expected);
    assert(!(consumer(r.seen) is SeekToEnd));
}

/// Once the writes are over, an exchange brings the end of the watch nearer
/// by one.
pub proof fn lemma_progress<E>(
    r: Run<E>,
    consumer: spec_fn(Seq<Result<EventView, E>>) -> LogWatcherAction,
    origin: u64,
    base: nat,
    first: Seq<Seq<u8>>,
    second: Seq<Seq<u8>>,
    d: nat,
    rotates: bool,
)
    requires
        following(r, Seq::empty(), origin, base, first, second, d),
        heeding(r, consumer),
        never_skips(consumer),
        stops_after(consumer, due::<E>(first, second, rotates)),
        written_out(r, origin, first, rotates),
        !(r.watcher.phase is Skipping),
        !r.over,
    ensures
        exchanges_left(
            exchange(r, consumer),
            origin,
            first,
            second,
            delivered_after_exchange(r, d),
        ) + 1 == exchanges_left(r, origin, first, second, d),
{
    let next = exchange(r, consumer);
    let adopted = r.world.open != origin;
    let lines = if adopted {
        second
    } else {
        first
    };
    let start: nat = if adopted {
        0
    } else {
        base
    };
    let content = r.world.content();
    let at = start + joined(lines.take(d as int)).len();
    let nothing = Seq::<Result<EventView, E>>::empty();
    assert(never_skips_beyond(consumer, nothing));
    lemma_seen_of_due(r, consumer, origin, base, first, second, d, rotates);
    lemma_following_exchange(r, consumer, nothing, origin, base, first, second, d);
    if d < lines.len() {
        lemma_line_in_content(content, start, lines, d as int);
        lemma_read_takes_line(content, at as int, lines[d as int]);
    } else {
        assert(lines.take(d as int) =~= lines);
    }
}

/// Once the writes are over, the watch is over after as many exchanges as
/// were left, and after any more; the consumer has then been given exactly
/// what was due.
pub proof fn lemma_run_ends<E>(
    r: Run<E>,
    consumer: spec_fn(Seq<Result<EventView, E>>) -> LogWatcherAction,
    origin: u64,
    base: nat,
    first: Seq<Seq<u8>>,
    second: Seq<Seq<u8>>,
    d: nat,
    rotates: bool,
    exchanges: nat,
)
    requires
        following(r, Seq::empty(), origin, base, first, second, d),
        heeding(r, consumer),
        never_skips(consumer),
        stops_after(consumer, due::<E>(first, second, rotates)),
        written_out(r, origin, first, rotates),
        !(r.watcher.phase is Skipping),
        exchanges >= exchanges_left(r, origin, first, second, d),
    ensures
        run(r, consumer, exchanges).over,
        !run(r, consumer, exchanges).stuck,
        run(r, consumer, exchanges).seen == due::<E>(first, second, rotates),
    decreases exchanges,
{
    if r.over {
        lemma_over_stays(r, consumer, exchanges);
        lemma_seen_of_due(r, consumer, origin, base, first, second, d, rotates);
    } else {
        let nothing = Seq::<Result<EventView, E>>::empty();
        assert(never_skips_beyond(consumer, nothing));
        lemma_progress(r, consumer, origin, base, first, second, d, rotates);
        lemma_following_exchange(r, consumer, nothing, origin, base, first, second, d);
        lemma_heeding_exchange(r, consumer, nothing, origin, base, first, second, d);
        lemma_run_ends(
            exchange(r, consumer),
            consumer,
            origin,
            base,
            first,
            second,
            delivered_after_exchange(r, d),
            rotates,
            (exchanges - 1) as nat,
        );
    }
}

/// Lines that are appended while the watcher runs, at whatever moments, all
/// reach the consumer: when the consumer asks to finish on the last of them,
/// the watch is over at most three exchanges for each line and four more
/// after the last write, and the consumer has been given exactly these
/// lines, in the order in which they were written.
pub proof fn law_written_lines_all_delivered<E>(
    watcher: WatcherState,
    world: World,
    consumer: spec_fn(Seq<Result<EventView, E>>) -> LogWatcherAction,
    moves: Seq<Move>,
    more: nat,
)
    requires
        watcher.phase is Idle,
        !watcher.finished,
        world.sound(),
        world.linked == Some(world.open),
        world.open == watcher.identity,
        world.offset == watcher.cursor,
        world.exhausted(),
        writes_lines(moves),
        written(moves).len() > 0,
        world.content().len() + joined(written(moves)).len() <= u64::MAX,
        never_skips(consumer),
        stops_after(consumer, line_events::<E>(written(moves))),
        more >= 3 * written(moves).len() + 4,
    ensures
        ({
            let end = run(play(begin(watcher, world), consumer, moves), consumer, more);
            &&& end.over
            &&& !end.stuck
            &&& end.seen == line_events::<E>(written(moves))
        }),
{
    let none = Seq::<Seq<u8>>::empty();
    let origin = world.open;
    let base = world.content().len();
    let nothing = Seq::<Result<EventView, E>>::empty();
    let start = begin::<E>(watcher, world);
    lemma_following_begin::<E>(watcher, world);
    assert(never_skips_beyond(consumer, nothing));
    let d = lemma_play_follows(start, consumer, moves, nothing, origin, base, none, none, 0);
    lemma_play_heeds(start, consumer, moves, nothing, origin, base, none, none, 0);
    assert(none + written(moves) =~= written(moves));
    let quiet = play(start, consumer, moves);
    assert(quiet.world.open == origin);
    lemma_run_ends(quiet, consumer, origin, base, written(moves), none, d, false, more);
}

/// Rotation, whenever the writes happen: everything reaches the consumer.
/// Lines are appended to the watched file while the watcher runs, the file
/// is taken away from the path, a new file is created there, and further
/// lines are appended to it while the watcher runs on. Provided the watcher
/// was not left, at the moment the file was taken away, with an empty read
/// behind it and unread lines before it, and the consumer asks to finish on
/// the last event that is due, the watch is over at most three exchanges for
/// each line and eight more after the last write, and the consumer has been
/// given exactly: the lines of the old file in the order written, one
/// rotation event, the lines of the new file in the order written.
pub proof fn law_rotation_all_delivered<E>(
    watcher: WatcherState,
    world: World,
    consumer: spec_fn(Seq<Result<EventView, E>>) -> LogWatcherAction,
    before: Seq<Move>,
    between: Seq<Move>,
    fresh: u64,
    after: Seq<Move>,
    more: nat,
)
    requires
        watcher.phase is Idle,
        !watcher.finished,
        world.sound(),
        world.linked == Some(world.open),
        world.open == watcher.identity,
        world.offset == watcher.cursor,
        world.exhausted(),
        never_skips(consumer),
        writes_lines(before),
        writes_lines(between),
        writes_lines(after),
        world.content().len() + joined(written(before)).len() <= u64::MAX,
        joined(written(after)).len() <= u64::MAX,
        !world.files.dom().contains(fresh),
        !unread_after_empty_read(play(begin(watcher, world), consumer, before)),
        stops_after(
            consumer,
            line_events::<E>(written(before)) + seq![rotation_event::<E>()] + line_events::<E>(
                written(after),
            ),
        ),
        more >= 3 * (written(before).len() + written(after).len()) + 8,
    ensures
        ({
            let parted = play(begin(watcher, world), consumer, before);
            let missing = play(Run { world: unlinked(parted.world), ..parted }, consumer, between);
            let quiet = play(
                Run { world: created(missing.world, fresh), ..missing },
                consumer,
                after,
            );
            let end = run(quiet, consumer, more);
            &&& end.over
            &&& !end.stuck
            &&& end.seen == line_events::<E>(written(before)) + seq![rotation_event::<E>()]
                + line_events::<E>(written(after))
        }),
{
    let none = Seq::<Seq<u8>>::empty();
    let origin = world.open;
    let base = world.content().len();
    let nothing = Seq::<Result<EventView, E>>::empty();
    let start = begin::<E>(watcher, world);
    lemma_following_begin::<E>(watcher, world);
    assert(never_skips_beyond(consumer, nothing));
    let d1 = lemma_play_follows(start, consumer, before, nothing, origin, base, none, none, 0);
    lemma_play_heeds(start, consumer, before, nothing, origin, base, none, none, 0);
    let parted = play(start, consumer, before);
    let first = written(before);
    assert(none + first =~= first);
    lemma_following_unlink(parted, nothing, origin, base, first, d1);
    let gone = Run { world: unlinked(parted.world), ..parted };
    let d2 = lemma_play_follows(gone, consumer, between, nothing, origin, base, first, none, d1);
    lemma_play_heeds(gone, consumer, between, nothing, origin, base, first, none, d1);
    let missing = play(gone, consumer, between);
    lemma_following_create(missing, nothing, origin, base, first, d2, fresh);
    let back = Run { world: created(missing.world, fresh), ..missing };
    let d3 = lemma_play_follows(back, consumer, after, nothing, origin, base, first, none, d2);
    lemma_play_heeds(back, consumer, after, nothing, origin, base, first, none, d2);
    let quiet = play(back, consumer, after);
    let second = written(after);
    assert(none + second =~= second);
    lemma_run_ends(quiet, consumer, origin, base, first, second, d3, true, more);
}

} // verus!
