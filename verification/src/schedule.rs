//! A watch during which lines are appended to the watched file: exchanges of
//! the watcher and writes to the file, in any order.

use vstd::prelude::*;
use vstd::utf8::decode_utf8;
use crate::event::{EventView, LogWatcherAction};
use crate::exchange::{ProbeOutcome, ReplyView};
use crate::laws::{line_event, line_events, rotation_event};
use crate::run::{begin, exchange, Run};
use crate::watcher::{Phase, WatcherState};
use crate::world::{complete_line, complete_lines, joined, lemma_read_takes_line, World};

verus! {

/// One thing that happens during a watch.
pub enum Move {
    /// The watcher makes its next exchange.
    Exchange,
    /// These bytes are appended to the file that the path names.
    Append(Seq<u8>),
}

/// The world after the file at the path was renamed away or removed: the
/// path names nothing, and the file itself is as it was.
pub open spec fn unlinked(w: World) -> World {
    World { linked: None, ..w }
}

/// The world after an empty file with the new identity `fresh` was created at
/// the path.
pub open spec fn created(w: World, fresh: u64) -> World {
    World { files: w.files.insert(fresh, Seq::empty()), linked: Some(fresh), ..w }
}

/// The world after `bytes` were appended to the file that the path names.
pub open spec fn appended(w: World, bytes: Seq<u8>) -> World {
    match w.linked {
        Some(identity) => World { files: w.files.insert(identity, w.files[identity] + bytes), ..w },
        None => w,
    }
}

/// The watch after one move.
pub open spec fn advance<E>(
    r: Run<E>,
    consumer: spec_fn(Seq<Result<EventView, E>>) -> LogWatcherAction,
    m: Move,
) -> Run<E> {
    match m {
        Move::Exchange => exchange(r, consumer),
        Move::Append(bytes) => Run { world: appended(r.world, bytes), ..r },
    }
}

/// The watch after `moves`, in their order.
pub open spec fn play<E>(
    r: Run<E>,
    consumer: spec_fn(Seq<Result<EventView, E>>) -> LogWatcherAction,
    moves: Seq<Move>,
) -> Run<E>
    decreases moves.len(),
{
    if moves.len() == 0 {
        r
    } else {
        advance(play(r, consumer, moves.drop_last()), consumer, moves.last())
    }
}

/// What `moves` append, in their order.
pub open spec fn written(moves: Seq<Move>) -> Seq<Seq<u8>>
    decreases moves.len(),
{
    if moves.len() == 0 {
        Seq::empty()
    } else {
        match moves.last() {
            Move::Append(bytes) => written(moves.drop_last()).push(bytes),
            Move::Exchange => written(moves.drop_last()),
        }
    }
}

/// Every write of `moves` appends one complete line.
pub open spec fn writes_lines(moves: Seq<Move>) -> bool {
    forall|i: int|
        0 <= i < moves.len() ==> (#[trigger] moves[i] matches Move::Append(bytes)
            ==> complete_line(bytes))
}

/// The consumer never answers `SeekToEnd`.
pub open spec fn never_skips<E>(
    consumer: spec_fn(Seq<Result<EventView, E>>) -> LogWatcherAction,
) -> bool {
    forall|seen: Seq<Result<EventView, E>>| !(#[trigger] consumer(seen) is SeekToEnd)
}

/// The consumer does not answer `SeekToEnd` once it has seen more than `past`.
pub open spec fn never_skips_beyond<E>(
    consumer: spec_fn(Seq<Result<EventView, E>>) -> LogWatcherAction,
    past: Seq<Result<EventView, E>>,
) -> bool {
    forall|more: Seq<Result<EventView, E>>|
        more.len() > 0 ==> !(#[trigger] consumer(past + more) is SeekToEnd)
}

/// The last read found nothing, and meanwhile the open file has got more. A
/// rotation at this moment loses what was added: the watcher goes on to probe
/// the path without reading again.
pub open spec fn unread_after_empty_read<E>(r: Run<E>) -> bool {
    &&& !r.over
    &&& r.watcher.phase is Reading
    &&& r.reply matches ReplyView::Read { len: 0, .. }
    &&& r.world.offset < r.world.content().len()
}

/// The watcher follows the path through at most one rotation. The file
/// `origin` holds `base` bytes and then the lines `first`; a file that took
/// its place at the path holds the lines `second`. Since it had seen `past`,
/// the consumer was given lines of `first` from the first on, in order, then,
/// once the watcher has turned to the new file, the rotation event and lines
/// of `second` from the first on, in order. `d` counts the lines delivered of
/// the file that is open, and the cursor stands behind exactly these, or is
/// about to be put there together with the reader.
pub open spec fn following<E>(
    r: Run<E>,
    past: Seq<Result<EventView, E>>,
    origin: u64,
    base: nat,
    first: Seq<Seq<u8>>,
    second: Seq<Seq<u8>>,
    d: nat,
) -> bool {
    let adopted = r.world.open != origin;
    let lines = if adopted {
        second
    } else {
        first
    };
    let start = if adopted {
        0
    } else {
        base
    };
    let prior = if adopted {
        line_events::<E>(first).push(rotation_event())
    } else {
        Seq::empty()
    };
    let at = start + joined(lines.take(d as int)).len();
    let same = r.world.linked == Some(r.world.open);
    let drained = d == lines.len();
    &&& !r.stuck
    &&& r.world.sound()
    &&& r.world.open == r.watcher.identity
    &&& r.world.content().len() == start + joined(lines).len()
    &&& r.world.content().skip(start as int) == joined(lines)
    &&& complete_lines(first)
    &&& complete_lines(second)
    &&& d <= lines.len()
    &&& r.over || !(r.watcher.phase is Skipping) ==> r.watcher.cursor == at
    &&& match r.world.linked {
        None => !adopted && second.len() == 0,
        Some(identity) => if identity == r.world.open {
            adopted || second.len() == 0
        } else {
            !adopted && r.world.files[identity] == joined(second)
        },
    }
    &&& if !r.over && r.watcher.phase is Adopting {
        adopted && d == 0 && r.seen == past + line_events::<E>(first)
    } else {
        r.seen == past + (prior + line_events::<E>(lines).take(d as int))
    }
    &&& (r.over || match (r.watcher.phase, r.reply) {
        (Phase::Idle, ReplyView::Begin) => r.world.offset == at,
        (Phase::Reading, ReplyView::Read { len, line }) => if len == 0 {
            r.world.offset == at && (same || drained)
        } else {
            &&& d < lines.len()
            &&& len == lines[d as int].len()
            &&& line == decode_utf8(lines[d as int])
        },
        (Phase::LineDelivered, ReplyView::Action(action)) => !(action is SeekToEnd),
        (Phase::Repositioning(action), ReplyView::Ack) => r.world.offset == at && !(action
            is SeekToEnd),
        (Phase::Probing, ReplyView::Probed(ProbeOutcome::Opened(identity))) => {
            ||| identity == r.watcher.identity
            ||| (drained && !adopted && r.world.linked == Some(identity) && r.world.probed
                == Some(identity))
        },
        (Phase::Probing, ReplyView::Probed(ProbeOutcome::NotFound)) => drained && !same,
        (Phase::Retrying, ReplyView::Ack) => drained && !same,
        (Phase::Resting, ReplyView::Ack) => true,
        (Phase::Adopting, ReplyView::Ack) => adopted,
        (Phase::RotationDelivered, ReplyView::Action(action)) => adopted && !(action
            is SeekToEnd),
        (Phase::Settling, ReplyView::Ack) => r.world.offset == at,
        (Phase::Skipping { .. }, ReplyView::End(end)) => end == at && r.world.offset == at,
        _ => false,
    })
}

/// How many lines of the open file are delivered after the next exchange:
/// one more after a line was read, none after the watcher has turned to
/// another file.
pub open spec fn delivered_after_exchange<E>(r: Run<E>, d: nat) -> nat {
    if r.over {
        d
    } else {
        match (r.watcher.phase, r.reply) {
            (Phase::Reading, ReplyView::Read { len, .. }) => if len > 0 {
                d + 1
            } else {
                d
            },
            (Phase::Probing, ReplyView::Probed(ProbeOutcome::Opened(identity))) => if identity
                != r.watcher.identity {
                0
            } else {
                d
            },
            _ => d,
        }
    }
}

/// The bytes of lines with one more line are the bytes of the lines and then
/// those of the new line.
pub proof fn lemma_joined_push(lines: Seq<Seq<u8>>, line: Seq<u8>)
    ensures
        joined(lines.push(line)) == joined(lines) + line,
    decreases lines.len(),
{
    if lines.len() == 0 {
        assert(lines.push(line).drop_first() =~= Seq::<Seq<u8>>::empty());
        assert(joined(lines.push(line).drop_first()) =~= Seq::<u8>::empty());
        assert(joined(lines.push(line)) =~= line);
        assert(joined(lines) + line =~= line);
    } else {
        assert(lines.push(line).drop_first() =~= lines.drop_first().push(line));
        lemma_joined_push(lines.drop_first(), line);
        assert(joined(lines.push(line)) =~= joined(lines) + line);
    }
}

/// The bytes of the first `k + 1` lines are those of the first `k` and then
/// those of line `k`.
pub proof fn lemma_joined_take_next(lines: Seq<Seq<u8>>, k: int)
    requires
        0 <= k < lines.len(),
    ensures
        joined(lines.take(k + 1)) == joined(lines.take(k)) + lines[k],
{
    assert(lines.take(k + 1) =~= lines.take(k).push(lines[k]));
    lemma_joined_push(lines.take(k), lines[k]);
}

/// The bytes of the first `k` lines stand at the front of the bytes of all.
pub proof fn lemma_joined_take_is_prefix(lines: Seq<Seq<u8>>, k: int)
    requires
        0 <= k <= lines.len(),
    ensures
        joined(lines.take(k)).len() <= joined(lines).len(),
        joined(lines).take(joined(lines.take(k)).len() as int) == joined(lines.take(k)),
    decreases lines.len() - k,
{
    if k == lines.len() {
        assert(lines.take(k) =~= lines);
        assert(joined(lines).take(joined(lines).len() as int) =~= joined(lines));
    } else {
        lemma_joined_take_next(lines, k);
        lemma_joined_take_is_prefix(lines, k + 1);
        assert(joined(lines).take(joined(lines.take(k)).len() as int) =~= joined(lines.take(k)));
    }
}

/// Where line `d` lies in a file that holds `base` bytes and then `lines`.
pub proof fn lemma_line_in_content(content: Seq<u8>, base: nat, lines: Seq<Seq<u8>>, d: int)
    requires
        content.len() == base + joined(lines).len(),
        content.skip(base as int) == joined(lines),
        0 <= d < lines.len(),
    ensures
        ({
            let at = base + joined(lines.take(d)).len();
            &&& joined(lines.take(d + 1)) == joined(lines.take(d)) + lines[d]
            &&& at + lines[d].len() <= content.len()
            &&& content.subrange(at as int, (at + lines[d].len()) as int) == lines[d]
        }),
{
    lemma_joined_take_next(lines, d);
    lemma_joined_take_is_prefix(lines, d + 1);
    let at = base + joined(lines.take(d)).len();
    let upto = joined(lines.take(d + 1)).len() as int;
    assert(content.subrange(at as int, (at + lines[d].len()) as int) =~= lines[d]) by {
        assert forall|i: int| 0 <= i < lines[d].len() implies content[at + i] == lines[d][i] by {
            let j = joined(lines.take(d)).len() + i;
            assert(content.skip(base as int)[j] == content[base + j]);
            assert(joined(lines).take(upto)[j] == joined(lines)[j]);
            assert(joined(lines.take(d + 1))[j] == lines[d][i]);
        }
    }
}

/// An exchange of a watcher that follows the path leaves it following.
pub proof fn lemma_following_exchange<E>(
    r: Run<E>,
    consumer: spec_fn(Seq<Result<EventView, E>>) -> LogWatcherAction,
    past: Seq<Result<EventView, E>>,
    origin: u64,
    base: nat,
    first: Seq<Seq<u8>>,
    second: Seq<Seq<u8>>,
    d: nat,
)
    requires
        following(r, past, origin, base, first, second, d),
        never_skips_beyond(consumer, past),
    ensures
        following(
            exchange(r, consumer),
            past,
            origin,
            base,
            first,
            second,
            delivered_after_exchange(r, d),
        ),
        exchange(r, consumer).world.linked == r.world.linked,
        exchange(r, consumer).world.files == r.world.files,
        r.world.linked == Some(r.world.open) ==> exchange(r, consumer).world.open == r.world.open,
        !(r.watcher.phase is Skipping) ==> !(exchange(r, consumer).watcher.phase is Skipping),
{
    let next = exchange(r, consumer);
    let adopted = r.world.open != origin;
    let lines = if adopted {
        second
    } else {
        first
    };
    let start: nat = if adopted {
        0
    } else {
        base
    };
    let prior = if adopted {
        line_events::<E>(first).push(rotation_event())
    } else {
        Seq::empty()
    };
    let content = r.world.content();
    let at = start + joined(lines.take(d as int)).len();
    let events = line_events::<E>(lines);
    let turned = line_events::<E>(first).push(rotation_event());
    if d < lines.len() {
        lemma_line_in_content(content, start, lines, d as int);
        lemma_read_takes_line(content, at as int, lines[d as int]);
        let more = prior + events.take((d + 1) as int);
        assert((past + (prior + events.take(d as int))).push(Ok(line_event(lines[d as int])))
            =~= past + more);
        assert(!(consumer(past + more) is SeekToEnd));
    } else {
        assert(lines.take(d as int) =~= lines);
        assert(line_events::<E>(first).take(first.len() as int) =~= line_events::<E>(first));
        assert(past + (Seq::<Result<EventView, E>>::empty() + line_events::<E>(first)) =~= past
            + line_events::<E>(first));
    }
    assert(second.take(0) =~= Seq::<Seq<u8>>::empty());
    assert(joined(second).skip(0) =~= joined(second));
    assert((past + line_events::<E>(first)).push(rotation_event()) =~= past + (turned
        + line_events::<E>(second).take(0)));
    assert(!(consumer(past + (turned + line_events::<E>(second).take(0))) is SeekToEnd));
}

/// A complete line appended at the path leaves the watcher following, with
/// the line added to those of the file that the path names.
pub proof fn lemma_following_append<E>(
    r: Run<E>,
    past: Seq<Result<EventView, E>>,
    origin: u64,
    base: nat,
    first: Seq<Seq<u8>>,
    second: Seq<Seq<u8>>,
    d: nat,
    line: Seq<u8>,
)
    requires
        following(r, past, origin, base, first, second, d),
        complete_line(line),
        r.world.linked matches Some(identity) ==> r.world.files[identity].len() + line.len()
            <= u64::MAX,
    ensures
        ({
            let next = Run { world: appended(r.world, line), ..r };
            match r.world.linked {
                None => following(next, past, origin, base, first, second, d),
                Some(identity) => if identity == origin {
                    following(next, past, origin, base, first.push(line), second, d)
                } else {
                    following(next, past, origin, base, first, second.push(line), d)
                },
            }
        }),
{
    let next = Run { world: appended(r.world, line), ..r };
    match r.world.linked {
        None => {},
        Some(identity) => {
            assert(next.world.files[identity] =~= r.world.files[identity] + line);
            assert(next.world.sound());
            if identity == origin {
                let more = first.push(line);
                lemma_joined_push(first, line);
                assert(more.take(d as int) =~= first.take(d as int));
                assert(line_events::<E>(more).take(d as int) =~= line_events::<E>(first).take(
                    d as int,
                ));
                assert(next.world.content().skip(base as int) =~= joined(first) + line);
                assert(complete_lines(more));
            } else {
                let more = second.push(line);
                lemma_joined_push(second, line);
                assert(complete_lines(more));
                if r.world.open != origin {
                    assert(more.take(d as int) =~= second.take(d as int));
                    assert(line_events::<E>(more).take(d as int) =~= line_events::<E>(
                        second,
                    ).take(d as int));
                    assert(next.world.content().skip(0) =~= joined(second) + line);
                }
            }
        },
    }
}

/// Taking the file away from the path leaves the watcher following, unless
/// the watcher has just read nothing and the file has got more since.
pub proof fn lemma_following_unlink<E>(
    r: Run<E>,
    past: Seq<Result<EventView, E>>,
    origin: u64,
    base: nat,
    first: Seq<Seq<u8>>,
    d: nat,
)
    requires
        following(r, past, origin, base, first, Seq::empty(), d),
        r.world.linked == Some(origin),
        !unread_after_empty_read(r),
    ensures
        following(
            Run { world: unlinked(r.world), ..r },
            past,
            origin,
            base,
            first,
            Seq::empty(),
            d,
        ),
{
    if d < first.len() {
        lemma_line_in_content(r.world.content(), base, first, d as int);
    }
}

/// A new file created at a path that names nothing leaves the watcher
/// following.
pub proof fn lemma_following_create<E>(
    r: Run<E>,
    past: Seq<Result<EventView, E>>,
    origin: u64,
    base: nat,
    first: Seq<Seq<u8>>,
    d: nat,
    fresh: u64,
)
    requires
        following(r, past, origin, base, first, Seq::empty(), d),
        r.world.linked is None,
        !r.world.files.dom().contains(fresh),
    ensures
        following(
            Run { world: created(r.world, fresh), ..r },
            past,
            origin,
            base,
            first,
            Seq::empty(),
            d,
        ),
{
    let next = Run { world: created(r.world, fresh), ..r };
    assert(joined(Seq::<Seq<u8>>::empty()) =~= Seq::<u8>::empty());
    assert(next.world.sound());
}

/// The lines of the two files after `moves`: what is written goes to the
/// file that the path names.
pub open spec fn lines_after(
    linked: Option<u64>,
    origin: u64,
    first: Seq<Seq<u8>>,
    second: Seq<Seq<u8>>,
    moves: Seq<Move>,
) -> (Seq<Seq<u8>>, Seq<Seq<u8>>) {
    match linked {
        None => (first, second),
        Some(identity) => if identity == origin {
            (first + written(moves), second)
        } else {
            (first, second + written(moves))
        },
    }
}

/// Whatever the order of exchanges and writes, the watcher goes on following.
pub proof fn lemma_play_follows<E>(
    r: Run<E>,
    consumer: spec_fn(Seq<Result<EventView, E>>) -> LogWatcherAction,
    moves: Seq<Move>,
    past: Seq<Result<EventView, E>>,
    origin: u64,
    base: nat,
    first: Seq<Seq<u8>>,
    second: Seq<Seq<u8>>,
    d: nat,
) -> (after: nat)
    requires
        following(r, past, origin, base, first, second, d),
        never_skips_beyond(consumer, past),
        writes_lines(moves),
        r.world.linked matches Some(identity) ==> r.world.files[identity].len() + joined(
            written(moves),
        ).len() <= u64::MAX,
    ensures
        ({
            let now = play(r, consumer, moves);
            let (olds, news) = lines_after(r.world.linked, origin, first, second, moves);
            &&& following(now, past, origin, base, olds, news, after)
            &&& now.world.linked == r.world.linked
            &&& now.world.files.dom() == r.world.files.dom()
            &&& !(r.watcher.phase is Skipping) ==> !(now.watcher.phase is Skipping)
            &&& r.world.linked matches Some(identity) ==> now.world.files[identity].len()
                == r.world.files[identity].len() + joined(written(moves)).len()
        }),
    decreases moves.len(),
{
    if moves.len() == 0 {
        assert(joined(written(moves)) =~= Seq::<u8>::empty());
        assert(first + written(moves) =~= first);
        assert(second + written(moves) =~= second);
        d
    } else {
        let earlier = moves.drop_last();
        assert(writes_lines(earlier)) by {
            assert forall|i: int| 0 <= i < earlier.len() implies (#[trigger] earlier[i]
                matches Move::Append(bytes) ==> complete_line(bytes)) by {
                assert(earlier[i] == moves[i]);
            }
        }
        let before = play(r, consumer, earlier);
        let (olds, news) = lines_after(r.world.linked, origin, first, second, earlier);
        match moves.last() {
            Move::Exchange => {
                let reached = lemma_play_follows(
                    r,
                    consumer,
                    earlier,
                    past,
                    origin,
                    base,
                    first,
                    second,
                    d,
                );
                lemma_following_exchange(
                    before,
                    consumer,
                    past,
                    origin,
                    base,
                    olds,
                    news,
                    reached,
                );
                delivered_after_exchange(before, reached)
            },
            Move::Append(line) => {
                lemma_joined_push(written(earlier), line);
                let reached = lemma_play_follows(
                    r,
                    consumer,
                    earlier,
                    past,
                    origin,
                    base,
                    first,
                    second,
                    d,
                );
                assert(moves[moves.len() - 1] == moves.last());
                lemma_following_append(before, past, origin, base, olds, news, reached, line);
                assert(first + written(moves) =~= (first + written(earlier)).push(line));
                assert(second + written(moves) =~= (second + written(earlier)).push(line));
                match r.world.linked {
                    None => {},
                    Some(identity) => {
                        assert(appended(before.world, line).files[identity] =~= before.world.files[identity]
                            + line);
                        assert(appended(before.world, line).files.dom() =~= before.world.files.dom());
                    },
                }
                reached
            },
        }
    }
}

/// Lines that are appended while the watcher runs, at whatever moments,
/// reach a consumer that does not skip in the order in which they were
/// written, each once: at every moment the consumer has been given the first
/// so many of the lines written so far, each as its text without the
/// newline, and nothing else; nothing of what the file held before is among
/// them. The cursor stands behind exactly the lines that were delivered.
pub proof fn law_written_lines_in_order<E>(
    watcher: WatcherState,
    world: World,
    consumer: spec_fn(Seq<Result<EventView, E>>) -> LogWatcherAction,
    moves: Seq<Move>,
)
    requires
        watcher.phase is Idle,
        world.sound(),
        world.linked == Some(world.open),
        world.open == watcher.identity,
        world.offset == watcher.cursor,
        world.exhausted(),
        writes_lines(moves),
        world.content().len() + joined(written(moves)).len() <= u64::MAX,
        never_skips(consumer),
    ensures
        ({
            let now = play(begin(watcher, world), consumer, moves);
            let delivered = now.seen.len() as int;
            &&& !now.stuck
            &&& delivered <= written(moves).len()
            &&& now.seen == line_events::<E>(written(moves)).take(delivered)
            &&& now.watcher.identity == watcher.identity
            &&& now.watcher.cursor == world.content().len() + joined(
                written(moves).take(delivered),
            ).len()
        }),
{
    let none = Seq::<Seq<u8>>::empty();
    let nothing = Seq::<Result<EventView, E>>::empty();
    let start = begin::<E>(watcher, world);
    lemma_following_begin::<E>(watcher, world);
    assert(never_skips_beyond(consumer, nothing));
    let d = lemma_play_follows(
        start,
        consumer,
        moves,
        nothing,
        world.open,
        world.content().len(),
        none,
        none,
        0,
    );
    let now = play(start, consumer, moves);
    assert(none + written(moves) =~= written(moves));
    assert(nothing + (nothing + line_events::<E>(written(moves)).take(d as int))
        =~= line_events::<E>(written(moves)).take(d as int));
    assert(now.seen.len() == d);
}

/// An idle watcher that stands at the end of the file at its path follows
/// that path.
pub proof fn lemma_following_begin<E>(watcher: WatcherState, world: World)
    requires
        watcher.phase is Idle,
        world.sound(),
        world.linked == Some(world.open),
        world.open == watcher.identity,
        world.offset == watcher.cursor,
        world.exhausted(),
    ensures
        following(
            begin::<E>(watcher, world),
            Seq::empty(),
            world.open,
            world.content().len(),
            Seq::empty(),
            Seq::empty(),
            0,
        ),
{
    let none = Seq::<Seq<u8>>::empty();
    let r = begin::<E>(watcher, world);
    assert(none.take(0) =~= none);
    assert(joined(none) =~= Seq::<u8>::empty());
    assert(world.content().skip(world.content().len() as int) =~= joined(none));
    let nothing = Seq::<Result<EventView, E>>::empty();
    assert(r.seen =~= nothing + (nothing + line_events::<E>(none).take(0)));
}

/// Rotation, whenever the writes happen. Lines are appended to the watched
/// file while the watcher runs; the file is then taken away from the path,
/// and a new file is created there, to which further lines are appended
/// while the watcher runs on. Provided the watcher was not left, at the
/// moment the file was taken away, with an empty read behind it and unread
/// lines before it, a consumer that does not skip is given at every moment
/// a front part of this sequence and nothing else: the lines of the old
/// file in the order written, one rotation event, the lines of the new file
/// in the order written.
pub proof fn law_rotation_in_order_whenever_written<E>(
    watcher: WatcherState,
    world: World,
    consumer: spec_fn(Seq<Result<EventView, E>>) -> LogWatcherAction,
    before: Seq<Move>,
    between: Seq<Move>,
    fresh: u64,
    after: Seq<Move>,
)
    requires
        watcher.phase is Idle,
        world.sound(),
        world.linked == Some(world.open),
        world.open == watcher.identity,
        world.offset == watcher.cursor,
        world.exhausted(),
        never_skips(consumer),
        writes_lines(before),
        writes_lines(between),
        writes_lines(after),
        world.content().len() + joined(written(before)).len() <= u64::MAX,
        joined(written(after)).len() <= u64::MAX,
        !world.files.dom().contains(fresh),
        !unread_after_empty_read(play(begin(watcher, world), consumer, before)),
    ensures
        ({
            let parted = play(begin(watcher, world), consumer, before);
            let missing = play(Run { world: unlinked(parted.world), ..parted }, consumer, between);
            let now = play(Run { world: created(missing.world, fresh), ..missing }, consumer, after);
            let expected = line_events::<E>(written(before)) + seq![rotation_event::<E>()]
                + line_events::<E>(written(after));
            &&& !now.stuck
            &&& now.seen.len() <= expected.len()
            &&& now.seen == expected.take(now.seen.len() as int)
        }),
{
    let none = Seq::<Seq<u8>>::empty();
    let origin = world.open;
    let base = world.content().len();
    let nothing = Seq::<Result<EventView, E>>::empty();
    let start = begin::<E>(watcher, world);
    lemma_following_begin::<E>(watcher, world);
    assert(never_skips_beyond(consumer, nothing));
    let d1 = lemma_play_follows(start, consumer, before, nothing, origin, base, none, none, 0);
    let parted = play(start, consumer, before);
    let first = written(before);
    assert(none + first =~= first);
    lemma_following_unlink(parted, nothing, origin, base, first, d1);
    let gone = Run { world: unlinked(parted.world), ..parted };
    let d2 = lemma_play_follows(gone, consumer, between, nothing, origin, base, first, none, d1);
    let missing = play(gone, consumer, between);
    lemma_following_create(missing, nothing, origin, base, first, d2, fresh);
    let back = Run { world: created(missing.world, fresh), ..missing };
    let d3 = lemma_play_follows(back, consumer, after, nothing, origin, base, first, none, d2);
    let now = play(back, consumer, after);
    let second = written(after);
    assert(none + second =~= second);
    let olds = line_events::<E>(first);
    let news = line_events::<E>(second);
    let expected = olds + seq![rotation_event::<E>()] + news;
    if now.world.open != origin {
        if !now.over && now.watcher.phase is Adopting {
            assert(now.seen =~= nothing + olds);
            assert(now.seen =~= expected.take(olds.len() as int));
        } else {
            assert(now.seen =~= nothing + (olds.push(rotation_event()) + news.take(d3 as int)));
            assert(now.seen =~= expected.take((olds.len() + 1 + d3) as int));
        }
    } else {
        assert(now.seen =~= nothing + (nothing + olds.take(d3 as int)));
        assert(now.seen =~= expected.take(d3 as int));
    }
}

/// `SeekToEnd` discards what was written before it was applied, whatever is
/// written afterwards. Once the reader stands at the end of its file on the
/// consumer's demand, a consumer that does not skip again is given, at every
/// moment, beyond what it had seen, the first so many of the lines written
/// since, in order, and nothing else: nothing of what the file held when the
/// reader was put at its end is ever delivered.
pub proof fn law_nothing_before_a_skip_is_delivered<E>(
    r: Run<E>,
    consumer: spec_fn(Seq<Result<EventView, E>>) -> LogWatcherAction,
    moves: Seq<Move>,
)
    requires
        !r.over,
        !r.stuck,
        r.watcher.phase is Skipping,
        r.reply == ReplyView::<E>::End(r.world.content().len() as u64),
        r.world.sound(),
        r.world.linked == Some(r.world.open),
        r.world.open == r.watcher.identity,
        r.world.exhausted(),
        never_skips_beyond(consumer, r.seen),
        writes_lines(moves),
        r.world.content().len() + joined(written(moves)).len() <= u64::MAX,
    ensures
        ({
            let now = play(r, consumer, moves);
            let delivered = now.seen.len() - r.seen.len();
            &&& !now.stuck
            &&& 0 <= delivered <= written(moves).len()
            &&& now.seen == r.seen + line_events::<E>(written(moves)).take(delivered)
        }),
{
    let none = Seq::<Seq<u8>>::empty();
    let nothing = Seq::<Result<EventView, E>>::empty();
    let base = r.world.content().len();
    assert(none.take(0) =~= none);
    assert(joined(none) =~= Seq::<u8>::empty());
    assert(r.world.content().skip(base as int) =~= joined(none));
    assert(r.seen =~= r.seen + (nothing + line_events::<E>(none).take(0)));
    let d = lemma_play_follows(r, consumer, moves, r.seen, r.world.open, base, none, none, 0);
    let now = play(r, consumer, moves);
    assert(none + written(moves) =~= written(moves));
    assert(r.seen + (nothing + line_events::<E>(written(moves)).take(d as int)) =~= r.seen
        + line_events::<E>(written(moves)).take(d as int));
    assert(now.seen.len() == r.seen.len() + d);
}

} // verus!
