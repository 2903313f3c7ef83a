//! The watcher at work in the model world, one exchange after the other.

use vstd::prelude::*;
use crate::event::{EventView, LogWatcherAction};
use crate::exchange::{ReplyView, RequestView};
use crate::watcher::{accepts, step, Phase, WatcherState};
use crate::world::{serve, World};

verus! {

/// A watch in progress.
pub struct Run<E> {
    /// The watcher.
    pub watcher: WatcherState,
    /// The files, the path and the reader.
    pub world: World,
    /// What the consumer was given so far, in order.
    pub seen: Seq<Result<EventView, E>>,
    /// The reply that the watcher gets next.
    pub reply: ReplyView<E>,
    /// The watcher has asked to exit.
    pub over: bool,
    /// The watcher has refused a reply.
    pub stuck: bool,
}

/// The start of a watch: nothing was delivered, and the first reply is `Begin`.
pub open spec fn begin<E>(watcher: WatcherState, world: World) -> Run<E> {
    Run { watcher, world, seen: Seq::empty(), reply: ReplyView::Begin, over: false, stuck: false }
}

/// One exchange: the watcher takes the pending reply and makes its request;
/// a delivery goes to the consumer, who answers on all that it has seen; any
/// other request is served by the world. A watch that is over, or stuck,
/// stays as it is.
pub open spec fn exchange<E>(
    r: Run<E>,
    consumer: spec_fn(Seq<Result<EventView, E>>) -> LogWatcherAction,
) -> Run<E> {
    if r.over || r.stuck {
        r
    } else if !accepts(r.watcher, r.reply) {
        Run { stuck: true, ..r }
    } else {
        let (watcher, request) = step(r.watcher, r.reply);
        let seen = match request {
            RequestView::Deliver(item) => r.seen.push(item),
            _ => r.seen,
        };
        let (world, reply) = serve(r.world, request, consumer(seen));
        Run { watcher, world, seen, reply, over: request is Exit, stuck: false }
    }
}

/// The watch after `exchanges` more exchanges.
pub open spec fn run<E>(
    r: Run<E>,
    consumer: spec_fn(Seq<Result<EventView, E>>) -> LogWatcherAction,
    exchanges: nat,
) -> Run<E>
    decreases exchanges,
{
    if exchanges == 0 {
        r
    } else {
        run(exchange(r, consumer), consumer, (exchanges - 1) as nat)
    }
}

/// Running `a + b` exchanges is running `a` and then `b`.
pub proof fn lemma_run_split<E>(
    r: Run<E>,
    consumer: spec_fn(Seq<Result<EventView, E>>) -> LogWatcherAction,
    a: nat,
    b: nat,
)
    ensures
        run(r, consumer, a + b) == run(run(r, consumer, a), consumer, b),
    decreases a,
{
    if a > 0 {
        lemma_run_split(exchange(r, consumer), consumer, (a - 1) as nat, b);
    }
}

/// A watch that is over stays over, and what was seen stays as it is.
pub proof fn lemma_over_stays<E>(
    r: Run<E>,
    consumer: spec_fn(Seq<Result<EventView, E>>) -> LogWatcherAction,
    exchanges: nat,
)
    requires
        r.over,
    ensures
        run(r, consumer, exchanges) == r,
    decreases exchanges,
{
    if exchanges > 0 {
        lemma_over_stays(r, consumer, (exchanges - 1) as nat);
    }
}

/// The watch stands at the head of a round on an unfinished watcher, reader
/// and cursor agree on file and position, and the next exchange is a read.
pub open spec fn poised<E>(r: Run<E>) -> bool {
    &&& !r.over
    &&& !r.stuck
    &&& !r.watcher.finished
    &&& r.world.sound()
    &&& r.world.open == r.watcher.identity
    &&& r.world.offset == r.watcher.cursor
    &&& accepts(r.watcher, r.reply)
    &&& step(r.watcher, r.reply) == (
        WatcherState { phase: Phase::Reading, ..r.watcher },
        RequestView::<E>::ReadLine,
    )
}

} // verus!
