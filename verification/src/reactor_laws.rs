//! What holds of a reactor over several operations.
use vstd::prelude::*;
use vstd::std_specs::convert::FromSpec;

use crate::epoll::{
    accepts, fd_of, law_fd_round_trip, watched_after, EpollCtl, EpollEvent, RawFd, Watched,
};
use crate::events::{
    added, called, calls, entry, flags_of, has_flag, is_stale, registered, removed, run_next,
    wait_action, wait_outcome, Error, EventHandler, EventMap, Handlers, LoopAction, MutableReactor,
    Reactor, ReactorEvent, Report, RunAction, RunEvent, ScopeUpdate, ScopedReactor, WaitOutcome,
};
use crate::io::IoError;

verus! {

/// What a map of events holds for an event is in the field of that event.  To change one event
/// changes no other, and the events with a value are those that are listed, each once.
pub proof fn law_event_map<H>(map: EventMap<H>, event: ReactorEvent, value: Option<H>)
    ensures
        map.at(ReactorEvent::ReadyRead) == map.ready_read,
        map.at(ReactorEvent::ReadyWrite) == map.ready_write,
        map.with(event, value).at(event) == value,
        forall|e: ReactorEvent| e != event ==> map.with(event, value).at(e) == #[trigger] map.at(e),
        forall|e: ReactorEvent| #[trigger] map.events().contains(e) <==> map.at(e) is Some,
        map.events().no_duplicates(),
        EventMap::<H>::none().at(event) is None,
{
    let all = map.events();
    if map.ready_read is Some {
        assert(all[0] == ReactorEvent::ReadyRead);
    }
    if map.ready_write is Some {
        assert(all[all.len() - 1] == ReactorEvent::ReadyWrite);
    }
}

/// What is registered for an event is what the table holds for its descriptor, and nothing where
/// the descriptor is not in the table.
pub proof fn law_registered<H>(fds: Map<RawFd, EventMap<H>>, fd: RawFd)
    ensures
        fds.contains_key(fd) ==> registered(fds, fd, ReactorEvent::ReadyRead) == fds[fd].ready_read
            && registered(fds, fd, ReactorEvent::ReadyWrite) == fds[fd].ready_write,
        !fds.contains_key(fd) ==> registered(fds, fd, ReactorEvent::ReadyRead) is None
            && registered(fds, fd, ReactorEvent::ReadyWrite) is None,
{
}

/// To add a callback to a scope sets the one of that event, and every other event of every
/// descriptor keeps what it had.  The kernel is not told.
pub proof fn law_scope_add<C: Copy>(
    before: ScopedReactor<C>,
    after: ScopedReactor<C>,
    fd: RawFd,
    event: ReactorEvent,
    callback: C,
    r: Result<Option<EpollCtl>, Error>,
)
    requires
        before.adds(&after, fd, event, callback, r),
    ensures
        r == Ok::<_, Error>(None::<EpollCtl>),
        registered(after.fds@, fd, event) == Some(callback),
        forall|x: RawFd, e: ReactorEvent|
            (x, e) != (fd, event) ==> registered(after.fds@, x, e) == #[trigger] registered(
                before.fds@,
                x,
                e,
            ),
{
}

/// To remove a callback from a scope takes away the one of that event, and every other event of
/// every descriptor keeps what it had.  The kernel is not told.
pub proof fn law_scope_remove<C: Copy>(
    before: ScopedReactor<C>,
    after: ScopedReactor<C>,
    fd: RawFd,
    event: ReactorEvent,
    r: Result<Option<EpollCtl>, Error>,
)
    requires
        before.removes(&after, fd, event, r),
    ensures
        r == Ok::<_, Error>(None::<EpollCtl>),
        registered(after.fds@, fd, event) is None,
        forall|x: RawFd, e: ReactorEvent|
            (x, e) != (fd, event) ==> registered(after.fds@, x, e) == #[trigger] registered(
                before.fds@,
                x,
                e,
            ),
{
}

/// Adding a handler is refused exactly where the event has one of another source, and then changes
/// nothing.  Otherwise the event has the new handler and every other event keeps what it had.  The
/// kernel is told exactly where the event had no handler: that the descriptor is new where no
/// event of it had one, and of a change otherwise.
pub proof fn law_added<C>(
    epoll_fd: Option<RawFd>,
    fds: Handlers<C>,
    fd: RawFd,
    event: ReactorEvent,
    handler: EventHandler<C>,
)
    ensures
        match added(epoll_fd, fds, fd, event, handler) {
            (after, Err(e)) => {
                &&& e == Error::DuplicatedFdWithDifferentSource
                &&& registered(fds, fd, event) matches Some(other) && other.scope != handler.scope
                &&& after == fds
            },
            (after, Ok(call)) => {
                &&& registered(fds, fd, event) matches Some(other) ==> other.scope == handler.scope
                &&& registered(after, fd, event) == Some(handler)
                &&& forall|x: RawFd, e: ReactorEvent|
                    (x, e) != (fd, event) ==> registered(after, x, e) == #[trigger] registered(
                        fds,
                        x,
                        e,
                    )
                &&& call is None <==> registered(fds, fd, event) is Some
                &&& call matches Some(call) ==> {
                    &&& call.epfd == epoll_fd->0
                    &&& call.fd == fd
                    &&& call.op is EpollCtlAdd || call.op is EpollCtlMod
                    &&& call.op is EpollCtlAdd <==> forall|e: ReactorEvent|
                        (#[trigger] registered(fds, fd, e)) is None
                    &&& call.event matches Some(watch) && watch.data == fd as u64
                        && tells(watch.flags, after, fd)
                }
            },
        },
{
    let (after, r) = added(epoll_fd, fds, fd, event, handler);
    let before = entry(fds, fd);
    law_flags_of(entry(after, fd).events());
    law_event_map(entry(after, fd), event, Some(handler));
    law_event_map(before, event, Some(handler));
    if r matches Ok(Some(call)) {
        assert(registered(fds, fd, ReactorEvent::ReadyRead) == before.ready_read);
        assert(registered(fds, fd, ReactorEvent::ReadyWrite) == before.ready_write);
        assert(after[fd].events().len() > 1 <==> (after[fd].ready_read is Some
            && after[fd].ready_write is Some));
        assert forall|e: ReactorEvent| has_flag(flags_of(after[fd].events()), e) <==> (
        #[trigger] registered(after, fd, e)) is Some by {
            law_event_map(entry(after, fd), e, None);
            assert(entry(after, fd).events().contains(e) <==> entry(after, fd).at(e) is Some);
        }
    }
}

/// Whether flags hold the flag of exactly the events of a descriptor that have a handler, and no
/// other flag.
pub open spec fn tells<C>(flags: i32, fds: Handlers<C>, fd: RawFd) -> bool {
    &&& forall|e: ReactorEvent|
        has_flag(flags, e) <==> (#[trigger] registered(fds, fd, e)) is Some
    &&& flags & !(1i32 | 4i32) == 0
}

/// Removing a handler leaves the event without one, and every other event keeps what it had.  For a
/// descriptor that is not in the table the kernel is not told.  Otherwise it is told to delete the
/// descriptor exactly where no other event of it has a handler, and of a change otherwise.
pub proof fn law_removed<C>(
    epoll_fd: Option<RawFd>,
    fds: Handlers<C>,
    fd: RawFd,
    event: ReactorEvent,
)
    ensures
        match removed(epoll_fd, fds, fd, event) {
            (after, call) => {
                &&& registered(after, fd, event) is None
                &&& forall|x: RawFd, e: ReactorEvent|
                    (x, e) != (fd, event) ==> registered(after, x, e) == #[trigger] registered(
                        fds,
                        x,
                        e,
                    )
                &&& call is None <==> !fds.contains_key(fd)
                &&& forall|x: RawFd| after.contains_key(x) <==> #[trigger] fds.contains_key(x)
                &&& call matches Some(call) ==> {
                    &&& call.epfd == epoll_fd->0
                    &&& call.fd == fd
                    &&& call.op is EpollCtlDel || call.op is EpollCtlMod
                    &&& call.op is EpollCtlDel <==> forall|e: ReactorEvent|
                        (#[trigger] registered(after, fd, e)) is None
                    &&& call.op is EpollCtlDel ==> call.event is None
                    &&& call.op is EpollCtlMod ==> (call.event matches Some(watch) && watch.data
                        == 0 && tells(watch.flags, after, fd))
                }
            },
        },
{
    let (after, call) = removed(epoll_fd, fds, fd, event);
    if call is Some {
        let left = after[fd];
        law_flags_of(left.events());
        assert(registered(after, fd, ReactorEvent::ReadyRead) == left.ready_read);
        assert(registered(after, fd, ReactorEvent::ReadyWrite) == left.ready_write);
        assert(left.events().len() > 0 <==> (left.ready_read is Some || left.ready_write is Some));
        assert forall|e: ReactorEvent| has_flag(flags_of(left.events()), e) <==> (
        #[trigger] registered(after, fd, e)) is Some by {
            law_event_map(left, e, None);
            assert(left.events().contains(e) <==> left.at(e) is Some);
        }
    }
}

/// A handler that is added to a reactor directly belongs to nobody in particular.  It is refused
/// exactly where the event has a handler of a scope.
pub proof fn law_reactor_add<C: Copy>(
    before: Reactor<C>,
    after: Reactor<C>,
    fd: RawFd,
    event: ReactorEvent,
    callback: C,
    r: Result<Option<EpollCtl>, Error>,
)
    requires
        before.adds(&after, fd, event, callback, r),
    ensures
        after.epoll_fd == before.epoll_fd,
        r is Err <==> (registered(before.fds@, fd, event) matches Some(other)
            && other.scope is Some),
        r is Err ==> after.fds@ == before.fds@,
        r is Ok ==> registered(after.fds@, fd, event) == Some(
            EventHandler { callback, scope: None },
        ),
        forall|x: RawFd, e: ReactorEvent|
            (x, e) != (fd, event) ==> registered(after.fds@, x, e) == #[trigger] registered(
                before.fds@,
                x,
                e,
            ),
{
    law_added(
        before.epoll_fd,
        before.fds@,
        fd,
        event,
        EventHandler { callback, scope: None },
    );
}

/// A handler that is removed from a reactor is gone, whomever it belonged to, and no other is.
pub proof fn law_reactor_remove<C: Copy>(
    before: Reactor<C>,
    after: Reactor<C>,
    fd: RawFd,
    event: ReactorEvent,
    r: Result<Option<EpollCtl>, Error>,
)
    requires
        before.removes(&after, fd, event, r),
    ensures
        after.epoll_fd == before.epoll_fd,
        r is Ok,
        r == Ok::<_, Error>(None::<EpollCtl>) <==> !before.fds@.contains_key(fd),
        registered(after.fds@, fd, event) is None,
        forall|x: RawFd, e: ReactorEvent|
            (x, e) != (fd, event) ==> registered(after.fds@, x, e) == #[trigger] registered(
                before.fds@,
                x,
                e,
            ),
{
    law_removed(before.epoll_fd, before.fds@, fd, event);
}

proof fn lemma_flag_added(a: i32, b: i32, c: i32)
    by (bit_vector)
    requires
        b == 1i32 || b == 4i32,
        c == 1i32 || c == 4i32,
    ensures
        (a | b) & c == c <==> (a & c == c || b == c),
        0i32 & c != c,
        a & !(1i32 | 4i32) == 0 ==> (a | b) & !(1i32 | 4i32) == 0,
        0i32 & !(1i32 | 4i32) == 0,
{
}

/// The flags of some events hold the flags of exactly these events, in whatever order and however
/// often they are listed, and no other flag.
pub proof fn law_flags_of(events: Seq<ReactorEvent>)
    ensures
        forall|e: ReactorEvent| #[trigger] has_flag(flags_of(events), e) <==> events.contains(e),
        flags_of(events) & !(1i32 | 4i32) == 0,
    decreases events.len(),
{
    lemma_flag_added(0, 1, 1);
    lemma_flag_added(0, 4, 4);
    if events.len() > 0 {
        let front = events.drop_last();
        law_flags_of(front);
        lemma_flag_added(flags_of(front), events.last().flag(), 1);
        lemma_flag_added(flags_of(front), events.last().flag(), 4);
        assert forall|e: ReactorEvent| #[trigger]
            has_flag(flags_of(events), e) <==> events.contains(e) by {
            assert(has_flag(flags_of(front), e) <==> front.contains(e));
            assert(front.push(events.last()) =~= events);
            if front.contains(e) {
                let i = choose|i: int| 0 <= i < front.len() && front[i] == e;
                assert(events[i] == e);
            }
            if events.last() == e {
                assert(events[events.len() - 1] == e);
            }
            if events.contains(e) {
                let i = choose|i: int| 0 <= i < events.len() && events[i] == e;
                if i < front.len() {
                    assert(front[i] == e);
                }
            }
        }
    }
}

/// A flag is held exactly where its bit is set, whatever other bits are.
pub proof fn law_has_flag(flags: i32)
    ensures
        has_flag(flags, ReactorEvent::ReadyRead) <==> flags & 1i32 != 0,
        has_flag(flags, ReactorEvent::ReadyWrite) <==> flags & 4i32 != 0,
{
    assert((flags & 1i32 == 1i32 <==> flags & 1i32 != 0) && (flags & 4i32 == 4i32 <==> flags & 4i32
        != 0)) by (bit_vector);
}

/// Removing what was just added leaves every event with the handler that it had.
pub proof fn law_remove_undoes_add<C>(
    epoll_fd: Option<RawFd>,
    fds: Handlers<C>,
    fd: RawFd,
    event: ReactorEvent,
    handler: EventHandler<C>,
)
    requires
        registered(fds, fd, event) is None,
    ensures
        forall|x: RawFd, e: ReactorEvent|
            registered(
                removed(epoll_fd, added(epoll_fd, fds, fd, event, handler).0, fd, event).0,
                x,
                e,
            ) == #[trigger] registered(fds, x, e),
{
}

/// The flags of an event map hold the flag of an event exactly where the event has a value.
pub proof fn law_flags_tell_events<H>(events: EventMap<H>, event: ReactorEvent)
    ensures
        has_flag(flags_of(events.events()), event) <==> events.at(event) is Some,
        flags_of(events.events()) == 0 <==> events.events().len() == 0,
{
    reveal_with_fuel(flags_of, 3);
    assert((0i32 | 1i32) & 1i32 == 1i32 && (0i32 | 1i32) & 4i32 != 4i32 && (0i32 | 4i32) & 4i32
        == 4i32 && (0i32 | 4i32) & 1i32 != 1i32 && ((0i32 | 1i32) | 4i32) & 1i32 == 1i32 && ((0i32
        | 1i32) | 4i32) & 4i32 == 4i32 && 0i32 & 1i32 != 1i32 && 0i32 & 4i32 != 4i32 && 0i32 | 1i32
        != 0 && 0i32 | 4i32 != 0 && (0i32 | 1i32) | 4i32 != 0) by (bit_vector);
    let all = events.events();
    if events.ready_read is Some && events.ready_write is Some {
        assert(all =~= seq![ReactorEvent::ReadyRead, ReactorEvent::ReadyWrite]);
        assert(all.drop_last() =~= seq![ReactorEvent::ReadyRead]);
        assert(all.drop_last().drop_last() =~= Seq::<ReactorEvent>::empty());
    } else if events.ready_read is Some {
        assert(all =~= seq![ReactorEvent::ReadyRead]);
        assert(all.drop_last() =~= Seq::<ReactorEvent>::empty());
    } else if events.ready_write is Some {
        assert(all =~= seq![ReactorEvent::ReadyWrite]);
        assert(all.drop_last() =~= Seq::<ReactorEvent>::empty());
    }
}

/// Whether the kernel watches exactly what a reactor has handlers for.  This leaves open under
/// which data it reports a descriptor: `added` gives the descriptor itself, `removed` gives 0.
pub open spec fn in_step<C>(fds: Handlers<C>, watched: Watched) -> bool {
    forall|fd: RawFd|
        {
            &&& #[trigger] watched.contains_key(fd) <==> entry(fds, fd).events().len() > 0
            &&& watched.contains_key(fd) ==> watched[fd].flags == flags_of(
                entry(fds, fd).events(),
            )
        }
}

/// What the kernel watches once the call that an operation returned was made.
pub open spec fn told(watched: Watched, call: Option<EpollCtl>) -> Watched {
    match call {
        Some(call) => watched_after(watched, call),
        None => watched,
    }
}

/// Whether the kernel accepts the call that an operation returned.
pub open spec fn acceptable(watched: Watched, call: Option<EpollCtl>) -> bool {
    match call {
        Some(call) => accepts(watched, call),
        None => true,
    }
}

/// The call that adding a handler asks for is one that the kernel accepts, and after it the
/// kernel watches what the reactor has handlers for, if it did before.
pub proof fn law_added_in_step<C>(
    epoll_fd: Option<RawFd>,
    fds: Handlers<C>,
    fd: RawFd,
    event: ReactorEvent,
    handler: EventHandler<C>,
    watched: Watched,
)
    requires
        in_step(fds, watched),
    ensures
        match added(epoll_fd, fds, fd, event, handler) {
            (after, Ok(call)) => acceptable(watched, call) && in_step(after, told(watched, call)),
            (after, Err(_)) => after == fds,
        },
{
    let (after, r) = added(epoll_fd, fds, fd, event, handler);
    let before = entry(fds, fd).events();
    if let Ok(call) = r {
        let grown = entry(after, fd).events();
        assert(watched.contains_key(fd) <==> before.len() > 0);
        if call is None {
            assert(grown =~= before);
        }
        assert forall|x: RawFd|
            {
                &&& #[trigger] told(watched, call).contains_key(x) <==> entry(
                    after,
                    x,
                ).events().len() > 0
                &&& told(watched, call).contains_key(x) ==> told(watched, call)[x].flags
                    == flags_of(entry(after, x).events())
            } by {
            assert(watched.contains_key(x) <==> entry(fds, x).events().len() > 0);
            if x != fd {
                assert(entry(after, x) == entry(fds, x));
            }
        }
    }
}

/// The call that removing a handler asks for is one that the kernel accepts, and after it the
/// kernel watches what the reactor has handlers for, if it did before.  This leaves out a
/// descriptor that is in the table with no handlers: deleting it once more is refused.
pub proof fn law_removed_in_step<C>(
    epoll_fd: Option<RawFd>,
    fds: Handlers<C>,
    fd: RawFd,
    event: ReactorEvent,
    watched: Watched,
)
    requires
        in_step(fds, watched),
        fds.contains_key(fd) ==> fds[fd].events().len() > 0,
    ensures
        acceptable(watched, removed(epoll_fd, fds, fd, event).1),
        in_step(
            removed(epoll_fd, fds, fd, event).0,
            told(watched, removed(epoll_fd, fds, fd, event).1),
        ),
{
    let (after, call) = removed(epoll_fd, fds, fd, event);
    assert(watched.contains_key(fd) <==> entry(fds, fd).events().len() > 0);
    assert forall|x: RawFd|
        {
            &&& #[trigger] told(watched, call).contains_key(x) <==> entry(after, x).events().len()
                > 0
            &&& told(watched, call).contains_key(x) ==> told(watched, call)[x].flags == flags_of(
                entry(after, x).events(),
            )
        } by {
        assert(watched.contains_key(x) <==> entry(fds, x).events().len() > 0);
        if x != fd {
            assert(entry(after, x) == entry(fds, x));
        }
    }
}

/// What the first `k` steps of an update do where every call succeeds: the handlers afterwards,
/// what the kernel watches, and the error that ended the update, if any.
pub open spec fn after_steps<C>(
    update: ScopeUpdate<C>,
    epoll_fd: Option<RawFd>,
    fds: Handlers<C>,
    watched: Watched,
    k: nat,
) -> (Handlers<C>, Watched, Option<Error>)
    decreases k,
{
    if k == 0 {
        (fds, watched, None)
    } else {
        let (before, seen, error) = after_steps(update, epoll_fd, fds, watched, (k - 1) as nat);
        if error is Some {
            (before, seen, error)
        } else {
            match update.step(epoll_fd, before, k - 1) {
                (after, Ok(call)) => (after, told(seen, call), None),
                (after, Err(e)) => (after, seen, Some(e)),
            }
        }
    }
}

/// Whether a scope and a reactor claim the same event for different sources.
pub open spec fn in_conflict<C>(
    fds: Handlers<C>,
    id: usize,
    scope: Map<RawFd, EventMap<C>>,
    fd: RawFd,
    event: ReactorEvent,
) -> bool {
    &&& registered(scope, fd, event) is Some
    &&& registered(fds, fd, event) matches Some(handler)
    &&& handler.scope != Some(id)
}

/// The handler of an event once a reactor is up to date with a scope: what the scope holds for
/// it; otherwise what it was, unless that was the scope's.
pub open spec fn up_to_date<C>(
    fds: Handlers<C>,
    id: usize,
    scope: Map<RawFd, EventMap<C>>,
    fd: RawFd,
    event: ReactorEvent,
) -> Option<EventHandler<C>> {
    match registered(scope, fd, event) {
        Some(callback) => Some(EventHandler { callback, scope: Some(id) }),
        None => match registered(fds, fd, event) {
            Some(handler) if handler.scope == Some(id) => None,
            other => other,
        },
    }
}

/// Whether the kernel accepts every call of the first `k` steps of an update.
pub open spec fn steps_acceptable<C>(
    update: ScopeUpdate<C>,
    epoll_fd: Option<RawFd>,
    fds: Handlers<C>,
    watched: Watched,
    k: nat,
) -> bool
    decreases k,
{
    k == 0 || {
        let (before, seen, error) = after_steps(update, epoll_fd, fds, watched, (k - 1) as nat);
        &&& steps_acceptable(update, epoll_fd, fds, watched, (k - 1) as nat)
        &&& error is None ==> match update.step(epoll_fd, before, k - 1) {
            (_, Ok(call)) => acceptable(seen, call),
            (_, Err(_)) => true,
        }
    }
}

/// Whether one of the first `k` steps of an update is about an event.
spec fn touched<C>(update: ScopeUpdate<C>, k: int, fd: RawFd, event: ReactorEvent) -> bool {
    ||| exists|i: int|
        0 <= i < k && i < update.removals@.len() && #[trigger] update.removals@[i] == (fd, event)
    ||| exists|i: int|
        0 <= i < k - update.removals@.len() && (#[trigger] update.additions@[i]).0 == fd
            && update.additions@[i].1 == event
}

/// Where an update stands after `k` steps.
spec fn halfway<C>(
    update: ScopeUpdate<C>,
    fds: Handlers<C>,
    id: usize,
    scope: Map<RawFd, EventMap<C>>,
    k: int,
    now: Handlers<C>,
) -> bool {
    &&& forall|i: int|
        0 <= i < k && i < update.removals@.len() ==> registered(
            now,
            (#[trigger] update.removals@[i]).0,
            update.removals@[i].1,
        ) is None
    &&& forall|i: int|
        0 <= i < k - update.removals@.len() ==> registered(
            now,
            (#[trigger] update.additions@[i]).0,
            update.additions@[i].1,
        ) == Some(EventHandler { callback: update.additions@[i].2, scope: Some(id) })
    &&& forall|i: int|
        0 <= i < k - update.removals@.len() ==> !in_conflict(
            fds,
            id,
            scope,
            (#[trigger] update.additions@[i]).0,
            update.additions@[i].1,
        )
    &&& forall|fd: RawFd, event: ReactorEvent|
        !touched(update, k, fd, event) ==> #[trigger] registered(now, fd, event) == registered(
            fds,
            fd,
            event,
        )
}

proof fn lemma_halfway<C>(
    update: ScopeUpdate<C>,
    epoll_fd: Option<RawFd>,
    fds: Handlers<C>,
    id: usize,
    scope: Map<RawFd, EventMap<C>>,
    watched: Watched,
    k: nat,
)
    requires
        update.plans(fds, id, scope),
        in_step(fds, watched),
        k <= update.len(),
    ensures
        steps_acceptable(update, epoll_fd, fds, watched, k),
        match after_steps(update, epoll_fd, fds, watched, k) {
            (now, seen, error) => {
                &&& in_step(now, seen)
                &&& error is None ==> halfway(update, fds, id, scope, k as int, now)
                &&& error is Some ==> {
                    &&& error == Some(Error::DuplicatedFdWithDifferentSource)
                    &&& exists|fd: RawFd, event: ReactorEvent|
                        in_conflict(fds, id, scope, fd, event)
                }
                &&& forall|fd: RawFd, event: ReactorEvent|
                    (#[trigger] registered(fds, fd, event)) is Some && registered(
                        fds,
                        fd,
                        event,
                    )->0.scope != Some(id) ==> registered(now, fd, event) == registered(
                        fds,
                        fd,
                        event,
                    )
            },
        },
    decreases k,
{
    if k > 0 {
        lemma_halfway(update, epoll_fd, fds, id, scope, watched, (k - 1) as nat);
        let (before, seen, error) = after_steps(update, epoll_fd, fds, watched, (k - 1) as nat);
        let j = k - 1;
        let r = update.removals@.len();
        if error is None {
            if j < r {
                let place = update.removals@[j];
                assert(update.removals@.contains(place));
                assert(is_stale(fds, id, scope, place));
                assert(!touched(update, j, place.0, place.1));
                assert(registered(before, place.0, place.1) is Some);
                law_removed_in_step(epoll_fd, before, place.0, place.1, seen);
                let (after, call) = removed(epoll_fd, before, place.0, place.1);
                assert forall|fd: RawFd, event: ReactorEvent| (fd, event) != place implies (
                #[trigger] registered(after, fd, event)) == registered(before, fd, event) by {}
                lemma_next_removal(update, fds, id, scope, j, before, after);
            } else {
                let (fd, event, callback) = update.additions@[j - r];
                let handler = EventHandler { callback, scope: Some(id) };
                let place = (fd, event);
                assert(registered(scope, fd, event) is Some);
                assert(!touched(update, j, fd, event)) by {
                    if exists|i: int|
                        0 <= i < j && i < r && #[trigger] update.removals@[i] == (fd, event) {
                        assert(update.removals@.contains(place));
                        assert(is_stale(fds, id, scope, place));
                    }
                }
                law_added_in_step(epoll_fd, before, fd, event, handler, seen);
                let (after, result) = added(epoll_fd, before, fd, event, handler);
                if result is Ok {
                    assert(!in_conflict(fds, id, scope, fd, event));
                    assert forall|x: RawFd, e: ReactorEvent| (x, e) != place implies (
                    #[trigger] registered(after, x, e)) == registered(before, x, e) by {}
                    lemma_next_addition(update, fds, id, scope, j, before, after);
                } else {
                    assert(in_conflict(fds, id, scope, fd, event));
                }
            }
        }
    }
}

/// What the kernel watches where it is in step with some handlers.
spec fn exactly<C>(fds: Handlers<C>) -> Watched {
    Map::new(
        |fd: RawFd| entry(fds, fd).events().len() > 0,
        |fd: RawFd| EpollEvent { flags: flags_of(entry(fds, fd).events()), data: 0 },
    )
}

/// What becomes of the handlers does not depend on what the kernel watches.
proof fn lemma_handlers_alone<C>(
    update: ScopeUpdate<C>,
    epoll_fd: Option<RawFd>,
    fds: Handlers<C>,
    one: Watched,
    other: Watched,
    k: nat,
)
    ensures
        after_steps(update, epoll_fd, fds, one, k).0 == after_steps(
            update,
            epoll_fd,
            fds,
            other,
            k,
        ).0,
        after_steps(update, epoll_fd, fds, one, k).2 == after_steps(
            update,
            epoll_fd,
            fds,
            other,
            k,
        ).2,
    decreases k,
{
    if k > 0 {
        lemma_handlers_alone(update, epoll_fd, fds, one, other, (k - 1) as nat);
    }
}

proof fn lemma_next_removal<C>(
    update: ScopeUpdate<C>,
    fds: Handlers<C>,
    id: usize,
    scope: Map<RawFd, EventMap<C>>,
    j: int,
    before: Handlers<C>,
    after: Handlers<C>,
)
    requires
        update.plans(fds, id, scope),
        0 <= j < update.removals@.len(),
        halfway(update, fds, id, scope, j, before),
        registered(after, update.removals@[j].0, update.removals@[j].1) is None,
        forall|fd: RawFd, event: ReactorEvent|
            (fd, event) != update.removals@[j] ==> (#[trigger] registered(after, fd, event))
                == registered(before, fd, event),
    ensures
        halfway(update, fds, id, scope, j + 1, after),
{
    let place = update.removals@[j];
    assert forall|i: int| 0 <= i < j + 1 && i < update.removals@.len() implies registered(
        after,
        (#[trigger] update.removals@[i]).0,
        update.removals@[i].1,
    ) is None by {
        if i < j {
            assert(update.removals@[i] != place);
        }
    }
    assert forall|fd: RawFd, event: ReactorEvent|
        !touched(update, j + 1, fd, event) implies #[trigger] registered(after, fd, event)
        == registered(fds, fd, event) by {
        assert((fd, event) != place);
        assert(!touched(update, j, fd, event));
    }
}

proof fn lemma_next_addition<C>(
    update: ScopeUpdate<C>,
    fds: Handlers<C>,
    id: usize,
    scope: Map<RawFd, EventMap<C>>,
    j: int,
    before: Handlers<C>,
    after: Handlers<C>,
)
    requires
        update.plans(fds, id, scope),
        update.removals@.len() <= j < update.len(),
        halfway(update, fds, id, scope, j, before),
        ({
            let (fd, event, callback) = update.additions@[j - update.removals@.len()];
            &&& registered(after, fd, event) == Some(
                EventHandler { callback, scope: Some(id) },
            )
            &&& !in_conflict(fds, id, scope, fd, event)
            &&& forall|x: RawFd, e: ReactorEvent|
                (x, e) != (fd, event) ==> (#[trigger] registered(after, x, e)) == registered(
                    before,
                    x,
                    e,
                )
        }),
    ensures
        halfway(update, fds, id, scope, j + 1, after),
{
    let r = update.removals@.len();
    let (fd, event, callback) = update.additions@[j - r];
    assert(registered(scope, fd, event) is Some);
    assert forall|i: int| 0 <= i < j + 1 && i < r implies registered(
        after,
        (#[trigger] update.removals@[i]).0,
        update.removals@[i].1,
    ) is None by {
        assert(update.removals@.contains(update.removals@[i]));
        assert(is_stale(fds, id, scope, update.removals@[i]));
        assert(update.removals@[i] != (fd, event));
    }
    assert forall|x: RawFd, e: ReactorEvent|
        !touched(update, j + 1, x, e) implies #[trigger] registered(after, x, e) == registered(
        fds,
        x,
        e,
    ) by {
        if (x, e) == (fd, event) {
            assert(update.additions@[j - r].0 == x && update.additions@[j - r].1 == e);
        }
        assert(!touched(update, j, x, e));
    }
}

/// An update fails exactly where the scope and the reactor claim an event for different
/// sources.  If it does not, every event then has the handler that the scope holds for it, or,
/// where it holds none, the one that it had, unless that was the scope's.  The handlers of
/// other sources stay as they are in any case.
pub proof fn law_update_scope<C>(
    update: ScopeUpdate<C>,
    epoll_fd: Option<RawFd>,
    fds: Handlers<C>,
    id: usize,
    scope: Map<RawFd, EventMap<C>>,
    watched: Watched,
)
    requires
        update.plans(fds, id, scope),
    ensures
        match after_steps(update, epoll_fd, fds, watched, update.len()) {
            (now, seen, error) => {
                &&& error is Some <==> exists|fd: RawFd, event: ReactorEvent|
                    in_conflict(fds, id, scope, fd, event)
                &&& error is Some ==> error == Some(Error::DuplicatedFdWithDifferentSource)
                &&& error is None ==> forall|fd: RawFd, event: ReactorEvent|
                    (#[trigger] registered(now, fd, event)) == up_to_date(
                        fds,
                        id,
                        scope,
                        fd,
                        event,
                    )
                &&& forall|fd: RawFd, event: ReactorEvent|
                    (#[trigger] registered(fds, fd, event)) is Some && registered(
                        fds,
                        fd,
                        event,
                    )->0.scope != Some(id) ==> registered(now, fd, event) == registered(
                        fds,
                        fd,
                        event,
                    )
            },
        },
{
    let k = update.len();
    let exact = exactly(fds);
    lemma_halfway(update, epoll_fd, fds, id, scope, exact, k);
    lemma_handlers_alone(update, epoll_fd, fds, exact, watched, k);
    let (now, seen, error) = after_steps(update, epoll_fd, fds, watched, k);
    if error is None {
        assert forall|fd: RawFd, event: ReactorEvent| !in_conflict(fds, id, scope, fd, event) by {
            if registered(scope, fd, event) is Some {
                let i = choose|i: int|
                    0 <= i < update.additions@.len() && (#[trigger] update.additions@[i]).0 == fd
                        && update.additions@[i].1 == event;
                assert(update.additions@[i].0 == fd);
            }
        }
        assert forall|fd: RawFd, event: ReactorEvent|
            (#[trigger] registered(now, fd, event)) == up_to_date(fds, id, scope, fd, event) by {
            let place = (fd, event);
            if registered(scope, fd, event) is Some {
                let i = choose|i: int|
                    0 <= i < update.additions@.len() && (#[trigger] update.additions@[i]).0 == fd
                        && update.additions@[i].1 == event;
                assert(update.additions@[i].0 == fd);
            } else if is_stale(fds, id, scope, place) {
                assert(update.removals@.contains(place));
                let i = choose|i: int|
                    0 <= i < update.removals@.len() && update.removals@[i] == place;
                assert(update.removals@[i] == place);
            } else {
                assert(!touched(update, k as int, fd, event)) by {
                    if exists|i: int|
                        0 <= i < k && i < update.removals@.len() && #[trigger] update.removals@[i]
                            == (fd, event) {
                        assert(update.removals@.contains(place));
                    }
                }
            }
        }
    }
}

/// An update is refused exactly where an event of the scope has a handler that is not the scope's.
/// Otherwise every event of the scope has the scope's callback, on behalf of the scope; what the
/// scope had before and holds no more is gone; and every other handler is as it was.
pub proof fn law_scope_takes_effect<C>(
    update: ScopeUpdate<C>,
    epoll_fd: Option<RawFd>,
    fds: Handlers<C>,
    id: usize,
    scope: Map<RawFd, EventMap<C>>,
    watched: Watched,
)
    requires
        update.plans(fds, id, scope),
    ensures
        match after_steps(update, epoll_fd, fds, watched, update.len()) {
            (now, seen, error) => {
                &&& error is Some <==> exists|fd: RawFd, event: ReactorEvent|
                    (#[trigger] registered(scope, fd, event)) is Some && registered(
                        fds,
                        fd,
                        event,
                    ) is Some && registered(fds, fd, event)->0.scope != Some(id)
                &&& error is None ==> forall|fd: RawFd, event: ReactorEvent|
                    (#[trigger] registered(scope, fd, event)) is Some ==> registered(
                        now,
                        fd,
                        event,
                    ) == Some(
                        EventHandler {
                            callback: registered(scope, fd, event)->0,
                            scope: Some(id),
                        },
                    )
                &&& error is None ==> forall|fd: RawFd, event: ReactorEvent|
                    (#[trigger] registered(scope, fd, event)) is None && registered(
                        fds,
                        fd,
                        event,
                    ) is Some && registered(fds, fd, event)->0.scope == Some(id) ==> registered(
                        now,
                        fd,
                        event,
                    ) is None
                &&& error is None ==> forall|fd: RawFd, event: ReactorEvent|
                    (#[trigger] registered(scope, fd, event)) is None && !(registered(
                        fds,
                        fd,
                        event,
                    ) is Some && registered(fds, fd, event)->0.scope == Some(id)) ==> registered(
                        now,
                        fd,
                        event,
                    ) == registered(fds, fd, event)
            },
        },
{
    law_update_scope(update, epoll_fd, fds, id, scope, watched);
    let (now, seen, error) = after_steps(update, epoll_fd, fds, watched, update.len());
    if error is Some {
        let (fd, event) = choose|fd: RawFd, event: ReactorEvent|
            in_conflict(fds, id, scope, fd, event);
        assert(registered(scope, fd, event) is Some);
    } else {
        assert forall|fd: RawFd, event: ReactorEvent|
            !((#[trigger] registered(scope, fd, event)) is Some && registered(fds, fd, event) is Some
                && registered(fds, fd, event)->0.scope != Some(id)) by {
            assert(!in_conflict(fds, id, scope, fd, event));
        }
        assert forall|fd: RawFd, event: ReactorEvent|
            (#[trigger] registered(scope, fd, event)) is Some || true implies registered(
            now,
            fd,
            event,
        ) == up_to_date(fds, id, scope, fd, event) by {
            assert(registered(now, fd, event) == up_to_date(fds, id, scope, fd, event));
        }
    }
}

/// However far an update came, the handlers of other sources are those that there were: each
/// stays, and none appears.  Where it was refused, no handler is left that the scope does not
/// hold any more.
pub proof fn law_update_scope_stepwise<C>(
    update: ScopeUpdate<C>,
    epoll_fd: Option<RawFd>,
    fds: Handlers<C>,
    id: usize,
    scope: Map<RawFd, EventMap<C>>,
    watched: Watched,
    k: nat,
)
    requires
        update.plans(fds, id, scope),
        k <= update.len(),
    ensures
        match after_steps(update, epoll_fd, fds, watched, k) {
            (now, seen, error) => {
                &&& forall|fd: RawFd, event: ReactorEvent|
                    (#[trigger] registered(fds, fd, event)) is Some && registered(
                        fds,
                        fd,
                        event,
                    )->0.scope != Some(id) ==> registered(now, fd, event) == registered(
                        fds,
                        fd,
                        event,
                    )
                &&& forall|fd: RawFd, event: ReactorEvent|
                    (#[trigger] registered(now, fd, event)) is Some && registered(
                        now,
                        fd,
                        event,
                    )->0.scope != Some(id) ==> registered(fds, fd, event) == registered(
                        now,
                        fd,
                        event,
                    )
                &&& error is Some ==> forall|place: (RawFd, ReactorEvent)| #[trigger]
                    is_stale(fds, id, scope, place) ==> registered(now, place.0, place.1) is None
            },
        },
{
    let exact = exactly(fds);
    lemma_halfway(update, epoll_fd, fds, id, scope, exact, k);
    lemma_handlers_alone(update, epoll_fd, fds, exact, watched, k);
    lemma_none_appears(update, epoll_fd, fds, watched, k);
    lemma_refused_late(update, epoll_fd, fds, id, scope, exact, k);
    let (now, seen, error) = after_steps(update, epoll_fd, fds, watched, k);
    if error is Some {
        assert forall|place: (RawFd, ReactorEvent)| #[trigger]
            is_stale(fds, id, scope, place) implies registered(now, place.0, place.1) is None by {
            assert(update.removals@.contains(place));
            let i = choose|i: int| 0 <= i < update.removals@.len() && update.removals@[i] == place;
            assert(update.removals@[i] == place);
        }
    }
}

/// The steps of an update add handlers of its scope only.
proof fn lemma_none_appears<C>(
    update: ScopeUpdate<C>,
    epoll_fd: Option<RawFd>,
    fds: Handlers<C>,
    watched: Watched,
    k: nat,
)
    requires
        k <= update.len(),
    ensures
        match after_steps(update, epoll_fd, fds, watched, k) {
            (now, seen, error) => forall|fd: RawFd, event: ReactorEvent|
                (#[trigger] registered(now, fd, event)) is Some && registered(
                    now,
                    fd,
                    event,
                )->0.scope != Some(update.scope) ==> registered(fds, fd, event) == registered(
                    now,
                    fd,
                    event,
                ),
        },
    decreases k,
{
    if k > 0 {
        lemma_none_appears(update, epoll_fd, fds, watched, (k - 1) as nat);
        let (before, seen, error) = after_steps(update, epoll_fd, fds, watched, (k - 1) as nat);
        let now = after_steps(update, epoll_fd, fds, watched, k).0;
        assert forall|fd: RawFd, event: ReactorEvent|
            (#[trigger] registered(now, fd, event)) is Some && registered(
                now,
                fd,
                event,
            )->0.scope != Some(update.scope) implies registered(fds, fd, event) == registered(
            now,
            fd,
            event,
        ) by {
            assert(registered(before, fd, event) == registered(now, fd, event));
        }
    }
}

/// An update is refused only once everything was removed that is to be.
proof fn lemma_refused_late<C>(
    update: ScopeUpdate<C>,
    epoll_fd: Option<RawFd>,
    fds: Handlers<C>,
    id: usize,
    scope: Map<RawFd, EventMap<C>>,
    watched: Watched,
    k: nat,
)
    requires
        update.plans(fds, id, scope),
        in_step(fds, watched),
        k <= update.len(),
    ensures
        match after_steps(update, epoll_fd, fds, watched, k) {
            (now, seen, error) => error is Some ==> forall|i: int|
                0 <= i < update.removals@.len() ==> registered(
                    now,
                    (#[trigger] update.removals@[i]).0,
                    update.removals@[i].1,
                ) is None,
        },
    decreases k,
{
    if k > 0 {
        lemma_refused_late(update, epoll_fd, fds, id, scope, watched, (k - 1) as nat);
        lemma_halfway(update, epoll_fd, fds, id, scope, watched, (k - 1) as nat);
    }
}

/// The kernel accepts every call that an update asks for, and watches what the reactor has
/// handlers for however far the update came, if it did at its start.
pub proof fn law_update_scope_in_step<C>(
    update: ScopeUpdate<C>,
    epoll_fd: Option<RawFd>,
    fds: Handlers<C>,
    id: usize,
    scope: Map<RawFd, EventMap<C>>,
    watched: Watched,
    k: nat,
)
    requires
        update.plans(fds, id, scope),
        in_step(fds, watched),
        k <= update.len(),
    ensures
        steps_acceptable(update, epoll_fd, fds, watched, k),
        match after_steps(update, epoll_fd, fds, watched, k) {
            (now, seen, error) => in_step(now, seen),
        },
{
    lemma_halfway(update, epoll_fd, fds, id, scope, watched, k);
}

/// A reactor that is up to date with a scope has nothing to do for it: no handler is removed,
/// and no addition is refused, calls the kernel or changes a handler.
pub proof fn law_update_scope_idempotent<C>(
    again: ScopeUpdate<C>,
    epoll_fd: Option<RawFd>,
    fds: Handlers<C>,
    now: Handlers<C>,
    id: usize,
    scope: Map<RawFd, EventMap<C>>,
    k: int,
)
    requires
        forall|fd: RawFd, event: ReactorEvent|
            (#[trigger] registered(now, fd, event)) == up_to_date(fds, id, scope, fd, event),
        again.plans(now, id, scope),
        0 <= k < again.len(),
    ensures
        again.removals@.len() == 0,
        again.step(epoll_fd, now, k).1 == Ok::<_, Error>(None::<EpollCtl>),
        again.step(epoll_fd, now, k).0 == now,
{
    if again.removals@.len() > 0 {
        let place = again.removals@[0];
        assert(again.removals@.contains(place));
        assert(is_stale(now, id, scope, place));
        assert(registered(now, place.0, place.1) == up_to_date(fds, id, scope, place.0, place.1));
    }
    let (fd, event, callback) = again.additions@[k];
    assert(registered(scope, fd, event) == Some(callback));
    assert(registered(now, fd, event) == up_to_date(fds, id, scope, fd, event));
    let handler = EventHandler { callback, scope: Some(id) };
    assert(entry(now, fd).with(event, Some(handler)) == entry(now, fd));
    assert(now.insert(fd, entry(now, fd)) =~= now);
}

/// An event that was added reaches its callback: the data that the kernel was given for the
/// descriptor leads back to it, and a report with the flag of the event calls the callback.
pub proof fn law_added_is_called<C>(
    epoll_fd: Option<RawFd>,
    fds: Handlers<C>,
    fd: RawFd,
    event: ReactorEvent,
    handler: EventHandler<C>,
    flags: i32,
)
    requires
        registered(fds, fd, event) is None,
        has_flag(flags, event),
    ensures
        match added(epoll_fd, fds, fd, event, handler) {
            (after, Ok(Some(call))) => {
                &&& call.event is Some
                &&& fd_of(call.event->0.data) == fd
                &&& has_flag(call.event->0.flags, event)
                &&& called(after, call.event->0.data, flags).contains(handler.callback)
            },
            _ => false,
        },
{
    let (after, r) = added(epoll_fd, fds, fd, event, handler);
    law_fd_round_trip(fd);
    law_flags_tell_events(after[fd], event);
    let all = called(after, fd as u64, flags);
    match event {
        ReactorEvent::ReadyRead => {
            assert(all[0] == handler.callback);
        },
        ReactorEvent::ReadyWrite => {
            assert(all[all.len() - 1] == handler.callback);
        },
    }
}

/// The loop waits exactly where its configuration was looked at and the reactor is open, with the
/// limit that the configuration gave.  It ends well only where the reactor was found closed, and
/// with an error exactly where a callback returned it.  It breaks off only where waiting failed,
/// and not where a signal ended the wait on a reactor that was closed meanwhile.
pub proof fn law_run<C>(
    epoll_fd: Option<RawFd>,
    fds: Handlers<C>,
    pending: Seq<(RawFd, C)>,
    event: RunEvent,
)
    ensures
        match run_next(epoll_fd, fds, pending, event).1 {
            RunAction::Wait { epfd, max_events, timeout } => {
                &&& event == RunEvent::Configured { timeout }
                &&& epoll_fd == Some(epfd)
                &&& fds.len() <= usize::MAX ==> max_events == fds.len()
            },
            RunAction::Finished(Ok(())) => epoll_fd is None,
            RunAction::Finished(Err(e)) => event == RunEvent::Called(Err(e)),
            RunAction::Fatal { errno } => {
                &&& event matches RunEvent::Waited(Err(number)) && number == errno
                &&& errno != 4 || epoll_fd is Some
            },
            RunAction::Call { .. } => event matches RunEvent::Waited(Ok(_)) || event
                matches RunEvent::Called(Ok(_)),
            RunAction::Configure => event is Start || event matches RunEvent::Waited(Ok(_))
                || event matches RunEvent::Called(Ok(_)),
        },
        event is Start ==> run_next(epoll_fd, fds, pending, event).1 is Configure,
        event is Start ==> run_next(epoll_fd, fds, pending, event).0.len() == 0,
        event matches RunEvent::Waited(Err(number)) ==> (number != 4 || epoll_fd is Some)
            ==> run_next(epoll_fd, fds, pending, event).1 == (RunAction::<C>::Fatal {
            errno: number,
        }),
        event matches RunEvent::Called(Ok(_)) ==> pending.len() == 0 ==> run_next(
            epoll_fd,
            fds,
            pending,
            event,
        ).1 is Configure,
        event matches RunEvent::Called(Ok(_)) ==> pending.len() > 0 ==> {
            &&& run_next(epoll_fd, fds, pending, event).1 matches RunAction::Call { fd, callback }
            &&& (fd, callback) == pending[0]
            &&& pending == seq![pending[0]] + run_next(epoll_fd, fds, pending, event).0
        },
        event is Configured && epoll_fd is Some ==> run_next(epoll_fd, fds, pending, event).1 is Wait,
        event is Configured && epoll_fd is None ==> run_next(epoll_fd, fds, pending, event).1
            == RunAction::<C>::Finished(Ok(())),
        event matches RunEvent::Called(Err(e)) ==> run_next(epoll_fd, fds, pending, event).1
            == RunAction::<C>::Finished(Err(e)),
{
    if pending.len() > 0 {
        assert(pending =~= seq![pending[0]] + pending.skip(1));
    }
}

/// Where the reactor is open the loop waits, with room for one event of each descriptor, and it
/// stops otherwise; as it does where a signal ended the wait on a reactor that was closed meanwhile.
/// Any other error ends it for good, and events are dealt with, all of them.
pub proof fn law_wait<C>(epoll_fd: Option<RawFd>, fds: Handlers<C>, result: Result<usize, i32>)
    ensures
        wait_action(epoll_fd, fds) is Stop <==> epoll_fd is None,
        wait_action(epoll_fd, fds) matches LoopAction::Wait { epfd, max_events } ==> epoll_fd
            == Some(epfd) && (fds.len() <= usize::MAX ==> max_events == fds.len()),
        wait_outcome(epoll_fd, result) matches WaitOutcome::Dispatch { count } ==> result
            == Ok::<usize, i32>(count),
        wait_outcome(epoll_fd, result) matches WaitOutcome::Fatal { errno } ==> result
            == Err::<usize, i32>(errno),
        wait_outcome(epoll_fd, result) is Dispatch <==> result is Ok,
        wait_outcome(epoll_fd, result) is Stop <==> epoll_fd is None && result == Err::<usize, i32>(4),
{
}

/// An error number stays what it is, and so does an error of moving bytes.
pub proof fn law_errors_kept(errno: i32, error: IoError)
    ensures
        <Error as FromSpec<i32>>::from_spec(errno) == Error::Errno(errno),
        <Error as FromSpec<IoError>>::from_spec(error) == Error::IoError(error),
{
}

/// Where the loop stands once reports came in and `k` callbacks were called without error.
pub open spec fn after_calls<C>(
    epoll_fd: Option<RawFd>,
    fds: Handlers<C>,
    pending: Seq<(RawFd, C)>,
    reports: Vec<Report>,
    k: nat,
) -> (Seq<(RawFd, C)>, RunAction<C>)
    decreases k,
{
    if k == 0 {
        run_next(epoll_fd, fds, pending, RunEvent::Waited(Ok(reports)))
    } else {
        let before = after_calls(epoll_fd, fds, pending, reports, (k - 1) as nat);
        run_next(epoll_fd, fds, before.0, RunEvent::Called(Ok(())))
    }
}

/// Every callback for what was reported is called once, in order, as long as none fails; then
/// the configuration is looked at again.
pub proof fn law_calls_in_order<C>(
    epoll_fd: Option<RawFd>,
    fds: Handlers<C>,
    pending: Seq<(RawFd, C)>,
    reports: Vec<Report>,
    k: nat,
)
    requires
        k <= calls(fds, reports@).len(),
    ensures
        after_calls(epoll_fd, fds, pending, reports, k).1 == if k < calls(fds, reports@).len() {
            let (fd, callback) = calls(fds, reports@)[k as int];
            RunAction::Call { fd, callback }
        } else {
            RunAction::Configure
        },
{
    lemma_calls_left(epoll_fd, fds, pending, reports, k);
}

proof fn lemma_calls_left<C>(
    epoll_fd: Option<RawFd>,
    fds: Handlers<C>,
    pending: Seq<(RawFd, C)>,
    reports: Vec<Report>,
    k: nat,
)
    requires
        k <= calls(fds, reports@).len(),
    ensures
        ({
            let all = calls(fds, reports@);
            let (left, action) = after_calls(epoll_fd, fds, pending, reports, k);
            if k < all.len() {
                &&& left == all.skip(k as int + 1)
                &&& action == (RunAction::Call { fd: all[k as int].0, callback: all[k as int].1 })
            } else {
                action == RunAction::<C>::Configure
            }
        }),
    decreases k,
{
    if k > 0 {
        lemma_calls_left(epoll_fd, fds, pending, reports, (k - 1) as nat);
        let all = calls(fds, reports@);
        if k < all.len() {
            assert(all.skip(k as int).skip(1) =~= all.skip(k as int + 1));
        }
    }
}

/// The calls for one report are those of the handlers of its descriptor whose flag is among the
/// flags reported, whatever else is: the one for reading, then the one for writing.
pub proof fn law_report_calls<C>(fds: Handlers<C>, report: Report)
    ensures
        ({
            let fd = fd_of(report.data);
            calls(fds, seq![report]) == (match registered(fds, fd, ReactorEvent::ReadyRead) {
                Some(handler) if report.flags & 1i32 != 0 => seq![(fd, handler.callback)],
                _ => seq![],
            }) + (match registered(fds, fd, ReactorEvent::ReadyWrite) {
                Some(handler) if report.flags & 4i32 != 0 => seq![(fd, handler.callback)],
                _ => seq![],
            })
        }),
        called(fds, report.data, report.flags).len() == calls(fds, seq![report]).len(),
        forall|i: int|
            0 <= i < called(fds, report.data, report.flags).len() ==> calls(fds, seq![report])[i]
                == (fd_of(report.data), #[trigger] called(fds, report.data, report.flags)[i]),
{
    let fd = fd_of(report.data);
    law_has_flag(report.flags);
    reveal_with_fuel(calls, 2);
    let one = seq![report];
    assert(one.drop_last() =~= Seq::<Report>::empty());
    let made = calls(fds, one);
    assert(made =~= called(fds, report.data, report.flags).map_values(
        |callback: C| (fd_of(report.data), callback),
    ));
    assert(made =~= (match registered(fds, fd, ReactorEvent::ReadyRead) {
        Some(handler) if report.flags & 1i32 != 0 => seq![(fd, handler.callback)],
        _ => seq![],
    }) + (match registered(fds, fd, ReactorEvent::ReadyWrite) {
        Some(handler) if report.flags & 4i32 != 0 => seq![(fd, handler.callback)],
        _ => seq![],
    }));
}

/// The calls for some reports are those for the first of them, followed by those for the rest,
/// wherever they are parted.
pub proof fn law_calls_concat<C>(fds: Handlers<C>, first: Seq<Report>, rest: Seq<Report>)
    ensures
        calls(fds, first + rest) == calls(fds, first) + calls(fds, rest),
        calls(fds, Seq::<Report>::empty()) == Seq::<(RawFd, C)>::empty(),
    decreases rest.len(),
{
    if rest.len() == 0 {
        assert(first + rest =~= first);
        assert(calls(fds, first) + calls(fds, rest) =~= calls(fds, first));
    } else {
        law_calls_concat(fds, first, rest.drop_last());
        assert((first + rest).drop_last() =~= first + rest.drop_last());
        assert((first + rest).last() == rest.last());
        assert(calls(fds, first + rest) =~= calls(fds, first) + calls(fds, rest));
    }
}

/// For every report, every handler of its descriptor whose flag is among the flags reported is
/// called.
pub proof fn law_every_handler_called<C>(
    fds: Handlers<C>,
    reports: Seq<Report>,
    i: int,
    event: ReactorEvent,
)
    requires
        0 <= i < reports.len(),
        registered(fds, fd_of(reports[i].data), event) is Some,
        has_flag(reports[i].flags, event),
    ensures
        calls(fds, reports).contains(
            (fd_of(reports[i].data), registered(fds, fd_of(reports[i].data), event)->0.callback),
        ),
{
    let report = reports[i];
    let fd = fd_of(report.data);
    let call = (fd, registered(fds, fd, event)->0.callback);
    let one = calls(fds, seq![report]);
    law_has_flag(report.flags);
    law_report_calls(fds, report);
    match event {
        ReactorEvent::ReadyRead => {
            assert(one[0] == call);
        },
        ReactorEvent::ReadyWrite => {
            assert(one[one.len() - 1] == call);
        },
    }
    let at = choose|at: int| 0 <= at < one.len() && one[at] == call;
    let front = calls(fds, reports.take(i));
    law_calls_concat(fds, reports.take(i), seq![report]);
    law_calls_concat(fds, reports.take(i) + seq![report], reports.skip(i + 1));
    assert((reports.take(i) + seq![report]) + reports.skip(i + 1) =~= reports);
    assert(calls(fds, reports)[front.len() + at] == call);
}

/// Every call is for a report: that of a handler of its descriptor whose flag is among the flags
/// reported.
pub proof fn law_every_call_reported<C>(fds: Handlers<C>, reports: Seq<Report>, k: int) -> (r: (
    int,
    ReactorEvent,
))
    requires
        0 <= k < calls(fds, reports).len(),
    ensures
        0 <= r.0 < reports.len(),
        has_flag(reports[r.0].flags, r.1),
        registered(fds, fd_of(reports[r.0].data), r.1) is Some,
        calls(fds, reports)[k] == (
            fd_of(reports[r.0].data),
            registered(fds, fd_of(reports[r.0].data), r.1)->0.callback,
        ),
    decreases reports.len(),
{
    let n = reports.len() - 1;
    let last = reports.last();
    let front = reports.drop_last();
    assert(front + seq![last] =~= reports);
    law_calls_concat(fds, front, seq![last]);
    if k < calls(fds, front).len() {
        let r = law_every_call_reported(fds, front, k);
        assert(reports[r.0] == front[r.0]);
        r
    } else {
        law_report_calls(fds, last);
        law_has_flag(last.flags);
        let fd = fd_of(last.data);
        let reads = has_flag(last.flags, ReactorEvent::ReadyRead) && registered(
            fds,
            fd,
            ReactorEvent::ReadyRead,
        ) is Some;
        if reads && k == calls(fds, front).len() {
            (n, ReactorEvent::ReadyRead)
        } else {
            (n, ReactorEvent::ReadyWrite)
        }
    }
}

} // verus!
