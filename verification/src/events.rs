//! A reactor: which descriptors are watched for which events, who is called when one is
//! ready, and what the kernel has to be told when that changes.
//!
//! Nothing here talks to the kernel.  An operation that needs it returns the `epoll_ctl` call
//! to make.  A callback is a value of the type parameter `C`, which is only kept and handed
//! back.
use std::collections::HashMap;

use vstd::prelude::*;

use crate::epoll::{event_fd, EpollCtl, EpollEvent, EpollOp, RawFd};
use crate::io::IoError;
use crate::kernel::{eintr, epollin, epollout, EINTR, EPOLLIN, EPOLLOUT};

verus! {

broadcast use vstd::std_specs::hash::group_hash_axioms;

/// Why an operation failed.
#[derive(Debug, PartialEq, Eq, Structural, Copy, Clone)]
pub enum Error {
    /// The event belongs to another scope, or to none.
    DuplicatedFdWithDifferentSource,
    IoError(IoError),
    /// The error number of a system call.
    Errno(i32),
}

impl vstd::std_specs::convert::FromSpecImpl<i32> for Error {
    open spec fn obeys_from_spec() -> bool {
        true
    }

    open spec fn from_spec(v: i32) -> Self {
        Error::Errno(v)
    }
}

impl From<i32> for Error {
    fn from(err: i32) -> (r: Self) {
        Error::Errno(err)
    }
}

impl vstd::std_specs::convert::FromSpecImpl<IoError> for Error {
    open spec fn obeys_from_spec() -> bool {
        true
    }

    open spec fn from_spec(v: IoError) -> Self {
        Error::IoError(v)
    }
}

impl From<IoError> for Error {
    fn from(err: IoError) -> (r: Self) {
        Error::IoError(err)
    }
}

/// What a descriptor can be watched for.
#[derive(Debug, PartialEq, Eq, Structural, Hash, Copy, Clone)]
pub enum ReactorEvent {
    ReadyRead,
    ReadyWrite,
}

impl ReactorEvent {
    /// The bit that stands for this event in a set of `epoll` flags.
    pub open spec fn flag(self) -> i32 {
        match self {
            ReactorEvent::ReadyRead => EPOLLIN,
            ReactorEvent::ReadyWrite => EPOLLOUT,
        }
    }

    pub fn to_epoll_flag(&self) -> (bits: i32)
        ensures
            bits == self.flag(),
    {
        match self {
            ReactorEvent::ReadyRead => epollin(),
            ReactorEvent::ReadyWrite => epollout(),
        }
    }

    /// The flags of all the events together.
    pub fn epoll_flags(events: &Vec<ReactorEvent>) -> (bits: i32)
        ensures
            bits == flags_of(events@),
    {
        let mut bits: i32 = 0;
        let mut i: usize = 0;
        while i < events.len()
            invariant
                i <= events.len(),
                bits == flags_of(events@.take(i as int)),
            decreases events.len() - i,
        {
            proof {
                assert(events@.take(i + 1).drop_last() =~= events@.take(i as int));
            }
            bits = bits | events[i].to_epoll_flag();
            i = i + 1;
        }
        proof {
            assert(events@.take(i as int) =~= events@);
        }
        bits
    }
}

/// The union of the flags of some events.
pub open spec fn flags_of(events: Seq<ReactorEvent>) -> i32
    decreases events.len(),
{
    if events.len() == 0 {
        0
    } else {
        flags_of(events.drop_last()) | events.last().flag()
    }
}

/// Whether a set of flags holds the flag of an event.
pub open spec fn has_flag(flags: i32, event: ReactorEvent) -> bool {
    flags & event.flag() == event.flag()
}

/// One value for each event that a descriptor is watched for.
#[derive(Debug, Copy, Clone)]
pub struct EventMap<H> {
    pub ready_read: Option<H>,
    pub ready_write: Option<H>,
}

impl<H> EventMap<H> {
    /// No event has a value.
    pub open spec fn none() -> Self {
        EventMap { ready_read: None, ready_write: None }
    }

    /// The value of an event.
    pub open spec fn at(self, event: ReactorEvent) -> Option<H> {
        match event {
            ReactorEvent::ReadyRead => self.ready_read,
            ReactorEvent::ReadyWrite => self.ready_write,
        }
    }

    /// The map with another value for an event.
    pub open spec fn with(self, event: ReactorEvent, value: Option<H>) -> Self {
        match event {
            ReactorEvent::ReadyRead => EventMap { ready_read: value, ..self },
            ReactorEvent::ReadyWrite => EventMap { ready_write: value, ..self },
        }
    }

    /// The events that have a value.
    pub open spec fn events(self) -> Seq<ReactorEvent> {
        (if self.ready_read is Some {
            seq![ReactorEvent::ReadyRead]
        } else {
            seq![]
        }) + (if self.ready_write is Some {
            seq![ReactorEvent::ReadyWrite]
        } else {
            seq![]
        })
    }

    pub fn new() -> (r: Self)
        ensures
            r == Self::none(),
    {
        EventMap { ready_read: None, ready_write: None }
    }

    /// How many events have a value.
    pub fn len(&self) -> (n: usize)
        ensures
            n == self.events().len(),
    {
        let reads: usize = if self.ready_read.is_some() {
            1
        } else {
            0
        };
        let writes: usize = if self.ready_write.is_some() {
            1
        } else {
            0
        };
        reads + writes
    }

    pub fn contains_key(&self, event: &ReactorEvent) -> (r: bool)
        ensures
            r == (self.at(*event) is Some),
    {
        match event {
            ReactorEvent::ReadyRead => self.ready_read.is_some(),
            ReactorEvent::ReadyWrite => self.ready_write.is_some(),
        }
    }

    /// The events that have a value.
    pub fn keys(&self) -> (r: Vec<ReactorEvent>)
        ensures
            r@ == self.events(),
    {
        let mut r: Vec<ReactorEvent> = Vec::new();
        if self.ready_read.is_some() {
            r.push(ReactorEvent::ReadyRead);
        }
        if self.ready_write.is_some() {
            r.push(ReactorEvent::ReadyWrite);
        }
        proof {
            assert(r@ =~= self.events());
        }
        r
    }
}

impl<H: Copy> EventMap<H> {
    pub fn get(&self, event: &ReactorEvent) -> (r: Option<H>)
        ensures
            r == self.at(*event),
    {
        match event {
            ReactorEvent::ReadyRead => self.ready_read,
            ReactorEvent::ReadyWrite => self.ready_write,
        }
    }

    /// Sets the value of an event and returns the one that it had.
    pub fn insert(&mut self, event: ReactorEvent, value: H) -> (r: Option<H>)
        ensures
            *final(self) == old(self).with(event, Some(value)),
            r == old(self).at(event),
    {
        let before = self.get(&event);
        match event {
            ReactorEvent::ReadyRead => {
                self.ready_read = Some(value);
            },
            ReactorEvent::ReadyWrite => {
                self.ready_write = Some(value);
            },
        }
        before
    }

    /// Takes the value of an event away and returns it.
    pub fn remove(&mut self, event: &ReactorEvent) -> (r: Option<H>)
        ensures
            *final(self) == old(self).with(*event, None),
            r == old(self).at(*event),
    {
        let before = self.get(event);
        match event {
            ReactorEvent::ReadyRead => {
                self.ready_read = None;
            },
            ReactorEvent::ReadyWrite => {
                self.ready_write = None;
            },
        }
        before
    }
}

/// What a table of descriptors holds for a descriptor; nothing where it is not in the table.
pub open spec fn entry<H>(fds: Map<RawFd, EventMap<H>>, fd: RawFd) -> EventMap<H> {
    if fds.contains_key(fd) {
        fds[fd]
    } else {
        EventMap::none()
    }
}

/// What a table of descriptors holds for an event of a descriptor.
pub open spec fn registered<H>(
    fds: Map<RawFd, EventMap<H>>,
    fd: RawFd,
    event: ReactorEvent,
) -> Option<H> {
    entry(fds, fd).at(event)
}

/// Whether a list holds every value of a table exactly once, with its place.
pub open spec fn enumerates<H>(
    list: Seq<(RawFd, ReactorEvent, H)>,
    fds: Map<RawFd, EventMap<H>>,
) -> bool {
    &&& forall|i: int|
        0 <= i < list.len() ==> registered(fds, (#[trigger] list[i]).0, list[i].1) == Some(
            list[i].2,
        )
    &&& forall|i: int, j: int|
        0 <= i < j < list.len() ==> (#[trigger] list[i]).0 != (#[trigger] list[j]).0 || list[i].1
            != list[j].1
    &&& forall|fd: RawFd, event: ReactorEvent|
        (#[trigger] registered(fds, fd, event)) is Some ==> exists|i: int|
            0 <= i < list.len() && (#[trigger] list[i]).0 == fd && list[i].1 == event
}

/// The descriptors in a table, in the order in which the table is walked.
fn descriptors<H>(fds: &HashMap<RawFd, EventMap<H>>) -> (list: Vec<RawFd>)
    ensures
        list@.no_duplicates(),
        forall|fd: RawFd| list@.contains(fd) <==> fds@.contains_key(fd),
{
    let mut list: Vec<RawFd> = Vec::new();
    for fd in it: fds.keys()
        invariant
            list@.len() == it.index(),
            forall|i: int| 0 <= i < list@.len() ==> list@[i] == *it.seq()[i],
    {
        list.push(*fd);
    }
    proof {
        let walked = vstd::std_specs::iter::IteratorSpec::remaining(&fds.keys());
        assert(list@ =~= walked.unref());
        assert forall|fd: RawFd| list@.contains(fd) <==> fds@.contains_key(fd) by {
            assert(list@.to_set().contains(fd) <==> fds@.dom().contains(fd));
        }
        assert forall|i: int, j: int|
            0 <= i < list@.len() && 0 <= j < list@.len() && i != j implies list@[i] != list@[j] by {
            assert(walked[i] != walked[j]);
        }
    }
    list
}

/// Every value of a table, with its place, in the order in which the table is walked.
fn entries<H: Copy>(fds: &HashMap<RawFd, EventMap<H>>) -> (list: Vec<(RawFd, ReactorEvent, H)>)
    ensures
        enumerates(list@, fds@),
{
    let keys = descriptors(fds);
    let mut list: Vec<(RawFd, ReactorEvent, H)> = Vec::new();
    let mut i: usize = 0;
    while i < keys.len()
        invariant
            i <= keys@.len(),
            keys@.no_duplicates(),
            forall|fd: RawFd| keys@.contains(fd) <==> fds@.contains_key(fd),
            covers(list@, fds@, keys@.take(i as int)),
        decreases keys.len() - i,
    {
        let fd = keys[i];
        let ghost before = list@;
        proof {
            assert(keys@.contains(keys@[i as int]));
            assert(!keys@.take(i as int).contains(fd));
        }
        if let Some(events) = fds.get(&fd) {
            if let Some(value) = events.ready_read {
                list.push((fd, ReactorEvent::ReadyRead, value));
            }
            if let Some(value) = events.ready_write {
                list.push((fd, ReactorEvent::ReadyWrite, value));
            }
        }
        proof {
            assert(list@ =~= before + fds@[fd].events().map_values(
                |event: ReactorEvent| (fd, event, fds@[fd].at(event)->0),
            ));
            lemma_covers_next(before, list@, fds@, keys@.take(i as int), fd);
            assert(keys@.take(i + 1) =~= keys@.take(i as int).push(fd));
        }
        i = i + 1;
    }
    proof {
        assert(keys@.take(i as int) =~= keys@);
        assert forall|fd: RawFd, event: ReactorEvent|
            (#[trigger] registered(fds@, fd, event)) is Some implies exists|i: int|
            0 <= i < list@.len() && (#[trigger] list@[i]).0 == fd && list@[i].1 == event by {
            assert(keys@.contains(fd));
            assert(listed(list@, fd, event));
        }
    }
    list
}

/// Whether a list holds a value for an event of a descriptor.
spec fn listed<H>(list: Seq<(RawFd, ReactorEvent, H)>, fd: RawFd, event: ReactorEvent) -> bool {
    exists|i: int| 0 <= i < list.len() && (#[trigger] list[i]).0 == fd && list[i].1 == event
}

/// Whether a list holds every value of the given descriptors exactly once, with its place.
spec fn covers<H>(
    list: Seq<(RawFd, ReactorEvent, H)>,
    fds: Map<RawFd, EventMap<H>>,
    keys: Seq<RawFd>,
) -> bool {
    &&& forall|i: int|
        0 <= i < list.len() ==> registered(fds, (#[trigger] list[i]).0, list[i].1) == Some(
            list[i].2,
        ) && keys.contains(list[i].0)
    &&& forall|i: int, j: int|
        0 <= i < j < list.len() ==> (#[trigger] list[i]).0 != (#[trigger] list[j]).0 || list[i].1
            != list[j].1
    &&& forall|fd: RawFd, event: ReactorEvent|
        keys.contains(fd) && registered(fds, fd, event) is Some ==> #[trigger] listed(
            list,
            fd,
            event,
        )
}

/// A list that covers some descriptors covers one more with the values of that one behind.
proof fn lemma_covers_next<H>(
    before: Seq<(RawFd, ReactorEvent, H)>,
    after: Seq<(RawFd, ReactorEvent, H)>,
    fds: Map<RawFd, EventMap<H>>,
    keys: Seq<RawFd>,
    fd: RawFd,
)
    requires
        covers(before, fds, keys),
        !keys.contains(fd),
        fds.contains_key(fd),
        after == before + fds[fd].events().map_values(
            |event: ReactorEvent| (fd, event, fds[fd].at(event)->0),
        ),
    ensures
        covers(after, fds, keys.push(fd)),
{
    let more = keys.push(fd);
    assert(more[keys.len() as int] == fd);
    assert forall|i: int| 0 <= i < after.len() implies registered(
        fds,
        (#[trigger] after[i]).0,
        after[i].1,
    ) == Some(after[i].2) && more.contains(after[i].0) by {
        if i < before.len() {
            assert(after[i] == before[i]);
            let k = choose|k: int| 0 <= k < keys.len() && keys[k] == before[i].0;
            assert(more[k] == before[i].0);
        }
    }
    assert forall|i: int, j: int| 0 <= i < j < after.len() implies (#[trigger] after[i]).0 != (
    #[trigger] after[j]).0 || after[i].1 != after[j].1 by {
        if i < before.len() {
            assert(after[i] == before[i]);
            if j < before.len() {
                assert(after[j] == before[j]);
            }
        }
    }
    assert forall|x: RawFd, event: ReactorEvent|
        more.contains(x) && registered(fds, x, event) is Some implies #[trigger] listed(
        after,
        x,
        event,
    ) by {
        if keys.contains(x) {
            assert(listed(before, x, event));
            let k = choose|k: int|
                0 <= k < before.len() && (#[trigger] before[k]).0 == x && before[k].1 == event;
            assert(after[k] == before[k]);
        } else {
            let k = choose|k: int| 0 <= k < more.len() && more[k] == x;
            assert(x == fd);
            let events = fds[fd].events();
            let k = if event is ReadyRead {
                0
            } else {
                events.len() - 1
            };
            assert(events[k] == event);
            assert(after[before.len() + k].1 == event);
        }
    }
}

/// Who is called for an event, and the scope on whose behalf.
#[derive(Debug, Copy, Clone)]
pub struct EventHandler<C> {
    pub callback: C,
    pub scope: Option<usize>,
}

/// The handlers of a reactor, by descriptor.
pub type Handlers<C> = Map<RawFd, EventMap<EventHandler<C>>>;

/// The descriptors of a reactor with their handlers.
pub struct Reactor<C> {
    pub epoll_fd: Option<RawFd>,
    pub fds: HashMap<RawFd, EventMap<EventHandler<C>>>,
}

/// Descriptors with their callbacks that are to be watched together.  They take effect when a
/// reactor is brought up to date with them.
pub struct ScopedReactor<C> {
    pub fds: HashMap<RawFd, EventMap<C>>,
}

/// The call that makes the kernel watch a descriptor for the given events.
pub open spec fn watch_call<H>(
    epoll_fd: Option<RawFd>,
    op: EpollOp,
    fd: RawFd,
    events: EventMap<H>,
    data: u64,
) -> EpollCtl {
    EpollCtl {
        epfd: epoll_fd->0,
        op,
        fd,
        event: Some(EpollEvent { flags: flags_of(events.events()), data }),
    }
}

/// What adding a handler does: the handlers afterwards and what is returned.  An event that has
/// a handler of another source is refused.  The kernel has to be told of an event that had no
/// handler.
pub open spec fn added<C>(
    epoll_fd: Option<RawFd>,
    fds: Handlers<C>,
    fd: RawFd,
    event: ReactorEvent,
    handler: EventHandler<C>,
) -> (Handlers<C>, Result<Option<EpollCtl>, Error>) {
    let after = entry(fds, fd).with(event, Some(handler));
    match registered(fds, fd, event) {
        Some(previous) => if previous.scope != handler.scope {
            (fds, Err(Error::DuplicatedFdWithDifferentSource))
        } else {
            (fds.insert(fd, after), Ok(None))
        },
        None => {
            let op = if after.events().len() > 1 {
                EpollOp::EpollCtlMod
            } else {
                EpollOp::EpollCtlAdd
            };
            (fds.insert(fd, after), Ok(Some(watch_call(epoll_fd, op, fd, after, fd as u64))))
        },
    }
}

/// What removing a handler does: the handlers afterwards and the call to make.  A descriptor
/// that was added once stays in the table, with no handlers at last.
///
/// Where another event stays watched, the call gives the kernel the data 0.  From then on the
/// kernel reports that event as one of descriptor 0, until an event is added again.
pub open spec fn removed<C>(
    epoll_fd: Option<RawFd>,
    fds: Handlers<C>,
    fd: RawFd,
    event: ReactorEvent,
) -> (Handlers<C>, Option<EpollCtl>) {
    if !fds.contains_key(fd) {
        (fds, None)
    } else {
        let after = fds[fd].with(event, None);
        let call = if after.events().len() > 0 {
            watch_call(epoll_fd, EpollOp::EpollCtlMod, fd, after, 0)
        } else {
            EpollCtl { epfd: epoll_fd->0, op: EpollOp::EpollCtlDel, fd, event: None }
        };
        (fds.insert(fd, after), Some(call))
    }
}

/// Something to which handlers can be added and from which they can be removed.
pub trait MutableReactor<C>: Sized {
    /// Whether `add` can be called.
    spec fn can_add(&self, fd: RawFd, event: ReactorEvent) -> bool;

    /// What `add` does.
    spec fn adds(
        &self,
        after: &Self,
        fd: RawFd,
        event: ReactorEvent,
        handler: C,
        r: Result<Option<EpollCtl>, Error>,
    ) -> bool;

    /// Whether `remove` can be called.
    spec fn can_remove(&self, fd: RawFd, event: ReactorEvent) -> bool;

    /// What `remove` does.
    spec fn removes(
        &self,
        after: &Self,
        fd: RawFd,
        event: ReactorEvent,
        r: Result<Option<EpollCtl>, Error>,
    ) -> bool;

    fn add_input(&mut self, fd: RawFd, handler: C) -> (r: Result<Option<EpollCtl>, Error>)
        requires
            old(self).can_add(fd, ReactorEvent::ReadyRead),
        ensures
            old(self).adds(final(self), fd, ReactorEvent::ReadyRead, handler, r),
    {
        self.add(fd, ReactorEvent::ReadyRead, handler)
    }

    fn add_output(&mut self, fd: RawFd, handler: C) -> (r: Result<Option<EpollCtl>, Error>)
        requires
            old(self).can_add(fd, ReactorEvent::ReadyWrite),
        ensures
            old(self).adds(final(self), fd, ReactorEvent::ReadyWrite, handler, r),
    {
        self.add(fd, ReactorEvent::ReadyWrite, handler)
    }

    /// Adds a handler.  The call that is returned, if any, is to be made next.
    fn add(&mut self, fd: RawFd, event: ReactorEvent, handler: C) -> (r: Result<
        Option<EpollCtl>,
        Error,
    >)
        requires
            old(self).can_add(fd, event),
        ensures
            old(self).adds(final(self), fd, event, handler, r),
    ;

    /// Removes a handler.  The call that is returned, if any, is to be made next.
    fn remove(&mut self, fd: RawFd, event: ReactorEvent) -> (r: Result<Option<EpollCtl>, Error>)
        requires
            old(self).can_remove(fd, event),
        ensures
            old(self).removes(final(self), fd, event, r),
    ;
}

/// For a reactor whose configuration never changes: wait without a limit.
pub fn reactor_noop_config<T>(arg: T) -> (timeout: isize)
    ensures
        timeout == -1,
{
    -1
}

/// What the loop of a reactor does next.
#[derive(Debug, PartialEq, Eq, Structural, Copy, Clone)]
pub enum LoopAction {
    Stop,
    /// Wait for events on a descriptor.
    Wait { epfd: RawFd, max_events: usize },
}

/// What the loop of a reactor does after it waited.
#[derive(Debug, PartialEq, Eq, Structural, Copy, Clone)]
pub enum WaitOutcome {
    Stop,
    /// Call the callbacks for each of the events.
    Dispatch { count: usize },
    /// There is no going on.
    Fatal { errno: i32 },
}

/// What the loop of a reactor with these handlers does before it waits.
pub open spec fn wait_action<C>(epoll_fd: Option<RawFd>, fds: Handlers<C>) -> LoopAction {
    match epoll_fd {
        Some(epfd) => LoopAction::Wait { epfd, max_events: fds.len() as usize },
        None => LoopAction::Stop,
    }
}

/// What the loop of a reactor does with the outcome of waiting.
pub open spec fn wait_outcome(epoll_fd: Option<RawFd>, result: Result<usize, i32>) -> WaitOutcome {
    match result {
        Ok(count) => WaitOutcome::Dispatch { count },
        Err(errno) => if errno == EINTR && epoll_fd is None {
            WaitOutcome::Stop
        } else {
            WaitOutcome::Fatal { errno }
        },
    }
}

/// The callbacks for an event that the kernel reported: those of its descriptor whose flag is
/// among the flags.
pub open spec fn called<C>(fds: Handlers<C>, data: u64, flags: i32) -> Seq<C> {
    let events = entry(fds, crate::epoll::fd_of(data));
    (match events.ready_read {
        Some(handler) if has_flag(flags, ReactorEvent::ReadyRead) => seq![handler.callback],
        _ => seq![],
    }) + (match events.ready_write {
        Some(handler) if has_flag(flags, ReactorEvent::ReadyWrite) => seq![handler.callback],
        _ => seq![],
    })
}

/// What the kernel reported: the data that it was given for a descriptor, and the flags of what
/// happened.
#[derive(Debug, PartialEq, Eq, Structural, Copy, Clone)]
pub struct Report {
    pub data: u64,
    pub flags: i32,
}

/// What happened in the loop of a reactor.
#[derive(Debug)]
pub enum RunEvent {
    Start,
    /// The configuration was looked at, and gave a limit for waiting.
    Configured { timeout: isize },
    /// Waiting ended with reports, or with an error number.
    Waited(Result<Vec<Report>, i32>),
    /// A callback returned.
    Called(Result<(), Error>),
}

/// What the loop of a reactor does next.
#[derive(Debug, PartialEq, Eq)]
pub enum RunAction<C> {
    /// Look at the configuration, which may change the reactor.
    Configure,
    Wait { epfd: RawFd, max_events: usize, timeout: isize },
    Call { fd: RawFd, callback: C },
    Finished(Result<(), Error>),
    /// There is no going on.
    Fatal { errno: i32 },
}

/// Where the loop of a reactor stands: the calls that are still to be made for what was reported.
#[derive(Debug)]
pub struct RunState<C> {
    calls: Vec<(RawFd, C)>,
    next: usize,
}

impl<C> View for RunState<C> {
    type V = Seq<(RawFd, C)>;

    closed spec fn view(&self) -> Seq<(RawFd, C)> {
        if self.next <= self.calls@.len() {
            self.calls@.skip(self.next as int)
        } else {
            seq![]
        }
    }
}

impl<C> RunState<C> {
    /// No calls are to be made.
    pub fn new() -> (r: Self)
        ensures
            r@ == Seq::<(RawFd, C)>::empty(),
    {
        let r = RunState { calls: Vec::new(), next: 0 };
        proof {
            assert(r@ =~= Seq::<(RawFd, C)>::empty());
        }
        r
    }
}

/// The calls for some reports: those of each report, one report after the other.
pub open spec fn calls<C>(fds: Handlers<C>, reports: Seq<Report>) -> Seq<(RawFd, C)>
    decreases reports.len(),
{
    if reports.len() == 0 {
        seq![]
    } else {
        let report = reports.last();
        calls(fds, reports.drop_last()) + called(fds, report.data, report.flags).map_values(
            |callback: C| (crate::epoll::fd_of(report.data), callback),
        )
    }
}

/// What comes next where these calls are to be made: the first of them, or the configuration.
pub open spec fn next_call<C>(calls: Seq<(RawFd, C)>) -> (Seq<(RawFd, C)>, RunAction<C>) {
    if calls.len() > 0 {
        (calls.skip(1), RunAction::Call { fd: calls[0].0, callback: calls[0].1 })
    } else {
        (calls, RunAction::Configure)
    }
}

/// What the loop of a reactor does on an event: the calls to be made afterwards, and the action.
/// The configuration is looked at before every wait and gives the limit for it.  A reactor that
/// was closed ends the loop, and so does the first error of a callback.
pub open spec fn run_next<C>(
    epoll_fd: Option<RawFd>,
    fds: Handlers<C>,
    pending: Seq<(RawFd, C)>,
    event: RunEvent,
) -> (Seq<(RawFd, C)>, RunAction<C>) {
    match event {
        RunEvent::Start => (seq![], RunAction::Configure),
        RunEvent::Configured { timeout } => match epoll_fd {
            Some(epfd) => (
                pending,
                RunAction::Wait { epfd, max_events: fds.len() as usize, timeout },
            ),
            None => (pending, RunAction::Finished(Ok(()))),
        },
        RunEvent::Waited(Ok(reports)) => next_call(calls(fds, reports@)),
        RunEvent::Waited(Err(errno)) => if errno == EINTR && epoll_fd is None {
            (pending, RunAction::Finished(Ok(())))
        } else {
            (pending, RunAction::Fatal { errno })
        },
        RunEvent::Called(Ok(())) => next_call(pending),
        RunEvent::Called(Err(e)) => (pending, RunAction::Finished(Err(e))),
    }
}

/// Whether a reactor has a handler of the scope `id` that the scope does not hold any more.
pub open spec fn is_stale<C>(
    fds: Handlers<C>,
    id: usize,
    scope: Map<RawFd, EventMap<C>>,
    place: (RawFd, ReactorEvent),
) -> bool {
    &&& registered(fds, place.0, place.1) matches Some(handler)
    &&& handler.scope == Some(id)
    &&& registered(scope, place.0, place.1) is None
}

/// The steps that bring a reactor up to date with a scope, and how many of them were made.
pub struct ScopeUpdate<C> {
    pub scope: usize,
    pub removals: Vec<(RawFd, ReactorEvent)>,
    pub additions: Vec<(RawFd, ReactorEvent, C)>,
    pub removed: usize,
    pub added: usize,
}

impl<C> ScopeUpdate<C> {
    /// The additions come after the removals.
    pub open spec fn wf(&self) -> bool {
        &&& self.removed <= self.removals@.len()
        &&& self.added <= self.additions@.len()
        &&& self.added > 0 ==> self.removed == self.removals@.len()
    }

    /// How many steps were made.
    pub open spec fn position(&self) -> int {
        self.removed + self.added
    }

    /// How many steps there are.
    pub open spec fn len(&self) -> nat {
        self.removals@.len() + self.additions@.len()
    }

    /// Whether these are the steps for a scope with the number `id`: every handler that is
    /// stale is removed once, and everything that the scope holds is added once.
    pub open spec fn plans(
        &self,
        fds: Handlers<C>,
        id: usize,
        scope: Map<RawFd, EventMap<C>>,
    ) -> bool {
        &&& self.scope == id
        &&& self.removals@.no_duplicates()
        &&& forall|place: (RawFd, ReactorEvent)|
            self.removals@.contains(place) <==> is_stale(fds, id, scope, place)
        &&& enumerates(self.additions@, scope)
    }

    /// What step number `k` does: the handlers afterwards and what is returned.
    pub open spec fn step(&self, epoll_fd: Option<RawFd>, fds: Handlers<C>, k: int) -> (
        Handlers<C>,
        Result<Option<EpollCtl>, Error>,
    ) {
        if k < self.removals@.len() {
            let (fd, event) = self.removals@[k];
            let (after, call) = removed(epoll_fd, fds, fd, event);
            (after, Ok(call))
        } else {
            let (fd, event, callback) = self.additions@[k - self.removals@.len()];
            let handler = EventHandler { callback, scope: Some(self.scope) };
            added(epoll_fd, fds, fd, event, handler)
        }
    }

    /// Whether the next step can be made: one that has to call the kernel needs a reactor that
    /// was not closed.
    pub open spec fn can_step(&self, epoll_fd: Option<RawFd>, fds: Handlers<C>) -> bool {
        epoll_fd is None ==> if self.removed < self.removals@.len() {
            !fds.contains_key(self.removals@[self.removed as int].0)
        } else {
            let (fd, event, _) = self.additions@[self.added as int];
            registered(fds, fd, event) is Some
        }
    }

    /// Whether all the steps were made.
    pub fn is_done(&self) -> (r: bool)
        requires
            self.wf(),
        ensures
            r == (self.position() == self.len()),
    {
        self.removed == self.removals.len() && self.added == self.additions.len()
    }
}

impl<C: Copy> Reactor<C> {
    /// A reactor without handlers, on an open `epoll` descriptor.
    pub fn create(epoll_fd: RawFd) -> (r: Reactor<C>)
        ensures
            r.epoll_fd == Some(epoll_fd),
            r.fds@ == Handlers::<C>::empty(),
    {
        Reactor { epoll_fd: Some(epoll_fd), fds: HashMap::new() }
    }

    /// Adds a handler on behalf of `source`, or of nobody in particular.
    fn add_fd(
        &mut self,
        fd: RawFd,
        revent: ReactorEvent,
        handler: C,
        source: Option<usize>,
    ) -> (r: Result<Option<EpollCtl>, Error>)
        requires
            registered(old(self).fds@, fd, revent) is None ==> old(self).epoll_fd is Some,
        ensures
            final(self).epoll_fd == old(self).epoll_fd,
            (final(self).fds@, r) == added(
                old(self).epoll_fd,
                old(self).fds@,
                fd,
                revent,
                EventHandler { callback: handler, scope: source },
            ),
    {
        let mut infos = match self.fds.get(&fd) {
            Some(infos) => *infos,
            None => EventMap::new(),
        };
        let event_handler = EventHandler { callback: handler, scope: source };
        if let Some(old_handler) = infos.get(&revent) {
            let same = match (old_handler.scope, source) {
                (Some(a), Some(b)) => a == b,
                (None, None) => true,
                _ => false,
            };
            if !same {
                return Err(Error::DuplicatedFdWithDifferentSource);
            }
        }
        let previous = infos.insert(revent, event_handler);
        self.fds.insert(fd, infos);
        if previous.is_none() {
            let flags = ReactorEvent::epoll_flags(&infos.keys());
            let op = if infos.len() > 1 {
                EpollOp::EpollCtlMod
            } else {
                EpollOp::EpollCtlAdd
            };
            let event = Some(EpollEvent { flags, data: fd as u64 });
            return Ok(Some(EpollCtl { epfd: self.epoll_fd.unwrap(), op, fd, event }));
        }
        Ok(None)
    }

    /// What the loop does once its configuration was looked at: a reactor that was closed stops,
    /// any other waits for at most one event for each of its descriptors.
    pub fn before_wait(&self) -> (r: LoopAction)
        ensures
            match r {
                LoopAction::Stop => self.epoll_fd is None,
                LoopAction::Wait { epfd, max_events } => self.epoll_fd == Some(epfd)
                    && max_events == self.fds@.len(),
            },
            r == wait_action(self.epoll_fd, self.fds@),
    {
        match self.epoll_fd {
            Some(epfd) => LoopAction::Wait { epfd, max_events: self.fds.len() },
            None => LoopAction::Stop,
        }
    }

    /// What the loop does with the outcome of waiting: a number of events, or an error number.
    pub fn after_wait(&self, result: Result<usize, i32>) -> (r: WaitOutcome)
        ensures
            r == match result {
                Ok(count) => WaitOutcome::Dispatch { count },
                Err(errno) => if errno == EINTR && self.epoll_fd is None {
                    WaitOutcome::Stop
                } else {
                    WaitOutcome::Fatal { errno }
                },
            },
            r == wait_outcome(self.epoll_fd, result),
    {
        match result {
            Ok(count) => WaitOutcome::Dispatch { count },
            Err(errno) => {
                if errno == eintr() && self.epoll_fd.is_none() {
                    WaitOutcome::Stop
                } else {
                    WaitOutcome::Fatal { errno }
                }
            },
        }
    }

    /// The callbacks to call, in this order, for an event that the kernel reported.
    pub fn dispatch(&self, data: u64, flags: i32) -> (r: Vec<C>)
        ensures
            r@ == called(self.fds@, data, flags),
    {
        let mut r: Vec<C> = Vec::new();
        if let Some(items) = self.fds.get(&event_fd(data)) {
            if let Some(handler) = items.ready_read {
                let flag = ReactorEvent::ReadyRead.to_epoll_flag();
                if flags & flag == flag {
                    r.push(handler.callback);
                }
            }
            if let Some(handler) = items.ready_write {
                let flag = ReactorEvent::ReadyWrite.to_epoll_flag();
                if flags & flag == flag {
                    r.push(handler.callback);
                }
            }
        }
        proof {
            assert(r@ =~= called(self.fds@, data, flags));
        }
        r
    }

    /// The calls for some reports, in this order.
    fn dispatch_all(&self, reports: &Vec<Report>) -> (r: Vec<(RawFd, C)>)
        ensures
            r@ == calls(self.fds@, reports@),
    {
        let mut r: Vec<(RawFd, C)> = Vec::new();
        let mut i: usize = 0;
        while i < reports.len()
            invariant
                i <= reports@.len(),
                r@ == calls(self.fds@, reports@.take(i as int)),
            decreases reports.len() - i,
        {
            let report = reports[i];
            let fd = event_fd(report.data);
            let callbacks = self.dispatch(report.data, report.flags);
            let ghost before = r@;
            let ghost more = callbacks@.map_values(|callback: C| (fd, callback));
            let mut j: usize = 0;
            while j < callbacks.len()
                invariant
                    j <= callbacks@.len(),
                    more == callbacks@.map_values(|callback: C| (fd, callback)),
                    r@ == before + more.take(j as int),
                decreases callbacks.len() - j,
            {
                r.push((fd, callbacks[j]));
                proof {
                    assert(more.take(j + 1) =~= more.take(j as int).push(more[j as int]));
                    assert(r@ =~= before + more.take(j + 1));
                }
                j = j + 1;
            }
            proof {
                assert(more.take(j as int) =~= more);
                assert(reports@.take(i + 1).drop_last() =~= reports@.take(i as int));
                assert(more =~= called(self.fds@, report.data, report.flags).map_values(
                    |callback: C| (crate::epoll::fd_of(report.data), callback),
                ));
            }
            i = i + 1;
        }
        proof {
            assert(reports@.take(i as int) =~= reports@);
        }
        r
    }

    /// Takes the next of the calls that are to be made.
    fn take_call(state: &mut RunState<C>) -> (r: RunAction<C>)
        ensures
            (final(state)@, r) == next_call(old(state)@),
    {
        if state.next < state.calls.len() {
            let (fd, callback) = state.calls[state.next];
            let ghost before = state@;
            state.next = state.next + 1;
            proof {
                assert(state@ =~= before.skip(1));
            }
            RunAction::Call { fd, callback }
        } else {
            proof {
                assert(state@ =~= Seq::<(RawFd, C)>::empty());
            }
            RunAction::Configure
        }
    }

    /// Runs the loop: what to do next, given what happened.
    pub fn run_step(&self, state: &mut RunState<C>, event: RunEvent) -> (r: RunAction<C>)
        ensures
            (final(state)@, r) == run_next(self.epoll_fd, self.fds@, old(state)@, event),
    {
        match event {
            RunEvent::Start => {
                *state = RunState::new();
                RunAction::Configure
            },
            RunEvent::Configured { timeout } => match self.before_wait() {
                LoopAction::Stop => RunAction::Finished(Ok(())),
                LoopAction::Wait { epfd, max_events } => RunAction::Wait {
                    epfd,
                    max_events,
                    timeout,
                },
            },
            RunEvent::Waited(Ok(reports)) => {
                *state = RunState { calls: self.dispatch_all(&reports), next: 0 };
                proof {
                    assert(state@ =~= calls(self.fds@, reports@));
                }
                Self::take_call(state)
            },
            RunEvent::Waited(Err(errno)) => match self.after_wait(Err(errno)) {
                WaitOutcome::Stop => RunAction::Finished(Ok(())),
                _ => RunAction::Fatal { errno },
            },
            RunEvent::Called(Ok(())) => Self::take_call(state),
            RunEvent::Called(Err(e)) => RunAction::Finished(Err(e)),
        }
    }

    /// The steps that bring this reactor up to date with `scope`, which goes by the number
    /// `id`: its handlers that `scope` no longer holds are removed, then all that `scope` holds
    /// are added.  Each step is made by `update_step`.
    pub fn update_scope(&self, id: usize, scope: &ScopedReactor<C>) -> (r: ScopeUpdate<C>)
        ensures
            r.removed == 0,
            r.added == 0,
            r.plans(self.fds@, id, scope.fds@),
    {
        let all = entries(&self.fds);
        let mut removals: Vec<(RawFd, ReactorEvent)> = Vec::new();
        let mut i: usize = 0;
        while i < all.len()
            invariant
                i <= all@.len(),
                enumerates(all@, self.fds@),
                forall|k: int|
                    0 <= k < removals@.len() ==> is_stale(
                        self.fds@,
                        id,
                        scope.fds@,
                        #[trigger] removals@[k],
                    ),
                forall|k: int|
                    0 <= k < removals@.len() ==> exists|j: int|
                        0 <= j < i && (#[trigger] all@[j]).0 == (#[trigger] removals@[k]).0
                            && all@[j].1 == removals@[k].1,
                removals@.no_duplicates(),
                forall|j: int|
                    0 <= j < i && is_stale(
                        self.fds@,
                        id,
                        scope.fds@,
                        ((#[trigger] all@[j]).0, all@[j].1),
                    ) ==> removals@.contains((all@[j].0, all@[j].1)),
            decreases all.len() - i,
        {
            let (fd, event, handler) = all[i];
            let ghost before = removals@;
            let ours = match handler.scope {
                Some(owner) => owner == id,
                None => false,
            };
            proof {
                assert(registered(self.fds@, all@[i as int].0, all@[i as int].1) == Some(handler));
            }
            if ours && !scope.contains(&fd, &event) {
                removals.push((fd, event));
                proof {
                    assert(removals@[before.len() as int] == (fd, event));
                    assert forall|j: int|
                        0 <= j < i + 1 && is_stale(
                            self.fds@,
                            id,
                            scope.fds@,
                            ((#[trigger] all@[j]).0, all@[j].1),
                        ) implies removals@.contains((all@[j].0, all@[j].1)) by {
                        if j < i {
                            let k = choose|k: int|
                                0 <= k < before.len() && before[k] == (all@[j].0, all@[j].1);
                            assert(removals@[k] == before[k]);
                        }
                    }
                }
            }
            i = i + 1;
        }
        let additions = entries(&scope.fds);
        proof {
            assert forall|place: (RawFd, ReactorEvent)|
                removals@.contains(place) <==> is_stale(self.fds@, id, scope.fds@, place) by {
                if is_stale(self.fds@, id, scope.fds@, place) {
                    assert(registered(self.fds@, place.0, place.1) is Some);
                    let j = choose|j: int|
                        0 <= j < all@.len() && (#[trigger] all@[j]).0 == place.0 && all@[j].1
                            == place.1;
                    assert((all@[j].0, all@[j].1) == place);
                }
            }
        }
        ScopeUpdate { scope: id, removals, additions, removed: 0, added: 0 }
    }

    /// Makes the next step of an update.  The call that is returned, if any, is to be made
    /// before the step after it; an update whose step or call failed is given up.
    pub fn update_step(&mut self, update: &mut ScopeUpdate<C>) -> (r: Result<
        Option<EpollCtl>,
        Error,
    >)
        requires
            old(update).wf(),
            old(update).position() < old(update).len(),
            old(update).can_step(old(self).epoll_fd, old(self).fds@),
        ensures
            final(self).epoll_fd == old(self).epoll_fd,
            (final(self).fds@, r) == old(update).step(
                old(self).epoll_fd,
                old(self).fds@,
                old(update).position(),
            ),
            final(update).wf(),
            final(update).position() == old(update).position() + 1,
            final(update).scope == old(update).scope,
            final(update).removals == old(update).removals,
            final(update).additions == old(update).additions,
    {
        if update.removed < update.removals.len() {
            let (fd, event) = update.removals[update.removed];
            update.removed = update.removed + 1;
            self.remove(fd, event)
        } else {
            let (fd, event, callback) = update.additions[update.added];
            assert(update.added < update.additions.len());
            update.added = update.added + 1;
            self.add_fd(fd, event, callback, Some(update.scope))
        }
    }

    /// Closes the reactor.  The descriptor that is returned, if any, is to be closed.
    pub fn shutdown(&mut self) -> (r: Option<RawFd>)
        ensures
            r == old(self).epoll_fd,
            final(self).epoll_fd is None,
            final(self).fds@ == old(self).fds@,
    {
        let open = self.epoll_fd;
        self.epoll_fd = None;
        open
    }
}

impl<C: Copy> MutableReactor<C> for Reactor<C> {
    open spec fn can_add(&self, fd: RawFd, event: ReactorEvent) -> bool {
        registered(self.fds@, fd, event) is None ==> self.epoll_fd is Some
    }

    open spec fn adds(
        &self,
        after: &Self,
        fd: RawFd,
        event: ReactorEvent,
        handler: C,
        r: Result<Option<EpollCtl>, Error>,
    ) -> bool {
        &&& after.epoll_fd == self.epoll_fd
        &&& (after.fds@, r) == added(
            self.epoll_fd,
            self.fds@,
            fd,
            event,
            EventHandler { callback: handler, scope: None },
        )
    }

    open spec fn can_remove(&self, fd: RawFd, event: ReactorEvent) -> bool {
        self.fds@.contains_key(fd) ==> self.epoll_fd is Some
    }

    open spec fn removes(
        &self,
        after: &Self,
        fd: RawFd,
        event: ReactorEvent,
        r: Result<Option<EpollCtl>, Error>,
    ) -> bool {
        &&& after.epoll_fd == self.epoll_fd
        &&& after.fds@ == removed(self.epoll_fd, self.fds@, fd, event).0
        &&& r == Ok::<_, Error>(removed(self.epoll_fd, self.fds@, fd, event).1)
    }

    fn add(&mut self, fd: RawFd, event: ReactorEvent, handler: C) -> (r: Result<
        Option<EpollCtl>,
        Error,
    >) {
        self.add_fd(fd, event, handler, None)
    }

    fn remove(&mut self, fd: RawFd, event: ReactorEvent) -> (r: Result<Option<EpollCtl>, Error>) {
        let mut info = match self.fds.get(&fd) {
            Some(info) => *info,
            None => {
                return Ok(None);
            },
        };
        info.remove(&event);
        self.fds.insert(fd, info);
        let epfd = self.epoll_fd.unwrap();
        if info.len() > 0 {
            let flags = ReactorEvent::epoll_flags(&info.keys());
            let event = Some(EpollEvent { flags, data: 0 });
            Ok(Some(EpollCtl { epfd, op: EpollOp::EpollCtlMod, fd, event }))
        } else {
            Ok(Some(EpollCtl { epfd, op: EpollOp::EpollCtlDel, fd, event: None }))
        }
    }
}

impl<C: Copy> ScopedReactor<C> {
    pub fn new() -> (r: Self)
        ensures
            r.fds@ == Map::<RawFd, EventMap<C>>::empty(),
    {
        ScopedReactor { fds: HashMap::new() }
    }

    /// Whether there is a callback for an event of a descriptor.
    pub fn contains(&self, fd: &RawFd, event: &ReactorEvent) -> (r: bool)
        ensures
            r == (registered(self.fds@, *fd, *event) is Some),
    {
        match self.fds.get(fd) {
            Some(events) => events.contains_key(event),
            None => false,
        }
    }

    pub fn clear(&mut self)
        ensures
            final(self).fds@ == Map::<RawFd, EventMap<C>>::empty(),
    {
        self.fds.clear()
    }
}

impl<C: Copy> MutableReactor<C> for ScopedReactor<C> {
    open spec fn can_add(&self, fd: RawFd, event: ReactorEvent) -> bool {
        true
    }

    open spec fn adds(
        &self,
        after: &Self,
        fd: RawFd,
        event: ReactorEvent,
        handler: C,
        r: Result<Option<EpollCtl>, Error>,
    ) -> bool {
        &&& r == Ok::<_, Error>(None::<EpollCtl>)
        &&& after.fds@ == self.fds@.insert(fd, entry(self.fds@, fd).with(event, Some(handler)))
    }

    open spec fn can_remove(&self, fd: RawFd, event: ReactorEvent) -> bool {
        true
    }

    open spec fn removes(
        &self,
        after: &Self,
        fd: RawFd,
        event: ReactorEvent,
        r: Result<Option<EpollCtl>, Error>,
    ) -> bool {
        &&& r == Ok::<_, Error>(None::<EpollCtl>)
        &&& after.fds@ == if self.fds@.contains_key(fd) {
            self.fds@.insert(fd, self.fds@[fd].with(event, None))
        } else {
            self.fds@
        }
    }

    fn add(&mut self, fd: RawFd, event: ReactorEvent, handler: C) -> (r: Result<
        Option<EpollCtl>,
        Error,
    >) {
        let mut events = match self.fds.get(&fd) {
            Some(events) => *events,
            None => EventMap::new(),
        };
        events.insert(event, handler);
        self.fds.insert(fd, events);
        Ok(None)
    }

    fn remove(&mut self, fd: RawFd, event: ReactorEvent) -> (r: Result<Option<EpollCtl>, Error>) {
        let mut events = match self.fds.get(&fd) {
            Some(events) => *events,
            None => {
                return Ok(None);
            },
        };
        events.remove(&event);
        self.fds.insert(fd, events);
        Ok(None)
    }
}

} // verus!
