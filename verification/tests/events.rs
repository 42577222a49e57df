use std::collections::BTreeMap;

use nix::fcntl::OFlag;
use nix::sys::epoll as nix_epoll;
use nix::unistd::{pipe2, read};

use nsbox::epoll::{event_fd, EpollCtl, EpollEvent, EpollOp, RawFd};
use nsbox::events::{
    reactor_noop_config, Error, EventMap, LoopAction, MutableReactor, Reactor, ReactorEvent,
    Report, RunAction, RunEvent, RunState, ScopedReactor, WaitOutcome,
};
use nsbox::io::{ErrorKind, IoError};

struct State {
    counter: usize,
}

impl State {
    pub fn new() -> Self {
        Self { counter: 0 }
    }
}

type EventCallback = fn(RawFd, &mut State) -> Result<(), Error>;

/// Stands in for the kernel: which descriptors are watched, and for what.
struct Kernel {
    watched: BTreeMap<RawFd, EpollEvent>,
}

impl Kernel {
    fn new() -> Self {
        Kernel { watched: BTreeMap::new() }
    }

    fn epoll_ctl(&mut self, call: Option<EpollCtl>) {
        if let Some(call) = call {
            match call.op {
                EpollOp::EpollCtlAdd => {
                    assert!(self.watched.insert(call.fd, call.event.unwrap()).is_none());
                }
                EpollOp::EpollCtlMod => {
                    assert!(self.watched.insert(call.fd, call.event.unwrap()).is_some());
                }
                EpollOp::EpollCtlDel => {
                    assert!(self.watched.remove(&call.fd).is_some());
                }
            }
        }
    }
}

fn update_scope<C: Copy>(
    kernel: &mut Kernel,
    reactor: &mut Reactor<C>,
    id: usize,
    scope: &ScopedReactor<C>,
) -> Result<(), Error> {
    let mut update = reactor.update_scope(id, scope);
    while !update.is_done() {
        let call = reactor.update_step(&mut update)?;
        kernel.epoll_ctl(call);
    }
    Ok(())
}

fn assert_fd_listeners_count<C>(reactor: &Reactor<C>, fd: RawFd, count: usize) {
    assert!(reactor.fds.contains_key(&fd));
    assert_eq!(reactor.fds.get(&fd).unwrap().len(), count);
}

fn noop(_fd: RawFd, _state: &mut State) -> Result<(), Error> {
    Ok(())
}

#[test]
fn reactor_crud() {
    let mut k = Kernel::new();
    let mut r = Reactor::<EventCallback>::create(9);
    k.epoll_ctl(r.add(1, ReactorEvent::ReadyRead, noop).unwrap());
    assert_fd_listeners_count(&r, 1, 1);
    k.epoll_ctl(r.add(1, ReactorEvent::ReadyWrite, noop).unwrap());
    assert_fd_listeners_count(&r, 1, 2);
    k.epoll_ctl(r.remove(1, ReactorEvent::ReadyRead).unwrap());
    assert_fd_listeners_count(&r, 1, 1);
    k.epoll_ctl(r.remove(1, ReactorEvent::ReadyWrite).unwrap());
    assert_fd_listeners_count(&r, 1, 0);
    assert!(k.watched.is_empty());
}

#[test]
fn scopes() {
    let global_fd = 1;
    let scope_fd = 2;

    let mut k = Kernel::new();
    let mut r = Reactor::<EventCallback>::create(9);
    let cb: EventCallback = noop;
    k.epoll_ctl(r.add(global_fd, ReactorEvent::ReadyRead, cb).unwrap());

    let mut s = ScopedReactor::new();

    s.add_output(global_fd, cb).unwrap();
    s.add_output(2, cb).unwrap();

    update_scope(&mut k, &mut r, 100, &s).unwrap();
    assert_fd_listeners_count(&r, global_fd, 2);
    assert_fd_listeners_count(&r, scope_fd, 1);

    // remove existing fd and add a new one
    s.remove(2, ReactorEvent::ReadyWrite).unwrap();
    update_scope(&mut k, &mut r, 100, &s).unwrap();

    assert_fd_listeners_count(&r, scope_fd, 0);

    // add duplicated global fd
    s.add_input(1, cb).unwrap();
    assert!(matches!(
        update_scope(&mut k, &mut r, 100, &s),
        Err(Error::DuplicatedFdWithDifferentSource)
    ));

    // add dublicated fd in another scope
    let _ns = ScopedReactor::<EventCallback>::new();
    s.add_input(1, cb).unwrap();
    assert!(matches!(
        update_scope(&mut k, &mut r, 100, &s),
        Err(Error::DuplicatedFdWithDifferentSource)
    ));
}

fn real_epoll_ctl(call: Option<EpollCtl>) {
    if let Some(call) = call {
        let op = match call.op {
            EpollOp::EpollCtlAdd => nix_epoll::EpollOp::EpollCtlAdd,
            EpollOp::EpollCtlDel => nix_epoll::EpollOp::EpollCtlDel,
            EpollOp::EpollCtlMod => nix_epoll::EpollOp::EpollCtlMod,
        };
        let mut event = call.event.map(|e| {
            nix_epoll::EpollEvent::new(
                nix_epoll::EpollFlags::from_bits(e.flags).unwrap(),
                e.data,
            )
        });
        nix_epoll::epoll_ctl(call.epfd, op, call.fd, &mut event).unwrap();
    }
}

fn run_reactor_once(reactor: &mut Reactor<EventCallback>, state: &mut State) {
    let mut iterations_count = 1;
    let mut run_state = RunState::new();
    let mut event = RunEvent::Start;
    loop {
        event = match reactor.run_step(&mut run_state, event) {
            RunAction::Configure => {
                if iterations_count <= 0 {
                    if let Some(fd) = reactor.shutdown() {
                        nix::unistd::close(fd).unwrap();
                    }
                }
                iterations_count -= 1;
                RunEvent::Configured { timeout: 100 }
            }
            RunAction::Wait { epfd, max_events, timeout } => {
                let mut events = vec![nix_epoll::EpollEvent::empty(); max_events];
                let waited = nix_epoll::epoll_wait(epfd, &mut events, timeout);
                RunEvent::Waited(waited.map_err(|e| e as i32).map(|count| {
                    events[..count]
                        .iter()
                        .map(|e| Report { data: e.data(), flags: e.events().bits() })
                        .collect()
                }))
            }
            RunAction::Call { fd, callback } => RunEvent::Called(callback(fd, state)),
            RunAction::Finished(result) => {
                result.unwrap();
                return;
            }
            RunAction::Fatal { errno } => {
                panic!("{}", errno);
            }
        };
    }
}

#[test]
fn callbacks() {
    let mut r = Reactor::create(nix_epoll::epoll_create().unwrap());
    let (p_rd, p_wr) = pipe2(OFlag::O_NONBLOCK).unwrap();
    let mut state = State::new();
    fn count(fd: RawFd, state: &mut State) -> Result<(), Error> {
        let mut buf = [0; 10];
        state.counter += read(fd, &mut buf).unwrap();
        Ok(())
    }
    let cb: EventCallback = count;

    real_epoll_ctl(r.add_input(p_rd, cb).unwrap());

    let written = nix::unistd::write(p_wr, "test".as_bytes()).unwrap();
    run_reactor_once(&mut r, &mut state);
    assert_eq!(written, state.counter);
    assert_eq!(written, 4);
}

#[test]
fn calls_for_the_kernel() {
    let mut r = Reactor::<u8>::create(9);
    assert_eq!(
        r.add_input(5, 1),
        Ok(Some(EpollCtl {
            epfd: 9,
            op: EpollOp::EpollCtlAdd,
            fd: 5,
            event: Some(EpollEvent { flags: libc::EPOLLIN, data: 5 }),
        }))
    );
    assert_eq!(
        r.add_output(5, 2),
        Ok(Some(EpollCtl {
            epfd: 9,
            op: EpollOp::EpollCtlMod,
            fd: 5,
            event: Some(EpollEvent { flags: libc::EPOLLIN | libc::EPOLLOUT, data: 5 }),
        }))
    );
    // a handler that is replaced is no news to the kernel
    assert_eq!(r.add_output(5, 3), Ok(None));
    assert_eq!(r.dispatch(5, libc::EPOLLIN | libc::EPOLLOUT), vec![1, 3]);
    assert_eq!(
        r.remove(5, ReactorEvent::ReadyRead),
        Ok(Some(EpollCtl {
            epfd: 9,
            op: EpollOp::EpollCtlMod,
            fd: 5,
            event: Some(EpollEvent { flags: libc::EPOLLOUT, data: 0 }),
        }))
    );
    assert_eq!(
        r.remove(5, ReactorEvent::ReadyWrite),
        Ok(Some(EpollCtl { epfd: 9, op: EpollOp::EpollCtlDel, fd: 5, event: None }))
    );
    assert_eq!(r.remove(6, ReactorEvent::ReadyWrite), Ok(None));
}

#[test]
fn dispatch_by_flags() {
    let mut r = Reactor::<u8>::create(9);
    r.add_input(5, 1).unwrap();
    r.add_output(5, 2).unwrap();
    r.add_output(6, 3).unwrap();
    assert_eq!(r.dispatch(5, libc::EPOLLIN), vec![1]);
    assert_eq!(r.dispatch(5, libc::EPOLLOUT), vec![2]);
    assert_eq!(r.dispatch(5, libc::EPOLLIN | libc::EPOLLHUP), vec![1]);
    assert_eq!(r.dispatch(6, libc::EPOLLIN), Vec::<u8>::new());
    assert_eq!(r.dispatch(7, libc::EPOLLIN), Vec::<u8>::new());
}

#[test]
fn descriptor_of_event() {
    assert_eq!(event_fd(7), 7);
    assert_eq!(event_fd(-1i32 as u64), -1);
    assert_eq!(event_fd(0x1_0000_0003), 3);
}

#[test]
fn loop_decisions() {
    let mut r = Reactor::<u8>::create(9);
    assert_eq!(r.before_wait(), LoopAction::Wait { epfd: 9, max_events: 0 });
    r.add_input(5, 1).unwrap();
    r.add_output(5, 1).unwrap();
    r.add_output(6, 1).unwrap();
    assert_eq!(r.before_wait(), LoopAction::Wait { epfd: 9, max_events: 2 });
    assert_eq!(r.after_wait(Ok(2)), WaitOutcome::Dispatch { count: 2 });
    assert_eq!(r.after_wait(Err(libc::EINTR)), WaitOutcome::Fatal { errno: libc::EINTR });
    assert_eq!(r.shutdown(), Some(9));
    assert_eq!(r.shutdown(), None);
    assert_eq!(r.before_wait(), LoopAction::Stop);
    assert_eq!(r.after_wait(Err(libc::EINTR)), WaitOutcome::Stop);
    assert_eq!(r.after_wait(Err(libc::EBADF)), WaitOutcome::Fatal { errno: libc::EBADF });
    assert_eq!(reactor_noop_config(()), -1);
}

#[test]
fn handler_of_another_scope_is_refused() {
    let mut k = Kernel::new();
    let mut r = Reactor::<u8>::create(9);
    let mut a = ScopedReactor::new();
    let mut b = ScopedReactor::new();
    a.add_input(5, 1).unwrap();
    b.add_input(5, 2).unwrap();
    assert_eq!(update_scope(&mut k, &mut r, 1, &a), Ok(()));
    assert_eq!(
        update_scope(&mut k, &mut r, 2, &b),
        Err(Error::DuplicatedFdWithDifferentSource)
    );
    assert_eq!(r.add_input(5, 3), Err(Error::DuplicatedFdWithDifferentSource));
    assert_eq!(r.dispatch(5, libc::EPOLLIN), vec![1]);
    // once the first scope gave it up, the second can have it
    a.clear();
    assert!(!a.contains(&5, &ReactorEvent::ReadyRead));
    assert_eq!(update_scope(&mut k, &mut r, 1, &a), Ok(()));
    assert_eq!(update_scope(&mut k, &mut r, 2, &b), Ok(()));
    assert_eq!(r.dispatch(5, libc::EPOLLIN), vec![2]);
}

#[test]
fn update_twice_changes_nothing() {
    let mut k = Kernel::new();
    let mut r = Reactor::<u8>::create(9);
    let mut s = ScopedReactor::new();
    s.add_input(5, 1).unwrap();
    s.add_output(5, 2).unwrap();
    s.add_output(6, 3).unwrap();
    update_scope(&mut k, &mut r, 1, &s).unwrap();
    let before = k.watched.clone();
    let update = r.update_scope(1, &s);
    assert!(update.removals.is_empty());
    assert_eq!(update.additions.len(), 3);
    update_scope(&mut k, &mut r, 1, &s).unwrap();
    assert_eq!(k.watched, before);
    assert_eq!(k.watched.len(), 2);
    assert_eq!(k.watched[&5].flags, libc::EPOLLIN | libc::EPOLLOUT);
    // a callback that changed takes effect
    s.add_output(6, 4).unwrap();
    update_scope(&mut k, &mut r, 1, &s).unwrap();
    assert_eq!(r.dispatch(6, libc::EPOLLOUT), vec![4]);
}

#[test]
fn removal_undoes_addition() {
    let mut k = Kernel::new();
    let mut r = Reactor::<u8>::create(9);
    k.epoll_ctl(r.add_input(5, 1).unwrap());
    k.epoll_ctl(r.add_output(5, 2).unwrap());
    k.epoll_ctl(r.remove(5, ReactorEvent::ReadyWrite).unwrap());
    assert_eq!(r.dispatch(5, libc::EPOLLIN | libc::EPOLLOUT), vec![1]);
    assert_eq!(k.watched[&5].flags, libc::EPOLLIN);
}

#[test]
fn flags_of_events() {
    assert_eq!(ReactorEvent::ReadyRead.to_epoll_flag(), libc::EPOLLIN);
    assert_eq!(ReactorEvent::ReadyWrite.to_epoll_flag(), libc::EPOLLOUT);
    assert_eq!(ReactorEvent::epoll_flags(&vec![]), 0);
    assert_eq!(
        ReactorEvent::epoll_flags(&vec![
            ReactorEvent::ReadyWrite,
            ReactorEvent::ReadyRead,
            ReactorEvent::ReadyWrite,
        ]),
        5
    );
}

#[test]
fn map_of_events() {
    let mut m = EventMap::<u8>::new();
    assert_eq!(m.insert(ReactorEvent::ReadyWrite, 1), None);
    assert_eq!(m.insert(ReactorEvent::ReadyWrite, 2), Some(1));
    assert_eq!(m.get(&ReactorEvent::ReadyWrite), Some(2));
    assert_eq!(m.get(&ReactorEvent::ReadyRead), None);
    assert!(m.contains_key(&ReactorEvent::ReadyWrite));
    assert_eq!(m.keys(), vec![ReactorEvent::ReadyWrite]);
    assert_eq!(m.len(), 1);
    assert_eq!(m.remove(&ReactorEvent::ReadyWrite), Some(2));
    assert_eq!(m.remove(&ReactorEvent::ReadyWrite), None);
    assert_eq!(m.len(), 0);
}

#[test]
fn errors_are_wrapped() {
    let io = IoError { kind: ErrorKind::Other, code: Some(5) };
    assert_eq!(Error::from(io), Error::IoError(io));
    assert_eq!(Error::from(5), Error::Errno(5));
}

#[test]
fn loop_calls_in_order() {
    let mut r = Reactor::<u8>::create(9);
    r.add_input(5, 1).unwrap();
    r.add_output(5, 2).unwrap();
    r.add_output(6, 3).unwrap();
    let mut s = RunState::new();
    assert_eq!(r.run_step(&mut s, RunEvent::Start), RunAction::Configure);
    assert_eq!(
        r.run_step(&mut s, RunEvent::Configured { timeout: 70 }),
        RunAction::Wait { epfd: 9, max_events: 2, timeout: 70 }
    );
    let reports = vec![
        Report { data: 6, flags: libc::EPOLLOUT },
        Report { data: 7, flags: libc::EPOLLIN },
        Report { data: 5, flags: libc::EPOLLIN | libc::EPOLLOUT },
    ];
    assert_eq!(
        r.run_step(&mut s, RunEvent::Waited(Ok(reports))),
        RunAction::Call { fd: 6, callback: 3 }
    );
    assert_eq!(
        r.run_step(&mut s, RunEvent::Called(Ok(()))),
        RunAction::Call { fd: 5, callback: 1 }
    );
    assert_eq!(
        r.run_step(&mut s, RunEvent::Called(Ok(()))),
        RunAction::Call { fd: 5, callback: 2 }
    );
    assert_eq!(r.run_step(&mut s, RunEvent::Called(Ok(()))), RunAction::Configure);
    assert_eq!(r.run_step(&mut s, RunEvent::Waited(Ok(vec![]))), RunAction::Configure);
}

#[test]
fn loop_ends() {
    let mut r = Reactor::<u8>::create(9);
    r.add_input(5, 1).unwrap();
    r.add_output(5, 2).unwrap();
    let mut s = RunState::new();
    let both = vec![Report { data: 5, flags: libc::EPOLLIN | libc::EPOLLOUT }];
    assert_eq!(
        r.run_step(&mut s, RunEvent::Waited(Ok(both))),
        RunAction::Call { fd: 5, callback: 1 }
    );
    // the first error of a callback is the end, though another was to be called
    assert_eq!(
        r.run_step(&mut s, RunEvent::Called(Err(Error::Errno(5)))),
        RunAction::Finished(Err(Error::Errno(5)))
    );
    assert_eq!(
        r.run_step(&mut s, RunEvent::Waited(Err(libc::EINTR))),
        RunAction::Fatal { errno: libc::EINTR }
    );
    r.shutdown();
    assert_eq!(
        r.run_step(&mut s, RunEvent::Waited(Err(libc::EINTR))),
        RunAction::Finished(Ok(()))
    );
    assert_eq!(
        r.run_step(&mut s, RunEvent::Waited(Err(libc::EBADF))),
        RunAction::Fatal { errno: libc::EBADF }
    );
    assert_eq!(
        r.run_step(&mut s, RunEvent::Configured { timeout: 1 }),
        RunAction::Finished(Ok(()))
    );
}

#[test]
fn refused_update_keeps_other_handlers() {
    let mut k = Kernel::new();
    let mut r = Reactor::<u8>::create(9);
    k.epoll_ctl(r.add_input(5, 1).unwrap());
    let mut s = ScopedReactor::new();
    s.add_input(6, 2).unwrap();
    update_scope(&mut k, &mut r, 1, &s).unwrap();
    s.remove(6, ReactorEvent::ReadyRead).unwrap();
    s.add_input(5, 3).unwrap();
    assert_eq!(
        update_scope(&mut k, &mut r, 1, &s),
        Err(Error::DuplicatedFdWithDifferentSource)
    );
    assert_eq!(r.dispatch(5, libc::EPOLLIN), vec![1]);
    assert_eq!(r.dispatch(6, libc::EPOLLIN), Vec::<u8>::new());
    assert_eq!(k.watched.len(), 1);
}
