use nsbox::epoll::{EpollCtl, EpollEvent, EpollOp};
use nsbox::io::{ErrorKind, IoError};
use nsbox::ipc::{
    fd_event_result, Api, DataAction, DataEvent, Ends, FdMove, Forwarding, IpcError, LoopAction,
    LoopEvent, LoopFailure, LoopState, Messages, Pipes, Reactor, ReactorHandler, Stdio, Stream,
    SyncAction, SyncEvent, WAIT_MSEC,
};

const WAIT: IoError = IoError { kind: ErrorKind::WouldBlock, code: Some(libc::EAGAIN) };

const BROKEN: IoError = IoError { kind: ErrorKind::Other, code: Some(libc::EPIPE) };

fn pipes() -> Pipes {
    Pipes {
        replies: (10, 11),
        requests: (12, 13),
        stdout: (14, 15),
        stdin: (16, 17),
        stderr: (18, 19),
    }
}

#[test]
fn ends_are_shared_out() {
    let api = Api::init(pipes());
    assert_eq!(api.parent.messages, Messages { endpoint_w: 12, endpoint_r: 10 });
    assert_eq!(api.parent.child_io, Stdio { stdout: 14, stderr: 18, stdin: 16 });
    assert_eq!(api.parent.stdin, libc::STDIN_FILENO);
    assert!(api.parent.pending_stdin.is_empty());
    assert_eq!(api.child.messages, Messages { endpoint_w: 11, endpoint_r: 13 });
    assert_eq!(api.child.parent_io, Stdio { stdout: 15, stderr: 19, stdin: 17 });
    assert_eq!(Pipes::never_wait(), vec![true, true, false, false, false]);
    assert_eq!(pipes().parent_ends(), vec![14, 16, 18]);
}

#[test]
fn parent_routes() {
    let parent = Api::init(pipes()).parent;
    assert_eq!(parent.get_watchable_read_files(), vec![0, 10, 14, 18]);
    assert_eq!(parent.get_total_watchable_files(), 6);
    assert_eq!(parent.on_fd_event(0), Forwarding::Stdin);
    assert_eq!(parent.on_fd_event(18), Forwarding::Stderr);
    assert_eq!(parent.on_fd_event(14), Forwarding::Stdout);
    assert_eq!(parent.on_fd_event(10), Forwarding::Nothing);
    assert_eq!(parent.ends(Forwarding::Stdin), Some(Ends { from: 0, to: 16 }));
    assert_eq!(parent.ends(Forwarding::Stderr), Some(Ends { from: 18, to: libc::STDERR_FILENO }));
    assert_eq!(parent.ends(Forwarding::Stdout), Some(Ends { from: 14, to: libc::STDOUT_FILENO }));
    assert_eq!(parent.ends(Forwarding::Nothing), None);
    assert_eq!(parent.close(), vec![16, 14, 18, 0, 10, 12]);
}

#[test]
fn child_routes() {
    let child = Api::init(pipes()).child;
    assert_eq!(child.get_watchable_read_files(), vec![13]);
    assert_eq!(child.get_total_watchable_files(), 2);
    assert_eq!(child.on_fd_event(13), Forwarding::Nothing);
    assert_eq!(child.close(), vec![17, 15, 19, 13, 11]);
}

#[test]
fn events_end_unhandled() {
    assert_eq!(fd_event_result(Ok(())), Err(IpcError::UnhandledFd));
    assert_eq!(fd_event_result(Err(BROKEN)), Err(IpcError::IoError(BROKEN)));
    assert_eq!(IpcError::from(BROKEN), IpcError::IoError(BROKEN));
    assert_eq!(IpcError::from(libc::EPIPE), IpcError::Errno(libc::EPIPE));
}

#[test]
fn child_takes_streams_over() {
    let mut child = Api::init(pipes()).child;
    let mut moves = Vec::new();
    for stream in nsbox::ipc::ChildSide::setup_stdio() {
        moves.push(child.stdio_move(stream));
        child.stdio_moved(stream);
    }
    assert_eq!(
        moves,
        vec![
            FdMove { from: 17, to: libc::STDIN_FILENO },
            FdMove { from: 15, to: libc::STDOUT_FILENO },
            FdMove { from: 19, to: libc::STDERR_FILENO },
        ]
    );
    assert_eq!(child.parent_io, Stdio { stdout: 1, stderr: 2, stdin: 0 });
    assert_eq!(child.messages, Messages { endpoint_w: 11, endpoint_r: 13 });
    assert_eq!(
        nsbox::ipc::ChildSide::setup_stdio(),
        vec![Stream::Stdin, Stream::Stdout, Stream::Stderr]
    );
}

#[test]
fn watching() {
    let reactor = Reactor::create(9);
    assert_eq!(
        reactor.add_watchable_write_files(16),
        EpollCtl {
            epfd: 9,
            op: EpollOp::EpollCtlAdd,
            fd: 16,
            event: Some(EpollEvent { flags: libc::EPOLLOUT, data: 0 }),
        }
    );
    assert_eq!(Reactor::watch_added(Ok(())), Ok(()));
    assert_eq!(Reactor::watch_added(Err(libc::EEXIST)), Ok(()));
    assert_eq!(Reactor::watch_added(Err(libc::EPERM)), Err(libc::EPERM));
    assert_eq!(
        reactor.remove_watchable_file(16),
        EpollCtl { epfd: 9, op: EpollOp::EpollCtlDel, fd: 16, event: None }
    );
}

#[test]
fn loop_setup() {
    let reactor = Reactor::create(9);
    let api = Api::init(pipes());
    let setup = reactor.run(&api.parent);
    assert_eq!(setup.max_events, 6);
    let fds: Vec<i32> = setup.watch.iter().map(|call| call.fd).collect();
    assert_eq!(fds, vec![0, 10, 14, 18]);
    for call in &setup.watch {
        assert_eq!(call.epfd, 9);
        assert_eq!(call.op, EpollOp::EpollCtlAdd);
        assert_eq!(call.event, Some(EpollEvent { flags: libc::EPOLLIN, data: 0 }));
    }
    assert_eq!(reactor.run(&api.child).watch.len(), 1);
    assert_eq!(reactor.run(&api.child).max_events, 2);
    assert_eq!(WAIT_MSEC, 1000);
}

#[test]
fn output_of_child_is_passed_on() {
    let mut buffer = Vec::new();
    assert_eq!(Reactor::forward_data_sync(&mut buffer, SyncEvent::Start), SyncAction::ReadToEnd);
    buffer.extend_from_slice(b"out");
    assert_eq!(
        Reactor::forward_data_sync(&mut buffer, SyncEvent::Read(Ok(()))),
        SyncAction::WriteAll
    );
    assert_eq!(buffer, b"out");
    assert_eq!(
        Reactor::forward_data_sync(&mut buffer, SyncEvent::Wrote(Ok(()))),
        SyncAction::ReadToEnd
    );
    assert!(buffer.is_empty());
    assert_eq!(
        Reactor::forward_data_sync(&mut buffer, SyncEvent::Read(Err(WAIT))),
        SyncAction::Finished(Ok(()))
    );
    assert_eq!(
        Reactor::forward_data_sync(&mut buffer, SyncEvent::Read(Err(BROKEN))),
        SyncAction::Finished(Err(BROKEN))
    );
    assert_eq!(
        Reactor::forward_data_sync(&mut buffer, SyncEvent::Wrote(Err(WAIT))),
        SyncAction::Finished(Err(WAIT))
    );
}

#[test]
fn input_is_passed_on() {
    let mut buffer = Vec::new();
    assert_eq!(Reactor::forward_data(&mut buffer, DataEvent::Start), DataAction::ReadToEnd);
    buffer.extend_from_slice(b"input");
    assert_eq!(
        Reactor::forward_data(&mut buffer, DataEvent::Read(Err(WAIT))),
        DataAction::Write
    );
    assert_eq!(
        Reactor::forward_data(&mut buffer, DataEvent::Wrote(Ok(2))),
        DataAction::ReadToEnd
    );
    assert_eq!(buffer, b"put");
    buffer.extend_from_slice(b"!");
    assert_eq!(Reactor::forward_data(&mut buffer, DataEvent::Read(Ok(()))), DataAction::Write);
    assert_eq!(Reactor::forward_data(&mut buffer, DataEvent::Wrote(Ok(4))), DataAction::Unwatch);
    assert!(buffer.is_empty());
    assert_eq!(
        Reactor::forward_data(&mut buffer, DataEvent::Unwatched),
        DataAction::Finished(Ok(()))
    );
}

#[test]
fn input_that_would_wait_is_kept() {
    let mut buffer = b"put".to_vec();
    assert_eq!(
        Reactor::forward_data(&mut buffer, DataEvent::Wrote(Err(WAIT))),
        DataAction::Watch
    );
    assert_eq!(
        Reactor::forward_data(&mut buffer, DataEvent::Watched(Ok(()))),
        DataAction::Finished(Ok(()))
    );
    assert_eq!(buffer, b"put");
    assert_eq!(
        Reactor::forward_data(&mut buffer, DataEvent::Watched(Err(BROKEN))),
        DataAction::Finished(Err(BROKEN))
    );
    assert_eq!(
        Reactor::forward_data(&mut buffer, DataEvent::Wrote(Err(BROKEN))),
        DataAction::Finished(Err(BROKEN))
    );
    assert_eq!(
        Reactor::forward_data(&mut buffer, DataEvent::Read(Err(BROKEN))),
        DataAction::Finished(Err(BROKEN))
    );
}

#[test]
fn loop_watches_then_handles_in_order() {
    let reactor = Reactor::create(9);
    let parent = Api::init(pipes()).parent;
    let wait = LoopAction::Wait { epfd: 9, max_events: 6, msec: 1000 };
    let mut state = LoopState::new();
    let mut action = reactor.run_step(&parent, &mut state, LoopEvent::Start);
    for fd in [0, 10, 14, 18] {
        assert_eq!(
            action,
            LoopAction::Watch(EpollCtl {
                epfd: 9,
                op: EpollOp::EpollCtlAdd,
                fd,
                event: Some(EpollEvent { flags: libc::EPOLLIN, data: 0 }),
            })
        );
        action = reactor.run_step(&parent, &mut state, LoopEvent::Watched(Ok(())));
    }
    assert_eq!(action, wait);
    let data = vec![14, 0x1_0000_0000, 10];
    action = reactor.run_step(&parent, &mut state, LoopEvent::Waited(Ok(data)));
    for (fd, what) in
        [(14, Forwarding::Stdout), (0, Forwarding::Stdin), (10, Forwarding::Nothing)]
    {
        assert_eq!(action, LoopAction::Handle { fd, what });
        action = reactor.run_step(&parent, &mut state, LoopEvent::Handled(Ok(())));
    }
    assert_eq!(action, wait);
}

#[test]
fn loop_ends_by_failure() {
    let reactor = Reactor::create(9);
    let child = Api::init(pipes()).child;
    let mut state = LoopState::new();
    reactor.run_step(&child, &mut state, LoopEvent::Start);
    assert_eq!(
        reactor.run_step(&child, &mut state, LoopEvent::Watched(Err(libc::EPERM))),
        LoopAction::Fatal(LoopFailure::Watch { errno: libc::EPERM })
    );
    assert_eq!(
        reactor.run_step(&child, &mut state, LoopEvent::Waited(Err(libc::EINTR))),
        LoopAction::Fatal(LoopFailure::Wait { errno: libc::EINTR })
    );
    let handled = LoopEvent::Handled(fd_event_result(Ok(())));
    assert_eq!(
        reactor.run_step(&child, &mut state, handled),
        LoopAction::Fatal(LoopFailure::Event { error: IpcError::UnhandledFd })
    );
}

#[test]
fn chunks_are_written_once_each() {
    let mut buffer = Vec::new();
    let mut sent = Vec::new();
    let mut chunks = vec!["one", "two", "three"].into_iter();
    let mut event = SyncEvent::Start;
    let result = loop {
        event = match Reactor::forward_data_sync(&mut buffer, event) {
            SyncAction::ReadToEnd => match chunks.next() {
                Some(chunk) => {
                    buffer.extend_from_slice(chunk.as_bytes());
                    SyncEvent::Read(Ok(()))
                }
                None => {
                    buffer.extend_from_slice(b"lost");
                    SyncEvent::Read(Err(WAIT))
                }
            },
            SyncAction::WriteAll => {
                sent.extend_from_slice(&buffer);
                SyncEvent::Wrote(Ok(()))
            }
            SyncAction::Finished(result) => {
                break result;
            }
        };
    };
    assert_eq!(result, Ok(()));
    assert_eq!(sent, b"onetwothree");
}
