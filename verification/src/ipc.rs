//! How a container and the process that started it talk: who holds which end of which pipe, what
//! is watched, and how bytes are passed on.
//!
//! Nothing here makes a system call.  A loop of reads and writes is given as the decision that is
//! made after each of them.
use vstd::prelude::*;
use vstd::std_specs::convert::FromSpec;

use crate::epoll::{event_fd, fd_of, EpollCtl, EpollEvent, EpollOp, RawFd};
use crate::io::{ErrorKind, IoError};
use crate::kernel::{
    eexist, epollin, epollout, stderr_fileno, stdin_fileno, stdout_fileno, EEXIST, EPOLLIN,
    EPOLLOUT, STDERR_FILENO, STDIN_FILENO, STDOUT_FILENO,
};

verus! {

/// Why an event was not dealt with.
#[derive(Debug, PartialEq, Eq, Structural, Copy, Clone)]
pub enum IpcError {
    UnhandledFd,
    IoError(IoError),
    /// The error number of a system call.
    Errno(i32),
}

impl vstd::std_specs::convert::FromSpecImpl<IoError> for IpcError {
    open spec fn obeys_from_spec() -> bool {
        true
    }

    open spec fn from_spec(v: IoError) -> Self {
        IpcError::IoError(v)
    }
}

impl From<IoError> for IpcError {
    fn from(err: IoError) -> (r: Self) {
        IpcError::IoError(err)
    }
}

impl vstd::std_specs::convert::FromSpecImpl<i32> for IpcError {
    open spec fn obeys_from_spec() -> bool {
        true
    }

    open spec fn from_spec(v: i32) -> Self {
        IpcError::Errno(v)
    }
}

impl From<i32> for IpcError {
    fn from(err: i32) -> (r: Self) {
        IpcError::Errno(err)
    }
}

/// The ends of the pipes for messages.
#[derive(Debug, PartialEq, Eq, Structural, Copy, Clone)]
pub struct Messages {
    pub endpoint_w: RawFd,
    pub endpoint_r: RawFd,
}

/// The ends of the pipes for the standard streams.
#[derive(Debug, PartialEq, Eq, Structural, Copy, Clone)]
pub struct Stdio {
    pub stdout: RawFd,
    pub stderr: RawFd,
    pub stdin: RawFd,
}

/// What the child holds.
#[derive(Debug, PartialEq, Eq, Structural, Copy, Clone)]
pub struct ChildSide {
    pub parent_io: Stdio,
    pub messages: Messages,
}

/// What the parent holds.
#[derive(Debug)]
pub struct ParentSide {
    pub child_io: Stdio,
    pub messages: Messages,
    pub stdin: RawFd,
    pub pending_stdin: Vec<u8>,
}

/// Both sides.
#[derive(Debug)]
pub struct Api {
    pub parent: ParentSide,
    pub child: ChildSide,
}

/// The two numbers that making a pipe gives: the end to read from, then the end to write to.
pub type Pipe = (RawFd, RawFd);

/// The five pipes between the two sides, in the order in which they are made.
#[derive(Debug, Copy, Clone)]
pub struct Pipes {
    /// The parent holds the end to read from, as `endpoint_r`; the child holds the end to write
    /// to, as `endpoint_w`.
    pub replies: Pipe,
    /// The parent holds the end to read from, though as `endpoint_w`; the child holds the end to
    /// write to, though as `endpoint_r`.
    pub requests: Pipe,
    /// The parent holds the end to read from, the child the end to write to.
    pub stdout: Pipe,
    /// The parent holds the end to read from, the child the end to write to.
    pub stdin: Pipe,
    /// The parent holds the end to read from, the child the end to write to.
    pub stderr: Pipe,
}

impl Pipes {
    /// Which of the pipes are made such that neither end ever waits.
    pub fn never_wait() -> (r: Vec<bool>)
        ensures
            r@ == seq![true, true, false, false, false],
    {
        vec![true, true, false, false, false]
    }

    /// The ends that are set not to wait once the pipes are there: those that the parent has of
    /// the standard streams.
    pub open spec fn quiet_ends(&self) -> Seq<RawFd> {
        seq![self.stdout.0, self.stdin.0, self.stderr.0]
    }

    /// The ends that are set not to wait once the pipes are there: those that the parent has of
    /// the standard streams.
    pub fn parent_ends(&self) -> (r: Vec<RawFd>)
        ensures
            r@ == self.quiet_ends(),
    {
        vec![self.stdout.0, self.stdin.0, self.stderr.0]
    }
}

impl Api {
    /// Whether the ends of the pipes are shared out: of each pipe, the parent has the first, which is
    /// read from, and the child the second, which is written to, whatever the names of the ends say.
    pub open spec fn shared_out(self, pipes: Pipes) -> bool {
        &&& self.parent.messages == (Messages {
            endpoint_w: pipes.requests.0,
            endpoint_r: pipes.replies.0,
        })
        &&& self.parent.child_io == (Stdio {
            stdout: pipes.stdout.0,
            stderr: pipes.stderr.0,
            stdin: pipes.stdin.0,
        })
        &&& self.parent.stdin == STDIN_FILENO
        &&& self.parent.pending_stdin@.len() == 0
        &&& self.child.messages == (Messages {
            endpoint_w: pipes.replies.1,
            endpoint_r: pipes.requests.1,
        })
        &&& self.child.parent_io == (Stdio {
            stdout: pipes.stdout.1,
            stderr: pipes.stderr.1,
            stdin: pipes.stdin.1,
        })
    }

    /// Shares the ends of the pipes out.
    pub fn init(pipes: Pipes) -> (api: Api)
        ensures
            api.shared_out(pipes),
    {
        let (parent_api_rd, child_api_wr) = pipes.replies;
        let (parent_api_wr, child_api_rd) = pipes.requests;
        let (parent_stdout_rd, child_stdout_wr) = pipes.stdout;
        let (parent_stdin_wr, child_stdin_rd) = pipes.stdin;
        let (parent_stderr_rd, child_stderr_wr) = pipes.stderr;
        Api {
            parent: ParentSide {
                messages: Messages { endpoint_w: parent_api_wr, endpoint_r: parent_api_rd },
                child_io: Stdio {
                    stdout: parent_stdout_rd,
                    stderr: parent_stderr_rd,
                    stdin: parent_stdin_wr,
                },
                stdin: stdin_fileno(),
                pending_stdin: Vec::new(),
            },
            child: ChildSide {
                messages: Messages { endpoint_w: child_api_wr, endpoint_r: child_api_rd },
                parent_io: Stdio {
                    stdout: child_stdout_wr,
                    stderr: child_stderr_wr,
                    stdin: child_stdin_rd,
                },
            },
        }
    }
}

/// What is to be passed on because a descriptor is ready.
#[derive(Debug, PartialEq, Eq, Structural, Copy, Clone)]
pub enum Forwarding {
    /// The input of this process, to that of the child.
    Stdin,
    /// The error output of the child, to that of this process.
    Stderr,
    /// The output of the child, to that of this process.
    Stdout,
    Nothing,
}

/// One side, as the loop sees it.
pub trait ReactorHandler: Sized {
    /// The descriptors that are watched for input.
    spec fn watchable(&self) -> Seq<RawFd>;

    /// How many descriptors can be watched in all.
    spec fn total(&self) -> nat;

    /// What a descriptor that is ready asks for.
    spec fn route(&self, fd: RawFd) -> Forwarding;

    /// The descriptors that are closed, in this order.
    spec fn closing(&self) -> Seq<RawFd>;

    fn get_watchable_read_files(&self) -> (r: Vec<RawFd>)
        ensures
            r@ == self.watchable(),
    ;

    fn get_total_watchable_files(&self) -> (n: usize)
        ensures
            n == self.total(),
    ;

    fn on_fd_event(&self, fd: RawFd) -> (r: Forwarding)
        ensures
            r == self.route(fd),
    ;

    fn close(&self) -> (r: Vec<RawFd>)
        ensures
            r@ == self.closing(),
    ;
}

impl ReactorHandler for ParentSide {
    open spec fn watchable(&self) -> Seq<RawFd> {
        seq![self.stdin, self.messages.endpoint_r, self.child_io.stdout, self.child_io.stderr]
    }

    open spec fn total(&self) -> nat {
        6
    }

    open spec fn route(&self, fd: RawFd) -> Forwarding {
        if fd == self.stdin {
            Forwarding::Stdin
        } else if fd == self.child_io.stderr {
            Forwarding::Stderr
        } else if fd == self.child_io.stdout {
            Forwarding::Stdout
        } else {
            Forwarding::Nothing
        }
    }

    open spec fn closing(&self) -> Seq<RawFd> {
        seq![
            self.child_io.stdin,
            self.child_io.stdout,
            self.child_io.stderr,
            self.stdin,
            self.messages.endpoint_r,
            self.messages.endpoint_w,
        ]
    }

    fn get_watchable_read_files(&self) -> (r: Vec<RawFd>) {
        vec![self.stdin, self.messages.endpoint_r, self.child_io.stdout, self.child_io.stderr]
    }

    fn get_total_watchable_files(&self) -> (n: usize) {
        6
    }

    fn on_fd_event(&self, fd: RawFd) -> (r: Forwarding) {
        if fd == self.stdin {
            Forwarding::Stdin
        } else if fd == self.child_io.stderr {
            Forwarding::Stderr
        } else if fd == self.child_io.stdout {
            Forwarding::Stdout
        } else {
            Forwarding::Nothing
        }
    }

    fn close(&self) -> (r: Vec<RawFd>) {
        vec![
            self.child_io.stdin,
            self.child_io.stdout,
            self.child_io.stderr,
            self.stdin,
            self.messages.endpoint_r,
            self.messages.endpoint_w,
        ]
    }
}

impl ReactorHandler for ChildSide {
    open spec fn watchable(&self) -> Seq<RawFd> {
        seq![self.messages.endpoint_r]
    }

    open spec fn total(&self) -> nat {
        2
    }

    open spec fn route(&self, fd: RawFd) -> Forwarding {
        Forwarding::Nothing
    }

    open spec fn closing(&self) -> Seq<RawFd> {
        seq![
            self.parent_io.stdin,
            self.parent_io.stdout,
            self.parent_io.stderr,
            self.messages.endpoint_r,
            self.messages.endpoint_w,
        ]
    }

    fn get_watchable_read_files(&self) -> (r: Vec<RawFd>) {
        vec![self.messages.endpoint_r]
    }

    fn get_total_watchable_files(&self) -> (n: usize) {
        2
    }

    fn on_fd_event(&self, fd: RawFd) -> (r: Forwarding) {
        Forwarding::Nothing
    }

    fn close(&self) -> (r: Vec<RawFd>) {
        vec![
            self.parent_io.stdin,
            self.parent_io.stdout,
            self.parent_io.stderr,
            self.messages.endpoint_r,
            self.messages.endpoint_w,
        ]
    }
}

/// Where bytes that are passed on come from and go to.
#[derive(Debug, PartialEq, Eq, Structural, Copy, Clone)]
pub struct Ends {
    pub from: RawFd,
    pub to: RawFd,
}

impl ParentSide {
    /// Between which descriptors bytes are passed on.
    pub open spec fn ends_of(&self, what: Forwarding) -> Option<Ends> {
        match what {
            Forwarding::Stdin => Some(Ends { from: self.stdin, to: self.child_io.stdin }),
            Forwarding::Stderr => Some(Ends { from: self.child_io.stderr, to: STDERR_FILENO }),
            Forwarding::Stdout => Some(Ends { from: self.child_io.stdout, to: STDOUT_FILENO }),
            Forwarding::Nothing => None,
        }
    }

    /// Between which descriptors bytes are passed on.
    pub fn ends(&self, what: Forwarding) -> (r: Option<Ends>)
        ensures
            r == self.ends_of(what),
    {
        match what {
            Forwarding::Stdin => Some(Ends { from: self.stdin, to: self.child_io.stdin }),
            Forwarding::Stderr => Some(Ends { from: self.child_io.stderr, to: stderr_fileno() }),
            Forwarding::Stdout => Some(Ends { from: self.child_io.stdout, to: stdout_fileno() }),
            Forwarding::Nothing => None,
        }
    }
}

/// What is passed on because a descriptor is ready comes from that descriptor: the input of this
/// process goes to that of the child, and the outputs of the child to those of this process.
/// Nothing is passed on because of any other descriptor.
pub proof fn law_routed_from_ready(parent: ParentSide, fd: RawFd)
    ensures
        parent.ends_of(parent.route(fd)) matches Some(ends) ==> ends.from == fd,
        parent.ends_of(parent.route(fd)) is None <==> fd != parent.stdin && fd
            != parent.child_io.stdout && fd != parent.child_io.stderr,
        fd == parent.stdin ==> parent.ends_of(parent.route(fd)) == Some(
            Ends { from: fd, to: parent.child_io.stdin },
        ),
        fd == parent.child_io.stderr && fd != parent.stdin ==> parent.ends_of(parent.route(fd))
            == Some(Ends { from: fd, to: 2 }),
        fd == parent.child_io.stdout && fd != parent.stdin && fd != parent.child_io.stderr
            ==> parent.ends_of(parent.route(fd)) == Some(Ends { from: fd, to: 1 }),
        parent.route(fd) is Stdin <==> fd == parent.stdin,
{
}

/// The child passes nothing on.
pub proof fn law_child_routes_nothing(child: ChildSide, fd: RawFd)
    ensures
        child.route(fd) is Nothing,
        child.watchable().len() == 1,
        child.watchable().contains(child.messages.endpoint_r),
        child.total() == 2,
{
    assert(child.watchable()[0] == child.messages.endpoint_r);
}

/// The parent watches the input of this process, the messages, and both outputs of the child, each
/// once.
pub proof fn law_parent_watches(parent: ParentSide)
    ensures
        parent.watchable().len() == 4,
        parent.watchable()[0] == parent.stdin,
        parent.watchable().contains(parent.messages.endpoint_r),
        parent.watchable().contains(parent.child_io.stdout),
        parent.watchable().contains(parent.child_io.stderr),
        parent.total() == 6,
{
    assert(parent.watchable()[1] == parent.messages.endpoint_r);
    assert(parent.watchable()[2] == parent.child_io.stdout);
    assert(parent.watchable()[3] == parent.child_io.stderr);
}

/// How an event ends, by how the passing on of bytes ended: with the error of that, and
/// otherwise unhandled, also where bytes were passed on.
pub open spec fn event_result(forwarded: Result<(), IoError>) -> Result<(), IpcError> {
    match forwarded {
        Ok(()) => Err::<(), _>(IpcError::UnhandledFd),
        Err(e) => Err(IpcError::IoError(e)),
    }
}

/// How an event ends, by how the passing on of bytes ended.
pub fn fd_event_result(forwarded: Result<(), IoError>) -> (r: Result<(), IpcError>)
    ensures
        r == event_result(forwarded),
{
    match forwarded {
        Ok(()) => Err(IpcError::UnhandledFd),
        Err(e) => Err(IpcError::from(e)),
    }
}

/// A standard stream.
#[derive(Debug, PartialEq, Eq, Structural, Copy, Clone)]
pub enum Stream {
    Stdin,
    Stdout,
    Stderr,
}

/// A descriptor that is moved: it is duplicated to another number, then closed.
#[derive(Debug, PartialEq, Eq, Structural, Copy, Clone)]
pub struct FdMove {
    pub from: RawFd,
    pub to: RawFd,
}

impl Stream {
    /// The descriptor of the stream.
    pub open spec fn number(self) -> RawFd {
        match self {
            Stream::Stdin => STDIN_FILENO,
            Stream::Stdout => STDOUT_FILENO,
            Stream::Stderr => STDERR_FILENO,
        }
    }
}

impl Stdio {
    /// The descriptor of a stream.
    pub open spec fn of(self, stream: Stream) -> RawFd {
        match stream {
            Stream::Stdin => self.stdin,
            Stream::Stdout => self.stdout,
            Stream::Stderr => self.stderr,
        }
    }

    /// The ends with another descriptor for a stream.
    pub open spec fn with(self, stream: Stream, fd: RawFd) -> Stdio {
        match stream {
            Stream::Stdin => Stdio { stdin: fd, ..self },
            Stream::Stdout => Stdio { stdout: fd, ..self },
            Stream::Stderr => Stdio { stderr: fd, ..self },
        }
    }
}

impl ChildSide {
    /// The streams that the child takes over, in this order.
    pub fn setup_stdio() -> (r: Vec<Stream>)
        ensures
            r@ == seq![Stream::Stdin, Stream::Stdout, Stream::Stderr],
    {
        vec![Stream::Stdin, Stream::Stdout, Stream::Stderr]
    }

    /// How a stream is taken over.
    pub open spec fn move_of(&self, stream: Stream) -> FdMove {
        FdMove { from: self.parent_io.of(stream), to: stream.number() }
    }

    /// The child once a stream was taken over.
    pub open spec fn moved(self, stream: Stream) -> ChildSide {
        ChildSide { parent_io: self.parent_io.with(stream, stream.number()), ..self }
    }

    /// How a stream is taken over.
    pub fn stdio_move(&self, stream: Stream) -> (r: FdMove)
        ensures
            r == self.move_of(stream),
    {
        match stream {
            Stream::Stdin => FdMove { from: self.parent_io.stdin, to: stdin_fileno() },
            Stream::Stdout => FdMove { from: self.parent_io.stdout, to: stdout_fileno() },
            Stream::Stderr => FdMove { from: self.parent_io.stderr, to: stderr_fileno() },
        }
    }

    /// Notes that a stream was taken over.
    pub fn stdio_moved(&mut self, stream: Stream)
        ensures
            *final(self) == old(self).moved(stream),
    {
        match stream {
            Stream::Stdin => {
                self.parent_io.stdin = stdin_fileno();
            },
            Stream::Stdout => {
                self.parent_io.stdout = stdout_fileno();
            },
            Stream::Stderr => {
                self.parent_io.stderr = stderr_fileno();
            },
        }
    }
}

/// Once all streams were taken over, the child holds them under the numbers that every program
/// expects.
pub proof fn law_stdio_is_standard(io: Stdio)
    ensures
        io.with(Stream::Stdin, Stream::Stdin.number()).with(
            Stream::Stdout,
            Stream::Stdout.number(),
        ).with(Stream::Stderr, Stream::Stderr.number()) == (Stdio {
            stdout: STDOUT_FILENO,
            stderr: STDERR_FILENO,
            stdin: STDIN_FILENO,
        }),
{
}

/// To give a stream another descriptor changes no other stream; the three have different numbers.
pub proof fn law_stream_frame(io: Stdio, stream: Stream, other: Stream, fd: RawFd)
    ensures
        io.with(stream, fd).of(stream) == fd,
        other != stream ==> io.with(stream, fd).of(other) == io.of(other),
        io.of(Stream::Stdin) == io.stdin,
        io.of(Stream::Stdout) == io.stdout,
        io.of(Stream::Stderr) == io.stderr,
        stream.number() == other.number() <==> stream == other,
        0 <= stream.number() <= 2,
{
}

/// A stream is taken over from the descriptor that the child has for it, to the number of the
/// stream; afterwards the child has it there, and everything else as before.
pub proof fn law_stream_taken_over(child: ChildSide, stream: Stream, other: Stream)
    ensures
        child.move_of(stream).from == child.parent_io.of(stream),
        child.move_of(Stream::Stdin).to == 0,
        child.move_of(Stream::Stdout).to == 1,
        child.move_of(Stream::Stderr).to == 2,
        child.moved(stream).parent_io.of(stream) == child.move_of(stream).to,
        other != stream ==> child.moved(stream).parent_io.of(other) == child.parent_io.of(other),
        child.moved(stream).messages == child.messages,
{
}

/// The two ends of every pipe are on different sides, in the same place there: what one side has as
/// a stream or for messages is the other end of what the other side has.
pub proof fn law_pipes_join_sides(api: Api, pipes: Pipes)
    requires
        api.shared_out(pipes),
    ensures
        (api.parent.child_io.stdin, api.child.parent_io.stdin) == pipes.stdin,
        (api.parent.child_io.stdout, api.child.parent_io.stdout) == pipes.stdout,
        (api.parent.child_io.stderr, api.child.parent_io.stderr) == pipes.stderr,
        (api.parent.messages.endpoint_r, api.child.messages.endpoint_w) == pipes.replies,
        (api.parent.messages.endpoint_w, api.child.messages.endpoint_r) == pipes.requests,
        api.parent.stdin == 0,
        api.parent.pending_stdin@ == Seq::<u8>::empty(),
        pipes.quiet_ends().len() == 3,
        forall|stream: Stream|
            pipes.quiet_ends().contains(#[trigger] api.parent.child_io.of(stream)),
{
    assert(pipes.quiet_ends()[0] == pipes.stdout.0);
    assert(pipes.quiet_ends()[1] == pipes.stdin.0);
    assert(pipes.quiet_ends()[2] == pipes.stderr.0);
    assert(api.parent.pending_stdin@ =~= Seq::<u8>::empty());
}

/// The loop that passes bytes on.
#[derive(Debug, PartialEq, Eq, Structural, Copy, Clone)]
pub struct Reactor {
    pub epoll_fd: RawFd,
}

/// How long the loop waits for an event, in milliseconds.
pub const WAIT_MSEC: isize = 1000;

/// What the loop of one side starts with: the calls that have its descriptors watched, and room
/// for the events.
#[derive(Debug)]
pub struct LoopSetup {
    pub watch: Vec<EpollCtl>,
    pub max_events: usize,
}

/// What happened in the loop of one side.
#[derive(Debug)]
pub enum LoopEvent {
    Start,
    /// A call that has a descriptor watched was made.
    Watched(Result<(), i32>),
    /// Waiting ended with the data of what was reported, or with an error number.
    Waited(Result<Vec<u64>, i32>),
    /// A report was dealt with.
    Handled(Result<(), IpcError>),
}

/// Why the loop of one side cannot go on.
#[derive(Debug, PartialEq, Eq, Structural, Copy, Clone)]
pub enum LoopFailure {
    Watch { errno: i32 },
    Wait { errno: i32 },
    Event { error: IpcError },
}

/// What the loop of one side does next.  It never ends but by a failure.
#[derive(Debug, PartialEq, Eq, Structural, Copy, Clone)]
pub enum LoopAction {
    Watch(EpollCtl),
    Wait { epfd: RawFd, max_events: usize, msec: isize },
    /// Deal with a report on a descriptor, by passing on what it asks for.
    Handle { fd: RawFd, what: Forwarding },
    Fatal(LoopFailure),
}

/// Where the loop of one side stands.
#[derive(Debug)]
pub struct LoopState {
    setup: LoopSetup,
    watched: usize,
    reports: Vec<u64>,
    handled: usize,
}

/// What a `LoopState` says: the calls still to be made, the room for events, and the reports still
/// to be dealt with.
#[verifier::ext_equal]
pub struct LoopView {
    pub watch: Seq<EpollCtl>,
    pub max_events: usize,
    pub reports: Seq<u64>,
}

impl View for LoopState {
    type V = LoopView;

    closed spec fn view(&self) -> LoopView {
        LoopView {
            watch: if self.watched <= self.setup.watch@.len() {
                self.setup.watch@.skip(self.watched as int)
            } else {
                seq![]
            },
            max_events: self.setup.max_events,
            reports: if self.handled <= self.reports@.len() {
                self.reports@.skip(self.handled as int)
            } else {
                seq![]
            },
        }
    }
}

impl LoopState {
    /// Nothing is to be done.
    pub fn new() -> (r: Self)
        ensures
            r@ == (LoopView { watch: seq![], max_events: 0, reports: seq![] }),
    {
        let r = LoopState {
            setup: LoopSetup { watch: Vec::new(), max_events: 0 },
            watched: 0,
            reports: Vec::new(),
            handled: 0,
        };
        proof {
            assert(r@ =~= LoopView { watch: seq![], max_events: 0, reports: seq![] });
        }
        r
    }
}

/// What to do next where bytes are passed on as they come.
#[derive(Debug, PartialEq, Eq)]
pub enum SyncAction {
    /// Read until there is nothing more to read.
    ReadToEnd,
    /// Write the whole buffer out.
    WriteAll,
    Finished(Result<(), IoError>),
}

/// What was done where bytes are passed on as they come.
#[derive(Debug, PartialEq, Eq)]
pub enum SyncEvent {
    Start,
    Read(Result<(), IoError>),
    Wrote(Result<(), IoError>),
}

/// What to do next where bytes are passed on as far as they are taken.
#[derive(Debug, PartialEq, Eq)]
pub enum DataAction {
    /// Read to the end of the buffer until there is nothing more to read.
    ReadToEnd,
    /// Write as much of the buffer out as is taken.
    Write,
    /// Have the output watched.
    Watch,
    /// Have the output watched no more.
    Unwatch,
    Finished(Result<(), IoError>),
}

/// What was done where bytes are passed on as far as they are taken.
#[derive(Debug, PartialEq, Eq)]
pub enum DataEvent {
    Start,
    Read(Result<(), IoError>),
    Wrote(Result<usize, IoError>),
    Watched(Result<(), IoError>),
    Unwatched,
}

/// How many bytes were taken.
pub open spec fn bytes_gone(event: DataEvent) -> nat {
    match event {
        DataEvent::Wrote(Ok(size)) => size as nat,
        _ => 0,
    }
}

/// What follows on an event where bytes are passed on as they come: the buffer afterwards, and
/// what comes next.
pub open spec fn sync_next(buffer: Seq<u8>, event: SyncEvent) -> (Seq<u8>, SyncAction) {
    match event {
        SyncEvent::Start => (buffer, SyncAction::ReadToEnd),
        SyncEvent::Read(Ok(())) => (buffer, SyncAction::WriteAll),
        SyncEvent::Read(Err(e)) => if e.kind == ErrorKind::WouldBlock {
            (buffer, SyncAction::Finished(Ok(())))
        } else {
            (buffer, SyncAction::Finished(Err(e)))
        },
        SyncEvent::Wrote(Ok(())) => (seq![], SyncAction::ReadToEnd),
        SyncEvent::Wrote(Err(e)) => (buffer, SyncAction::Finished(Err(e))),
    }
}

/// What follows on an event, where `rest` is what is left to be written.
pub open spec fn data_action(event: DataEvent, rest: Seq<u8>) -> DataAction {
    match event {
        DataEvent::Start => DataAction::ReadToEnd,
        DataEvent::Read(Ok(())) => DataAction::Write,
        DataEvent::Read(Err(e)) => if e.kind == ErrorKind::WouldBlock {
            DataAction::Write
        } else {
            DataAction::Finished(Err(e))
        },
        DataEvent::Wrote(Ok(_)) => if rest.len() == 0 {
            DataAction::Unwatch
        } else {
            DataAction::ReadToEnd
        },
        DataEvent::Wrote(Err(e)) => if e.kind == ErrorKind::WouldBlock {
            DataAction::Watch
        } else {
            DataAction::Finished(Err(e))
        },
        DataEvent::Watched(result) => DataAction::Finished(result),
        DataEvent::Unwatched => DataAction::Finished(Ok(())),
    }
}

impl Reactor {
    /// The loop on an open `epoll` descriptor.
    pub fn create(epoll_fd: RawFd) -> (r: Reactor)
        ensures
            r.epoll_fd == epoll_fd,
    {
        Reactor { epoll_fd }
    }

    /// The call that has a descriptor watched for room to write.
    pub open spec fn watch_output(&self, fd: RawFd) -> EpollCtl {
        EpollCtl {
            epfd: self.epoll_fd,
            op: EpollOp::EpollCtlAdd,
            fd,
            event: Some(EpollEvent { flags: EPOLLOUT, data: 0 }),
        }
    }

    /// The call that has a descriptor watched for room to write.
    pub fn add_watchable_write_files(&self, f_write: RawFd) -> (call: EpollCtl)
        ensures
            call == self.watch_output(f_write),
    {
        let event = Some(EpollEvent { flags: epollout(), data: 0 });
        EpollCtl { epfd: self.epoll_fd, op: EpollOp::EpollCtlAdd, fd: f_write, event }
    }

    /// Whether having a descriptor watched failed; that it was watched before is no failure.
    pub open spec fn watch_result(result: Result<(), i32>) -> Result<(), i32> {
        match result {
            Ok(()) => Ok::<(), i32>(()),
            Err(errno) => if errno == EEXIST {
                Ok(())
            } else {
                Err(errno)
            },
        }
    }

    /// Whether having a descriptor watched failed; that it was watched before is no failure.
    pub fn watch_added(result: Result<(), i32>) -> (r: Result<(), i32>)
        ensures
            r == Self::watch_result(result),
    {
        match result {
            Ok(()) => Ok(()),
            Err(errno) => {
                if errno == eexist() {
                    Ok(())
                } else {
                    Err(errno)
                }
            },
        }
    }

    /// The call that has a descriptor watched no more.  Whether it succeeds does not matter.
    pub open spec fn unwatch(&self, fd: RawFd) -> EpollCtl {
        EpollCtl { epfd: self.epoll_fd, op: EpollOp::EpollCtlDel, fd, event: None }
    }

    /// The call that has a descriptor watched no more.  Whether it succeeds does not matter.
    pub fn remove_watchable_file(&self, f: RawFd) -> (call: EpollCtl)
        ensures
            call == self.unwatch(f),
    {
        EpollCtl { epfd: self.epoll_fd, op: EpollOp::EpollCtlDel, fd: f, event: None }
    }

    /// The call that has a descriptor watched for input.
    pub open spec fn watch_input(&self, fd: RawFd) -> EpollCtl {
        EpollCtl {
            epfd: self.epoll_fd,
            op: EpollOp::EpollCtlAdd,
            fd,
            event: Some(EpollEvent { flags: EPOLLIN, data: 0 }),
        }
    }

    /// Whether the loop of a side starts with this.
    pub open spec fn sets_up<H: ReactorHandler>(&self, handler: &H, setup: LoopSetup) -> bool {
        &&& setup.watch@ == handler.watchable().map_values(|fd: RawFd| self.watch_input(fd))
        &&& setup.max_events == handler.total()
    }

    /// What the loop starts with.
    pub fn run<H: ReactorHandler>(&self, handler: &H) -> (r: LoopSetup)
        ensures
            r.watch@ == handler.watchable().map_values(|fd: RawFd| self.watch_input(fd)),
            r.max_events == handler.total(),
            self.sets_up(handler, r),
    {
        let read_files = handler.get_watchable_read_files();
        let max_events = handler.get_total_watchable_files();
        let mut watch: Vec<EpollCtl> = Vec::new();
        let ghost all = handler.watchable().map_values(|fd: RawFd| self.watch_input(fd));
        let mut i: usize = 0;
        while i < read_files.len()
            invariant
                i <= read_files@.len(),
                read_files@ == handler.watchable(),
                all == handler.watchable().map_values(|fd: RawFd| self.watch_input(fd)),
                watch@ == all.take(i as int),
            decreases read_files.len() - i,
        {
            let event = Some(EpollEvent { flags: epollin(), data: 0 });
            let call = EpollCtl {
                epfd: self.epoll_fd,
                op: EpollOp::EpollCtlAdd,
                fd: read_files[i],
                event,
            };
            watch.push(call);
            proof {
                assert(all.take(i + 1) =~= all.take(i as int).push(call));
            }
            i = i + 1;
        }
        proof {
            assert(all.take(i as int) =~= all);
        }
        LoopSetup { watch, max_events }
    }

    /// The call that waits for reports.
    pub open spec fn wait(&self, max_events: usize) -> LoopAction {
        LoopAction::Wait { epfd: self.epoll_fd, max_events, msec: WAIT_MSEC }
    }

    /// What comes next where these calls are still to be made: the first of them, or waiting.
    pub open spec fn next_watch(&self, state: LoopView) -> (LoopView, LoopAction) {
        if state.watch.len() > 0 {
            (
                LoopView { watch: state.watch.skip(1), ..state },
                LoopAction::Watch(state.watch[0]),
            )
        } else {
            (state, self.wait(state.max_events))
        }
    }

    /// What comes next where these reports are still to be dealt with: the first of them, or
    /// waiting.
    pub open spec fn next_report<H: ReactorHandler>(&self, handler: &H, state: LoopView) -> (
        LoopView,
        LoopAction,
    ) {
        if state.reports.len() > 0 {
            let fd = fd_of(state.reports[0]);
            (
                LoopView { reports: state.reports.skip(1), ..state },
                LoopAction::Handle { fd, what: handler.route(fd) },
            )
        } else {
            (state, self.wait(state.max_events))
        }
    }

    /// What the loop of one side does on an event: where it stands afterwards, and the action.
    /// The descriptors are watched before the first wait, each report is dealt with once and in
    /// order, and the first failure ends the loop.
    pub open spec fn loop_next<H: ReactorHandler>(
        &self,
        handler: &H,
        state: LoopView,
        event: LoopEvent,
    ) -> (LoopView, LoopAction) {
        match event {
            LoopEvent::Start => self.next_watch(
                LoopView {
                    watch: handler.watchable().map_values(|fd: RawFd| self.watch_input(fd)),
                    max_events: handler.total() as usize,
                    reports: seq![],
                },
            ),
            LoopEvent::Watched(Ok(())) => self.next_watch(state),
            LoopEvent::Watched(Err(errno)) => (
                state,
                LoopAction::Fatal(LoopFailure::Watch { errno }),
            ),
            LoopEvent::Waited(Ok(data)) => self.next_report(
                handler,
                LoopView { reports: data@, ..state },
            ),
            LoopEvent::Waited(Err(errno)) => (state, LoopAction::Fatal(LoopFailure::Wait { errno })),
            LoopEvent::Handled(Ok(())) => self.next_report(handler, state),
            LoopEvent::Handled(Err(error)) => (
                state,
                LoopAction::Fatal(LoopFailure::Event { error }),
            ),
        }
    }

    fn take_watch(&self, state: &mut LoopState) -> (r: LoopAction)
        ensures
            (final(state)@, r) == self.next_watch(old(state)@),
    {
        let ghost before = state@;
        if state.watched < state.setup.watch.len() {
            let call = state.setup.watch[state.watched];
            state.watched = state.watched + 1;
            proof {
                assert(state@.watch =~= before.watch.skip(1));
                assert(state@ =~= LoopView { watch: before.watch.skip(1), ..before });
            }
            LoopAction::Watch(call)
        } else {
            LoopAction::Wait {
                epfd: self.epoll_fd,
                max_events: state.setup.max_events,
                msec: WAIT_MSEC,
            }
        }
    }

    fn take_report<H: ReactorHandler>(&self, handler: &H, state: &mut LoopState) -> (r: LoopAction)
        ensures
            (final(state)@, r) == self.next_report(handler, old(state)@),
    {
        let ghost before = state@;
        if state.handled < state.reports.len() {
            let fd = event_fd(state.reports[state.handled]);
            state.handled = state.handled + 1;
            proof {
                assert(state@.reports =~= before.reports.skip(1));
                assert(state@ =~= LoopView { reports: before.reports.skip(1), ..before });
            }
            LoopAction::Handle { fd, what: handler.on_fd_event(fd) }
        } else {
            LoopAction::Wait {
                epfd: self.epoll_fd,
                max_events: state.setup.max_events,
                msec: WAIT_MSEC,
            }
        }
    }

    /// Runs the loop of one side: what to do next, given what happened.
    pub fn run_step<H: ReactorHandler>(
        &self,
        handler: &H,
        state: &mut LoopState,
        event: LoopEvent,
    ) -> (r: LoopAction)
        ensures
            (final(state)@, r) == self.loop_next(handler, old(state)@, event),
    {
        match event {
            LoopEvent::Start => {
                let setup = self.run(handler);
                *state = LoopState { setup, watched: 0, reports: Vec::new(), handled: 0 };
                proof {
                    assert(state@ =~= LoopView {
                        watch: handler.watchable().map_values(|fd: RawFd| self.watch_input(fd)),
                        max_events: handler.total() as usize,
                        reports: seq![],
                    });
                }
                self.take_watch(state)
            },
            LoopEvent::Watched(Ok(())) => self.take_watch(state),
            LoopEvent::Watched(Err(errno)) => LoopAction::Fatal(LoopFailure::Watch { errno }),
            LoopEvent::Waited(Ok(data)) => {
                let ghost before = state@;
                state.reports = data;
                state.handled = 0;
                proof {
                    assert(state@ =~= LoopView { reports: data@, ..before });
                }
                self.take_report(handler, state)
            },
            LoopEvent::Waited(Err(errno)) => LoopAction::Fatal(LoopFailure::Wait { errno }),
            LoopEvent::Handled(Ok(())) => self.take_report(handler, state),
            LoopEvent::Handled(Err(error)) => LoopAction::Fatal(LoopFailure::Event { error }),
        }
    }

    /// Passes bytes on until reading would have to wait.  What the last read put into the buffer
    /// before that is not written out.
    pub fn forward_data_sync(buffer: &mut Vec<u8>, event: SyncEvent) -> (r: SyncAction)
        ensures
            (final(buffer)@, r) == sync_next(old(buffer)@, event),
    {
        match event {
            SyncEvent::Start => SyncAction::ReadToEnd,
            SyncEvent::Read(Ok(())) => SyncAction::WriteAll,
            SyncEvent::Read(Err(e)) => {
                if e.kind == ErrorKind::WouldBlock {
                    SyncAction::Finished(Ok(()))
                } else {
                    SyncAction::Finished(Err(e))
                }
            },
            SyncEvent::Wrote(Ok(())) => {
                buffer.clear();
                SyncAction::ReadToEnd
            },
            SyncEvent::Wrote(Err(e)) => SyncAction::Finished(Err(e)),
        }
    }

    /// Passes bytes on until the buffer is empty or the output would have to wait; in that case
    /// the output is watched.
    pub fn forward_data(send_buffer: &mut Vec<u8>, event: DataEvent) -> (r: DataAction)
        requires
            bytes_gone(event) <= old(send_buffer)@.len(),
        ensures
            final(send_buffer)@ == old(send_buffer)@.skip(bytes_gone(event) as int),
            r == data_action(event, final(send_buffer)@),
    {
        proof {
            assert(send_buffer@.skip(0) =~= send_buffer@);
        }
        match event {
            DataEvent::Start => DataAction::ReadToEnd,
            DataEvent::Read(Ok(())) => DataAction::Write,
            DataEvent::Read(Err(e)) => {
                if e.kind == ErrorKind::WouldBlock {
                    DataAction::Write
                } else {
                    DataAction::Finished(Err(e))
                }
            },
            DataEvent::Wrote(Ok(size)) => {
                let rest = send_buffer.split_off(size);
                *send_buffer = rest;
                if send_buffer.is_empty() {
                    DataAction::Unwatch
                } else {
                    DataAction::ReadToEnd
                }
            },
            DataEvent::Wrote(Err(e)) => {
                if e.kind == ErrorKind::WouldBlock {
                    DataAction::Watch
                } else {
                    DataAction::Finished(Err(e))
                }
            },
            DataEvent::Watched(result) => DataAction::Finished(result),
            DataEvent::Unwatched => DataAction::Finished(Ok(())),
        }
    }
}

/// The output is watched exactly where writing would have had to wait, and watched no more
/// exactly where nothing is left to be written.  Passing on succeeds only after one of the two.
pub proof fn law_watched_while_pending(event: DataEvent, rest: Seq<u8>)
    ensures
        data_action(event, rest) is Watch <==> (event matches DataEvent::Wrote(Err(e)) && e.kind
            == ErrorKind::WouldBlock),
        data_action(event, rest) is Unwatch <==> (event matches DataEvent::Wrote(Ok(_))
            && rest.len() == 0),
        data_action(event, rest) == DataAction::Finished(Ok(())) <==> (event is Unwatched || event
            == DataEvent::Watched(Ok(()))),
{
}

/// A descriptor is watched for room to write with the flag for that alone, and for input with the
/// flag for that; to stop, it is deleted.  That it was watched before is no failure, and any other
/// failure is one.
pub proof fn law_watch_calls(reactor: Reactor, fd: RawFd, result: Result<(), i32>)
    ensures
        reactor.watch_output(fd).epfd == reactor.epoll_fd,
        reactor.watch_input(fd).epfd == reactor.epoll_fd,
        reactor.unwatch(fd).epfd == reactor.epoll_fd,
        reactor.watch_output(fd).fd == fd,
        reactor.watch_input(fd).fd == fd,
        reactor.unwatch(fd).fd == fd,
        reactor.watch_output(fd).op is EpollCtlAdd,
        reactor.watch_input(fd).op is EpollCtlAdd,
        reactor.unwatch(fd).op is EpollCtlDel,
        reactor.unwatch(fd).event is None,
        reactor.watch_output(fd).event matches Some(event) && event.flags == 4 && event.data == 0,
        reactor.watch_input(fd).event matches Some(event) && event.flags == 1 && event.data == 0,
        Reactor::watch_result(result) is Ok <==> result is Ok || result->Err_0 == 17,
        Reactor::watch_result(result) matches Err(errno) ==> result matches Err(number) && number
            == errno,
{
}

/// An error number stays what it is, and so does an error of moving bytes.
pub proof fn law_errors_kept(errno: i32, error: IoError)
    ensures
        <IpcError as FromSpec<i32>>::from_spec(errno) == IpcError::Errno(errno),
        <IpcError as FromSpec<IoError>>::from_spec(error) == IpcError::IoError(error),
{
}

/// The loop starts with one call for each descriptor that the side watches, in order, which has it
/// watched for input, and with room for as many events as the side has descriptors.
pub proof fn law_loop_setup<H: ReactorHandler>(reactor: &Reactor, handler: &H, setup: LoopSetup)
    requires
        reactor.sets_up(handler, setup),
    ensures
        setup.max_events == handler.total(),
        setup.watch@.len() == handler.watchable().len(),
        forall|i: int|
            0 <= i < setup.watch@.len() ==> {
                let call = #[trigger] setup.watch@[i];
                &&& call.epfd == reactor.epoll_fd
                &&& call.op is EpollCtlAdd
                &&& call.fd == handler.watchable()[i]
                &&& call.event matches Some(event) && event.flags == 1 && event.data == 0
            },
{
}

/// Every event of a side ends with an error: with that of passing bytes on where there was one, and
/// as unhandled otherwise.
pub proof fn law_events_fail(forwarded: Result<(), IoError>)
    ensures
        event_result(forwarded) is Err,
        event_result(forwarded)->Err_0 is UnhandledFd <==> forwarded is Ok,
        forwarded matches Err(e) ==> event_result(forwarded)->Err_0 == IpcError::IoError(e),
{
}

/// A read is always followed by a write, whatever is in the buffer, unless it failed for another
/// reason than that it would have to wait.  A write that was taken is followed by a read as long as
/// something is left, and otherwise by the end of watching.  A failure that is no waiting ends it
/// with its error, and nothing else does.
pub proof fn law_data_turns(event: DataEvent, rest: Seq<u8>)
    ensures
        event matches DataEvent::Read(r) ==> (data_action(event, rest) is Write <==> r is Ok
            || r->Err_0.kind is WouldBlock),
        data_action(event, rest) is Write ==> event is Read,
        data_action(event, rest) is ReadToEnd <==> event is Start || (event matches
            DataEvent::Wrote(Ok(_)) && rest.len() > 0),
        data_action(event, rest) is Unwatch <==> (event matches DataEvent::Wrote(Ok(_)) && rest.len()
            == 0),
        data_action(event, rest) is Watch <==> (event matches DataEvent::Wrote(Err(e))
            && e.kind is WouldBlock),
        data_action(event, rest) matches DataAction::Finished(Err(e)) ==> {
            ||| event == DataEvent::Read(Err(e)) && e.kind !is WouldBlock
            ||| event == DataEvent::Wrote(Err(e)) && e.kind !is WouldBlock
            ||| event == DataEvent::Watched(Err(e))
        },
        event matches DataEvent::Read(Err(e)) ==> e.kind !is WouldBlock ==> data_action(event, rest)
            == DataAction::Finished(Err(e)),
        event matches DataEvent::Wrote(Err(e)) ==> e.kind !is WouldBlock ==> data_action(event, rest)
            == DataAction::Finished(Err(e)),
        event matches DataEvent::Watched(r) ==> data_action(event, rest) == DataAction::Finished(r),
        event is Unwatched ==> (data_action(event, rest) matches DataAction::Finished(Ok(_))),
        event matches DataEvent::Wrote(Ok(size)) ==> bytes_gone(event) == size,
        !(event matches DataEvent::Wrote(Ok(_))) ==> bytes_gone(event) == 0,
{
}

/// From wherever passing on stands before a read, a read that brings anything or nothing, and a
/// write that takes all there is, end it well, with everything written.
pub proof fn law_data_finishes(
    buffer: Seq<u8>,
    turns: Seq<DataTurn>,
    read: Seq<u8>,
    outcome: Result<(), IoError>,
    size: usize,
)
    requires
        is_data_run(buffer, turns),
        data_progress(buffer, turns).action is ReadToEnd,
        outcome is Ok || outcome->Err_0.kind is WouldBlock,
        size == data_progress(buffer, turns).kept.len() + read.len(),
    ensures
        ({
            let none = Seq::<u8>::empty();
            let end = turns.push(DataTurn { read, event: DataEvent::Read(outcome) }).push(
                DataTurn { read: none, event: DataEvent::Wrote(Ok(size)) },
            ).push(DataTurn { read: none, event: DataEvent::Unwatched });
            &&& is_data_run(buffer, end)
            &&& data_progress(buffer, end).action matches DataAction::Finished(Ok(_))
            &&& data_progress(buffer, end).kept.len() == 0
            &&& data_progress(buffer, end).sent == buffer + received(turns) + read
        }),
{
    let none = Seq::<u8>::empty();
    let a = turns.push(DataTurn { read, event: DataEvent::Read(outcome) });
    let b = a.push(DataTurn { read: none, event: DataEvent::Wrote(Ok(size)) });
    let c = b.push(DataTurn { read: none, event: DataEvent::Unwatched });
    assert(a.drop_last() =~= turns);
    assert(b.drop_last() =~= a);
    assert(c.drop_last() =~= b);
    let now = data_progress(buffer, turns);
    assert((now.kept + read).skip(0) =~= now.kept + read);
    assert(data_progress(buffer, a).kept =~= now.kept + read);
    assert(is_data_run(buffer, a));
    assert(data_progress(buffer, a).action is Write);
    assert(data_progress(buffer, a).kept + none =~= now.kept + read);
    assert(is_data_run(buffer, b));
    assert(data_progress(buffer, b).kept.len() == 0);
    assert(data_progress(buffer, b).action is Unwatch);
    assert(is_data_run(buffer, c));
    law_bytes_in_order(buffer, c);
    assert(data_progress(buffer, c).kept.len() == 0);
    assert(data_progress(buffer, c).sent + data_progress(buffer, c).kept =~= data_progress(
        buffer,
        c,
    ).sent);
    assert(received(a) == received(turns) + read);
    assert(received(b) =~= received(a));
    assert(received(c) =~= received(b));
    assert(buffer + received(c) =~= buffer + received(turns) + read);
}

/// Where bytes are passed on as they come, every read that succeeded is followed by a write and
/// every write that succeeded by a read, whatever is in the buffer.  It ends well exactly where a
/// read would have to wait, and with an error exactly where anything else failed.
pub proof fn law_sync_turns(buffer: Seq<u8>, event: SyncEvent)
    ensures
        sync_next(buffer, event).1 is WriteAll <==> (event matches SyncEvent::Read(Ok(_))),
        sync_next(buffer, event).1 is ReadToEnd <==> event is Start || event
            matches SyncEvent::Wrote(Ok(_)),
        (sync_next(buffer, event).1 matches SyncAction::Finished(Ok(_))) <==> (event matches
            SyncEvent::Read(Err(e)) && e.kind is WouldBlock),
        event matches SyncEvent::Read(Err(e)) ==> e.kind !is WouldBlock ==> sync_next(
            buffer,
            event,
        ).1 == SyncAction::Finished(Err(e)),
        event matches SyncEvent::Wrote(Err(e)) ==> sync_next(buffer, event).1
            == SyncAction::Finished(Err(e)),
        (event matches SyncEvent::Wrote(Ok(_))) ==> sync_next(buffer, event).0.len() == 0,
        !(event matches SyncEvent::Wrote(Ok(_))) ==> sync_next(buffer, event).0 == buffer,
{
}

/// The loop of one side breaks off exactly where a call, a wait or an event failed, with that
/// failure.  It waits on its own descriptor, with room for as many reports as the side has
/// descriptors, and for one second.
pub proof fn law_loop_ends<H: ReactorHandler>(
    reactor: &Reactor,
    handler: &H,
    state: LoopView,
    event: LoopEvent,
)
    ensures
        reactor.loop_next(handler, state, event).1 matches LoopAction::Fatal(failure) ==> {
            ||| event matches LoopEvent::Watched(Err(number)) && failure == LoopFailure::Watch {
                errno: number,
            }
            ||| event matches LoopEvent::Waited(Err(number)) && failure == LoopFailure::Wait {
                errno: number,
            }
            ||| event matches LoopEvent::Handled(Err(e)) && failure == LoopFailure::Event {
                error: e,
            }
        },
        (event matches LoopEvent::Watched(Err(_))) || (event matches LoopEvent::Waited(Err(_))) || (
        event matches LoopEvent::Handled(Err(_))) ==> reactor.loop_next(
            handler,
            state,
            event,
        ).1 is Fatal,
        reactor.loop_next(handler, state, event).1 matches LoopAction::Wait {
            epfd,
            max_events,
            msec,
        } ==> {
            &&& epfd == reactor.epoll_fd
            &&& msec == 1000
            &&& max_events == if event is Start {
                handler.total() as usize
            } else {
                state.max_events
            }
        },
{
}

/// One turn of passing bytes on: what was read to the end of the buffer, and the event that tells
/// how the last action went.
pub struct DataTurn {
    pub read: Seq<u8>,
    pub event: DataEvent,
}

/// Where the passing on of bytes stands: what was written out, what is left in the buffer, and
/// what comes next.
pub struct DataProgress {
    pub sent: Seq<u8>,
    pub kept: Seq<u8>,
    pub action: DataAction,
}

/// What `forward_data` makes of some turns after its start, on a buffer.
pub open spec fn data_progress(buffer: Seq<u8>, turns: Seq<DataTurn>) -> DataProgress
    decreases turns.len(),
{
    if turns.len() == 0 {
        DataProgress {
            sent: seq![],
            kept: buffer,
            action: data_action(DataEvent::Start, buffer),
        }
    } else {
        let before = data_progress(buffer, turns.drop_last());
        let all = before.kept + turns.last().read;
        let gone = bytes_gone(turns.last().event) as int;
        DataProgress {
            sent: before.sent + all.take(gone),
            kept: all.skip(gone),
            action: data_action(turns.last().event, all.skip(gone)),
        }
    }
}

/// Whether a turn tells how an action went: bytes come in where there is to be a read, and no
/// write takes more than there is.
pub open spec fn data_answer(before: DataProgress, turn: DataTurn) -> bool {
    match before.action {
        DataAction::ReadToEnd => turn.event is Read,
        DataAction::Write => {
            &&& turn.event is Wrote
            &&& turn.read.len() == 0
            &&& bytes_gone(turn.event) <= before.kept.len()
        },
        DataAction::Watch => turn.event is Watched && turn.read.len() == 0,
        DataAction::Unwatch => turn.event is Unwatched && turn.read.len() == 0,
        DataAction::Finished(_) => false,
    }
}

/// Whether some turns are a run of `forward_data`: each tells how the action before it went.
pub open spec fn is_data_run(buffer: Seq<u8>, turns: Seq<DataTurn>) -> bool
    decreases turns.len(),
{
    turns.len() > 0 ==> {
        &&& is_data_run(buffer, turns.drop_last())
        &&& data_answer(data_progress(buffer, turns.drop_last()), turns.last())
    }
}

/// What was read in some turns.
pub open spec fn received(turns: Seq<DataTurn>) -> Seq<u8>
    decreases turns.len(),
{
    if turns.len() == 0 {
        seq![]
    } else {
        received(turns.drop_last()) + turns.last().read
    }
}

/// However reads and writes go, the bytes that were written out, followed by those left in the
/// buffer, are those that were in the buffer, followed by those that were read: none is lost,
/// doubled or out of order.  Where passing on succeeds, everything was written out, or the output
/// was found to wait and is watched.
pub proof fn law_bytes_in_order(buffer: Seq<u8>, turns: Seq<DataTurn>)
    requires
        is_data_run(buffer, turns),
    ensures
        data_progress(buffer, turns).sent + data_progress(buffer, turns).kept == buffer + received(
            turns,
        ),
        data_progress(buffer, turns).action == DataAction::Finished(Ok(())) ==> {
            ||| data_progress(buffer, turns).sent == buffer + received(turns)
            ||| turns.last().event == DataEvent::Watched(Ok(()))
        },
    decreases turns.len(),
{
    let now = data_progress(buffer, turns);
    if turns.len() > 0 {
        let before = data_progress(buffer, turns.drop_last());
        let all = before.kept + turns.last().read;
        let gone = bytes_gone(turns.last().event) as int;
        law_bytes_in_order(buffer, turns.drop_last());
        assert(all.take(gone) + all.skip(gone) =~= all);
        assert(now.sent + now.kept =~= before.sent + (all.take(gone) + all.skip(gone)));
        assert(before.sent + all =~= (before.sent + before.kept) + turns.last().read);
        assert(buffer + received(turns) =~= (buffer + received(turns.drop_last()))
            + turns.last().read);
        if now.action == DataAction::Finished(Ok(())) && turns.last().event is Unwatched {
            assert(before.kept.len() == 0);
            assert(now.sent + now.kept =~= now.sent);
        }
    } else {
        assert(now.sent + now.kept =~= buffer + received(turns));
    }
}

/// One turn of passing bytes on as they come: what was read to the end of the buffer, and the event
/// that tells how the last action went.
pub struct SyncTurn {
    pub read: Seq<u8>,
    pub event: SyncEvent,
}

/// Where the passing on of bytes as they come stands: what was written out whole, what is in the
/// buffer, and what comes next.
pub struct SyncProgress {
    pub sent: Seq<u8>,
    pub kept: Seq<u8>,
    pub action: SyncAction,
}

/// What `forward_data_sync` makes of some turns after its start, on an empty buffer.
pub open spec fn sync_progress(turns: Seq<SyncTurn>) -> SyncProgress
    decreases turns.len(),
{
    if turns.len() == 0 {
        let (kept, action) = sync_next(seq![], SyncEvent::Start);
        SyncProgress { sent: seq![], kept, action }
    } else {
        let before = sync_progress(turns.drop_last());
        let all = before.kept + turns.last().read;
        let (kept, action) = sync_next(all, turns.last().event);
        let sent = if turns.last().event matches SyncEvent::Wrote(Ok(_)) {
            before.sent + all
        } else {
            before.sent
        };
        SyncProgress { sent, kept, action }
    }
}

/// Whether some turns are a run of `forward_data_sync`: each tells how the action before it went,
/// and bytes come in where there is to be a read.
pub open spec fn is_sync_run(turns: Seq<SyncTurn>) -> bool
    decreases turns.len(),
{
    turns.len() > 0 ==> {
        &&& is_sync_run(turns.drop_last())
        &&& match sync_progress(turns.drop_last()).action {
            SyncAction::ReadToEnd => turns.last().event is Read,
            SyncAction::WriteAll => turns.last().event is Wrote && turns.last().read.len() == 0,
            SyncAction::Finished(_) => false,
        }
    }
}

/// What was read by reads that succeeded.
pub open spec fn read_whole(turns: Seq<SyncTurn>) -> Seq<u8>
    decreases turns.len(),
{
    if turns.len() == 0 {
        seq![]
    } else if turns.last().event matches SyncEvent::Read(Ok(_)) {
        read_whole(turns.drop_last()) + turns.last().read
    } else {
        read_whole(turns.drop_last())
    }
}

/// What reads that succeeded brought is written out, each chunk once and in order, and nothing
/// else is: all of it but a chunk that is to be written next, or whose write failed.
pub proof fn law_chunks_in_order(turns: Seq<SyncTurn>)
    requires
        is_sync_run(turns),
    ensures
        ({
            let now = sync_progress(turns);
            if now.action is WriteAll || (turns.len() > 0 && (turns.last().event matches
                SyncEvent::Wrote(Err(_)))) {
                now.sent + now.kept == read_whole(turns)
            } else {
                now.sent == read_whole(turns)
            }
        }),
        sync_progress(turns).action is ReadToEnd ==> sync_progress(turns).kept.len() == 0,
        sync_progress(turns).action == SyncAction::Finished(Ok(())) ==> sync_progress(turns).sent
            == read_whole(turns),
    decreases turns.len(),
{
    let now = sync_progress(turns);
    if turns.len() > 0 {
        let before = sync_progress(turns.drop_last());
        let all = before.kept + turns.last().read;
        law_chunks_in_order(turns.drop_last());
        match turns.last().event {
            SyncEvent::Read(_) => {
                assert(all =~= turns.last().read);
            },
            SyncEvent::Wrote(_) => {
                assert(all =~= before.kept);
            },
            SyncEvent::Start => {},
        }
    }
}

/// Where the loop of one side stands once it started and `k` calls were made without error.
pub open spec fn after_watches<H: ReactorHandler>(
    reactor: &Reactor,
    handler: &H,
    state: LoopView,
    k: nat,
) -> (LoopView, LoopAction)
    decreases k,
{
    if k == 0 {
        reactor.loop_next(handler, state, LoopEvent::Start)
    } else {
        let before = after_watches(reactor, handler, state, (k - 1) as nat);
        reactor.loop_next(handler, before.0, LoopEvent::Watched(Ok(())))
    }
}

/// Every descriptor that a side has to watch is watched for input, in order, before the loop first
/// waits.
pub proof fn law_watched_before_waiting<H: ReactorHandler>(
    reactor: &Reactor,
    handler: &H,
    state: LoopView,
    k: nat,
)
    requires
        k <= handler.watchable().len(),
    ensures
        after_watches(reactor, handler, state, k).1 == if k < handler.watchable().len() {
            LoopAction::Watch(reactor.watch_input(handler.watchable()[k as int]))
        } else {
            reactor.wait(handler.total() as usize)
        },
        after_watches(reactor, handler, state, k).0.max_events == handler.total() as usize,
        k < handler.watchable().len() ==> after_watches(reactor, handler, state, k).0.watch
            == handler.watchable().map_values(|fd: RawFd| reactor.watch_input(fd)).skip(
            k as int + 1,
        ),
    decreases k,
{
    if k > 0 {
        law_watched_before_waiting(reactor, handler, state, (k - 1) as nat);
        let all = handler.watchable().map_values(|fd: RawFd| reactor.watch_input(fd));
        if k < all.len() {
            assert(all.skip(k as int).skip(1) =~= all.skip(k as int + 1));
        }
    }
}

/// Where the loop of one side stands once reports came in and `k` were dealt with without error.
pub open spec fn after_reports<H: ReactorHandler>(
    reactor: &Reactor,
    handler: &H,
    state: LoopView,
    data: Vec<u64>,
    k: nat,
) -> (LoopView, LoopAction)
    decreases k,
{
    if k == 0 {
        reactor.loop_next(handler, state, LoopEvent::Waited(Ok(data)))
    } else {
        let before = after_reports(reactor, handler, state, data, (k - 1) as nat);
        reactor.loop_next(handler, before.0, LoopEvent::Handled(Ok(())))
    }
}

/// Every report is dealt with once, in order, as what its descriptor asks for, as long as none
/// fails; then the loop waits again.
pub proof fn law_reports_in_order<H: ReactorHandler>(
    reactor: &Reactor,
    handler: &H,
    state: LoopView,
    data: Vec<u64>,
    k: nat,
)
    requires
        k <= data@.len(),
    ensures
        after_reports(reactor, handler, state, data, k).1 == if k < data@.len() {
            let fd = fd_of(data@[k as int]);
            LoopAction::Handle { fd, what: handler.route(fd) }
        } else {
            reactor.wait(state.max_events)
        },
        after_reports(reactor, handler, state, data, k).0.max_events == state.max_events,
        k < data@.len() ==> after_reports(reactor, handler, state, data, k).0.reports
            == data@.skip(k as int + 1),
    decreases k,
{
    if k > 0 {
        law_reports_in_order(reactor, handler, state, data, (k - 1) as nat);
        if k < data@.len() {
            assert(data@.skip(k as int).skip(1) =~= data@.skip(k as int + 1));
        }
    }
}

/// A side closes the streams before the pipes for messages, and the end from which it reads before
/// the one to which it writes.
pub proof fn law_close_in_order(parent: ParentSide, child: ChildSide)
    ensures
        parent.closing().take(3) == seq![
            parent.child_io.stdin,
            parent.child_io.stdout,
            parent.child_io.stderr,
        ],
        parent.closing()[3] == parent.stdin,
        parent.closing()[4] == parent.messages.endpoint_r,
        parent.closing()[5] == parent.messages.endpoint_w,
        child.closing().take(3) == seq![
            child.parent_io.stdin,
            child.parent_io.stdout,
            child.parent_io.stderr,
        ],
        child.closing()[3] == child.messages.endpoint_r,
        child.closing()[4] == child.messages.endpoint_w,
{
}

/// A side closes what it was given and nothing else: each of its descriptors is among those that it
/// closes, and each of those is one of its descriptors.
pub proof fn law_close_is_complete(parent: ParentSide, child: ChildSide)
    ensures
        forall|i: int|
            0 <= i < parent.watchable().len() ==> parent.closing().contains(
                #[trigger] parent.watchable()[i],
            ),
        parent.closing().contains(parent.child_io.stdin),
        parent.closing().contains(parent.messages.endpoint_w),
        forall|stream: Stream|
            parent.closing().contains(#[trigger] parent.child_io.of(stream))
                && child.closing().contains(child.parent_io.of(stream)),
        child.closing().contains(child.messages.endpoint_r),
        child.closing().contains(child.messages.endpoint_w),
        parent.closing().len() == 6,
        child.closing().len() == 5,
        forall|fd: RawFd| #[trigger]
            parent.closing().contains(fd) ==> fd == parent.stdin || fd == parent.child_io.stdin || fd
                == parent.child_io.stdout || fd == parent.child_io.stderr || fd
                == parent.messages.endpoint_r || fd == parent.messages.endpoint_w,
        forall|fd: RawFd| #[trigger]
            child.closing().contains(fd) ==> fd == child.parent_io.stdin || fd
                == child.parent_io.stdout || fd == child.parent_io.stderr || fd
                == child.messages.endpoint_r || fd == child.messages.endpoint_w,
{
    let p = parent.closing();
    assert(p[0] == parent.child_io.stdin && p[1] == parent.child_io.stdout && p[2]
        == parent.child_io.stderr && p[3] == parent.stdin && p[4] == parent.messages.endpoint_r
        && p[5] == parent.messages.endpoint_w);
    let c = child.closing();
    assert(c[0] == child.parent_io.stdin && c[1] == child.parent_io.stdout && c[2]
        == child.parent_io.stderr && c[3] == child.messages.endpoint_r && c[4]
        == child.messages.endpoint_w);
}

} // verus!
