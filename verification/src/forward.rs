//! Moving bytes from one descriptor to another through a buffer.
//!
//! Each function here is the decision part of a loop of reads and writes.  It is called with
//! the outcome of the call that it last asked for, with `None` at the start, and says what to
//! do next.
use vstd::prelude::*;

use crate::events::Error;
use crate::kernel::{eagain, EAGAIN};

verus! {

/// How much a buffer takes before it is passed on.
pub const BUFFER_SIZE: usize = 1024;

/// What to do next with the two descriptors.
#[derive(Debug, PartialEq, Eq)]
pub enum Transfer<T> {
    /// Read into the buffer, from this position on.
    Read { at: usize },
    /// Write the buffer out.
    Write,
    Finished(Result<T, Error>),
}

/// How many bytes were moved, and whether there is more to come.
#[derive(Debug, PartialEq, Eq, Structural, Copy, Clone)]
pub struct IOAction {
    pub bytes_transferred: usize,
    pub try_again: bool,
}

impl IOAction {
    pub fn again(bytes_transferred: usize) -> (r: Self)
        ensures
            r == (IOAction { bytes_transferred, try_again: true }),
    {
        Self { bytes_transferred, try_again: true }
    }

    pub fn done(bytes_transferred: usize) -> (r: Self)
        ensures
            r == (IOAction { bytes_transferred, try_again: false }),
    {
        Self { bytes_transferred, try_again: false }
    }
}

/// How many bytes a write took.
pub open spec fn taken(wrote: Option<Result<usize, i32>>) -> nat {
    match wrote {
        Some(Ok(size)) => size as nat,
        _ => 0,
    }
}

/// Takes bytes away from the front of a buffer.
fn drop_front(buffer: &mut Vec<u8>, size: usize)
    requires
        size <= old(buffer)@.len(),
    ensures
        final(buffer)@ == old(buffer)@.skip(size as int),
{
    let rest = buffer.split_off(size);
    *buffer = rest;
}

/// What comes next after a write, where so much is left and so many bytes went.
pub open spec fn buffer_action(
    left: Seq<u8>,
    written: usize,
    wrote: Option<Result<usize, i32>>,
) -> Transfer<usize> {
    match wrote {
        Some(Err(errno)) => Transfer::Finished(Err(Error::Errno(errno))),
        _ => if left.len() > 0 {
            Transfer::Write
        } else {
            Transfer::Finished(Ok(written))
        },
    }
}

/// Writes a buffer out until it is empty.  `written` counts the bytes that went.
pub fn forward_buffer(
    written: &mut usize,
    send_buffer: &mut Vec<u8>,
    wrote: Option<Result<usize, i32>>,
) -> (r: Transfer<usize>)
    requires
        taken(wrote) <= old(send_buffer)@.len(),
        *old(written) + old(send_buffer)@.len() <= usize::MAX,
    ensures
        final(send_buffer)@ == old(send_buffer)@.skip(taken(wrote) as int),
        *final(written) == *old(written) + taken(wrote),
        r == buffer_action(final(send_buffer)@, *final(written), wrote),
{
    match wrote {
        Some(Ok(size)) => {
            drop_front(send_buffer, size);
            *written = *written + size;
        },
        Some(Err(errno)) => {
            return Transfer::Finished(Err(Error::from(errno)));
        },
        None => {},
    }
    if send_buffer.len() > 0 {
        Transfer::Write
    } else {
        Transfer::Finished(Ok(*written))
    }
}

/// What comes next after a read, where the buffer is this and so many bytes were read.
pub open spec fn read_action(
    buffer: Seq<u8>,
    bytes_read: usize,
    read: Option<Result<usize, i32>>,
) -> Transfer<IOAction> {
    let done = Transfer::Finished(Ok(IOAction { bytes_transferred: bytes_read, try_again: false }));
    match read {
        None => if buffer.len() <= BUFFER_SIZE {
            Transfer::Read { at: buffer.len() as usize }
        } else {
            done
        },
        Some(Ok(_)) => if buffer.len() < BUFFER_SIZE {
            Transfer::Read { at: buffer.len() as usize }
        } else {
            done
        },
        Some(Err(errno)) => if errno == EAGAIN {
            Transfer::Finished(Ok(IOAction { bytes_transferred: bytes_read, try_again: true }))
        } else {
            Transfer::Finished(Err(Error::Errno(errno)))
        },
    }
}

/// Reads until the buffer holds `BUFFER_SIZE` bytes.  The bytes are read to where the buffer
/// ends.
pub fn read_fd_until_full(
    bytes_read: &mut usize,
    buffer: &Vec<u8>,
    read: Option<Result<usize, i32>>,
) -> (r: Transfer<IOAction>)
    requires
        *old(bytes_read) + taken(read) <= usize::MAX,
    ensures
        *final(bytes_read) == *old(bytes_read) + taken(read),
        r == read_action(buffer@, *final(bytes_read), read),
{
    match read {
        None => {
            if buffer.len() <= BUFFER_SIZE {
                return Transfer::Read { at: buffer.len() };
            }
        },
        Some(Ok(size)) => {
            *bytes_read = *bytes_read + size;
            if buffer.len() < BUFFER_SIZE {
                return Transfer::Read { at: buffer.len() };
            }
        },
        Some(Err(errno)) => {
            if errno == eagain() {
                return Transfer::Finished(Ok(IOAction::again(*bytes_read)));
            }
            return Transfer::Finished(Err(Error::from(errno)));
        },
    }
    Transfer::Finished(Ok(IOAction::done(*bytes_read)))
}

/// Where the moving of bytes between two descriptors stands.
#[derive(Debug, PartialEq, Eq, Structural, Copy, Clone)]
pub enum ForwardFd {
    Reading { bytes_read: usize },
    Writing { written: usize },
}

impl ForwardFd {
    pub fn start() -> (r: Self)
        ensures
            r == (ForwardFd::Reading { bytes_read: 0 }),
    {
        ForwardFd::Reading { bytes_read: 0 }
    }
}

/// What follows from writing the buffer out: whoever has to wait is told to try again.
pub open spec fn forwarded(r: Transfer<usize>) -> Transfer<IOAction> {
    match r {
        Transfer::Read { at } => Transfer::Read { at },
        Transfer::Write => Transfer::Write,
        Transfer::Finished(Ok(bytes)) => Transfer::Finished(
            Ok(IOAction { bytes_transferred: bytes, try_again: false }),
        ),
        Transfer::Finished(Err(e)) => if e == Error::Errno(EAGAIN) {
            Transfer::Finished(Ok(IOAction { bytes_transferred: 0, try_again: true }))
        } else {
            Transfer::Finished(Err(e))
        },
    }
}

fn after_forward(r: Transfer<usize>) -> (next: Transfer<IOAction>)
    ensures
        next == forwarded(r),
{
    match r {
        Transfer::Read { at } => Transfer::Read { at },
        Transfer::Write => Transfer::Write,
        Transfer::Finished(Ok(bytes)) => Transfer::Finished(Ok(IOAction::done(bytes))),
        Transfer::Finished(Err(e)) => {
            if let Error::Errno(errno) = e {
                if errno == eagain() {
                    return Transfer::Finished(Ok(IOAction::again(0)));
                }
            }
            Transfer::Finished(Err(e))
        },
    }
}

/// Where the next write starts from: what a buffer of this length leads to.
pub open spec fn started(len: nat) -> Transfer<IOAction> {
    if len > 0 {
        Transfer::Write
    } else {
        Transfer::Finished(Ok(IOAction { bytes_transferred: 0, try_again: false }))
    }
}

/// What the moving of bytes between two descriptors does on the outcome of a call: where it stands
/// afterwards, the buffer, and what comes next.  It reads until the buffer is full or reading
/// would have to wait, and then writes until the buffer is empty.
pub open spec fn fd_next(
    state: ForwardFd,
    buffer: Seq<u8>,
    outcome: Option<Result<usize, i32>>,
) -> (ForwardFd, Seq<u8>, Transfer<IOAction>) {
    match state {
        ForwardFd::Reading { bytes_read } => {
            let full = BUFFER_SIZE < buffer.len() || (outcome is Some && BUFFER_SIZE
                == buffer.len());
            match outcome {
                Some(Err(errno)) if errno != EAGAIN => (
                    state,
                    buffer,
                    Transfer::Finished(Err(Error::Errno(errno))),
                ),
                Some(Err(_)) => (
                    ForwardFd::Writing { written: 0 },
                    buffer,
                    started(buffer.len()),
                ),
                _ => if full {
                    (ForwardFd::Writing { written: 0 }, buffer, started(buffer.len()))
                } else {
                    (
                        ForwardFd::Reading { bytes_read: (bytes_read + taken(outcome)) as usize },
                        buffer,
                        Transfer::Read { at: buffer.len() as usize },
                    )
                },
            }
        },
        ForwardFd::Writing { written } => {
            let left = buffer.skip(taken(outcome) as int);
            let total = (written + taken(outcome)) as usize;
            (
                ForwardFd::Writing { written: total },
                left,
                forwarded(buffer_action(left, total, outcome)),
            )
        },
    }
}

/// Fills the buffer from one descriptor, then writes it out to the other.
pub fn forward_fd(
    state: &mut ForwardFd,
    send_buffer: &mut Vec<u8>,
    outcome: Option<Result<usize, i32>>,
) -> (r: Transfer<IOAction>)
    requires
        match *old(state) {
            ForwardFd::Reading { bytes_read } => bytes_read + taken(outcome) <= usize::MAX,
            ForwardFd::Writing { written } => {
                &&& taken(outcome) <= old(send_buffer)@.len()
                &&& written + old(send_buffer)@.len() <= usize::MAX
            },
        },
    ensures
        (*final(state), final(send_buffer)@, r) == fd_next(
            *old(state),
            old(send_buffer)@,
            outcome,
        ),
{
    match *state {
        ForwardFd::Reading { bytes_read } => {
            let mut count = bytes_read;
            let read_info = read_fd_until_full(&mut count, send_buffer, outcome);
            match read_info {
                Transfer::Read { at } => {
                    *state = ForwardFd::Reading { bytes_read: count };
                    Transfer::Read { at }
                },
                Transfer::Finished(Err(e)) => Transfer::Finished(Err(e)),
                _ => {
                    let mut written: usize = 0;
                    assert(send_buffer.len() <= usize::MAX);
                    let first = forward_buffer(&mut written, send_buffer, None);
                    proof {
                        assert(old(send_buffer)@.skip(0) =~= old(send_buffer)@);
                    }
                    *state = ForwardFd::Writing { written };
                    after_forward(first)
                },
            }
        },
        ForwardFd::Writing { written } => {
            let mut count = written;
            let next = forward_buffer(&mut count, send_buffer, outcome);
            *state = ForwardFd::Writing { written: count };
            after_forward(next)
        },
    }
}

/// The bytes of a list of pieces, one piece behind the other.
pub open spec fn flat(pieces: Seq<Vec<u8>>) -> Seq<u8>
    decreases pieces.len(),
{
    if pieces.len() == 0 {
        seq![]
    } else {
        pieces[0]@ + flat(pieces.skip(1))
    }
}

/// Where the writing of a list of pieces stands: how many bytes went, which piece is next, and
/// whether the buffer is being emptied.
#[derive(Debug, PartialEq, Eq, Structural, Copy, Clone)]
pub struct ForwardIter {
    pub written: usize,
    pub next: usize,
    pub flushing: bool,
}

impl ForwardIter {
    pub fn start() -> (r: Self)
        ensures
            r == (ForwardIter { written: 0, next: 0, flushing: true }),
    {
        ForwardIter { written: 0, next: 0, flushing: true }
    }
}

/// What is still to be written: the buffer and the pieces that were not put into it yet.
pub open spec fn pending(buffer: Seq<u8>, pieces: Seq<Vec<u8>>, next: int) -> Seq<u8> {
    buffer + flat(pieces.skip(next))
}

/// The buffer and the next piece once pieces were put into the buffer until it has to be
/// written out or there are no more.
pub open spec fn filled(buffer: Seq<u8>, pieces: Seq<Vec<u8>>, next: int) -> (Seq<u8>, int)
    decreases pieces.len() - next,
{
    if next >= pieces.len() {
        (buffer, next)
    } else {
        let more = buffer + pieces[next]@;
        if more.len() >= BUFFER_SIZE {
            (more, next + 1)
        } else {
            filled(more, pieces, next + 1)
        }
    }
}

/// What the writing of a list of pieces does on the outcome of a write: where it stands afterwards,
/// the buffer, and what comes next.
pub open spec fn iter_next(
    state: ForwardIter,
    pieces: Seq<Vec<u8>>,
    buffer: Seq<u8>,
    wrote: Option<Result<usize, i32>>,
) -> (ForwardIter, Seq<u8>, Transfer<usize>) {
    match wrote {
        Some(Err(errno)) => (state, buffer, Transfer::Finished(Err(Error::Errno(errno)))),
        _ => {
            let rest = buffer.skip(taken(wrote) as int);
            let written = (state.written + taken(wrote)) as usize;
            if state.flushing && rest.len() > 0 {
                (ForwardIter { written, ..state }, rest, Transfer::Write)
            } else {
                let (more, next) = filled(rest, pieces, state.next as int);
                (
                    ForwardIter { written, next: next as usize, flushing: more.len() > 0 },
                    more,
                    if more.len() > 0 {
                        Transfer::Write
                    } else {
                        Transfer::Finished(Ok(written))
                    },
                )
            }
        },
    }
}

/// Writes out a buffer, then a list of pieces.  The pieces are put into the buffer, which is
/// written out whenever it holds `BUFFER_SIZE` bytes, and at the end.
pub fn forward_iter(
    state: &mut ForwardIter,
    f_in: &Vec<Vec<u8>>,
    send_buffer: &mut Vec<u8>,
    wrote: Option<Result<usize, i32>>,
) -> (r: Transfer<usize>)
    requires
        old(state).next <= f_in@.len(),
        taken(wrote) <= old(send_buffer)@.len(),
        old(state).written + pending(old(send_buffer)@, f_in@, old(state).next as int).len()
            <= usize::MAX,
    ensures
        final(state).next <= f_in@.len(),
        (*final(state), final(send_buffer)@, r) == iter_next(
            *old(state),
            f_in@,
            old(send_buffer)@,
            wrote,
        ),
        // what is still to be written is what was, but for the bytes that went
        pending(final(send_buffer)@, f_in@, final(state).next as int) == pending(
            old(send_buffer)@,
            f_in@,
            old(state).next as int,
        ).skip(taken(wrote) as int),
        r matches Transfer::Finished(Ok(_)) ==> pending(
            final(send_buffer)@,
            f_in@,
            final(state).next as int,
        ).len() == 0,
{
    proof {
        let all = pending(old(send_buffer)@, f_in@, old(state).next as int);
        let front = old(send_buffer)@.skip(taken(wrote) as int);
        assert(all.skip(taken(wrote) as int) =~= pending(front, f_in@, old(state).next as int));
        law_filling_keeps_bytes(front, f_in@, old(state).next as int);
        if taken(wrote) == 0 {
            assert(front =~= old(send_buffer)@);
        }
    }
    match wrote {
        Some(Ok(size)) => {
            drop_front(send_buffer, size);
            state.written = state.written + size;
        },
        Some(Err(errno)) => {
            return Transfer::Finished(Err(Error::from(errno)));
        },
        None => {},
    }
    let ghost rest = send_buffer@;
    proof {
        assert(rest =~= old(send_buffer)@.skip(taken(wrote) as int));
    }
    if state.flushing && send_buffer.len() > 0 {
        return Transfer::Write;
    }
    let ghost target = filled(rest, f_in@, state.next as int);
    state.flushing = false;
    while !state.flushing && state.next < f_in.len()
        invariant
            state.next <= f_in@.len(),
            state.written == old(state).written + taken(wrote),
            if state.flushing {
                target == (send_buffer@, state.next as int) && send_buffer@.len() >= BUFFER_SIZE
            } else {
                target == filled(send_buffer@, f_in@, state.next as int)
            },
        decreases f_in.len() - state.next,
    {
        let ghost before = send_buffer@;
        send_buffer.extend_from_slice(f_in[state.next].as_slice());
        proof {
            assert(send_buffer@ =~= before + f_in@[state.next as int]@);
        }
        state.next = state.next + 1;
        if send_buffer.len() >= BUFFER_SIZE {
            state.flushing = true;
        }
    }
    if send_buffer.len() > 0 {
        state.flushing = true;
        Transfer::Write
    } else {
        Transfer::Finished(Ok(state.written))
    }
}

proof fn lemma_filled_least(buffer: Seq<u8>, pieces: Seq<Vec<u8>>, next: int)
    requires
        0 <= next <= pieces.len(),
    ensures
        ({
            let (after, then) = filled(buffer, pieces, next);
            &&& next <= then <= pieces.len()
            &&& after == buffer + flat(pieces.subrange(next, then))
            &&& forall|k: int|
                next < k < then ==> (buffer + flat(#[trigger] pieces.subrange(next, k))).len()
                    < BUFFER_SIZE
        }),
    decreases pieces.len() - next,
{
    let (after, then) = filled(buffer, pieces, next);
    if next < pieces.len() {
        let more = buffer + pieces[next]@;
        if more.len() >= BUFFER_SIZE {
            lemma_flat_front(pieces, next, next + 1);
            assert(flat(pieces.subrange(next + 1, next + 1)) =~= seq![]);
            assert(pieces[next]@ + flat(pieces.subrange(next + 1, next + 1)) =~= pieces[next]@);
        } else {
            lemma_filled_least(more, pieces, next + 1);
            lemma_flat_front(pieces, next, then);
            assert(more + flat(pieces.subrange(next + 1, then)) =~= buffer + flat(
                pieces.subrange(next, then),
            ));
            assert forall|k: int| next < k < then implies (buffer + flat(
                #[trigger] pieces.subrange(next, k),
            )).len() < BUFFER_SIZE by {
                lemma_flat_front(pieces, next, k);
                assert(more + flat(pieces.subrange(next + 1, k)) =~= buffer + flat(
                    pieces.subrange(next, k),
                ));
                if k == next + 1 {
                    assert(flat(pieces.subrange(next + 1, k)) =~= seq![]);
                }
            }
        }
    } else {
        assert(flat(pieces.subrange(next, then)) =~= seq![]);
        assert(after =~= buffer + flat(pieces.subrange(next, then)));
    }
}

proof fn lemma_flat_front(pieces: Seq<Vec<u8>>, from: int, to: int)
    requires
        0 <= from < to <= pieces.len(),
    ensures
        flat(pieces.subrange(from, to)) == pieces[from]@ + flat(pieces.subrange(from + 1, to)),
{
    assert(pieces.subrange(from, to).skip(1) =~= pieces.subrange(from + 1, to));
}

proof fn lemma_filled_pending(buffer: Seq<u8>, pieces: Seq<Vec<u8>>, next: int)
    requires
        0 <= next <= pieces.len(),
    ensures
        ({
            let (after, then) = filled(buffer, pieces, next);
            &&& next <= then <= pieces.len()
            &&& pending(after, pieces, then) == pending(buffer, pieces, next)
            &&& after.len() < BUFFER_SIZE ==> then == pieces.len()
        }),
    decreases pieces.len() - next,
{
    if next < pieces.len() {
        let more = buffer + pieces[next]@;
        assert(pieces.skip(next).skip(1) =~= pieces.skip(next + 1));
        assert(pieces.skip(next)[0] == pieces[next]);
        assert(pending(more, pieces, next + 1) =~= pending(buffer, pieces, next));
        if more.len() < BUFFER_SIZE {
            lemma_filled_pending(more, pieces, next + 1);
        }
    }
}

/// Filling the buffer puts the next pieces behind it, loses nothing and adds nothing.  It stops at
/// the first piece with which the buffer is large enough, and otherwise behind the last piece; an
/// empty buffer then means that everything was written.
pub proof fn law_filling_keeps_bytes(buffer: Seq<u8>, pieces: Seq<Vec<u8>>, next: int)
    requires
        0 <= next <= pieces.len(),
    ensures
        ({
            let (after, then) = filled(buffer, pieces, next);
            &&& pending(after, pieces, then) == pending(buffer, pieces, next)
            &&& after.len() < BUFFER_SIZE ==> then == pieces.len()
            &&& after.len() == 0 ==> pending(buffer, pieces, next).len() == 0
            &&& next <= then <= pieces.len()
            &&& after == buffer + flat(pieces.subrange(next, then))
            &&& forall|k: int|
                next < k < then ==> (buffer + flat(#[trigger] pieces.subrange(next, k))).len() < 1024
        }),
{
    lemma_filled_pending(buffer, pieces, next);
    lemma_filled_least(buffer, pieces, next);
    let (after, then) = filled(buffer, pieces, next);
    if after.len() == 0 {
        assert(pieces.skip(then) =~= seq![]);
        assert(pending(after, pieces, then) =~= seq![]);
    }
}

/// Where the writing out of a buffer stands: what was written, what is left, how many bytes were
/// counted, and what comes next.
pub struct BufferProgress {
    pub sent: Seq<u8>,
    pub kept: Seq<u8>,
    pub written: usize,
    pub action: Transfer<usize>,
}

/// What `forward_buffer` makes of the outcomes of some writes, from its start on.
pub open spec fn buffer_progress(
    buffer: Seq<u8>,
    outcomes: Seq<Result<usize, i32>>,
) -> BufferProgress
    decreases outcomes.len(),
{
    if outcomes.len() == 0 {
        BufferProgress {
            sent: seq![],
            kept: buffer,
            written: 0,
            action: buffer_action(buffer, 0, None),
        }
    } else {
        let before = buffer_progress(buffer, outcomes.drop_last());
        let wrote = Some(outcomes.last());
        let gone = taken(wrote) as int;
        let written = (before.written + gone) as usize;
        let kept = before.kept.skip(gone);
        BufferProgress {
            sent: before.sent + before.kept.take(gone),
            kept,
            written,
            action: buffer_action(kept, written, wrote),
        }
    }
}

/// Whether some outcomes are those of a run of `forward_buffer`: there is one for each write that
/// it asks for, and no write takes more than there is.
pub open spec fn is_buffer_run(buffer: Seq<u8>, outcomes: Seq<Result<usize, i32>>) -> bool
    decreases outcomes.len(),
{
    outcomes.len() > 0 ==> {
        let before = buffer_progress(buffer, outcomes.drop_last());
        &&& is_buffer_run(buffer, outcomes.drop_last())
        &&& before.action is Write
        &&& taken(Some(outcomes.last())) <= before.kept.len()
    }
}

/// However the writes go, what was written, followed by what is left, is the buffer, and the count
/// is that of the bytes written.  It goes on as long as something is left; it succeeds exactly where
/// nothing is, with all of the buffer written, and fails exactly where a write did, with its error.
pub proof fn law_buffer_in_order(buffer: Seq<u8>, outcomes: Seq<Result<usize, i32>>)
    requires
        buffer.len() <= usize::MAX,
        is_buffer_run(buffer, outcomes),
    ensures
        ({
            let now = buffer_progress(buffer, outcomes);
            &&& now.sent + now.kept == buffer
            &&& now.written == now.sent.len()
            &&& now.action matches Transfer::Finished(Ok(count)) ==> now.sent == buffer && count
                == buffer.len()
            &&& if outcomes.len() > 0 && outcomes.last() is Err {
                now.action == Transfer::<usize>::Finished(
                    Err(Error::Errno(outcomes.last()->Err_0)),
                )
            } else if now.kept.len() > 0 {
                now.action is Write
            } else {
                now.action matches Transfer::Finished(Ok(_))
            }
        }),
    decreases outcomes.len(),
{
    let now = buffer_progress(buffer, outcomes);
    if outcomes.len() > 0 {
        let before = buffer_progress(buffer, outcomes.drop_last());
        let gone = taken(Some(outcomes.last())) as int;
        law_buffer_in_order(buffer, outcomes.drop_last());
        assert((before.sent + before.kept).len() == buffer.len());
        assert(now.sent + now.kept =~= before.sent + before.kept);
    } else {
        assert(now.sent + now.kept =~= buffer);
    }
    if now.kept.len() == 0 {
        assert(now.sent + now.kept =~= now.sent);
    }
}

/// One turn of moving bytes between two descriptors: what was read to the end of the buffer, and
/// the outcome of the call.
pub struct FdTurn {
    pub read: Seq<u8>,
    pub outcome: Result<usize, i32>,
}

/// Where the moving of bytes between two descriptors stands: its state, what was written, what is
/// left, and what comes next.
pub struct FdProgress {
    pub state: ForwardFd,
    pub sent: Seq<u8>,
    pub kept: Seq<u8>,
    pub action: Transfer<IOAction>,
}

/// What `forward_fd` makes of some turns, from its start on.
pub open spec fn fd_progress(buffer: Seq<u8>, turns: Seq<FdTurn>) -> FdProgress
    decreases turns.len(),
{
    if turns.len() == 0 {
        let (state, kept, action) = fd_next(ForwardFd::Reading { bytes_read: 0 }, buffer, None);
        FdProgress { state, sent: seq![], kept, action }
    } else {
        let before = fd_progress(buffer, turns.drop_last());
        let outcome = Some(turns.last().outcome);
        let all = before.kept + turns.last().read;
        let (state, kept, action) = fd_next(before.state, all, outcome);
        let sent = match before.state {
            ForwardFd::Reading { .. } => before.sent,
            ForwardFd::Writing { .. } => before.sent + all.take(taken(outcome) as int),
        };
        FdProgress { state, sent, kept, action }
    }
}

/// Whether a turn tells how a call went: a read brings as many bytes as it says, and a write takes
/// no more than there is.
pub open spec fn fd_answer(before: FdProgress, turn: FdTurn) -> bool {
    let count = taken(Some(turn.outcome));
    match before.action {
        Transfer::Read { .. } => turn.read.len() == count,
        Transfer::Write => {
            &&& turn.read.len() == 0
            &&& count <= before.kept.len()
        },
        Transfer::Finished(_) => false,
    }
}

/// Whether some turns are a run of `forward_fd`: each tells how the call before it went.
pub open spec fn is_fd_run(buffer: Seq<u8>, turns: Seq<FdTurn>) -> bool
    decreases turns.len(),
{
    turns.len() > 0 ==> {
        &&& is_fd_run(buffer, turns.drop_last())
        &&& fd_answer(fd_progress(buffer, turns.drop_last()), turns.last())
    }
}

/// What was read in some turns.
pub open spec fn received(turns: Seq<FdTurn>) -> Seq<u8>
    decreases turns.len(),
{
    if turns.len() == 0 {
        seq![]
    } else {
        received(turns.drop_last()) + turns.last().read
    }
}

/// However reads and writes go, what was written, followed by what is left, is the buffer followed
/// by what was read.  Where the moving is done, everything was written and the count is that of
/// the bytes; where it is to be tried again, a write had to wait and something is left.  Any other
/// failure is the end, with its error.
///
/// Reads come first, to the end of the buffer, for as long as it is not full and no read had to
/// wait; then there are only writes, for as long as something is left.
pub proof fn law_fd_in_order(buffer: Seq<u8>, turns: Seq<FdTurn>)
    requires
        is_fd_run(buffer, turns),
        buffer.len() + received(turns).len() <= usize::MAX,
    ensures
        ({
            let now = fd_progress(buffer, turns);
            &&& now.sent + now.kept == buffer + received(turns)
            &&& now.action matches Transfer::Finished(Ok(action)) ==> if action.try_again {
                &&& turns.len() > 0
                &&& fd_progress(buffer, turns.drop_last()).action is Write
                &&& turns.last().outcome == Err::<usize, i32>(EAGAIN)
                &&& now.kept.len() > 0
                &&& action.bytes_transferred == 0
            } else {
                &&& now.sent == buffer + received(turns)
                &&& action.bytes_transferred == now.sent.len()
            }
            &&& now.action matches Transfer::Read { at } ==> at == now.kept.len() && now.sent.len()
                == 0
            &&& turns.len() == 0 ==> (now.action is Read <==> buffer.len() <= 1024)
        }),
        turns.len() > 0 ==> {
            let before = fd_progress(buffer, turns.drop_last());
            let now = fd_progress(buffer, turns);
            let waits = turns.last().outcome == Err::<usize, i32>(EAGAIN);
            &&& turns.last().outcome is Err && !waits ==> now.action
                == Transfer::<IOAction>::Finished(Err(Error::Errno(turns.last().outcome->Err_0)))
            &&& before.action is Read && turns.last().outcome is Ok ==> (now.action is Read
                <==> now.kept.len() < 1024)
            &&& before.action is Read && waits ==> now.action !is Read
            &&& before.action is Write ==> now.action !is Read
            &&& now.action !is Read && (turns.last().outcome is Ok || (waits
                && before.action is Read)) ==> if now.kept.len() > 0 {
                now.action is Write
            } else {
                now.action matches Transfer::Finished(Ok(action)) && !action.try_again
            }
            &&& before.action is Write && waits ==> (now.action matches Transfer::Finished(
                Ok(action),
            ) && action.try_again)
        },
{
    lemma_fd_in_order(buffer, turns);
    if turns.len() > 0 {
        assert(received(turns).len() == received(turns.drop_last()).len()
            + turns.last().read.len());
        lemma_fd_in_order(buffer, turns.drop_last());
    }
}

proof fn lemma_fd_in_order(buffer: Seq<u8>, turns: Seq<FdTurn>)
    requires
        is_fd_run(buffer, turns),
        buffer.len() + received(turns).len() <= usize::MAX,
    ensures
        ({
            let now = fd_progress(buffer, turns);
            &&& now.sent + now.kept == buffer + received(turns)
            &&& now.action is Write ==> now.kept.len() > 0
            &&& now.action matches Transfer::Read { at } ==> at == now.kept.len()
            &&& match now.state {
                ForwardFd::Reading { .. } => now.sent.len() == 0 && !(now.action is Write) && !(
                now.action matches Transfer::Finished(Ok(_))),
                ForwardFd::Writing { written } => written == now.sent.len() && !(
                now.action is Read),
            }
            &&& now.action matches Transfer::Finished(Ok(action)) ==> if action.try_again {
                &&& turns.len() > 0
                &&& fd_progress(buffer, turns.drop_last()).action is Write
                &&& turns.last().outcome == Err::<usize, i32>(EAGAIN)
                &&& now.kept.len() > 0
                &&& action.bytes_transferred == 0
            } else {
                &&& now.sent == buffer + received(turns)
                &&& action.bytes_transferred == now.sent.len()
            }
        }),
    decreases turns.len(),
{
    let now = fd_progress(buffer, turns);
    let whole = buffer + received(turns);
    if turns.len() > 0 {
        let before = fd_progress(buffer, turns.drop_last());
        let turn = turns.last();
        let all = before.kept + turn.read;
        let gone = taken(Some(turn.outcome)) as int;
        assert(received(turns).len() == received(turns.drop_last()).len() + turn.read.len());
        lemma_fd_in_order(buffer, turns.drop_last());
        assert(whole =~= (buffer + received(turns.drop_last())) + turn.read);
        assert((before.sent + before.kept) + turn.read =~= before.sent + all);
        assert((before.sent + all).len() == whole.len());
        if before.state is Writing {
            assert(all.take(gone) + all.skip(gone) =~= all);
            assert(now.sent + now.kept =~= before.sent + (all.take(gone) + all.skip(gone)));
        }
    } else {
        assert(now.sent + now.kept =~= whole);
    }
    if now.kept.len() == 0 {
        assert(now.sent + now.kept =~= now.sent);
    }
}

/// Where the reading until the buffer is full stands: the buffer, how many bytes were counted, and
/// what comes next.
pub struct ReadProgress {
    pub buffer: Seq<u8>,
    pub bytes_read: usize,
    pub action: Transfer<IOAction>,
}

/// What `read_fd_until_full` makes of some turns, from its start on.
pub open spec fn read_progress(buffer: Seq<u8>, turns: Seq<FdTurn>) -> ReadProgress
    decreases turns.len(),
{
    if turns.len() == 0 {
        ReadProgress { buffer, bytes_read: 0, action: read_action(buffer, 0, None) }
    } else {
        let before = read_progress(buffer, turns.drop_last());
        let outcome = Some(turns.last().outcome);
        let all = before.buffer + turns.last().read;
        let bytes_read = (before.bytes_read + taken(outcome)) as usize;
        ReadProgress { buffer: all, bytes_read, action: read_action(all, bytes_read, outcome) }
    }
}

/// Whether some turns are a run of `read_fd_until_full`: there is one for each read that it asks
/// for, which brings as many bytes as it says.
pub open spec fn is_read_run(buffer: Seq<u8>, turns: Seq<FdTurn>) -> bool
    decreases turns.len(),
{
    turns.len() > 0 ==> {
        &&& is_read_run(buffer, turns.drop_last())
        &&& read_progress(buffer, turns.drop_last()).action is Read
        &&& turns.last().read.len() == taken(Some(turns.last().outcome))
    }
}

/// However the reads go, the buffer is what it was, followed by what was read, and the count is by
/// how much it grew.  Reading is done only where the buffer is full, and to be tried again only
/// where a read had to wait.  A read that failed otherwise is the end, with its error.
pub proof fn law_read_in_order(buffer: Seq<u8>, turns: Seq<FdTurn>)
    requires
        is_read_run(buffer, turns),
        received(turns).len() <= usize::MAX,
    ensures
        ({
            let now = read_progress(buffer, turns);
            &&& now.buffer == buffer + received(turns)
            &&& now.bytes_read == received(turns).len()
            &&& now.action matches Transfer::Finished(Ok(action)) ==> {
                &&& action.bytes_transferred == now.buffer.len() - buffer.len()
                &&& if action.try_again {
                    turns.len() > 0 && turns.last().outcome == Err::<usize, i32>(EAGAIN)
                } else {
                    now.buffer.len() >= BUFFER_SIZE
                }
            }
            &&& now.action !is Write
            &&& now.action matches Transfer::Read { at } ==> at == now.buffer.len()
            &&& turns.len() == 0 ==> (now.action is Read <==> buffer.len() <= 1024)
            &&& turns.len() > 0 && turns.last().outcome is Ok ==> (now.action is Read
                <==> now.buffer.len() < 1024)
            &&& turns.len() > 0 && turns.last().outcome is Err ==> if turns.last().outcome->Err_0
                == 11 {
                now.action matches Transfer::Finished(Ok(action)) && action.try_again
            } else {
                now.action == Transfer::<IOAction>::Finished(
                    Err(Error::Errno(turns.last().outcome->Err_0)),
                )
            }
        }),
    decreases turns.len(),
{
    let now = read_progress(buffer, turns);
    if turns.len() > 0 {
        assert(received(turns).len() == received(turns.drop_last()).len()
            + turns.last().read.len());
        law_read_in_order(buffer, turns.drop_last());
        assert(now.buffer =~= buffer + received(turns));
    } else {
        assert(now.buffer =~= buffer + received(turns));
    }
}

/// Where the writing of a list of pieces stands: its state, what was written, what is in the
/// buffer, and what comes next.
pub struct IterProgress {
    pub state: ForwardIter,
    pub sent: Seq<u8>,
    pub kept: Seq<u8>,
    pub action: Transfer<usize>,
}

/// What `forward_iter` makes of the outcomes of some writes, from its start on.
pub open spec fn iter_progress(
    buffer: Seq<u8>,
    pieces: Seq<Vec<u8>>,
    outcomes: Seq<Result<usize, i32>>,
) -> IterProgress
    decreases outcomes.len(),
{
    if outcomes.len() == 0 {
        let start = ForwardIter { written: 0, next: 0, flushing: true };
        let (state, kept, action) = iter_next(start, pieces, buffer, None);
        IterProgress { state, sent: seq![], kept, action }
    } else {
        let before = iter_progress(buffer, pieces, outcomes.drop_last());
        let wrote = Some(outcomes.last());
        let (state, kept, action) = iter_next(before.state, pieces, before.kept, wrote);
        let sent = before.sent + before.kept.take(taken(wrote) as int);
        IterProgress { state, sent, kept, action }
    }
}

/// Whether some outcomes are those of a run of `forward_iter`: there is one for each write that it
/// asks for, and no write takes more than there is.
pub open spec fn is_iter_run(
    buffer: Seq<u8>,
    pieces: Seq<Vec<u8>>,
    outcomes: Seq<Result<usize, i32>>,
) -> bool
    decreases outcomes.len(),
{
    outcomes.len() > 0 ==> {
        let before = iter_progress(buffer, pieces, outcomes.drop_last());
        &&& is_iter_run(buffer, pieces, outcomes.drop_last())
        &&& before.action is Write
        &&& taken(Some(outcomes.last())) <= before.kept.len()
    }
}

/// However the writes go, what was written, followed by what is left in the buffer, is the buffer
/// as it was, followed by the pieces that were taken; the count is that of the bytes written.  No
/// piece is taken before the buffer as it was is written out.  It goes on as long as something is
/// left; it succeeds exactly where nothing is, with all pieces taken and written, and fails exactly
/// where a write did, with its error.
pub proof fn law_pieces_in_order(
    buffer: Seq<u8>,
    pieces: Seq<Vec<u8>>,
    outcomes: Seq<Result<usize, i32>>,
)
    requires
        is_iter_run(buffer, pieces, outcomes),
        pieces.len() <= usize::MAX,
        buffer.len() + flat(pieces).len() <= usize::MAX,
    ensures
        ({
            let now = iter_progress(buffer, pieces, outcomes);
            &&& now.state.next <= pieces.len()
            &&& now.sent + now.kept == buffer + flat(pieces.take(now.state.next as int))
            &&& now.state.written == now.sent.len()
            &&& now.sent.len() < buffer.len() ==> now.state.next == 0
            &&& now.action matches Transfer::Finished(Ok(count)) ==> {
                &&& now.state.next == pieces.len()
                &&& now.kept.len() == 0
                &&& now.sent == buffer + flat(pieces)
                &&& count == now.sent.len()
            }
            &&& if outcomes.len() > 0 && outcomes.last() is Err {
                now.action == Transfer::<usize>::Finished(
                    Err(Error::Errno(outcomes.last()->Err_0)),
                )
            } else if now.kept.len() > 0 {
                now.action is Write
            } else {
                now.action matches Transfer::Finished(Ok(_))
            }
        }),
{
    lemma_pieces_in_order(buffer, pieces, outcomes);
    let now = iter_progress(buffer, pieces, outcomes);
    let next = now.state.next as int;
    lemma_flat_split(pieces, next);
    let taken_pieces = flat(pieces.take(next));
    let rest = flat(pieces.skip(next));
    assert((now.sent + now.kept) + rest =~= now.sent + pending(now.kept, pieces, next));
    assert(buffer + flat(pieces) =~= (buffer + taken_pieces) + rest);
    assert((now.sent + now.kept).len() == (buffer + taken_pieces).len());
    assert(now.sent + now.kept =~= ((now.sent + now.kept) + rest).take(
        (now.sent + now.kept).len() as int,
    ));
    assert(buffer + taken_pieces =~= ((buffer + taken_pieces) + rest).take(
        (buffer + taken_pieces).len() as int,
    ));
    if now.action matches Transfer::Finished(Ok(_)) {
        assert(pieces.take(next) =~= pieces);
        assert(now.sent + now.kept =~= now.sent);
    }
}

proof fn lemma_flat_split(pieces: Seq<Vec<u8>>, n: int)
    requires
        0 <= n <= pieces.len(),
    ensures
        flat(pieces) == flat(pieces.take(n)) + flat(pieces.skip(n)),
    decreases n,
{
    if n == 0 {
        assert(pieces.skip(0) =~= pieces);
        assert(flat(pieces.take(0)) + flat(pieces.skip(0)) =~= flat(pieces));
    } else {
        let rest = pieces.skip(1);
        lemma_flat_split(rest, n - 1);
        assert(rest.take(n - 1) =~= pieces.take(n).skip(1));
        assert(rest.skip(n - 1) =~= pieces.skip(n));
        assert(flat(pieces.take(n)) == pieces[0]@ + flat(rest.take(n - 1)));
        assert(flat(pieces) =~= flat(pieces.take(n)) + flat(pieces.skip(n)));
    }
}

/// What one step of writing pieces leaves.
proof fn lemma_iter_step(
    state: ForwardIter,
    pieces: Seq<Vec<u8>>,
    buffer: Seq<u8>,
    wrote: Option<Result<usize, i32>>,
)
    requires
        state.next <= pieces.len() <= usize::MAX,
        state.flushing,
        taken(wrote) <= buffer.len(),
    ensures
        ({
            let (after, kept, action) = iter_next(state, pieces, buffer, wrote);
            let next = after.next as int;
            &&& next <= pieces.len()
            &&& pending(kept, pieces, next) == pending(buffer, pieces, state.next as int).skip(
                taken(wrote) as int,
            )
            &&& taken(wrote) < buffer.len() ==> after.next == state.next && after.flushing
                && kept.len() == buffer.len() - taken(wrote)
            &&& action is Write ==> after.flushing
            &&& action matches Transfer::Finished(Ok(count)) ==> next == pieces.len() && kept.len()
                == 0 && count == after.written
            &&& after.written == (state.written + taken(wrote)) as usize
        }),
{
    let gone = taken(wrote) as int;
    let rest = buffer.skip(gone);
    let from = state.next as int;
    lemma_filled_pending(rest, pieces, from);
    assert(pending(buffer, pieces, from).skip(gone) =~= pending(rest, pieces, from));
    if gone == 0 {
        assert(rest =~= buffer);
    }
}

proof fn lemma_pieces_in_order(
    buffer: Seq<u8>,
    pieces: Seq<Vec<u8>>,
    outcomes: Seq<Result<usize, i32>>,
)
    requires
        is_iter_run(buffer, pieces, outcomes),
        pieces.len() <= usize::MAX,
        buffer.len() + flat(pieces).len() <= usize::MAX,
    ensures
        ({
            let now = iter_progress(buffer, pieces, outcomes);
            let next = now.state.next as int;
            &&& next <= pieces.len()
            &&& now.sent + pending(now.kept, pieces, next) == buffer + flat(pieces)
            &&& now.state.written == now.sent.len()
            &&& now.sent.len() < buffer.len() ==> next == 0 && now.state.flushing && now.kept.len()
                == buffer.len() - now.sent.len()
            &&& now.action is Write ==> now.state.flushing
            &&& now.action matches Transfer::Finished(Ok(count)) ==> {
                &&& next == pieces.len()
                &&& now.kept.len() == 0
                &&& count == now.sent.len()
            }
        }),
    decreases outcomes.len(),
{
    let now = iter_progress(buffer, pieces, outcomes);
    if outcomes.len() > 0 {
        let before = iter_progress(buffer, pieces, outcomes.drop_last());
        lemma_pieces_in_order(buffer, pieces, outcomes.drop_last());
        let wrote = Some(outcomes.last());
        let gone = taken(wrote) as int;
        let rest = before.kept.skip(gone);
        let next = before.state.next as int;
        lemma_iter_step(before.state, pieces, before.kept, wrote);
        assert((before.sent + pending(before.kept, pieces, next)).len() == (buffer + flat(
            pieces,
        )).len());
        assert(before.sent + pending(before.kept, pieces, next) =~= now.sent + pending(
            before.kept,
            pieces,
            next,
        ).skip(gone));
    } else {
        let start = ForwardIter { written: 0, next: 0, flushing: true };
        lemma_iter_step(start, pieces, buffer, None);
        assert(pieces.skip(0) =~= pieces);
        assert(pending(buffer, pieces, 0).skip(0) =~= buffer + flat(pieces));
        assert(buffer.skip(0) =~= buffer);
        let left = pending(now.kept, pieces, now.state.next as int);
        assert(now.sent + left =~= left);
    }
}

} // verus!
