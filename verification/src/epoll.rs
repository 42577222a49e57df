//! The calls by which the kernel is told what to watch.
use vstd::prelude::*;

verus! {

/// The number of an open file.
pub type RawFd = i32;

/// What an `epoll_ctl` call does with a descriptor.
#[derive(Debug, PartialEq, Eq, Structural, Copy, Clone)]
pub enum EpollOp {
    EpollCtlAdd,
    EpollCtlDel,
    EpollCtlMod,
}

/// What the kernel watches a descriptor for, and the number that it hands back when one of
/// these things happens.
#[derive(Debug, PartialEq, Eq, Structural, Copy, Clone)]
pub struct EpollEvent {
    pub flags: i32,
    pub data: u64,
}

/// One `epoll_ctl` call.
#[derive(Debug, PartialEq, Eq, Structural, Copy, Clone)]
pub struct EpollCtl {
    pub epfd: RawFd,
    pub op: EpollOp,
    pub fd: RawFd,
    pub event: Option<EpollEvent>,
}

/// The descriptor that the data of an event stands for.
pub open spec fn fd_of(data: u64) -> RawFd {
    data as i32
}

/// The descriptor that the data of an event stands for.
pub fn event_fd(data: u64) -> (fd: RawFd)
    ensures
        fd == fd_of(data),
{
    #[verifier::truncate]
    (data as i32)
}

/// A descriptor that was given as the data of an event is found again.
pub proof fn law_fd_round_trip(fd: RawFd)
    ensures
        fd_of(fd as u64) == fd,
{
    assert((fd as u64) as i32 == fd) by (bit_vector);
}

/// The descriptor of an event is told by the lower half of its data alone, and by all of it.
pub proof fn law_fd_low_bits(data: u64, other: u64)
    ensures
        fd_of(data) as u32 == data as u32,
        fd_of(data) == fd_of(other) <==> data & 0xffff_ffff == other & 0xffff_ffff,
{
    assert((data as i32) as u32 == data as u32) by (bit_vector);
    assert(data as i32 == other as i32 <==> data & 0xffff_ffff == other & 0xffff_ffff)
        by (bit_vector);
}

/// What the kernel watches, by descriptor.
pub type Watched = Map<RawFd, EpollEvent>;

/// Whether the kernel accepts a call: a descriptor is added once, and only what was added is
/// changed or deleted.
pub open spec fn accepts(watched: Watched, call: EpollCtl) -> bool {
    match call.op {
        EpollOp::EpollCtlAdd => !watched.contains_key(call.fd) && call.event is Some,
        EpollOp::EpollCtlMod => watched.contains_key(call.fd) && call.event is Some,
        EpollOp::EpollCtlDel => watched.contains_key(call.fd),
    }
}

/// What the kernel watches after it accepted a call.
pub open spec fn watched_after(watched: Watched, call: EpollCtl) -> Watched {
    match call.op {
        EpollOp::EpollCtlDel => watched.remove(call.fd),
        _ => watched.insert(call.fd, call.event->0),
    }
}

} // verus!
