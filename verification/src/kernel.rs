//! Numbers that the kernel's interface fixes, as `nix` and `libc` give them.
//!
//! Everything here that is not a constant is taken on trust: each function reads one constant
//! of an outside crate and claims the value it has on Linux.
use vstd::prelude::*;

verus! {

/// A descriptor can be read from.
pub const EPOLLIN: i32 = 0x1;

/// A descriptor can be written to.
pub const EPOLLOUT: i32 = 0x4;

/// Reads `nix::sys::epoll::EpollFlags::EPOLLIN`; claims that it is `EPOLLIN`.
#[verifier::external_body]
pub(crate) fn epollin() -> (bits: i32)
    ensures
        bits == EPOLLIN,
{
    nix::sys::epoll::EpollFlags::EPOLLIN.bits()
}

/// Reads `nix::sys::epoll::EpollFlags::EPOLLOUT`; claims that it is `EPOLLOUT`.
#[verifier::external_body]
pub(crate) fn epollout() -> (bits: i32)
    ensures
        bits == EPOLLOUT,
{
    nix::sys::epoll::EpollFlags::EPOLLOUT.bits()
}

/// A call was interrupted by a signal.
pub const EINTR: i32 = 4;

/// A call would have had to wait.
pub const EAGAIN: i32 = 11;

/// The entry exists already.
pub const EEXIST: i32 = 17;

/// Reads `nix::errno::Errno::EINTR`; claims that it is `EINTR`.
#[verifier::external_body]
pub(crate) fn eintr() -> (bits: i32)
    ensures
        bits == EINTR,
{
    nix::errno::Errno::EINTR as i32
}

/// Reads `nix::errno::Errno::EAGAIN`; claims that it is `EAGAIN`.
#[verifier::external_body]
pub(crate) fn eagain() -> (bits: i32)
    ensures
        bits == EAGAIN,
{
    nix::errno::Errno::EAGAIN as i32
}

/// Reads `nix::errno::Errno::EEXIST`; claims that it is `EEXIST`.
#[verifier::external_body]
pub(crate) fn eexist() -> (bits: i32)
    ensures
        bits == EEXIST,
{
    nix::errno::Errno::EEXIST as i32
}

/// The descriptor of the standard input.
pub const STDIN_FILENO: i32 = 0;

/// The descriptor of the standard output.
pub const STDOUT_FILENO: i32 = 1;

/// The descriptor of the standard error output.
pub const STDERR_FILENO: i32 = 2;

/// Reads `libc::STDIN_FILENO`; claims that it is `STDIN_FILENO`.
#[verifier::external_body]
pub(crate) fn stdin_fileno() -> (fd: i32)
    ensures
        fd == STDIN_FILENO,
{
    libc::STDIN_FILENO
}

/// Reads `libc::STDOUT_FILENO`; claims that it is `STDOUT_FILENO`.
#[verifier::external_body]
pub(crate) fn stdout_fileno() -> (fd: i32)
    ensures
        fd == STDOUT_FILENO,
{
    libc::STDOUT_FILENO
}

/// Reads `libc::STDERR_FILENO`; claims that it is `STDERR_FILENO`.
#[verifier::external_body]
pub(crate) fn stderr_fileno() -> (fd: i32)
    ensures
        fd == STDERR_FILENO,
{
    libc::STDERR_FILENO
}

/// Mount read-only.
pub const MS_RDONLY: u64 = 0x1;

/// Ignore set-user-id and set-group-id bits.
pub const MS_NOSUID: u64 = 0x2;

/// Disallow access to device files.
pub const MS_NODEV: u64 = 0x4;

/// Disallow program execution.
pub const MS_NOEXEC: u64 = 0x8;

/// Show a directory at another place.
pub const MS_BIND: u64 = 0x1000;

/// Apply to the whole subtree.
pub const MS_REC: u64 = 0x4000;

/// Keep the kernel log quiet.
pub const MS_SILENT: u64 = 0x8000;

/// Keep mount events to this subtree.
pub const MS_PRIVATE: u64 = 0x40000;

/// Reads `nix::mount::MsFlags::MS_RDONLY`; claims that it is `MS_RDONLY`.
#[verifier::external_body]
pub(crate) fn ms_rdonly() -> (bits: u64)
    ensures
        bits == MS_RDONLY,
{
    nix::mount::MsFlags::MS_RDONLY.bits() as u64
}

/// Reads `nix::mount::MsFlags::MS_NOSUID`; claims that it is `MS_NOSUID`.
#[verifier::external_body]
pub(crate) fn ms_nosuid() -> (bits: u64)
    ensures
        bits == MS_NOSUID,
{
    nix::mount::MsFlags::MS_NOSUID.bits() as u64
}

/// Reads `nix::mount::MsFlags::MS_NODEV`; claims that it is `MS_NODEV`.
#[verifier::external_body]
pub(crate) fn ms_nodev() -> (bits: u64)
    ensures
        bits == MS_NODEV,
{
    nix::mount::MsFlags::MS_NODEV.bits() as u64
}

/// Reads `nix::mount::MsFlags::MS_NOEXEC`; claims that it is `MS_NOEXEC`.
#[verifier::external_body]
pub(crate) fn ms_noexec() -> (bits: u64)
    ensures
        bits == MS_NOEXEC,
{
    nix::mount::MsFlags::MS_NOEXEC.bits() as u64
}

/// Reads `nix::mount::MsFlags::MS_BIND`; claims that it is `MS_BIND`.
#[verifier::external_body]
pub(crate) fn ms_bind() -> (bits: u64)
    ensures
        bits == MS_BIND,
{
    nix::mount::MsFlags::MS_BIND.bits() as u64
}

/// Reads `nix::mount::MsFlags::MS_REC`; claims that it is `MS_REC`.
#[verifier::external_body]
pub(crate) fn ms_rec() -> (bits: u64)
    ensures
        bits == MS_REC,
{
    nix::mount::MsFlags::MS_REC.bits() as u64
}

/// Reads `nix::mount::MsFlags::MS_SILENT`; claims that it is `MS_SILENT`.
#[verifier::external_body]
pub(crate) fn ms_silent() -> (bits: u64)
    ensures
        bits == MS_SILENT,
{
    nix::mount::MsFlags::MS_SILENT.bits() as u64
}

/// Reads `nix::mount::MsFlags::MS_PRIVATE`; claims that it is `MS_PRIVATE`.
#[verifier::external_body]
pub(crate) fn ms_private() -> (bits: u64)
    ensures
        bits == MS_PRIVATE,
{
    nix::mount::MsFlags::MS_PRIVATE.bits() as u64
}

/// Detach at once, clean up when no longer busy.
pub const MNT_DETACH: i32 = 0x2;

/// Reads `nix::mount::MntFlags::MNT_DETACH`; claims that it is `MNT_DETACH`.
#[verifier::external_body]
pub(crate) fn mnt_detach() -> (bits: i32)
    ensures
        bits == MNT_DETACH,
{
    nix::mount::MntFlags::MNT_DETACH.bits()
}

/// Reads `libc::MNT_DETACH`; claims that it is `MNT_DETACH`.
#[verifier::external_body]
pub(crate) fn libc_mnt_detach() -> (bits: i32)
    ensures
        bits == MNT_DETACH,
{
    libc::MNT_DETACH
}

/// A mount namespace.
pub const CLONE_NEWNS: i32 = 0x20000;

/// A host name namespace.
pub const CLONE_NEWUTS: i32 = 0x4000000;

/// A namespace of System V IPC objects and message queues.
pub const CLONE_NEWIPC: i32 = 0x8000000;

/// A user namespace.
pub const CLONE_NEWUSER: i32 = 0x10000000;

/// A process id namespace.
pub const CLONE_NEWPID: i32 = 0x20000000;

/// A network namespace.
pub const CLONE_NEWNET: i32 = 0x40000000;

/// Reads `nix::sched::CloneFlags::CLONE_NEWNS`; claims that it is `CLONE_NEWNS`.
#[verifier::external_body]
pub(crate) fn clone_newns() -> (bits: i32)
    ensures
        bits == CLONE_NEWNS,
{
    nix::sched::CloneFlags::CLONE_NEWNS.bits()
}

/// Reads `nix::sched::CloneFlags::CLONE_NEWUTS`; claims that it is `CLONE_NEWUTS`.
#[verifier::external_body]
pub(crate) fn clone_newuts() -> (bits: i32)
    ensures
        bits == CLONE_NEWUTS,
{
    nix::sched::CloneFlags::CLONE_NEWUTS.bits()
}

/// Reads `nix::sched::CloneFlags::CLONE_NEWIPC`; claims that it is `CLONE_NEWIPC`.
#[verifier::external_body]
pub(crate) fn clone_newipc() -> (bits: i32)
    ensures
        bits == CLONE_NEWIPC,
{
    nix::sched::CloneFlags::CLONE_NEWIPC.bits()
}

/// Reads `nix::sched::CloneFlags::CLONE_NEWUSER`; claims that it is `CLONE_NEWUSER`.
#[verifier::external_body]
pub(crate) fn clone_newuser() -> (bits: i32)
    ensures
        bits == CLONE_NEWUSER,
{
    nix::sched::CloneFlags::CLONE_NEWUSER.bits()
}

/// Reads `nix::sched::CloneFlags::CLONE_NEWPID`; claims that it is `CLONE_NEWPID`.
#[verifier::external_body]
pub(crate) fn clone_newpid() -> (bits: i32)
    ensures
        bits == CLONE_NEWPID,
{
    nix::sched::CloneFlags::CLONE_NEWPID.bits()
}

/// Reads `nix::sched::CloneFlags::CLONE_NEWNET`; claims that it is `CLONE_NEWNET`.
#[verifier::external_body]
pub(crate) fn clone_newnet() -> (bits: i32)
    ensures
        bits == CLONE_NEWNET,
{
    nix::sched::CloneFlags::CLONE_NEWNET.bits()
}

/// Reads `libc::CLONE_NEWNS`; claims that it is `CLONE_NEWNS`.
#[verifier::external_body]
pub(crate) fn libc_clone_newns() -> (bits: i32)
    ensures
        bits == CLONE_NEWNS,
{
    libc::CLONE_NEWNS
}

/// Reads `libc::CLONE_NEWUTS`; claims that it is `CLONE_NEWUTS`.
#[verifier::external_body]
pub(crate) fn libc_clone_newuts() -> (bits: i32)
    ensures
        bits == CLONE_NEWUTS,
{
    libc::CLONE_NEWUTS
}

/// Reads `libc::CLONE_NEWIPC`; claims that it is `CLONE_NEWIPC`.
#[verifier::external_body]
pub(crate) fn libc_clone_newipc() -> (bits: i32)
    ensures
        bits == CLONE_NEWIPC,
{
    libc::CLONE_NEWIPC
}

/// Reads `libc::CLONE_NEWUSER`; claims that it is `CLONE_NEWUSER`.
#[verifier::external_body]
pub(crate) fn libc_clone_newuser() -> (bits: i32)
    ensures
        bits == CLONE_NEWUSER,
{
    libc::CLONE_NEWUSER
}

/// Reads `libc::CLONE_NEWPID`; claims that it is `CLONE_NEWPID`.
#[verifier::external_body]
pub(crate) fn libc_clone_newpid() -> (bits: i32)
    ensures
        bits == CLONE_NEWPID,
{
    libc::CLONE_NEWPID
}

/// Reads `libc::CLONE_NEWNET`; claims that it is `CLONE_NEWNET`.
#[verifier::external_body]
pub(crate) fn libc_clone_newnet() -> (bits: i32)
    ensures
        bits == CLONE_NEWNET,
{
    libc::CLONE_NEWNET
}

} // verus!
