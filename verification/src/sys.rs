//! What the library takes from the operating system's C library: the numbers of the error codes,
//! of the epoll operations and of the file flags of Linux.
//!
//! What is stated of these numbers holds where the target is Linux, on every architecture, and only
//! there: other systems have other numbers.
use vstd::prelude::*;

verus! {

/// The error code of an operation that would have to wait.
pub const AGAIN: i32 = 11;

/// The epoll operation that adds a file descriptor.
pub const CTL_ADD: i32 = 1;

/// The epoll operation that takes a file descriptor out.
pub const CTL_DEL: i32 = 2;

/// The epoll operation that changes what a file descriptor is watched for.
pub const CTL_MOD: i32 = 3;

/// The epoll event of a file descriptor that can be read.
pub const READABLE: u32 = 1;

/// The epoll event of a file descriptor that can be written.
pub const WRITABLE: u32 = 4;

/// `libc::EAGAIN`. On Linux targets it is 11, on every architecture.
#[verifier::external_body]
fn eagain() -> (code: i32)
    ensures
        code == AGAIN,
{
    libc::EAGAIN
}

/// `libc::EWOULDBLOCK`. On Linux targets it is the same as `libc::EAGAIN`.
#[verifier::external_body]
fn ewouldblock() -> (code: i32)
    ensures
        code == AGAIN,
{
    libc::EWOULDBLOCK
}

/// `libc::EPOLL_CTL_ADD`. On Linux targets it is 1.
#[verifier::external_body]
pub(crate) fn epoll_ctl_add() -> (op: i32)
    ensures
        op == CTL_ADD,
{
    libc::EPOLL_CTL_ADD
}

/// `libc::EPOLL_CTL_MOD`. On Linux targets it is 3.
#[verifier::external_body]
pub(crate) fn epoll_ctl_mod() -> (op: i32)
    ensures
        op == CTL_MOD,
{
    libc::EPOLL_CTL_MOD
}

/// `libc::EPOLL_CTL_DEL`. On Linux targets it is 2.
#[verifier::external_body]
pub(crate) fn epoll_ctl_del() -> (op: i32)
    ensures
        op == CTL_DEL,
{
    libc::EPOLL_CTL_DEL
}

/// `libc::EPOLLIN`. On Linux targets it is 1.
#[verifier::external_body]
pub(crate) fn epollin() -> (events: u32)
    ensures
        events == READABLE,
{
    libc::EPOLLIN as u32
}

/// `libc::EPOLLOUT`. On Linux targets it is 4.
#[verifier::external_body]
pub(crate) fn epollout() -> (events: u32)
    ensures
        events == WRITABLE,
{
    libc::EPOLLOUT as u32
}

/// `libc::O_NONBLOCK`. Its number depends on the architecture: on Linux targets it is one of three.
/// Which one it is on the machine at hand is not stated.
#[verifier::external_body]
fn o_nonblock() -> (flag: i32)
    ensures
        is_nonblock(flag),
{
    libc::O_NONBLOCK
}

/// The numbers that the flag of non-blocking files has on the architectures of Linux.
pub open spec fn is_nonblock(flag: i32) -> bool {
    flag == 0x80 || flag == 0x800 || flag == 0x4000
}

/// Whether `flag` is a number that the C library can give for the flag of non-blocking files on
/// this machine: a result of asking it.
pub closed spec fn is_o_nonblock(flag: i32) -> bool {
    call_ensures(o_nonblock, (), flag)
}

/// Whether `err` is the error of an operation that would have to wait.
pub fn would_block(err: i32) -> (waits: bool)
    ensures
        waits == (err == AGAIN),
{
    err == eagain() || err == ewouldblock()
}

/// `flags` with `flag` set as well.
pub fn with_flag(flags: i32, flag: i32) -> (new: i32)
    ensures
        new == flags | flag,
{
    flags | flag
}

/// The file flags `flags` with the flag of non-blocking files set as well, which is the one that
/// the C library gives for this machine.
pub fn make_nonblocking(flags: i32) -> (new: i32)
    ensures
        exists|flag: i32|
            #[trigger] is_nonblock(flag) && is_o_nonblock(flag) && new == flags | flag,
{
    let flag = o_nonblock();
    assert(is_o_nonblock(flag));
    with_flag(flags, flag)
}

/// A flag that is set stays set, whatever flags are set, and setting it again changes nothing.
pub proof fn law_flag_is_set_once(flags: i32, flag: i32)
    ensures
        (flags | flag) & flag == flag,
        (flags | flag) & flags == flags,
        (flags | flag) | flag == flags | flag,
{
    assert((flags | flag) & flag == flag) by (bit_vector);
    assert((flags | flag) & flags == flags) by (bit_vector);
    assert((flags | flag) | flag == flags | flag) by (bit_vector);
}

} // verus!
