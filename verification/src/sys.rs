//! Readiness events as the runtime asks the operating system for them, and
//! their encoding in the flags of `epoll`.
use vstd::prelude::*;

verus! {

/// Interest in, or readiness of, a registered source, under its key.
#[derive(Debug, PartialEq, Eq, Clone, Copy)]
pub struct Event {
    pub key: usize,
    pub readable: bool,
    pub writable: bool,
}

impl Event {
    /// No interest, under `key`.
    pub fn none(key: usize) -> (e: Event)
        ensures
            e == (Event { key: key, readable: false, writable: false }),
    {
        Event { key, readable: false, writable: false }
    }
}

impl Default for Event {
    fn default() -> (e: Event)
        ensures
            e == (Event { key: 0, readable: false, writable: false }),
    {
        Event { key: 0, readable: false, writable: false }
    }
}

/// Reads `libc::EPOLLIN`: 0x1.
#[verifier::external_body]
fn epoll_in() -> (flag: u32)
    ensures
        flag == 0x1,
{
    libc::EPOLLIN as u32
}

/// Reads `libc::EPOLLPRI`: 0x2.
#[verifier::external_body]
fn epoll_pri() -> (flag: u32)
    ensures
        flag == 0x2,
{
    libc::EPOLLPRI as u32
}

/// Reads `libc::EPOLLOUT`: 0x4.
#[verifier::external_body]
fn epoll_out() -> (flag: u32)
    ensures
        flag == 0x4,
{
    libc::EPOLLOUT as u32
}

/// Reads `libc::EPOLLRDHUP`: 0x2000.
#[verifier::external_body]
fn epoll_rdhup() -> (flag: u32)
    ensures
        flag == 0x2000,
{
    libc::EPOLLRDHUP as u32
}

/// Reads `libc::EPOLLONESHOT`: 0x4000_0000.
#[verifier::external_body]
fn epoll_oneshot() -> (flag: u32)
    ensures
        flag == 0x4000_0000,
{
    libc::EPOLLONESHOT as u32
}

/// Reads `libc::EINPROGRESS`, the error code of a connection in progress.
/// Its value depends on the target, so nothing is stated of it.
#[verifier::external_body]
fn einprogress() -> i32 {
    libc::EINPROGRESS
}

/// Whether a non-blocking `connect` went well, given the error code that
/// means "in progress": it completed, or it is in progress, or it would
/// block; any other error fails it.
pub fn connect_accepted(in_progress: i32, completed: bool, raw_os_error: Option<i32>, would_block: bool) -> (ok: bool)
    ensures
        ok == (completed || raw_os_error == Some(in_progress) || would_block),
{
    if completed {
        return true;
    }
    match raw_os_error {
        Some(code) => {
            if code == in_progress {
                return true;
            }
        },
        None => {},
    }
    would_block
}

/// Whether a non-blocking `connect` went well on this target: it completed,
/// or it is in progress (`EINPROGRESS`, one error code whose value the target
/// decides), or it would block; any other error fails it.
pub fn connect_started(completed: bool, raw_os_error: Option<i32>, would_block: bool) -> (ok: bool)
    ensures
        exists|code: i32| ok == (completed || raw_os_error == Some(code) || would_block),
        completed || would_block ==> ok,
        !completed && !would_block && raw_os_error is None ==> !ok,
{
    let in_progress = einprogress();
    let ok = connect_accepted(in_progress, completed, raw_os_error, would_block);
    assert(ok == (completed || raw_os_error == Some(in_progress) || would_block));
    ok
}

/// The `epoll` flags that register interest in `event`: always one-shot,
/// reading (with hang-up of the peer) when readable, writing when writable.
pub open spec fn epoll_flags_of(event: Event) -> u32 {
    epoll_flags_for(event.readable, event.writable)
}

/// The `epoll` flags for interest in reading and in writing.
pub open spec fn epoll_flags_for(readable: bool, writable: bool) -> u32 {
    (0x4000_0000u32 | (if readable { 0x1u32 | 0x2000u32 } else { 0u32 }) | (if writable {
        0x4u32
    } else {
        0u32
    }))
}

/// Encodes the interest of `event` as `epoll` flags.
pub fn epoll_flags(event: &Event) -> (flags: u32)
    ensures
        flags == epoll_flags_of(*event),
{
    let mut flags = epoll_oneshot();
    if event.readable {
        flags = flags | epoll_in() | epoll_rdhup();
    }
    if event.writable {
        flags = flags | epoll_out();
    }
    proof {
        let r = event.readable;
        let w = event.writable;
        assert(flags == epoll_flags_for(r, w)) by (bit_vector)
            requires
                r && w ==> flags == ((0x4000_0000u32 | 0x1u32) | 0x2000u32) | 0x4u32,
                r && !w ==> flags == (0x4000_0000u32 | 0x1u32) | 0x2000u32,
                !r && w ==> flags == 0x4000_0000u32 | 0x4u32,
                !r && !w ==> flags == 0x4000_0000u32,
        ;
    }
    flags
}

/// Decodes what `epoll` reported for a source: readable on input or urgent
/// data, writable on output; the key is the data word.
pub fn event_from_epoll(events: u32, data: u64) -> (e: Event)
    ensures
        e == (Event {
            key: data as usize,
            readable: events & 0x3 != 0,
            writable: events & 0x4 != 0,
        }),
{
    let readable = events & (epoll_in() | epoll_pri()) != 0;
    let writable = events & epoll_out() != 0;
    assert((0x1u32 | 0x2u32) == 0x3u32) by (bit_vector);
    Event { key: data as usize, readable, writable }
}

/// Registering interest and decoding readiness agree: the interest flags,
/// read back, give the same directions.
pub proof fn law_flags_round_trip(event: Event)
    ensures
        (epoll_flags_of(event) & 0x3 != 0) == event.readable,
        (epoll_flags_of(event) & 0x4 != 0) == event.writable,
{
    let r = event.readable;
    let w = event.writable;
    assert((epoll_flags_for(r, w) & 0x3 != 0) == r && (epoll_flags_for(r, w) & 0x4 != 0) == w) by (bit_vector);
}

} // verus!
