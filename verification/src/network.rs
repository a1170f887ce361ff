//! The kernel's socket diagnosis protocol, as far as it tells what the TCP
//! sockets of this machine carried.
//!
//! Numbers in its messages have the byte order of the machine: the functions
//! here are told whether that is the big-endian one.

use vstd::prelude::*;
use crate::resources::NetworkCounters;
use crate::table::Table;

verus! {

pub const SOCK_DIAG_BY_FAMILY: u16 = 20;

/// A request for a full listing.
pub const REQUEST_DUMP: u16 = 0x301;

pub const NLMSG_ERROR: u16 = 2;

pub const NLMSG_DONE: u16 = 3;

pub const INET_DIAG_INFO: u16 = 2;

pub const NETLINK_HEADER_LENGTH: usize = 16;

pub const INET_DIAG_MESSAGE_LENGTH: usize = 72;

pub const TCP_INFO_BYTES_ACKED_OFFSET: usize = 120;

pub const TCP_INFO_BYTES_RECEIVED_OFFSET: usize = 128;

pub const TCP_INFO_COUNTERS_LENGTH: usize = 136;

/// The number in two bytes.
#[verifier::opaque]
pub open spec fn u16_in(bytes: Seq<u8>, at: int, big: bool) -> u16 {
    if big {
        (256 * bytes[at] + bytes[at + 1]) as u16
    } else {
        (bytes[at] + 256 * bytes[at + 1]) as u16
    }
}

/// The number in four bytes.
#[verifier::opaque]
pub open spec fn u32_in(bytes: Seq<u8>, at: int, big: bool) -> u32 {
    if big {
        (65536 * u16_in(bytes, at, big) + u16_in(bytes, at + 2, big)) as u32
    } else {
        (u16_in(bytes, at, big) + 65536 * u16_in(bytes, at + 2, big)) as u32
    }
}

/// The number in eight bytes.
#[verifier::opaque]
pub open spec fn u64_in(bytes: Seq<u8>, at: int, big: bool) -> u64 {
    if big {
        (0x1_0000_0000 * u32_in(bytes, at, big) + u32_in(bytes, at + 4, big)) as u64
    } else {
        (u32_in(bytes, at, big) + 0x1_0000_0000 * u32_in(bytes, at + 4, big)) as u64
    }
}

pub open spec fn u16_bytes(value: u16, big: bool) -> Seq<u8> {
    if big {
        seq![(value / 256) as u8, (value % 256) as u8]
    } else {
        seq![(value % 256) as u8, (value / 256) as u8]
    }
}

pub open spec fn u32_bytes(value: u32, big: bool) -> Seq<u8> {
    if big {
        u16_bytes((value / 65536) as u16, big) + u16_bytes((value % 65536) as u16, big)
    } else {
        u16_bytes((value % 65536) as u16, big) + u16_bytes((value / 65536) as u16, big)
    }
}

pub open spec fn zeros(n: nat) -> Seq<u8> {
    Seq::new(n, |i: int| 0u8)
}

/// What is written as bytes reads back as the same number.
pub proof fn lemma_bytes_read_back(value: u32, big: bool)
    ensures
        u32_bytes(value, big).len() == 4,
        u32_in(u32_bytes(value, big), 0, big) == value,
{
    reveal(u16_in);
    reveal(u32_in);
    let bytes = u32_bytes(value, big);
    let high = (value / 65536) as u16;
    let low = (value % 65536) as u16;
    assert(256 * (high / 256) + high % 256 == high);
    assert(256 * (low / 256) + low % 256 == low);
    if big {
        assert(u16_in(bytes, 0, big) == high);
        assert(u16_in(bytes, 2, big) == low);
    } else {
        assert(u16_in(bytes, 0, big) == low);
        assert(u16_in(bytes, 2, big) == high);
    }
}

pub fn read_u16(bytes: &[u8], at: usize, big: bool) -> (value: u16)
    requires
        at + 2 <= bytes@.len(),
    ensures
        value == u16_in(bytes@, at as int, big),
{
    reveal(u16_in);
    if big {
        256 * bytes[at] as u16 + bytes[at + 1] as u16
    } else {
        bytes[at] as u16 + 256 * bytes[at + 1] as u16
    }
}

pub fn read_u32(bytes: &[u8], at: usize, big: bool) -> (value: u32)
    requires
        at + 4 <= bytes@.len(),
    ensures
        value == u32_in(bytes@, at as int, big),
{
    let length = bytes.len();
    assert(at + 4 <= length);
    reveal(u32_in);
    let first = read_u16(bytes, at, big) as u32;
    let second = read_u16(bytes, at + 2, big) as u32;
    if big {
        65536 * first + second
    } else {
        first + 65536 * second
    }
}

pub fn read_u64(bytes: &[u8], at: usize, big: bool) -> (value: u64)
    requires
        at + 8 <= bytes@.len(),
    ensures
        value == u64_in(bytes@, at as int, big),
{
    let length = bytes.len();
    assert(at + 8 <= length);
    reveal(u64_in);
    let first = read_u32(bytes, at, big) as u64;
    let second = read_u32(bytes, at + 4, big) as u64;
    if big {
        0x1_0000_0000 * first + second
    } else {
        first + 0x1_0000_0000 * second
    }
}

fn push_u16(bytes: &mut Vec<u8>, value: u16, big: bool)
    ensures
        final(bytes)@ == old(bytes)@ + u16_bytes(value, big),
{
    let high = (value / 256) as u8;
    let low = (value % 256) as u8;
    if big {
        bytes.push(high);
        bytes.push(low);
    } else {
        bytes.push(low);
        bytes.push(high);
    }
    assert(bytes@ =~= old(bytes)@ + u16_bytes(value, big));
}

fn push_u32(bytes: &mut Vec<u8>, value: u32, big: bool)
    ensures
        final(bytes)@ == old(bytes)@ + u32_bytes(value, big),
{
    let high = (value / 65536) as u16;
    let low = (value % 65536) as u16;
    if big {
        push_u16(bytes, high, big);
        push_u16(bytes, low, big);
    } else {
        push_u16(bytes, low, big);
        push_u16(bytes, high, big);
    }
    assert(bytes@ =~= old(bytes)@ + u32_bytes(value, big));
}

fn push_zeros(bytes: &mut Vec<u8>, n: usize)
    ensures
        final(bytes)@ == old(bytes)@ + zeros(n as nat),
{
    let ghost before = bytes@;
    for i in 0..n
        invariant
            bytes@ == before + zeros(i as nat),
    {
        bytes.push(0);
        assert(bytes@ =~= before + zeros((i + 1) as nat));
    }
}

/// The request for all sockets of an address family: a netlink header and the
/// description of what is wanted. All bits of the states are set, so every
/// state is asked for, and all bits of the cookie, which asks for no particular
/// socket.
pub open spec fn request_bytes(family: u8, protocol: u8, sequence: u32, big: bool) -> Seq<u8> {
    u32_bytes(72, big) + u16_bytes(SOCK_DIAG_BY_FAMILY, big) + u16_bytes(REQUEST_DUMP, big)
        + u32_bytes(sequence, big) + zeros(4) + seq![family, protocol, 2, 0] + u32_bytes(
        u32::MAX,
        big,
    ) + zeros(40) + u32_bytes(u32::MAX, big) + u32_bytes(u32::MAX, big)
}

pub fn diag_request(family: u8, protocol: u8, sequence: u32, big: bool) -> (request: Vec<u8>)
    ensures
        request@ == request_bytes(family, protocol, sequence, big),
        request@.len() == 72,
{
    let mut request: Vec<u8> = Vec::new();
    push_u32(&mut request, 72, big);
    push_u16(&mut request, SOCK_DIAG_BY_FAMILY, big);
    push_u16(&mut request, REQUEST_DUMP, big);
    push_u32(&mut request, sequence, big);
    push_zeros(&mut request, 4);
    let ghost header = request@;
    request.push(family);
    request.push(protocol);
    request.push(2);
    request.push(0);
    assert(request@ =~= header + seq![family, protocol, 2, 0]);
    push_u32(&mut request, u32::MAX, big);
    push_zeros(&mut request, 40);
    push_u32(&mut request, u32::MAX, big);
    push_u32(&mut request, u32::MAX, big);
    assert(request@ =~= request_bytes(family, protocol, sequence, big));
    request
}

/// The next multiple of four.
pub open spec fn aligned(n: int) -> int {
    (n + 3) / 4 * 4
}

/// The TCP counters among the attributes of a message, which start at `at`.
pub open spec fn tcp_counters(message: Seq<u8>, at: int, big: bool) -> Option<NetworkCounters>
    decreases
            (if at <= message.len() {
                message.len() - at + 1
            } else {
                0
            }),
{
    let length = u16_in(message, at, big) as int;
    if at < 0 || at + 4 > message.len() || length < 4 || at + length > message.len() {
        None
    } else if u16_in(message, at + 2, big) == INET_DIAG_INFO && length - 4
        >= TCP_INFO_COUNTERS_LENGTH {
        Some(
            NetworkCounters {
                received_bytes: u64_in(
                    message,
                    at + 4 + TCP_INFO_BYTES_RECEIVED_OFFSET as int,
                    big,
                ),
                transmitted_bytes: u64_in(
                    message,
                    at + 4 + TCP_INFO_BYTES_ACKED_OFFSET as int,
                    big,
                ),
            },
        )
    } else {
        tcp_counters(message, at + aligned(length), big)
    }
}

/// The counters known after a message about one socket.
pub open spec fn after_message(
    counters: Map<u64, NetworkCounters>,
    message: Seq<u8>,
    requested: Seq<u64>,
    big: bool,
) -> Map<u64, NetworkCounters> {
    let inode = u32_in(message, 68, big) as u64;
    if message.len() < INET_DIAG_MESSAGE_LENGTH || !requested.contains(inode) {
        counters
    } else {
        match tcp_counters(message, INET_DIAG_MESSAGE_LENGTH as int, big) {
            Some(found) => counters.insert(inode, found),
            None => counters,
        }
    }
}

fn lists_inode(requested: &[u64], inode: u64) -> (yes: bool)
    ensures
        yes == requested@.contains(inode),
{
    for i in 0..requested.len()
        invariant
            forall|j: int| 0 <= j < i ==> requested@[j] != inode,
    {
        if requested[i] == inode {
            return true;
        }
    }
    false
}

fn find_counters(message: &[u8], start: usize, big: bool) -> (found: Option<NetworkCounters>)
    requires
        start <= message@.len(),
    ensures
        found == tcp_counters(message@, start as int, big),
{
    let total = message.len();
    let mut at = start;
    while total - at >= 4
        invariant
            total == message@.len(),
            at <= total,
            tcp_counters(message@, start as int, big) == tcp_counters(message@, at as int, big),
        ensures
            tcp_counters(message@, start as int, big) is None,
        decreases total - at,
    {
        let length = read_u16(message, at, big) as usize;
        let attribute = read_u16(message, at + 2, big);
        if length < 4 || length > total - at {
            return None;
        }
        if attribute == INET_DIAG_INFO && length - 4 >= TCP_INFO_COUNTERS_LENGTH {
            return Some(
                NetworkCounters {
                    received_bytes: read_u64(
                        message,
                        at + 4 + TCP_INFO_BYTES_RECEIVED_OFFSET,
                        big,
                    ),
                    transmitted_bytes: read_u64(message, at + 4 + TCP_INFO_BYTES_ACKED_OFFSET, big),
                },
            );
        }
        let step = (length + 3) / 4 * 4;
        if step > total - at {
            assert(tcp_counters(message@, at + step, big) is None);
            return None;
        }
        at = at + step;
    }
    None
}

/// Takes the counters of a requested socket out of a message about it.
pub fn parse_diag_message(
    message: &[u8],
    requested_inodes: &[u64],
    counters: &mut Table<u64, NetworkCounters>,
    big: bool,
)
    requires
        old(counters).wf(),
    ensures
        final(counters).wf(),
        final(counters)@ == after_message(old(counters)@, message@, requested_inodes@, big),
{
    if message.len() < INET_DIAG_MESSAGE_LENGTH {
        return ;
    }
    let inode = read_u32(message, 68, big) as u64;
    if !lists_inode(requested_inodes, inode) {
        return ;
    }
    if let Some(found) = find_counters(message, INET_DIAG_MESSAGE_LENGTH, big) {
        let _ = counters.insert(inode, found);
    }
}

/// Where a listing stands after a piece of it arrived.
#[derive(Debug, Clone, Copy, PartialEq, Eq, Structural)]
pub enum DumpStep {
    /// The listing is complete.
    Done,
    /// The listing was refused or cannot be read.
    Failed,
    /// More of it is to come.
    More,
}

/// What a piece of a listing, read from `at` on, does to the counters. Messages
/// that answer another request are passed over.
pub open spec fn after_response(
    counters: Map<u64, NetworkCounters>,
    response: Seq<u8>,
    at: int,
    sequence: u32,
    requested: Seq<u64>,
    big: bool,
) -> (DumpStep, Map<u64, NetworkCounters>)
    decreases
            (if at <= response.len() {
                response.len() - at + 1
            } else {
                0
            }),
{
    let length = u32_in(response, at, big) as int;
    let kind = u16_in(response, at + 4, big);
    if at < 0 || at + NETLINK_HEADER_LENGTH > response.len() {
        (DumpStep::More, counters)
    } else if length < NETLINK_HEADER_LENGTH || at + length > response.len() {
        (DumpStep::Failed, counters)
    } else if u32_in(response, at + 8, big) != sequence {
        after_response(counters, response, at + aligned(length), sequence, requested, big)
    } else if kind == NLMSG_DONE {
        (DumpStep::Done, counters)
    } else if kind == NLMSG_ERROR {
        (DumpStep::Failed, counters)
    } else {
        after_response(
            after_message(
                counters,
                response.subrange(at + NETLINK_HEADER_LENGTH, at + length),
                requested,
                big,
            ),
            response,
            at + aligned(length),
            sequence,
            requested,
            big,
        )
    }
}

/// Reads one piece of a listing.
pub fn absorb_response(
    response: &[u8],
    sequence: u32,
    requested_inodes: &[u64],
    counters: &mut Table<u64, NetworkCounters>,
    big: bool,
) -> (step: DumpStep)
    requires
        old(counters).wf(),
    ensures
        final(counters).wf(),
        (step, final(counters)@) == after_response(
            old(counters)@,
            response@,
            0,
            sequence,
            requested_inodes@,
            big,
        ),
{
    let total = response.len();
    let ghost start = counters@;
    let ghost requested = requested_inodes@;
    let mut at: usize = 0;
    while total - at >= NETLINK_HEADER_LENGTH
        invariant
            total == response@.len(),
            at <= total,
            counters.wf(),
            start == old(counters)@,
            requested == requested_inodes@,
            after_response(start, response@, 0, sequence, requested, big) == after_response(
                counters@,
                response@,
                at as int,
                sequence,
                requested,
                big,
            ),
        ensures
            counters.wf(),
            after_response(start, response@, 0, sequence, requested, big) == (
                DumpStep::More,
                counters@,
            ),
        decreases total - at,
    {
        let length = read_u32(response, at, big) as usize;
        if length < NETLINK_HEADER_LENGTH || length > total - at {
            return DumpStep::Failed;
        }
        let kind = read_u16(response, at + 4, big);
        if read_u32(response, at + 8, big) == sequence {
            if kind == NLMSG_DONE {
                return DumpStep::Done;
            }
            if kind == NLMSG_ERROR {
                return DumpStep::Failed;
            }
            let message = vstd::slice::slice_subrange(
                response,
                at + NETLINK_HEADER_LENGTH,
                at + length,
            );
            parse_diag_message(message, requested_inodes, counters, big);
        }
        let padding: usize = (4 - length % 4) % 4;
        assert(aligned(length as int) == length + padding);
        assert(after_response(start, response@, 0, sequence, requested, big) == after_response(
            counters@,
            response@,
            at + length + padding,
            sequence,
            requested,
            big,
        ));
        if padding > total - at - length {
            assert(after_response(
                counters@,
                response@,
                at + length + padding,
                sequence,
                requested,
                big,
            ) == (DumpStep::More, counters@));
            return DumpStep::More;
        }
        at = at + length + padding;
    }
    DumpStep::More
}

} // verus!
