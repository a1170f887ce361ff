//! What is asked of the kernel about connections and what its answers say.

use vstd::prelude::*;
use crate::network::{
    after_message, after_response, aligned, lemma_bytes_read_back, request_bytes, tcp_counters,
    u16_in, u32_in, u64_in, DumpStep,
};
use crate::resources::NetworkCounters;

verus! {

/// The bytes of a number add up, each at its place.
pub proof fn lemma_places(bytes: Seq<u8>, at: int)
    ensures
        u16_in(bytes, at, false) == bytes[at] + 0x100 * bytes[at + 1],
        u16_in(bytes, at, true) == 0x100 * bytes[at] + bytes[at + 1],
        u32_in(bytes, at, false) == bytes[at] + 0x100 * bytes[at + 1] + 0x1_0000 * bytes[at + 2]
            + 0x100_0000 * bytes[at + 3],
        u32_in(bytes, at, true) == 0x100_0000 * bytes[at] + 0x1_0000 * bytes[at + 1] + 0x100
            * bytes[at + 2] + bytes[at + 3],
        u64_in(bytes, at, false) == u32_in(bytes, at, false) + 0x1_0000_0000 * u32_in(
            bytes,
            at + 4,
            false,
        ),
        u64_in(bytes, at, true) == 0x1_0000_0000 * u32_in(bytes, at, true) + u32_in(
            bytes,
            at + 4,
            true,
        ),
{
    reveal(u16_in);
    reveal(u32_in);
    reveal(u64_in);
}

proof fn lemma_moved(bytes: Seq<u8>, at: int, part: Seq<u8>, big: bool)
    requires
        0 <= at,
        at + 4 <= bytes.len(),
        part.len() >= 4,
        bytes.subrange(at, at + 4) == part.take(4),
    ensures
        u32_in(bytes, at, big) == u32_in(part, 0, big),
        u16_in(bytes, at, big) == u16_in(part, 0, big),
{
    lemma_places(bytes, at);
    lemma_places(part, 0);
    assert forall|i: int| 0 <= i < 4 implies bytes[at + i] == #[trigger] part[i] by {
        assert(bytes.subrange(at, at + 4)[i] == bytes[at + i]);
        assert(part.take(4)[i] == part[i]);
    }
    assert(bytes[at] == part[0] && bytes[at + 1] == part[1]) by {
        assert(bytes[at + 0] == part[0]);
    }
    assert(bytes[at + 2] == part[2] && bytes[at + 3] == part[3]);
    if big {
        assert(u32_in(bytes, at, true) == u32_in(part, 0, true));
    } else {
        assert(u32_in(bytes, at, false) == u32_in(part, 0, false));
    }
}

/// A request says how long it is, what it wants and under which number, and asks for
/// sockets of a family and a protocol in every state, with what TCP knows of them.
pub proof fn lemma_request(family: u8, protocol: u8, sequence: u32, big: bool)
    ensures
        ({
            let bytes = request_bytes(family, protocol, sequence, big);
            &&& bytes.len() == 72
            &&& u32_in(bytes, 0, big) == 72
            &&& u16_in(bytes, 4, big) == 20
            &&& u16_in(bytes, 6, big) == 0x301
            &&& u32_in(bytes, 8, big) == sequence
            &&& bytes[16] == family
            &&& bytes[17] == protocol
            &&& bytes[18] == 2
            &&& u32_in(bytes, 20, big) == u32::MAX
            &&& u32_in(bytes, 64, big) == u32::MAX
            &&& u32_in(bytes, 68, big) == u32::MAX
        }),
{
    let bytes = request_bytes(family, protocol, sequence, big);
    let length = crate::network::u32_bytes(72, big);
    let number = crate::network::u32_bytes(sequence, big);
    let all = crate::network::u32_bytes(u32::MAX, big);
    lemma_bytes_read_back(72, big);
    lemma_bytes_read_back(sequence, big);
    lemma_bytes_read_back(u32::MAX, big);
    assert(bytes.len() == 72);
    assert(bytes.subrange(0, 4) =~= length.take(4));
    lemma_moved(bytes, 0, length, big);
    assert(bytes.subrange(8, 12) =~= number.take(4));
    lemma_moved(bytes, 8, number, big);
    assert(bytes.subrange(20, 24) =~= all.take(4));
    lemma_moved(bytes, 20, all, big);
    assert(bytes.subrange(64, 68) =~= all.take(4));
    lemma_moved(bytes, 64, all, big);
    assert(bytes.subrange(68, 72) =~= all.take(4));
    lemma_moved(bytes, 68, all, big);
    lemma_places(bytes, 4);
    lemma_places(bytes, 6);
}

/// What TCP knows of a connection stands in an attribute of its own: how much was
/// acknowledged, which was sent, and how much was received.
pub proof fn lemma_attribute(message: Seq<u8>, at: int, big: bool)
    requires
        0 <= at,
        at + 4 <= message.len(),
        4 <= u16_in(message, at, big),
        at + u16_in(message, at, big) <= message.len(),
    ensures
        u16_in(message, at + 2, big) == 2 && u16_in(message, at, big) >= 140 ==> match tcp_counters(
            message,
            at,
            big,
        ) {
            Some(counters) => counters.transmitted_bytes == u64_in(message, at + 124, big)
                && counters.received_bytes == u64_in(message, at + 132, big),
            None => false,
        },
        u16_in(message, at + 2, big) != 2 || u16_in(message, at, big) < 140 ==> tcp_counters(
            message,
            at,
            big,
        ) == tcp_counters(message, at + aligned(u16_in(message, at, big) as int), big),
{
}

/// Attributes begin at multiples of four.
pub proof fn lemma_aligned(n: int)
    requires
        n >= 0,
    ensures
        n <= aligned(n) < n + 4,
        aligned(n) % 4 == 0,
{
}

/// A message without any attribute that can be read says nothing.
pub proof fn lemma_no_attribute(message: Seq<u8>, at: int, big: bool)
    requires
        at + 4 > message.len() || u16_in(message, at, big) < 4 || at + u16_in(message, at, big)
            > message.len(),
    ensures
        tcp_counters(message, at, big) is None,
{
}

/// A message is about the socket whose number stands at its end; only a socket that was
/// asked for counts.
pub proof fn lemma_message(
    counters: Map<u64, NetworkCounters>,
    message: Seq<u8>,
    requested: Seq<u64>,
    big: bool,
    other: u64,
)
    ensures
        ({
            let after = after_message(counters, message, requested, big);
            let socket = u32_in(message, 68, big) as u64;
            &&& message.len() < 72 ==> after == counters
            &&& !requested.contains(socket) ==> after == counters
            &&& tcp_counters(message, 72, big) is None ==> after == counters
            &&& message.len() >= 72 && requested.contains(socket) && tcp_counters(
                message,
                72,
                big,
            ) is Some ==> after.contains_key(socket) && after[socket] == tcp_counters(
                message,
                72,
                big,
            )->0
            &&& other != socket ==> after.contains_key(other) == counters.contains_key(other) && (
            counters.contains_key(other) ==> after[other] == counters[other])
        }),
{
}

/// An answer ends where it says so, and fails where it says so or cannot be read; what
/// answers another request is passed over.
pub proof fn lemma_response(
    counters: Map<u64, NetworkCounters>,
    response: Seq<u8>,
    at: int,
    sequence: u32,
    requested: Seq<u64>,
    big: bool,
)
    requires
        0 <= at,
        at + 16 <= response.len(),
    ensures
        ({
            let length = u32_in(response, at, big) as int;
            let kind = u16_in(response, at + 4, big);
            let own = u32_in(response, at + 8, big) == sequence;
            let whole = 16 <= length && at + length <= response.len();
            let result = after_response(counters, response, at, sequence, requested, big);
            &&& !whole ==> result == (DumpStep::Failed, counters)
            &&& whole && own && kind == 3 ==> result == (DumpStep::Done, counters)
            &&& whole && own && kind == 2 ==> result == (DumpStep::Failed, counters)
            &&& whole && !own ==> result == after_response(
                counters,
                response,
                at + aligned(length),
                sequence,
                requested,
                big,
            )
            &&& whole && own && kind != 2 && kind != 3 ==> result == after_response(
                after_message(counters, response.subrange(at + 16, at + length), requested, big),
                response,
                at + aligned(length),
                sequence,
                requested,
                big,
            )
        }),
{
}

/// Behind the last message, more is to come.
pub proof fn lemma_response_end(
    counters: Map<u64, NetworkCounters>,
    response: Seq<u8>,
    at: int,
    sequence: u32,
    requested: Seq<u64>,
    big: bool,
)
    requires
        at + 16 > response.len(),
    ensures
        after_response(counters, response, at, sequence, requested, big) == (
            DumpStep::More,
            counters,
        ),
{
}

} // verus!
