//! The destination that a redirected connection had before it was redirected.
//!
//! When netfilter redirects a connection, the local address of the socket is that
//! of the listener, but conntrack still remembers where the peer was headed. The
//! kernel hands that back as a socket address, which is decoded here.
use crate::bytes;
use crate::bytes::be16;
use crate::endpoint;
use crate::endpoint::{Address, Endpoint, EndpointModel};
use vstd::prelude::*;

verus! {

pub const SOL_IP: i32 = 0;

pub const SOL_IPV6: i32 = 41;

pub const SO_ORIGINAL_DST: i32 = 80;

pub const AF_INET: u16 = 2;

pub const AF_INET6: u16 = 10;

/// `u16::from_ne_bytes`: the two bytes as a number, the high one first or the low
/// one first. Which it is depends on the machine and is left unsaid.
#[verifier::external_body]
fn native16(first: u8, second: u8) -> (v: u16)
    ensures
        v == bytes::be16_of(first, second) || v == bytes::be16_of(second, first),
{
    u16::from_ne_bytes([first, second])
}

/// An endpoint without flow and scope.
pub open spec fn plain(v6: bool, octets: Seq<u8>, port: u16) -> EndpointModel {
    EndpointModel { v6, octets, port, flowinfo: 0, scope_id: 0 }
}

/// The endpoint that a socket address of a family holds: the port at its second
/// pair of bytes, and the octets at the place that goes with the family.
pub open spec fn endpoint_of(family: u16, b: Seq<u8>) -> Option<EndpointModel> {
    match bytes::be16_at(b, 2) {
        None => None,
        Some(port) => if family == AF_INET && b.len() >= 8 {
            Some(plain(false, b.subrange(4, 8), port))
        } else if family == AF_INET6 && b.len() >= 24 {
            Some(plain(true, b.subrange(8, 24), port))
        } else {
            None
        },
    }
}

/// Decodes a socket address whose family is known.
pub fn decode_family(family: u16, b: &[u8]) -> (e: Option<Endpoint>)
    ensures
        endpoint::seen(e) == endpoint_of(family, b@),
{
    let port = match be16(b, 2) {
        Some(p) => p,
        None => {
            return None;
        },
    };
    if family == AF_INET {
        if b.len() < 8 {
            return None;
        }
        let o: [u8; 4] = [b[4], b[5], b[6], b[7]];
        assert(o@ =~= b@.subrange(4, 8));
        Some(Endpoint::new(Address::V4(o), port))
    } else if family == AF_INET6 {
        if b.len() < 24 {
            return None;
        }
        let o: [u8; 16] = [
            b[8],
            b[9],
            b[10],
            b[11],
            b[12],
            b[13],
            b[14],
            b[15],
            b[16],
            b[17],
            b[18],
            b[19],
            b[20],
            b[21],
            b[22],
            b[23],
        ];
        assert(o@ =~= b@.subrange(8, 24));
        Some(Endpoint::new(Address::V6(o), port))
    } else {
        None
    }
}

/// Whether a socket address is decoded like that, its family read in one byte
/// order or the other. Without a family there is no endpoint.
pub open spec fn decodes_to(b: Seq<u8>, e: Option<EndpointModel>) -> bool {
    if b.len() < 2 {
        e is None
    } else {
        ||| e == endpoint_of(bytes::be16_of(b[0], b[1]), b)
        ||| e == endpoint_of(bytes::be16_of(b[1], b[0]), b)
    }
}

/// Decodes a socket address, `sockaddr_in` or `sockaddr_in6`: the family in the
/// machine's byte order, then what goes with the family. Anything too short, or of
/// another family, is no endpoint.
pub fn decode(b: &[u8]) -> (e: Option<Endpoint>)
    ensures
        decodes_to(b@, endpoint::seen(e)),
{
    if b.len() < 2 {
        return None;
    }
    decode_family(native16(b[0], b[1]), b)
}

/// Decodes what the kernel wrote into a buffer: as many bytes as it says, and no
/// more than there are.
pub fn answer(buf: &[u8], len: u32) -> (e: Option<Endpoint>)
    ensures
        ({
            let b = if len < buf@.len() {
                buf@.take(len as int)
            } else {
                buf@
            };
            decodes_to(b, endpoint::seen(e))
        }),
{
    if (len as u64) < buf.len() as u64 {
        let b = vstd::slice::slice_subrange(buf, 0, len as usize);
        assert(b@ =~= buf@.take(len as int));
        decode(b)
    } else {
        decode(buf)
    }
}

/// Whether two endpoints are the same as far as a listener can tell: an
/// unspecified address swallows any address on its port.
pub open spec fn same_endpoint_of(a: Endpoint, b: Endpoint) -> bool {
    a.port == b.port && (a.address.same(b.address) || b.address.unspecified())
}

/// Whether `a` is where a listener on `b` is reached.
pub fn same_endpoint(a: &Endpoint, b: &Endpoint) -> (same: bool)
    ensures
        same == same_endpoint_of(*a, *b),
{
    a.port == b.port && (a.address.is_same(&b.address) || b.address.is_unspecified())
}

/// The level of the socket option that is asked first: that of the local address.
pub fn first_level(local: &Endpoint) -> (level: i32)
    ensures
        level == if local.address is V6 {
            SOL_IPV6
        } else {
            SOL_IP
        },
{
    match local.address {
        Address::V6(_) => SOL_IPV6,
        Address::V4(_) => SOL_IP,
    }
}

/// The level that is asked next, if any: a socket of the newer family may be
/// carrying a connection of the older one.
pub fn second_level(local: &Endpoint, first: &Option<Endpoint>) -> (level: Option<i32>)
    ensures
        level == if local.address is V6 && first is None {
            Some(SOL_IP)
        } else {
            None
        },
{
    match (local.address, first) {
        (Address::V6(_), None) => Some(SOL_IP),
        _ => None,
    }
}

/// The address that the peer was trying to reach, from what the levels answered.
/// None means that the connection arrived directly: the kernel knows nothing, or
/// hands back the address of the listener itself.
pub fn original_dst(local: &Endpoint, first: Option<Endpoint>, second: Option<Endpoint>) -> (orig:
    Option<Endpoint>)
    ensures
        orig == {
            let answer = if first is Some || !(local.address is V6) {
                first
            } else {
                second
            };
            match answer {
                Some(e) => if same_endpoint_of(e, *local) {
                    None
                } else {
                    answer
                },
                None => None,
            }
        },
{
    let answer = match (local.address, first) {
        (Address::V6(_), None) => second,
        _ => first,
    };
    match answer {
        Some(e) => if same_endpoint(&e, local) {
            None
        } else {
            Some(e)
        },
        None => None,
    }
}

/// A socket address as the kernel writes it, in one byte order of the family or
/// the other: whatever follows the octets, they and the port are read back.
pub proof fn socket_addresses_read_back(
    front: Seq<u8>,
    port: u16,
    flow: Seq<u8>,
    octets: Seq<u8>,
    rest: Seq<u8>,
)
    requires
        front.len() == 2,
        flow.len() == 4,
    ensures
        octets.len() == 4 ==> endpoint_of(AF_INET, front + bytes::be16_bytes(port) + octets + rest)
            == Some(plain(false, octets, port)),
        octets.len() == 16 ==> endpoint_of(
            AF_INET6,
            front + bytes::be16_bytes(port) + flow + octets + rest,
        ) == Some(plain(true, octets, port)),
{
    bytes::be16_round_trip(port, Seq::empty());
    let p = bytes::be16_bytes(port);
    if octets.len() == 4 {
        let b = front + p + octets + rest;
        assert(b.subrange(4, 8) =~= octets);
        assert(b[2] == p[0] && b[3] == p[1]);
    }
    if octets.len() == 16 {
        let b = front + p + flow + octets + rest;
        assert(b.subrange(8, 24) =~= octets);
        assert(b[2] == p[0] && b[3] == p[1]);
    }
}

/// A listener on an unspecified address never reports a destination on its own
/// port.
pub proof fn an_unspecified_listener_swallows_its_port(e: Endpoint, local: Endpoint)
    requires
        local.address.unspecified(),
    ensures
        same_endpoint_of(e, local) <==> e.port == local.port,
{
}

// ------------------------------------------------------------- laws

/// Whether two addresses are one: of one family, with the same octets.
pub open spec fn is_one_address(a: Address, b: Address) -> bool {
    match (a, b) {
        (Address::V4(x), Address::V4(y)) => forall|i: int| 0 <= i < 4 ==> x@[i] == #[trigger] y@[i],
        (Address::V6(x), Address::V6(y)) => forall|i: int| 0 <= i < 16 ==> x@[i] == #[trigger] y@[i],
        _ => false,
    }
}

/// Whether an address stands for all addresses of its family.
pub open spec fn is_any(a: Address) -> bool {
    match a {
        Address::V4(x) => forall|i: int| 0 <= i < 4 ==> #[trigger] x@[i] == 0,
        Address::V6(x) => forall|i: int| 0 <= i < 16 ==> #[trigger] x@[i] == 0,
    }
}

proof fn addresses_are_compared(a: Address, b: Address)
    ensures
        a.same(b) <==> is_one_address(a, b),
        a.unspecified() <==> is_any(a),
{
    match (a, b) {
        (Address::V4(x), Address::V4(y)) => {
            if is_one_address(a, b) {
                assert(x@ =~= y@);
            }
        },
        (Address::V6(x), Address::V6(y)) => {
            if is_one_address(a, b) {
                assert(x@ =~= y@);
            }
        },
        _ => {},
    }
}

/// Whether an answer of the kernel is the listener itself: its port, and its address
/// or any address where it listens on all.
pub open spec fn is_the_listener(e: Endpoint, local: Endpoint) -> bool {
    e.port == local.port && (is_one_address(e.address, local.address) || is_any(local.address))
}

/// The destination that is reported is what the kernel answered, and never the
/// listener itself. On a listener of the older family only the first answer counts;
/// on one of the newer family the second counts where there is no first.
pub proof fn a_redirected_connection_is_told(
    local: &Endpoint,
    first: Option<Endpoint>,
    second: Option<Endpoint>,
    orig: Option<Endpoint>,
)
    requires
        call_ensures(original_dst, (local, first, second), orig),
    ensures
        first matches Some(e) ==> !is_the_listener(e, *local) ==> orig == Some(e),
        first matches Some(e) ==> is_the_listener(e, *local) ==> orig is None,
        first is None && local.address is V4 ==> orig is None,
        first is None && local.address is V6 && second is None ==> orig is None,
        first is None && local.address is V6 && (second matches Some(e) && !is_the_listener(
            e,
            *local,
        )) ==> orig == second,
        first is None && local.address is V6 && (second matches Some(e) && is_the_listener(
            e,
            *local,
        )) ==> orig is None,
{
    if let Some(e) = first {
        addresses_are_compared(e.address, local.address);
    }
    if let Some(e) = second {
        addresses_are_compared(e.address, local.address);
    }
    addresses_are_compared(local.address, local.address);
}

/// The level that is asked first is that of the listener's family, and a second is
/// asked only where the newer family had no answer.
pub proof fn levels_go_by_family(
    local: &Endpoint,
    answer: &Option<Endpoint>,
    first: i32,
    second: Option<i32>,
)
    requires
        call_ensures(first_level, (local,), first),
        call_ensures(second_level, (local, answer), second),
    ensures
        local.address is V4 ==> first == 0 && second is None,
        local.address is V6 ==> first == 41,
        local.address is V6 && answer is None ==> second == Some(0i32),
        answer is Some ==> second is None,
{
}

/// A socket address of the older family is read as four octets from the fifth byte
/// on, one of the newer family as sixteen from the ninth on, and the port from the
/// third byte on; what is shorter, or of another family, is not read.
pub proof fn socket_addresses_are_read(family: u16, b: &[u8], e: Option<Endpoint>)
    requires
        call_ensures(decode_family, (family, b), e),
    ensures
        e is Some <==> family == 2 && b@.len() >= 8 || family == 10 && b@.len() >= 24,
        e matches Some(e) ==> e.port == b@[2] * 0x100 + b@[3] && e.flowinfo == 0 && e.scope_id == 0,
        e matches Some(e) ==> (family == 2 <==> e.address is V4),
        e matches Some(e) ==> (e.address matches Address::V4(o) ==> o@ == b@.subrange(4, 8)),
        e matches Some(e) ==> (e.address matches Address::V6(o) ==> o@ == b@.subrange(8, 24)),
{
    if let Some(e) = e {
        assert(e@.port == e.port);
    }
}

/// What the kernel wrote is read as far as it says it wrote, and no further; the
/// family is one of the two, in one byte order or the other, or there is no answer.
pub proof fn an_answer_of_the_kernel_is_read(buf: &[u8], len: u32, e: Option<Endpoint>)
    requires
        call_ensures(answer, (buf, len), e),
    ensures
        e matches Some(e) ==> {
            let n = if len < buf@.len() {
                len as int
            } else {
                buf@.len() as int
            };
            let b = buf@;
            &&& e.port == b[2] * 0x100 + b[3]
            &&& e.address matches Address::V4(o) ==> n >= 8 && o@ == b.subrange(4, 8) && (b[0] == 2
                && b[1] == 0 || b[0] == 0 && b[1] == 2)
            &&& e.address matches Address::V6(o) ==> n >= 24 && o@ == b.subrange(8, 24) && (b[0]
                == 10 && b[1] == 0 || b[0] == 0 && b[1] == 10)
        },
{
    let b = if len < buf@.len() {
        buf@.take(len as int)
    } else {
        buf@
    };
    if let Some(e) = e {
        assert(e@.port == e.port);
        if e.address is V4 {
            assert(b.subrange(4, 8) =~= buf@.subrange(4, 8));
        } else {
            assert(b.subrange(8, 24) =~= buf@.subrange(8, 24));
        }
    }
}

} // verus!
