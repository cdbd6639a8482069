//! Addresses and ports.
use crate::bytes::same_bytes;
use vstd::prelude::*;

verus! {

/// The octets of an address.
#[derive(Debug, Clone, Copy, PartialEq, Eq)]
pub enum Address {
    V4([u8; 4]),
    V6([u8; 16]),
}

/// An address and a port, with the flow and the scope that an endpoint of the
/// newer family may have; they are zero in the older one.
#[derive(Debug, Clone, Copy, PartialEq, Eq)]
pub struct Endpoint {
    pub address: Address,
    pub port: u16,
    pub flowinfo: u32,
    pub scope_id: u32,
}

impl Address {
    /// The octets.
    pub open spec fn octets(self) -> Seq<u8> {
        match self {
            Address::V4(o) => o@,
            Address::V6(o) => o@,
        }
    }

    /// Whether two addresses are the same: of one family, with the same octets.
    pub open spec fn same(self, other: Address) -> bool {
        (self is V4 <==> other is V4) && self.octets() == other.octets()
    }

    /// The address that stands for all addresses.
    pub open spec fn unspecified(self) -> bool {
        zeros(self.octets())
    }

    /// The address by which a machine reaches itself: 127.0.0.0/8, or its
    /// counterpart of the other family.
    pub open spec fn loopback(self) -> bool {
        match self {
            Address::V4(o) => o@[0] == 127,
            Address::V6(o) => zeros(o@.take(15)) && o@[15] == 1,
        }
    }

    /// Whether this is a loopback address.
    pub fn is_loopback(&self) -> (b: bool)
        ensures
            b == self.loopback(),
    {
        match self {
            Address::V4(o) => o[0] == 127,
            Address::V6(o) => {
                let front = vstd::slice::slice_subrange(o.as_slice(), 0, 15);
                assert(front@ =~= o@.take(15));
                all_zero(front) && o[15] == 1
            },
        }
    }

    /// Whether two addresses are the same.
    pub fn is_same(&self, other: &Address) -> (b: bool)
        ensures
            b == self.same(*other),
    {
        match (self, other) {
            (Address::V4(a), Address::V4(b)) => same_bytes(a.as_slice(), b.as_slice()),
            (Address::V6(a), Address::V6(b)) => same_bytes(a.as_slice(), b.as_slice()),
            _ => false,
        }
    }

    /// Whether this is 0.0.0.0 or its counterpart of the other family.
    pub fn is_unspecified(&self) -> (b: bool)
        ensures
            b == self.unspecified(),
    {
        match self {
            Address::V4(o) => all_zero(o.as_slice()),
            Address::V6(o) => all_zero(o.as_slice()),
        }
    }
}

/// Whether all bytes are zero.
pub open spec fn zeros(b: Seq<u8>) -> bool {
    forall|i: int| 0 <= i < b.len() ==> #[trigger] b[i] == 0
}

fn all_zero(b: &[u8]) -> (zero: bool)
    ensures
        zero == zeros(b@),
{
    let mut i: usize = 0;
    while i < b.len()
        invariant
            i <= b.len(),
            forall|j: int| 0 <= j < i ==> #[trigger] b@[j] == 0,
        decreases b.len() - i,
    {
        if b[i] != 0 {
            assert(b@[i as int] != 0);
            return false;
        }
        i += 1;
    }
    true
}

/// What an endpoint is.
pub struct EndpointModel {
    pub v6: bool,
    pub octets: Seq<u8>,
    pub port: u16,
    pub flowinfo: u32,
    pub scope_id: u32,
}

impl View for Endpoint {
    type V = EndpointModel;

    open spec fn view(&self) -> EndpointModel {
        EndpointModel {
            v6: self.address is V6,
            octets: self.address.octets(),
            port: self.port,
            flowinfo: self.flowinfo,
            scope_id: self.scope_id,
        }
    }
}

/// What an optional endpoint is.
pub open spec fn seen(o: Option<Endpoint>) -> Option<EndpointModel> {
    match o {
        Some(e) => Some(e@),
        None => None,
    }
}

impl Endpoint {
    /// An endpoint without flow and scope.
    pub fn new(address: Address, port: u16) -> (e: Self)
        ensures
            e == (Endpoint { address, port, flowinfo: 0, scope_id: 0 }),
    {
        Endpoint { address, port, flowinfo: 0, scope_id: 0 }
    }

    /// Whether two endpoints are the same.
    pub fn is_same(&self, other: &Endpoint) -> (b: bool)
        ensures
            b == (self@ == other@),
    {
        self.port == other.port && self.flowinfo == other.flowinfo && self.scope_id
            == other.scope_id && self.address.is_same(&other.address)
    }
}

} // verus!
