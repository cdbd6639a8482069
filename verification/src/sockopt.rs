//! The name by which a socket is pinned to a network interface.
//!
//! Binding to an address is not the same as binding to an interface: an interface
//! can carry several addresses, and some of them rotate. The name of the device
//! survives that.
use crate::text;
use crate::text::{push_decimal, quote};
use vstd::prelude::*;
use vstd::utf8::*;

verus! {

pub const SOL_SOCKET: i32 = 1;

pub const SO_BINDTODEVICE: i32 = 25;

/// The size of an interface name with the zero that ends it; the kernel rejects
/// anything longer.
pub const IFNAMSIZ: usize = 16;

/// The name of an interface is not 1 to 15 bytes long.
#[derive(Debug, Clone, Copy, PartialEq, Eq, Structural)]
pub struct BadName;

/// Whether an interface can have this name, by its length.
pub open spec fn is_device_name(iface: Seq<char>) -> bool {
    0 < encode_utf8(iface).len() < IFNAMSIZ
}

/// The name of a device as the kernel takes it: its bytes, and zeros up to the
/// full size.
pub fn device_name(iface: &str) -> (name: Result<[u8; 16], BadName>)
    ensures
        match name {
            Ok(n) => {
                let b = encode_utf8(iface@);
                &&& is_device_name(iface@)
                &&& n@.take(b.len() as int) == b
                &&& forall|i: int| b.len() <= i < IFNAMSIZ ==> #[trigger] n@[i] == 0
            },
            Err(_) => !is_device_name(iface@),
        },
{
    let b = iface.as_bytes();
    if b.len() == 0 || b.len() >= IFNAMSIZ {
        return Err(BadName);
    }
    let mut name: [u8; 16] = [0; 16];
    let mut i: usize = 0;
    while i < b.len()
        invariant
            i <= b.len() < 16,
            name@.len() == 16,
            name@.take(i as int) == b@.take(i as int),
            forall|j: int| i <= j < 16 ==> #[trigger] name@[j] == 0,
        decreases b.len() - i,
    {
        name[i] = b[i];
        i += 1;
        assert(name@.take(i as int) =~= b@.take(i as int)) by {
            assert(forall|j: int| 0 <= j < i - 1 ==> name@[j] == name@.take(i - 1)[j]);
        }
    }
    assert(b@.take(b@.len() as int) =~= b@);
    Ok(name)
}

/// What is said of a name that no interface can have, from its quoted text.
pub open spec fn bad_name_of(quoted: Seq<char>) -> Seq<char> {
    "interface name "@ + quoted + " must be 1 to "@ + text::decimal((IFNAMSIZ - 1) as nat)
        + " characters"@
}

/// What is said of a name that no interface can have, from its quoted text.
pub fn bad_name_line(quoted: &str) -> (out: String)
    ensures
        out@ == bad_name_of(quoted@),
{
    let mut out = String::new();
    out.append("interface name ");
    out.append(quoted);
    out.append(" must be 1 to ");
    push_decimal(&mut out, (IFNAMSIZ - 1) as u64);
    out.append(" characters");
    assert(out@ =~= bad_name_of(quoted@));
    out
}

/// What is said of a name that no interface can have.
pub fn bad_name(iface: &str) -> (out: String)
    ensures
        out@ == bad_name_of(text::quoted(iface@)),
{
    bad_name_line(quote(iface).as_str())
}

/// The name of an interface has 1 to 15 bytes, and the kernel gets them in front of
/// zeros.
pub proof fn a_device_name_is_padded(iface: &str, name: Result<[u8; 16], BadName>)
    requires
        call_ensures(device_name, (iface,), name),
    ensures
        name is Ok <==> 1 <= encode_utf8(iface@).len() <= 15,
        name matches Ok(n) ==> forall|i: int|
            0 <= i < 16 ==> #[trigger] n@[i] == if i < encode_utf8(iface@).len() {
                encode_utf8(iface@)[i]
            } else {
                0
            },
{
    if let Ok(n) = name {
        let b = encode_utf8(iface@);
        assert forall|i: int| 0 <= i < 16 implies #[trigger] n@[i] == if i < b.len() {
            b[i]
        } else {
            0
        } by {
            if i < b.len() {
                assert(n@.take(b.len() as int)[i] == n@[i]);
            }
        }
    }
}

} // verus!
