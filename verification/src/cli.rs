//! What the server and the client read from their command lines.

use vstd::prelude::*;
use vstd::utf8::{encode_utf8, encode_utf8_decode_utf8};

verus! {

/// Where a server listens, and where a client connects, when no address is
/// given.
pub const DEFAULT_ADDRESS: &'static str = "127.0.0.1:8080";

/// The flag that makes a client pick channel 0 by itself, then wait and leave.
pub const AUTO_FLAG: &'static str = "--auto";

/// The address the program uses: its first argument, or the default one.
pub fn address_from_args(args: &Vec<String>) -> (addr: String)
    ensures
        addr@ == (if args@.len() > 1 {
            args@[1]@
        } else {
            DEFAULT_ADDRESS@
        }),
{
    if args.len() > 1 {
        args[1].clone()
    } else {
        DEFAULT_ADDRESS.to_owned()
    }
}

/// Whether two strings hold the same chars.
fn same_text(a: &str, b: &str) -> (same: bool)
    ensures
        same == (a@ == b@),
{
    let x = a.as_bytes();
    let y = b.as_bytes();
    proof {
        encode_utf8_decode_utf8(a@);
        encode_utf8_decode_utf8(b@);
    }
    if x.len() != y.len() {
        return false;
    }
    let mut i: usize = 0;
    while i < x.len()
        invariant
            x@.len() == y@.len(),
            x@ == encode_utf8(a@),
            y@ == encode_utf8(b@),
            i <= x@.len(),
            forall|j: int| 0 <= j < i ==> x@[j] == y@[j],
        decreases x@.len() - i,
    {
        if x[i] != y[i] {
            return false;
        }
        i = i + 1;
    }
    assert(x@ =~= y@);
    true
}

/// Whether one of the arguments is `flag`.
pub fn has_flag(args: &Vec<String>, flag: &str) -> (found: bool)
    ensures
        found == (exists|i: int| 0 <= i < args@.len() && #[trigger] args@[i]@ == flag@),
{
    let mut i: usize = 0;
    while i < args.len()
        invariant
            i <= args@.len(),
            forall|j: int| 0 <= j < i ==> #[trigger] args@[j]@ != flag@,
        decreases args@.len() - i,
    {
        if same_text(args[i].as_str(), flag) {
            return true;
        }
        i = i + 1;
    }
    false
}

} // verus!
