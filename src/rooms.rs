use vstd::prelude::*;

use crate::envvars::chars_of;

verus! {

/// Whether two strings hold the same characters.
pub(crate) fn same_text(a: &str, b: &str) -> (r: bool)
    ensures
        r == (a@ == b@),
{
    let x = chars_of(a);
    let y = chars_of(b);
    if x.len() != y.len() {
        return false;
    }
    let mut i: usize = 0;
    while i < x.len()
        invariant
            x@ == a@,
            y@ == b@,
            x@.len() == y@.len(),
            i <= x@.len(),
            forall|k: int| 0 <= k < i ==> x@[k] == y@[k],
        decreases x@.len() - i,
    {
        if x[i] != y[i] {
            assert(x@[i as int] != y@[i as int]);
            return false;
        }
        i += 1;
    }
    assert(x@ =~= y@);
    true
}

/// Path segments that name an endpoint of the broker, never a room.
pub open spec fn reserved_room(name: Seq<char>) -> bool {
    name == "api"@ || name == "metrics"@ || name == "health"@ || name == "static"@ || name
        == "upload"@ || name == "robots.txt"@ || name == "favicon.ico"@
}

/// Whether `name` is reserved and so rejected as a room name.
pub fn is_reserved_room(name: &str) -> (r: bool)
    ensures
        r == reserved_room(name@),
{
    same_text(name, "api") || same_text(name, "metrics") || same_text(name, "health")
        || same_text(name, "static") || same_text(name, "upload") || same_text(name, "robots.txt")
        || same_text(name, "favicon.ico")
}

} // verus!
