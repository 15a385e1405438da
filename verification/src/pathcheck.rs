//! Component-wise path containment, used to refuse an output
//! directory that is the same as, or nested inside, the input
//! directory before any filesystem work starts.

use vstd::prelude::*;

verus! {

/// `child` designates a path equal to or nested inside `parent`:
/// every component of `parent` stands, in order, at the start of
/// `child`.
pub open spec fn is_within(child: Seq<String>, parent: Seq<String>) -> bool {
    &&& parent.len() <= child.len()
    &&& forall|i: int| 0 <= i < parent.len() ==> child[i]@ == parent[i]@
}

/// Component-wise prefix test on two paths already split into their
/// components.
pub fn path_is_within(child: &Vec<String>, parent: &Vec<String>) -> (r: bool)
    ensures
        r == is_within(child@, parent@),
{
    if parent.len() > child.len() {
        return false;
    }
    let n = parent.len();
    let mut i: usize = 0;
    while i < n
        invariant
            n == parent@.len(),
            n <= child@.len(),
            i <= n,
            forall|k: int| 0 <= k < i ==> child@[k]@ == parent@[k]@,
        decreases n - i,
    {
        if !(child[i] == parent[i]) {
            return false;
        }
        i = i + 1;
    }
    true
}

} // verus!
