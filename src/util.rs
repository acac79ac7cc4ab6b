//! Small functional helpers.

use vstd::prelude::*;

verus! {

/// The function that applies `f`, then `g`.
pub fn compose<F, G, A, B, C>(f: F, g: G) -> (r: impl FnOnce(A) -> C)
    where
        F: FnOnce(A) -> B,
        G: FnOnce(B) -> C,
    requires
        forall|a: A| f.requires((a,)),
        forall|b: B| g.requires((b,)),
    ensures
        forall|a: A| r.requires((a,)),
        forall|a: A, c: C| r.ensures((a,), c) ==> exists|b: B| f.ensures((a,), b) && g.ensures((b,), c),
{
    move |a: A| -> (c: C)
        requires
            f.requires((a,)),
            forall|b: B| g.requires((b,)),
        ensures
            exists|b: B| f.ensures((a,), b) && g.ensures((b,), c),
        {
            let b = f(a);
            g(b)
        }
}

} // verus!
