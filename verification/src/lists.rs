//! Lists whose items are moved.
use vstd::prelude::*;

verus! {

/// The items of a list, the last one first.
pub fn reversed<T>(list: Vec<T>) -> (r: Vec<T>)
    ensures
        r@ == list@.reverse(),
{
    let ghost all = list@;
    let mut rest = list;
    let mut r: Vec<T> = Vec::new();
    while rest.len() > 0
        invariant
            rest@.len() <= all.len(),
            rest@ == all.take(rest@.len() as int),
            r@ =~= all.skip(rest@.len() as int).reverse(),
        decreases rest@.len(),
    {
        let ghost n = rest@.len() as int;
        if let Some(x) = rest.pop() {
            proof {
                assert(x == all[n - 1]);
                assert(rest@ =~= all.take(n - 1));
            }
            r.push(x);
            proof {
                assert(r@ =~= all.skip(n - 1).reverse());
            }
        }
    }
    proof {
        assert(all.skip(0) =~= all);
    }
    r
}

} // verus!
