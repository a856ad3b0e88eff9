//! Vectors and their deep views.

use vstd::prelude::*;

verus! {

/// Appends `x` to `v`; the deep view grows by the deep view of `x`.
pub fn push_deep<T: DeepView>(v: &mut Vec<T>, x: T)
    ensures
        final(v).deep_view() == old(v).deep_view().push(x.deep_view()),
        final(v)@ == old(v)@.push(x),
{
    let ghost before = v.deep_view();
    let ghost item = x.deep_view();
    v.push(x);
    assert(v.deep_view() =~= before.push(item));
}

} // verus!
