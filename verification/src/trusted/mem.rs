//! What is taken from `replace_with`.

use vstd::prelude::*;

verus! {

/// `replace_with::replace_with_or_abort`: moves the value out of `dest`,
/// hands it to `f`, and puts what `f` returns in its place.
///
/// Believed: `f` is called once, on the value that `dest` held, and `dest`
/// then holds what that call returned.
pub assume_specification<T, F: FnOnce(T) -> T>[ replace_with::replace_with_or_abort::<T, F> ](
    dest: &mut T,
    f: F,
)
    requires
        call_requires(f, (*old(dest),)),
    ensures
        call_ensures(f, (*old(dest),), *final(dest)),
;

} // verus!
