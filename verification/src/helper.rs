use vstd::prelude::*;

verus! {

/// Adds `src` into `dst`. On success the sum is stored; on unsigned overflow
/// `dst` is left unchanged and the caller-supplied failure value is returned.
/// Every counter mutation in code generation and evaluation goes through here.
pub fn safe_add<E>(dst: &mut usize, src: &usize, err: E) -> (r: Result<(), E>)
    ensures
        *old(dst) + *src <= usize::MAX ==> r is Ok && *final(dst) == *old(dst) + *src,
        *old(dst) + *src > usize::MAX ==> r == Err::<(), E>(err) && *final(dst) == *old(dst),
{
    if let Some(n) = dst.checked_add(*src) {
        *dst = n;
        Ok(())
    } else {
        Err(err)
    }
}

} // verus!
