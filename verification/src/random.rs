use rand::rngs::ThreadRng;
use rand::Rng;
use vstd::prelude::*;

verus! {

/// The thread-local random generator handle of the `rand` crate.
#[verifier::external_type_specification]
#[verifier::external_body]
pub struct ExThreadRng(ThreadRng);

/// Calls `rand::thread_rng`, which hands out the thread's lazily seeded
/// random generator. Nothing is claimed of the handle.
#[verifier::external_body]
pub(crate) fn thread_rng() -> ThreadRng {
    rand::thread_rng()
}

/// Calls `Rng::gen_range` with the inclusive range `lo..=hi`, and hands back
/// beside the draw a ghost record of the range it was asked for. Claimed: the
/// draw lies in that range. Which value comes out is left open: it rests on
/// chance. The call panics on an empty range, which `requires` rules out.
#[verifier::external_body]
pub(crate) fn gen_range_inclusive(rng: &mut ThreadRng, lo: usize, hi: usize) -> (res: (
    usize,
    Ghost<(usize, usize)>,
))
    requires
        lo <= hi,
    ensures
        lo <= res.0 <= hi,
        res.1@ == (lo, hi),
{
    (rng.gen_range(lo..=hi), Ghost((lo, hi)))
}

} // verus!
