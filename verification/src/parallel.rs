//! Work that is independent from index to index, handed to a pool of
//! worker threads.

use vstd::prelude::*;
use rayon::iter::{IntoParallelIterator, ParallelIterator};

verus! {

/// Applies `f` to every index below `n` on rayon's thread pool and collects
/// the results in the order of the indices.
///
/// The contract is that of `into_par_iter().map(f).collect()` on a range,
/// which rayon documents to give the vector that the sequential iterator
/// gives: one result for each index, at the position of the index, each of
/// them a value that `f` returns for that index.
#[verifier::external_body]
pub(crate) fn par_map_range<R: Send, Func: Fn(usize) -> R + Sync + Send>(n: usize, f: Func) -> (out:
    Vec<R>)
    requires
        forall|i: usize| i < n ==> call_requires(f, (i,)),
    ensures
        out@.len() == n,
        forall|i: int| 0 <= i < n ==> call_ensures(f, (i as usize,), #[trigger] out@[i]),
{
    (0..n).into_par_iter().map(f).collect()
}

} // verus!
