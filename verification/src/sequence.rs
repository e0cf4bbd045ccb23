//! Lists that are built item by item, where the making of an item can
//! fail.

use vstd::prelude::*;

verus! {

/// The list of the first `n` items that `item` makes, or the error of the
/// first of them that cannot be made.
pub open spec fn try_build<B, E>(n: int, item: spec_fn(int) -> Result<B, E>) -> Result<Seq<B>, E>
    decreases n,
{
    if n <= 0 {
        Ok(Seq::empty())
    } else {
        match try_build(n - 1, item) {
            Err(e) => Err(e),
            Ok(items) => match item(n - 1) {
                Err(e) => Err(e),
                Ok(b) => Ok(items.push(b)),
            },
        }
    }
}

/// A list that could not be built up to `k` cannot be built further, and
/// fails with the same error.
pub proof fn lemma_try_build_stops<B, E>(n: int, k: int, item: spec_fn(int) -> Result<B, E>)
    requires
        0 <= k <= n,
        try_build(k, item) is Err,
    ensures
        try_build(n, item) == try_build(k, item),
    decreases n - k,
{
    if k < n {
        lemma_try_build_stops(n, k + 1, item);
    }
}

/// A list that was built has one item for each position.
pub proof fn lemma_try_build_len<B, E>(n: int, item: spec_fn(int) -> Result<B, E>)
    requires
        0 <= n,
    ensures
        try_build(n, item) matches Ok(items) ==> items.len() == n && forall|i: int|
            0 <= i < n ==> item(i) == Ok::<B, E>(#[trigger] items[i]),
    decreases n,
{
    if n > 0 {
        lemma_try_build_len(n - 1, item);
    }
}

} // verus!
