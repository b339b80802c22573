//! Left-to-right scans that stop at the first error.

use vstd::prelude::*;

verus! {

/// Runs `step` over `items` from the first to the last, starting from `init`,
/// and stops at the first error.
pub open spec fn try_fold<A, S, E>(items: Seq<A>, init: S, step: spec_fn(S, A) -> Result<S, E>) -> Result<S, E>
    decreases items.len(),
{
    if items.len() == 0 {
        Ok(init)
    } else {
        match try_fold(items.drop_last(), init, step) {
            Ok(s) => step(s, items.last()),
            Err(e) => Err(e),
        }
    }
}

/// One more item of the scan.
pub proof fn lemma_try_fold_next<A, S, E>(
    items: Seq<A>,
    init: S,
    step: spec_fn(S, A) -> Result<S, E>,
    i: int,
)
    requires
        0 <= i < items.len(),
    ensures
        try_fold(items.subrange(0, i + 1), init, step) == match try_fold(items.subrange(0, i), init, step) {
            Ok(s) => step(s, items[i]),
            Err(e) => Err(e),
        },
{
    let pre = items.subrange(0, i + 1);
    assert(pre.drop_last() =~= items.subrange(0, i));
    assert(pre.last() == items[i]);
}

/// The scan of all items is the scan of the whole prefix.
pub proof fn lemma_try_fold_all<A, S, E>(items: Seq<A>, init: S, step: spec_fn(S, A) -> Result<S, E>)
    ensures
        try_fold(items.subrange(0, items.len() as int), init, step) == try_fold(items, init, step),
{
    assert(items.subrange(0, items.len() as int) =~= items);
}

/// An error in a prefix is the error of the whole scan.
pub proof fn lemma_try_fold_err<A, S, E>(
    items: Seq<A>,
    init: S,
    step: spec_fn(S, A) -> Result<S, E>,
    i: int,
)
    requires
        0 <= i <= items.len(),
        try_fold(items.subrange(0, i), init, step) is Err,
    ensures
        try_fold(items, init, step) == try_fold(items.subrange(0, i), init, step),
    decreases items.len() - i,
{
    if i == items.len() {
        lemma_try_fold_all(items, init, step);
    } else {
        lemma_try_fold_next(items, init, step, i);
        lemma_try_fold_err(items, init, step, i + 1);
    }
}

/// When the whole scan succeeds, so does every prefix and every step.
pub proof fn lemma_try_fold_ok_step<A, S, E>(
    items: Seq<A>,
    init: S,
    step: spec_fn(S, A) -> Result<S, E>,
    i: int,
)
    requires
        0 <= i < items.len(),
        try_fold(items, init, step) is Ok,
    ensures
        try_fold(items.subrange(0, i), init, step) is Ok,
        step(try_fold(items.subrange(0, i), init, step)->Ok_0, items[i]) is Ok,
{
    lemma_try_fold_next(items, init, step, i);
    if try_fold(items.subrange(0, i + 1), init, step) is Err {
        lemma_try_fold_err(items, init, step, i + 1);
    }
}

/// A property of the state that every successful step over the items keeps
/// holds of the result of a successful scan.
pub proof fn lemma_try_fold_invariant<A, S, E>(
    items: Seq<A>,
    init: S,
    step: spec_fn(S, A) -> Result<S, E>,
    inv: spec_fn(S) -> bool,
)
    requires
        inv(init),
        forall|s: S, i: int|
            0 <= i < items.len() && inv(s) && (#[trigger] step(s, items[i])) is Ok ==> inv(step(s, items[i])->Ok_0),
    ensures
        try_fold(items, init, step) is Ok ==> inv(try_fold(items, init, step)->Ok_0),
    decreases items.len(),
{
    if items.len() > 0 {
        let rest = items.drop_last();
        assert forall|s: S, i: int|
            0 <= i < rest.len() && inv(s) && (#[trigger] step(s, rest[i])) is Ok implies inv(step(s, rest[i])->Ok_0) by {
            assert(rest[i] == items[i]);
        }
        lemma_try_fold_invariant(rest, init, step, inv);
        if try_fold(items, init, step) is Ok {
            let n = items.len() - 1;
            assert(items.last() == items[n]);
        }
    }
}

} // verus!
