//! The conditions on the shape of a batch of client updates under which
//! each aggregation rule accepts it. The rules themselves work on
//! floating-point values and live with the application.

use vstd::prelude::*;

verus! {

/// Every update of the batch has the length of the first.
pub open spec fn uniform(lengths: Seq<usize>) -> bool {
    forall|i: int| 0 <= i < lengths.len() ==> #[trigger] lengths[i] == lengths[0]
}

/// The dimension federated averaging works in: the common length of the
/// updates. There is none for an empty batch or for updates of unequal
/// lengths.
pub open spec fn averaging_dimension_spec(lengths: Seq<usize>) -> Option<usize> {
    if lengths.len() == 0 || !uniform(lengths) {
        None
    } else {
        Some(lengths[0])
    }
}

/// The number of nearest neighbours that Multi-Krum scores each update by,
/// `n - f - 2` for `n` updates and tolerance `f`. A batch of fewer than
/// `2f + 3` updates, or of updates of unequal lengths, is refused.
pub open spec fn krum_neighbor_count_spec(lengths: Seq<usize>, byzantine_tolerance: usize) -> Option<
    usize,
> {
    if lengths.len() < 2 * byzantine_tolerance + 3 || !uniform(lengths) {
        None
    } else {
        Some((lengths.len() - byzantine_tolerance - 2) as usize)
    }
}

/// Federated averaging accepts exactly the non-empty batches whose updates
/// all have one length, and works in that length.
pub proof fn lemma_averaging_dimension_is_common_length(lengths: Seq<usize>)
    ensures
        averaging_dimension_spec(lengths) matches Some(d) ==> lengths.len() > 0 && forall|i: int|
            0 <= i < lengths.len() ==> #[trigger] lengths[i] == d,
        averaging_dimension_spec(lengths) is None ==> lengths.len() == 0 || exists|i: int, j: int|
            0 <= i < lengths.len() && 0 <= j < lengths.len() && #[trigger] lengths[i]
                != #[trigger] lengths[j],
        lengths.len() > 0 && (forall|i: int| 0 <= i < lengths.len() ==> #[trigger] lengths[i]
            == lengths[0]) ==> averaging_dimension_spec(lengths) == Some(lengths[0]),
{
    if averaging_dimension_spec(lengths) is None && lengths.len() > 0 {
        let i = choose|i: int| 0 <= i < lengths.len() && !(#[trigger] lengths[i] == lengths[0]);
        assert(lengths[i] != lengths[0]);
    }
}

/// Multi-Krum refuses exactly the batches of fewer than `2f + 3` updates
/// and the batches of updates of unequal lengths; it scores every other
/// batch of `n` updates by its `n - f - 2` nearest neighbours.
pub proof fn lemma_krum_batch_bound(lengths: Seq<usize>, byzantine_tolerance: usize)
    ensures
        lengths.len() < 2 * byzantine_tolerance + 3 ==> krum_neighbor_count_spec(
            lengths,
            byzantine_tolerance,
        ) is None,
        (exists|i: int| 0 <= i < lengths.len() && #[trigger] lengths[i] != lengths[0])
            ==> krum_neighbor_count_spec(lengths, byzantine_tolerance) is None,
        lengths.len() >= 2 * byzantine_tolerance + 3 && (forall|i: int|
            0 <= i < lengths.len() ==> #[trigger] lengths[i] == lengths[0])
            ==> krum_neighbor_count_spec(lengths, byzantine_tolerance) == Some(
            (lengths.len() - byzantine_tolerance - 2) as usize,
        ),
        lengths.len() <= usize::MAX ==> (krum_neighbor_count_spec(
            lengths,
            byzantine_tolerance,
        ) matches Some(k) ==> k + byzantine_tolerance + 2 == lengths.len() && k
            >= byzantine_tolerance + 1),
{
}

fn all_equal_to_first(lengths: &[usize]) -> (result: bool)
    requires
        lengths@.len() > 0,
    ensures
        result == uniform(lengths@),
{
    let first = lengths[0];
    let mut idx: usize = 1;
    while idx < lengths.len()
        invariant
            1 <= idx <= lengths@.len(),
            first == lengths@[0],
            forall|i: int| 0 <= i < idx ==> #[trigger] lengths@[i] == first,
        decreases lengths.len() - idx,
    {
        if lengths[idx] != first {
            return false;
        }
        idx = idx + 1;
    }
    true
}

/// Checks a batch for federated averaging; see `averaging_dimension_spec`.
pub fn averaging_dimension(lengths: &[usize]) -> (result: Option<usize>)
    ensures
        result == averaging_dimension_spec(lengths@),
        result matches Some(d) ==> lengths@.len() > 0 && forall|i: int|
            0 <= i < lengths@.len() ==> #[trigger] lengths@[i] == d,
        lengths@.len() > 0 && (forall|i: int|
            0 <= i < lengths@.len() ==> #[trigger] lengths@[i] == lengths@[0]) ==> result == Some(
            lengths@[0],
        ),
{
    if lengths.len() == 0 {
        return None;
    }
    if all_equal_to_first(lengths) {
        Some(lengths[0])
    } else {
        None
    }
}

/// Checks a batch for Multi-Krum; see `krum_neighbor_count_spec`.
pub fn krum_neighbor_count(lengths: &[usize], byzantine_tolerance: usize) -> (result: Option<usize>)
    ensures
        result == krum_neighbor_count_spec(lengths@, byzantine_tolerance),
        lengths@.len() < 2 * byzantine_tolerance + 3 ==> result is None,
        lengths@.len() >= 2 * byzantine_tolerance + 3 && (forall|i: int|
            0 <= i < lengths@.len() ==> #[trigger] lengths@[i] == lengths@[0]) ==> result == Some(
            (lengths@.len() - byzantine_tolerance - 2) as usize,
        ),
        (exists|i: int| 0 <= i < lengths@.len() && #[trigger] lengths@[i] != lengths@[0])
            ==> result is None,
{
    let n = lengths.len();
    // n >= 2f + 3 exactly when n >= 3 and (n - 3) / 2 >= f; this form cannot overflow.
    if n < 3 || (n - 3) / 2 < byzantine_tolerance {
        return None;
    }
    if !all_equal_to_first(lengths) {
        return None;
    }
    Some(n - (byzantine_tolerance + 2))
}

} // verus!
