use vstd::prelude::*;

verus! {

/// The index of the first of the largest values of `values`; 0 where there is none.
pub open spec fn first_max(values: Seq<int>) -> int
    decreases values.len(),
{
    if values.len() <= 1 {
        0
    } else {
        let before = first_max(values.drop_last());
        if values.last() > values[before] {
            values.len() - 1
        } else {
            before
        }
    }
}

/// `first_max` picks a largest value, and the first of them: no value is
/// larger, and every value before it is smaller.
pub proof fn lemma_first_max(values: Seq<int>)
    requires
        values.len() > 0,
    ensures
        0 <= first_max(values) < values.len(),
        forall|i: int|
            0 <= i < values.len() ==> #[trigger] values[i] <= values[first_max(values)],
        forall|i: int|
            0 <= i < first_max(values) ==> #[trigger] values[i] < values[first_max(values)],
    decreases values.len(),
{
    if values.len() > 1 {
        let init = values.drop_last();
        lemma_first_max(init);
        assert forall|i: int| 0 <= i < values.len() implies #[trigger] values[i]
            <= values[first_max(values)] by {
            if i < init.len() {
                assert(init[i] == values[i]);
            }
        }
        assert forall|i: int| 0 <= i < first_max(values) implies #[trigger] values[i]
            < values[first_max(values)] by {
            assert(init[i] == values[i]);
        }
    }
}

} // verus!
