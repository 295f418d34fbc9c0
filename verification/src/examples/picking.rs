//! Choosing among a handful of items, written out item by item.

use vstd::prelude::*;
use crate::model::{chosen, kept};

verus! {

/// One item where the verdict is `true`, none where it is `false`.
pub open spec fn pick<T>(item: T, verdict: bool) -> Seq<T> {
    if verdict {
        seq![item]
    } else {
        Seq::empty()
    }
}

/// Choosing among five items, written out item by item.
pub proof fn lemma_kept_of_five<T>(items: Seq<T>, verdicts: Seq<bool>)
    requires
        items.len() == 5,
        verdicts.len() == 5,
    ensures
        kept(items, verdicts) == pick(items[0], verdicts[0]) + pick(items[1], verdicts[1]) + pick(
            items[2],
            verdicts[2],
        ) + pick(items[3], verdicts[3]) + pick(items[4], verdicts[4]),
{
    reveal_with_fuel(chosen, 6);
    let i4 = items.drop_last();
    let i3 = i4.drop_last();
    let i2 = i3.drop_last();
    let i1 = i2.drop_last();
    let v4 = verdicts.drop_last();
    let v3 = v4.drop_last();
    let v2 = v3.drop_last();
    let v1 = v2.drop_last();
    assert(kept(i1.drop_last(), v1.drop_last()) =~= Seq::<T>::empty());
    assert(kept(i1, v1) =~= pick(items[0], verdicts[0]));
    assert(kept(i2, v2) =~= pick(items[0], verdicts[0]) + pick(items[1], verdicts[1]));
    assert(kept(i3, v3) =~= pick(items[0], verdicts[0]) + pick(items[1], verdicts[1]) + pick(
        items[2],
        verdicts[2],
    ));
    assert(kept(i4, v4) =~= pick(items[0], verdicts[0]) + pick(items[1], verdicts[1]) + pick(
        items[2],
        verdicts[2],
    ) + pick(items[3], verdicts[3]));
    assert(kept(items, verdicts) =~= pick(items[0], verdicts[0]) + pick(items[1], verdicts[1])
        + pick(items[2], verdicts[2]) + pick(items[3], verdicts[3]) + pick(
        items[4],
        verdicts[4],
    ));
}

/// Choosing among three items, written out item by item.
pub proof fn lemma_kept_of_three<T>(items: Seq<T>, verdicts: Seq<bool>)
    requires
        items.len() == 3,
        verdicts.len() == 3,
    ensures
        kept(items, verdicts) == pick(items[0], verdicts[0]) + pick(items[1], verdicts[1]) + pick(
            items[2],
            verdicts[2],
        ),
{
    reveal_with_fuel(chosen, 4);
    let i2 = items.drop_last();
    let i1 = i2.drop_last();
    let v2 = verdicts.drop_last();
    let v1 = v2.drop_last();
    assert(kept(i1.drop_last(), v1.drop_last()) =~= Seq::<T>::empty());
    assert(kept(i1, v1) =~= pick(items[0], verdicts[0]));
    assert(kept(i2, v2) =~= pick(items[0], verdicts[0]) + pick(items[1], verdicts[1]));
    assert(kept(items, verdicts) =~= pick(items[0], verdicts[0]) + pick(items[1], verdicts[1])
        + pick(items[2], verdicts[2]));
}

} // verus!
