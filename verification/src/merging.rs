//! Merging two sorted runs into one, and sorting by merging.
//!
//! A run is a stretch of the collection, sorted on its own. Two runs that
//! stand side by side are merged from the front: the next item is the left
//! run's, unless the right run's next item precedes it, so that ties come out
//! in the order they stood in. What `merged_so_far` says of the items merged
//! up to a point is what makes the result stably sorted at the end.

use vstd::prelude::*;
use crate::keypath::KeyPath;
use crate::model::{all_present, field, fields, present};
use crate::sorting::{accepts_pairs, answers, decides, in_stable_order, strict_weak_order};

verus! {

/// `run` holds items of `was` from the positions `from .. from + run.len()`,
/// each once: `origin[p]` is where the item at `p` stood. Under every order
/// that `precedes` decides the run is in order, and ties stand as they came.
pub open spec fn sorted_run<T, V, K: KeyPath<T, V>, L: Fn(&V, &V) -> bool>(
    keypath: &K,
    precedes: &L,
    was: Seq<T>,
    from: int,
    run: Seq<T>,
    origin: Seq<int>,
) -> bool {
    &&& 0 <= from
    &&& from + run.len() <= was.len()
    &&& origin.len() == run.len()
    &&& forall|p: int|
        0 <= p < run.len() ==> from <= #[trigger] origin[p] < from + run.len() && run[p]
            == was[origin[p]]
    &&& forall|p: int, q: int|
        0 <= p < q < run.len() ==> #[trigger] origin[p] != #[trigger] origin[q]
    &&& forall|before: spec_fn(V, V) -> bool|
        #[trigger] decides(precedes, before) && strict_weak_order(before) ==> in_stable_order(
            fields(keypath, run),
            origin,
            before,
            run.len() as int,
        )
}

/// The items in the opposite order.
pub fn reversed<T>(items: Vec<T>) -> (back: Vec<T>)
    ensures
        back@ == items@.reverse(),
{
    let mut items = items;
    let ghost was = items@;
    let mut back: Vec<T> = Vec::new();
    while items.len() > 0
        invariant
            items@.len() + back@.len() == was.len(),
            items@ == was.take(items@.len() as int),
            forall|p: int| 0 <= p < back@.len() ==> #[trigger] back@[p] == was[was.len() - 1 - p],
        decreases items@.len(),
    {
        match items.pop() {
            Some(x) => {
                back.push(x);
            },
            None => {},
        }
    }
    assert(back@ =~= was.reverse());
    back
}

/// What has been merged so far of two runs `left` and `right`: `out` holds
/// the first `i` items of `left` and the first `j` of `right`, each side in
/// its order, in stable order as a whole, and nothing that is still to come
/// belongs before anything in it.
pub open spec fn merged_so_far<V>(
    left: Seq<V>,
    left_origin: Seq<int>,
    right: Seq<V>,
    right_origin: Seq<int>,
    out: Seq<V>,
    origin: Seq<int>,
    from_left: Seq<bool>,
    at: Seq<int>,
    i: int,
    j: int,
    before: spec_fn(V, V) -> bool,
) -> bool {
    &&& in_stable_order(out, origin, before, out.len() as int)
    &&& forall|p: int, a: int|
        0 <= p < out.len() && i <= a < left.len() ==> !before(#[trigger] left[a], #[trigger] out[p])
            && (!from_left[p] ==> before(out[p], left[a]))
    &&& forall|p: int, b: int|
        0 <= p < out.len() && j <= b < right.len() ==> !before(
            #[trigger] right[b],
            #[trigger] out[p],
        )
}

/// Where the merged items came from: each from one side, at a position
/// before those still to come, the sides each in their order.
pub open spec fn sides_in_order<V>(
    left: Seq<V>,
    left_origin: Seq<int>,
    right: Seq<V>,
    right_origin: Seq<int>,
    out: Seq<V>,
    origin: Seq<int>,
    from_left: Seq<bool>,
    at: Seq<int>,
    i: int,
    j: int,
) -> bool {
    &&& out.len() == i + j
    &&& origin.len() == out.len()
    &&& from_left.len() == out.len()
    &&& at.len() == out.len()
    &&& forall|p: int|
        0 <= p < out.len() ==> if #[trigger] from_left[p] {
            0 <= at[p] < i && out[p] == left[at[p]] && origin[p] == left_origin[at[p]]
        } else {
            0 <= at[p] < j && out[p] == right[at[p]] && origin[p] == right_origin[at[p]]
        }
    &&& forall|p: int, q: int|
        0 <= p < q < out.len() && #[trigger] from_left[p] == #[trigger] from_left[q] ==> at[p]
            < at[q]
}

/// Taking the next item of the left run keeps what has been merged in order,
/// where the next item of the right run, if there is one, does not precede it.
pub proof fn lemma_take_left<V>(
    left: Seq<V>,
    left_origin: Seq<int>,
    right: Seq<V>,
    right_origin: Seq<int>,
    out: Seq<V>,
    origin: Seq<int>,
    from_left: Seq<bool>,
    at: Seq<int>,
    i: int,
    j: int,
    before: spec_fn(V, V) -> bool,
    split: int,
)
    requires
        strict_weak_order(before),
        0 <= i < left.len(),
        0 <= j <= right.len(),
        left_origin.len() == left.len(),
        right_origin.len() == right.len(),
        in_stable_order(left, left_origin, before, left.len() as int),
        in_stable_order(right, right_origin, before, right.len() as int),
        forall|a: int| 0 <= a < left.len() ==> #[trigger] left_origin[a] < split,
        forall|b: int| 0 <= b < right.len() ==> #[trigger] right_origin[b] >= split,
        sides_in_order(left, left_origin, right, right_origin, out, origin, from_left, at, i, j),
        merged_so_far(left, left_origin, right, right_origin, out, origin, from_left, at, i, j, before),
        j < right.len() ==> !before(right[j], left[i]),
    ensures
        merged_so_far(
            left,
            left_origin,
            right,
            right_origin,
            out.push(left[i]),
            origin.push(left_origin[i]),
            from_left.push(true),
            at.push(i),
            i + 1,
            j,
            before,
        ),
{
    let out2 = out.push(left[i]);
    let origin2 = origin.push(left_origin[i]);
    let from2 = from_left.push(true);
    let n = out.len() as int;
    assert forall|a: int, b: int| 0 <= a < b < out2.len() implies before(
        #[trigger] out2[a],
        #[trigger] out2[b],
    ) || (!before(out2[b], out2[a]) && origin2[a] < origin2[b]) by {
        if b < n {
            assert(out2[a] == out[a] && out2[b] == out[b]);
        } else {
            assert(out2[a] == out[a] && out2[b] == left[i]);
            assert(!before(left[i], out[a]));
            if from_left[a] {
                assert(out[a] == left[at[a]] && origin[a] == left_origin[at[a]]);
                assert(before(left[at[a]], left[i]) || (!before(left[i], left[at[a]])
                    && left_origin[at[a]] < left_origin[i]));
            } else {
                assert(before(out[a], left[i]));
            }
        }
    }
    assert forall|p: int, a: int| 0 <= p < out2.len() && i + 1 <= a < left.len() implies !before(
        #[trigger] left[a],
        #[trigger] out2[p],
    ) && (!from2[p] ==> before(out2[p], left[a])) by {
        if p < n {
            assert(out2[p] == out[p]);
            assert(!before(left[a], out[p]));
        } else {
            assert(before(left[i], left[a]) || !before(left[a], left[i]));
        }
    }
    assert forall|p: int, b: int| 0 <= p < out2.len() && j <= b < right.len() implies !before(
        #[trigger] right[b],
        #[trigger] out2[p],
    ) by {
        if p < n {
            assert(out2[p] == out[p]);
            assert(!before(right[b], out[p]));
        } else {
            if b > j {
                assert(before(right[j], right[b]) || !before(right[b], right[j]));
            }
        }
    }
}

/// Taking the next item of the right run keeps what has been merged in
/// order, where it precedes the next item of the left run, if there is one.
pub proof fn lemma_take_right<V>(
    left: Seq<V>,
    left_origin: Seq<int>,
    right: Seq<V>,
    right_origin: Seq<int>,
    out: Seq<V>,
    origin: Seq<int>,
    from_left: Seq<bool>,
    at: Seq<int>,
    i: int,
    j: int,
    before: spec_fn(V, V) -> bool,
    split: int,
)
    requires
        strict_weak_order(before),
        0 <= i <= left.len(),
        0 <= j < right.len(),
        left_origin.len() == left.len(),
        right_origin.len() == right.len(),
        in_stable_order(left, left_origin, before, left.len() as int),
        in_stable_order(right, right_origin, before, right.len() as int),
        forall|a: int| 0 <= a < left.len() ==> #[trigger] left_origin[a] < split,
        forall|b: int| 0 <= b < right.len() ==> #[trigger] right_origin[b] >= split,
        sides_in_order(left, left_origin, right, right_origin, out, origin, from_left, at, i, j),
        merged_so_far(left, left_origin, right, right_origin, out, origin, from_left, at, i, j, before),
        i < left.len() ==> before(right[j], left[i]),
    ensures
        merged_so_far(
            left,
            left_origin,
            right,
            right_origin,
            out.push(right[j]),
            origin.push(right_origin[j]),
            from_left.push(false),
            at.push(j),
            i,
            j + 1,
            before,
        ),
{
    let out2 = out.push(right[j]);
    let origin2 = origin.push(right_origin[j]);
    let from2 = from_left.push(false);
    let n = out.len() as int;
    assert forall|a: int, b: int| 0 <= a < b < out2.len() implies before(
        #[trigger] out2[a],
        #[trigger] out2[b],
    ) || (!before(out2[b], out2[a]) && origin2[a] < origin2[b]) by {
        if b < n {
            assert(out2[a] == out[a] && out2[b] == out[b]);
        } else {
            assert(out2[a] == out[a] && out2[b] == right[j]);
            assert(!before(right[j], out[a]));
            if from_left[a] {
                assert(origin[a] == left_origin[at[a]]);
                assert(left_origin[at[a]] < split && right_origin[j] >= split);
            } else {
                assert(out[a] == right[at[a]] && origin[a] == right_origin[at[a]]);
                assert(before(right[at[a]], right[j]) || (!before(right[j], right[at[a]])
                    && right_origin[at[a]] < right_origin[j]));
            }
        }
    }
    assert forall|p: int, a: int| 0 <= p < out2.len() && i <= a < left.len() implies !before(
        #[trigger] left[a],
        #[trigger] out2[p],
    ) && (!from2[p] ==> before(out2[p], left[a])) by {
        if p < n {
            assert(out2[p] == out[p]);
            assert(!before(left[a], out[p]) && (!from_left[p] ==> before(out[p], left[a])));
        } else {
            assert(before(right[j], left[i]));
            if a > i {
                assert(before(left[i], left[a]) || !before(left[a], left[i]));
            }
        }
    }
    assert forall|p: int, b: int| 0 <= p < out2.len() && j + 1 <= b < right.len() implies !before(
        #[trigger] right[b],
        #[trigger] out2[p],
    ) by {
        if p < n {
            assert(out2[p] == out[p]);
            assert(!before(right[b], out[p]));
        } else {
            assert(before(right[j], right[b]) || !before(right[b], right[j]));
        }
    }
}

/// One more item, from either side, keeps the record of the sides in order.
pub proof fn lemma_sides_push<V>(
    left: Seq<V>,
    left_origin: Seq<int>,
    right: Seq<V>,
    right_origin: Seq<int>,
    out: Seq<V>,
    origin: Seq<int>,
    from_left: Seq<bool>,
    at: Seq<int>,
    i: int,
    j: int,
    take_left: bool,
)
    requires
        0 <= i <= left.len(),
        0 <= j <= right.len(),
        take_left ==> i < left.len(),
        !take_left ==> j < right.len(),
        left_origin.len() == left.len(),
        right_origin.len() == right.len(),
        sides_in_order(left, left_origin, right, right_origin, out, origin, from_left, at, i, j),
    ensures
        take_left ==> sides_in_order(
            left,
            left_origin,
            right,
            right_origin,
            out.push(left[i]),
            origin.push(left_origin[i]),
            from_left.push(true),
            at.push(i),
            i + 1,
            j,
        ),
        !take_left ==> sides_in_order(
            left,
            left_origin,
            right,
            right_origin,
            out.push(right[j]),
            origin.push(right_origin[j]),
            from_left.push(false),
            at.push(j),
            i,
            j + 1,
        ),
{
    let n = out.len() as int;
    if take_left {
        let out2 = out.push(left[i]);
        let from2 = from_left.push(true);
        let at2 = at.push(i);
        let origin2 = origin.push(left_origin[i]);
        assert forall|p: int| 0 <= p < out2.len() implies if #[trigger] from2[p] {
            0 <= at2[p] < i + 1 && out2[p] == left[at2[p]] && origin2[p] == left_origin[at2[p]]
        } else {
            0 <= at2[p] < j && out2[p] == right[at2[p]] && origin2[p] == right_origin[at2[p]]
        } by {
            if p < n {
                assert(from2[p] == from_left[p] && at2[p] == at[p] && out2[p] == out[p]
                    && origin2[p] == origin[p]);
            }
        }
        assert forall|p: int, q: int|
            0 <= p < q < out2.len() && #[trigger] from2[p] == #[trigger] from2[q] implies at2[p]
            < at2[q] by {
            assert(from2[p] == from_left[p] && at2[p] == at[p]);
            if q < n {
                assert(from2[q] == from_left[q] && at2[q] == at[q]);
            }
        }
    } else {
        let out2 = out.push(right[j]);
        let from2 = from_left.push(false);
        let at2 = at.push(j);
        let origin2 = origin.push(right_origin[j]);
        assert forall|p: int| 0 <= p < out2.len() implies if #[trigger] from2[p] {
            0 <= at2[p] < i && out2[p] == left[at2[p]] && origin2[p] == left_origin[at2[p]]
        } else {
            0 <= at2[p] < j + 1 && out2[p] == right[at2[p]] && origin2[p] == right_origin[at2[p]]
        } by {
            if p < n {
                assert(from2[p] == from_left[p] && at2[p] == at[p] && out2[p] == out[p]
                    && origin2[p] == origin[p]);
            }
        }
        assert forall|p: int, q: int|
            0 <= p < q < out2.len() && #[trigger] from2[p] == #[trigger] from2[q] implies at2[p]
            < at2[q] by {
            assert(from2[p] == from_left[p] && at2[p] == at[p]);
            if q < n {
                assert(from2[q] == from_left[q] && at2[q] == at[q]);
            }
        }
    }
}

/// The record of the sides, read for the fields in place of the items.
proof fn lemma_sides_of_fields<T, V, K: KeyPath<T, V>>(
    keypath: &K,
    left: Seq<T>,
    left_origin: Seq<int>,
    right: Seq<T>,
    right_origin: Seq<int>,
    out: Seq<T>,
    origin: Seq<int>,
    from_left: Seq<bool>,
    at: Seq<int>,
    i: int,
    j: int,
)
    requires
        0 <= i <= left.len(),
        0 <= j <= right.len(),
        sides_in_order(left, left_origin, right, right_origin, out, origin, from_left, at, i, j),
    ensures
        sides_in_order(
            fields(keypath, left),
            left_origin,
            fields(keypath, right),
            right_origin,
            fields(keypath, out),
            origin,
            from_left,
            at,
            i,
            j,
        ),
{
}

/// Merges two sorted runs that stand side by side into one.
///
/// Of two items that the order does not separate, the one from the left run
/// goes first: the right run's next item is taken only where `precedes` says
/// it comes before the left run's.
fn merge<T, V, K, L>(
    left: Vec<T>,
    right: Vec<T>,
    keypath: &K,
    precedes: &L,
    Ghost(was): Ghost<Seq<T>>,
    Ghost(from): Ghost<int>,
    Ghost(left_origin): Ghost<Seq<int>>,
    Ghost(right_origin): Ghost<Seq<int>>,
) -> (merged: (Vec<T>, Ghost<Seq<int>>)) where K: KeyPath<T, V>, L: Fn(&V, &V) -> bool
    requires
        all_present(keypath, was),
        accepts_pairs(precedes, keypath, was),
        sorted_run(keypath, precedes, was, from, left@, left_origin),
        sorted_run(keypath, precedes, was, from + left@.len(), right@, right_origin),
    ensures
        merged.0@.len() == left@.len() + right@.len(),
        sorted_run(keypath, precedes, was, from, merged.0@, merged.1@),
{
    let ghost l = left@;
    let ghost r = right@;
    let ghost lk = fields(keypath, l);
    let ghost rk = fields(keypath, r);
    let ghost split = from + l.len();
    let mut ls = reversed(left);
    let mut rs = reversed(right);
    let mut out: Vec<T> = Vec::new();
    let ghost mut origin: Seq<int> = Seq::empty();
    let ghost mut from_left: Seq<bool> = Seq::empty();
    let ghost mut at: Seq<int> = Seq::empty();
    let ghost mut i: int = 0;
    let ghost mut j: int = 0;
    loop
        invariant
            all_present(keypath, was),
            accepts_pairs(precedes, keypath, was),
            sorted_run(keypath, precedes, was, from, l, left_origin),
            sorted_run(keypath, precedes, was, split, r, right_origin),
            split == from + l.len(),
            lk == fields(keypath, l),
            rk == fields(keypath, r),
            0 <= i <= l.len(),
            0 <= j <= r.len(),
            ls@.len() == l.len() - i,
            rs@.len() == r.len() - j,
            forall|k: int| 0 <= k < ls@.len() ==> #[trigger] ls@[k] == l[l.len() - 1 - k],
            forall|k: int| 0 <= k < rs@.len() ==> #[trigger] rs@[k] == r[r.len() - 1 - k],
            sides_in_order(l, left_origin, r, right_origin, out@, origin, from_left, at, i, j),
            forall|before: spec_fn(V, V) -> bool|
                #[trigger] decides(precedes, before) && strict_weak_order(before) ==> merged_so_far(
                    lk,
                    left_origin,
                    rk,
                    right_origin,
                    fields(keypath, out@),
                    origin,
                    from_left,
                    at,
                    i,
                    j,
                    before,
                ),
        ensures
            ls@.len() == 0 && rs@.len() == 0,
        decreases ls@.len() + rs@.len(),
    {
        if ls.len() == 0 && rs.len() == 0 {
            break ;
        }
        let take_left = if rs.len() == 0 {
            true
        } else if ls.len() == 0 {
            false
        } else {
            let x = &ls[ls.len() - 1];
            let y = &rs[rs.len() - 1];
            assert(*x == l[i] && *y == r[j]);
            assert(l[i] == was[left_origin[i]] && r[j] == was[right_origin[j]]);
            assert(present(keypath, was[left_origin[i]]) && present(keypath, was[right_origin[j]]));
            assert(call_requires(
                *precedes,
                (&field(keypath, was[right_origin[j]]), &field(keypath, was[left_origin[i]])),
            ));
            let right_first = match (keypath.get(y), keypath.get(x)) {
                (Some(ky), Some(kx)) => precedes(ky, kx),
                _ => false,
            };
            assert(answers(precedes, rk[j], lk[i], right_first));
            !right_first
        };
        proof {
            lemma_sides_of_fields(
                keypath,
                l,
                left_origin,
                r,
                right_origin,
                out@,
                origin,
                from_left,
                at,
                i,
                j,
            );
            lemma_sides_push(
                l,
                left_origin,
                r,
                right_origin,
                out@,
                origin,
                from_left,
                at,
                i,
                j,
                take_left,
            );
        }
        if take_left {
            let ghost keys = fields(keypath, out@);
            match ls.pop() {
                Some(z) => {
                    out.push(z);
                },
                None => {},
            }
            proof {
                assert(fields(keypath, out@) =~= keys.push(lk[i]));
                assert forall|before: spec_fn(V, V) -> bool|
                    #[trigger] decides(precedes, before) && strict_weak_order(
                        before,
                    ) implies merged_so_far(
                    lk,
                    left_origin,
                    rk,
                    right_origin,
                    fields(keypath, out@),
                    origin.push(left_origin[i]),
                    from_left.push(true),
                    at.push(i),
                    i + 1,
                    j,
                    before,
                ) by {
                    if j < r.len() {
                        assert(answers(precedes, rk[j], lk[i], false));
                    }
                    lemma_take_left(
                        lk,
                        left_origin,
                        rk,
                        right_origin,
                        keys,
                        origin,
                        from_left,
                        at,
                        i,
                        j,
                        before,
                        split,
                    );
                }
                origin = origin.push(left_origin[i]);
                from_left = from_left.push(true);
                at = at.push(i);
                i = i + 1;
            }
        } else {
            let ghost keys = fields(keypath, out@);
            match rs.pop() {
                Some(z) => {
                    out.push(z);
                },
                None => {},
            }
            proof {
                assert(fields(keypath, out@) =~= keys.push(rk[j]));
                assert forall|before: spec_fn(V, V) -> bool|
                    #[trigger] decides(precedes, before) && strict_weak_order(
                        before,
                    ) implies merged_so_far(
                    lk,
                    left_origin,
                    rk,
                    right_origin,
                    fields(keypath, out@),
                    origin.push(right_origin[j]),
                    from_left.push(false),
                    at.push(j),
                    i,
                    j + 1,
                    before,
                ) by {
                    if i < l.len() {
                        assert(answers(precedes, rk[j], lk[i], true));
                    }
                    lemma_take_right(
                        lk,
                        left_origin,
                        rk,
                        right_origin,
                        keys,
                        origin,
                        from_left,
                        at,
                        i,
                        j,
                        before,
                        split,
                    );
                }
                origin = origin.push(right_origin[j]);
                from_left = from_left.push(false);
                at = at.push(j);
                j = j + 1;
            }
        }
    }
    proof {
        assert forall|p: int| 0 <= p < out@.len() implies from <= #[trigger] origin[p] < from
            + out@.len() && out@[p] == was[origin[p]] by {
            if from_left[p] {
                assert(origin[p] == left_origin[at[p]]);
            } else {
                assert(origin[p] == right_origin[at[p]]);
            }
        }
        assert forall|p: int, q: int| 0 <= p < q < out@.len() implies #[trigger] origin[p]
            != #[trigger] origin[q] by {
            if from_left[p] {
                assert(origin[p] == left_origin[at[p]]);
            } else {
                assert(origin[p] == right_origin[at[p]]);
            }
            if from_left[q] {
                assert(origin[q] == left_origin[at[q]]);
            } else {
                assert(origin[q] == right_origin[at[q]]);
            }
        }
    }
    (out, Ghost(origin))
}

/// Sorts a stretch of the collection by merging: the two halves are sorted
/// on their own and then merged.
pub(crate) fn sort_run<T, V, K, L>(
    items: Vec<T>,
    keypath: &K,
    precedes: &L,
    Ghost(was): Ghost<Seq<T>>,
    Ghost(from): Ghost<int>,
) -> (sorted: (Vec<T>, Ghost<Seq<int>>)) where K: KeyPath<T, V>, L: Fn(&V, &V) -> bool
    requires
        all_present(keypath, was),
        accepts_pairs(precedes, keypath, was),
        0 <= from,
        from + items@.len() <= was.len(),
        items@ == was.subrange(from, from + items@.len()),
    ensures
        sorted.0@.len() == items@.len(),
        sorted_run(keypath, precedes, was, from, sorted.0@, sorted.1@),
    decreases items@.len(),
{
    if items.len() <= 1 {
        let ghost origin = Seq::new(items@.len(), |p: int| from + p);
        return (items, Ghost(origin));
    }
    let mut left = items;
    let ghost all = left@;
    let mid = left.len() / 2;
    let right = left.split_off(mid);
    assert(left@ == was.subrange(from, from + left@.len()));
    assert(right@ == was.subrange(from + mid, from + mid + right@.len()));
    let (sorted_left, Ghost(left_origin)) = sort_run(left, keypath, precedes, Ghost(was), Ghost(from));
    let (sorted_right, Ghost(right_origin)) = sort_run(
        right,
        keypath,
        precedes,
        Ghost(was),
        Ghost(from + mid),
    );
    merge(
        sorted_left,
        sorted_right,
        keypath,
        precedes,
        Ghost(was),
        Ghost(from),
        Ghost(left_origin),
        Ghost(right_origin),
    )
}

} // verus!
