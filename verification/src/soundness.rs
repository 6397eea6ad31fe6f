//! What holds of the worklist in every state.
//!
//! A state of the work is sound when every key that it names is alive in the pool, or
//! was retired by the last split, and the shapes that it is about to test or to split go
//! together. The start of the work is sound, every step keeps a sound state sound, and
//! in a sound state the next step can always be taken as long as ids are left: the work
//! never names a shape that is gone, and in every pair and every collision the lower key
//! stands first.
//!
//! A pair whose carriers do not meet changes nothing, and a pool that no split has
//! touched is emitted as the sketch that it was made from.

use crate::geometry::{Arc2, Circle2, Line2};
use crate::incrementing_map::{
    ascending, has_key, keys_of, lemma_push, lemma_remove, lemma_slot_unique, lemma_update, slot,
    without,
};
use crate::intersections::{identified, lemma_identified, Collision, Contact, Shape};
use crate::sketch::SketchView;
use crate::splitter::{
    all_pairs, arc_shapes, arcs_in, born, circle_shapes, circles_in, cut_circle, cut_in_place,
    first_half, keys_in, line_shapes, lines_in, live_collisions, live_pairs, numbered,
    pairs_above, pairs_upto, product, pushed_front, remember, remembered, retired, row,
    second_half, shapes_of, split_pool, with_halves, Phase, SplitView,
};
use vstd::prelude::*;

verus! {

/// The pool as a mapping from keys to shapes.
#[verifier::opaque]
spec fn map_of(pool: Seq<(u64, Shape)>) -> Map<u64, Shape> {
    Map::new(|k: u64| has_key(pool, k), |k: u64| pool[slot(pool, k)].1)
}

/// Whether no key of `pool` is above `highest`.
pub open spec fn bounded(pool: Seq<(u64, Shape)>, highest: int) -> bool {
    forall|i: int| 0 <= i < pool.len() ==> (#[trigger] pool[i]).0 <= highest
}

/// A key of a bounded pool is not above the bound.
proof fn lemma_bounded_key(pool: Seq<(u64, Shape)>, highest: int, k: u64)
    requires
        bounded(pool, highest),
        has_key(pool, k),
    ensures
        k <= highest,
{
    let i = slot(pool, k);
    assert(pool[i].0 <= highest);
}

/// The mapping holds the keys of the pool, each with its shape.
proof fn lemma_map_at(pool: Seq<(u64, Shape)>, k: u64)
    ensures
        map_of(pool).dom().contains(k) == has_key(pool, k),
        has_key(pool, k) ==> map_of(pool)[k] == pool[slot(pool, k)].1,
{
    reveal(map_of);
}

/// What a new entry above all keys makes of the mapping.
proof fn lemma_map_push(pool: Seq<(u64, Shape)>, highest: int, k: u64, shape: Shape)
    requires
        ascending(pool),
        bounded(pool, highest),
        highest < k,
    ensures
        ascending(pool.push((k, shape))),
        bounded(pool.push((k, shape)), k as int),
        map_of(pool.push((k, shape))) == map_of(pool).insert(k, shape),
{
    reveal(map_of);
    let next = pool.push((k, shape));
    assert forall|i: int| 0 <= i < pool.len() implies (#[trigger] pool[i]).0 < k by {
        assert(pool[i].0 <= highest);
    }
    lemma_push(pool, k, shape);
    assert forall|i: int| 0 <= i < next.len() implies (#[trigger] next[i]).0 <= k by {
        if i < pool.len() {
            assert(next[i] == pool[i]);
            assert(pool[i].0 <= highest);
        }
    }
    assert(map_of(next) =~= map_of(pool).insert(k, shape));
}

/// What another shape under a key makes of the mapping.
proof fn lemma_map_update(pool: Seq<(u64, Shape)>, highest: int, k: u64, shape: Shape)
    requires
        ascending(pool),
        bounded(pool, highest),
        has_key(pool, k),
    ensures
        ascending(pool.update(slot(pool, k), (k, shape))),
        bounded(pool.update(slot(pool, k), (k, shape)), highest),
        map_of(pool.update(slot(pool, k), (k, shape))) == map_of(pool).insert(k, shape),
{
    reveal(map_of);
    let i = slot(pool, k);
    assert(0 <= i < pool.len() && pool[i].0 == k);
    let next = pool.update(i, (k, shape));
    lemma_update(pool, i, shape);
    assert forall|n: int| 0 <= n < next.len() implies (#[trigger] next[n]).0 <= highest by {
        assert(next[n].0 == pool[n].0);
        assert(pool[n].0 <= highest);
    }
    assert(map_of(next) =~= map_of(pool).insert(k, shape));
}

/// What taking a key out makes of the mapping.
proof fn lemma_map_without(pool: Seq<(u64, Shape)>, highest: int, k: u64)
    requires
        ascending(pool),
        bounded(pool, highest),
    ensures
        ascending(without(pool, k)),
        bounded(without(pool, k), highest),
        map_of(without(pool, k)) == map_of(pool).remove(k),
{
    reveal(map_of);
    if has_key(pool, k) {
        let i = slot(pool, k);
        assert(0 <= i < pool.len() && pool[i].0 == k);
        let next = pool.remove(i);
        lemma_remove(pool, i);
        assert forall|n: int| 0 <= n < next.len() implies (#[trigger] next[n]).0 <= highest by {
            let m = if n < i {
                n
            } else {
                n + 1
            };
            assert(next[n] == pool[m]);
            assert(pool[m].0 <= highest);
        }
        assert(map_of(next) =~= map_of(pool).remove(k));
    } else {
        assert(map_of(pool) =~= map_of(pool).remove(k));
    }
}

/// What two halves under the two keys above `highest` make of the mapping.
proof fn lemma_map_halves(pool: Seq<(u64, Shape)>, highest: u64, shape: Shape, point: u64)
    requires
        ascending(pool),
        bounded(pool, highest as int),
        highest <= u64::MAX - 2,
    ensures
        ascending(with_halves(pool, highest, shape, point)),
        bounded(with_halves(pool, highest, shape, point), highest + 2),
        map_of(with_halves(pool, highest, shape, point)) == map_of(pool).insert(
            (highest + 1) as u64,
            first_half(shape, point),
        ).insert((highest + 2) as u64, second_half(shape, point)),
{
    let k1 = (highest + 1) as u64;
    let k2 = (highest + 2) as u64;
    lemma_map_push(pool, highest as int, k1, first_half(shape, point));
    lemma_map_push(pool.push((k1, first_half(shape, point))), k1 as int, k2, second_half(
        shape,
        point,
    ));
}

/// The mapping after a split, by the kinds of the two shapes.
spec fn split_map(
    shapes: Map<u64, Shape>,
    highest: u64,
    a: u64,
    b: u64,
    point: u64,
) -> Map<u64, Shape> {
    let k1 = (highest + 1) as u64;
    let k2 = (highest + 2) as u64;
    let k3 = (highest + 3) as u64;
    let k4 = (highest + 4) as u64;
    match (shapes[a], shapes[b]) {
        (Shape::Circle(circle_a), Shape::Circle(circle_b)) => shapes.insert(
            a,
            cut_circle(circle_a.center, point),
        ).insert(b, cut_circle(circle_b.center, point)),
        (Shape::Circle(circle_a), Shape::Arc(_)) => shapes.insert(
            a,
            cut_circle(circle_a.center, point),
        ).insert(k1, first_half(shapes[b], point)).insert(
            k2,
            second_half(shapes[b], point),
        ).remove(b),
        (Shape::Arc(_), Shape::Circle(circle_b)) => shapes.insert(
            b,
            cut_circle(circle_b.center, point),
        ).insert(k1, first_half(shapes[a], point)).insert(
            k2,
            second_half(shapes[a], point),
        ).remove(a),
        (Shape::Arc(_), Shape::Arc(_)) | (Shape::Line(_), Shape::Line(_)) => shapes.insert(
            k1,
            first_half(shapes[a], point),
        ).insert(k2, second_half(shapes[a], point)).insert(
            k3,
            first_half(shapes[b], point),
        ).insert(k4, second_half(shapes[b], point)).remove(a).remove(b),
        _ => shapes,
    }
}

/// What the split of two circles makes of the mapping.
proof fn lemma_split_circles(pool: Seq<(u64, Shape)>, highest: u64, a: u64, b: u64, point: u64)
    requires
        ascending(pool),
        bounded(pool, highest as int),
        has_key(pool, a),
        has_key(pool, b),
        pool[slot(pool, a)].1 is Circle,
        pool[slot(pool, b)].1 is Circle,
    ensures
        ascending(split_pool(pool, highest, a, b, point)),
        bounded(split_pool(pool, highest, a, b, point), highest as int),
        map_of(split_pool(pool, highest, a, b, point)) == map_of(pool).insert(
            a,
            cut_circle(pool[slot(pool, a)].1->Circle_0.center, point),
        ).insert(b, cut_circle(pool[slot(pool, b)].1->Circle_0.center, point)),
{
    let circle_a = pool[slot(pool, a)].1->Circle_0;
    let circle_b = pool[slot(pool, b)].1->Circle_0;
    lemma_map_update(pool, highest as int, a, cut_circle(circle_a.center, point));
    let once = cut_in_place(pool, a, point);
    lemma_map_at(once, b);
    lemma_map_at(pool, b);
    lemma_map_update(once, highest as int, b, cut_circle(circle_b.center, point));
}

/// What the split of a circle and an arc makes of the mapping.
proof fn lemma_split_circle_arc(pool: Seq<(u64, Shape)>, highest: u64, a: u64, b: u64, point: u64)
    requires
        ascending(pool),
        bounded(pool, highest as int),
        highest <= u64::MAX - 2,
        has_key(pool, a),
        has_key(pool, b),
        pool[slot(pool, a)].1 is Circle,
        pool[slot(pool, b)].1 is Arc,
    ensures
        ascending(split_pool(pool, highest, a, b, point)),
        bounded(split_pool(pool, highest, a, b, point), highest + 2),
        map_of(split_pool(pool, highest, a, b, point)) == map_of(pool).insert(
            a,
            cut_circle(pool[slot(pool, a)].1->Circle_0.center, point),
        ).insert((highest + 1) as u64, first_half(pool[slot(pool, b)].1, point)).insert(
            (highest + 2) as u64,
            second_half(pool[slot(pool, b)].1, point),
        ).remove(b),
{
    let circle_a = pool[slot(pool, a)].1->Circle_0;
    let shape_b = pool[slot(pool, b)].1;
    lemma_map_update(pool, highest as int, a, cut_circle(circle_a.center, point));
    let once = cut_in_place(pool, a, point);
    lemma_map_halves(once, highest, shape_b, point);
    lemma_map_without(with_halves(once, highest, shape_b, point), highest + 2, b);
}

/// What the split of an arc and a circle makes of the mapping.
proof fn lemma_split_arc_circle(pool: Seq<(u64, Shape)>, highest: u64, a: u64, b: u64, point: u64)
    requires
        ascending(pool),
        bounded(pool, highest as int),
        highest <= u64::MAX - 2,
        has_key(pool, a),
        has_key(pool, b),
        pool[slot(pool, a)].1 is Arc,
        pool[slot(pool, b)].1 is Circle,
    ensures
        ascending(split_pool(pool, highest, a, b, point)),
        bounded(split_pool(pool, highest, a, b, point), highest + 2),
        map_of(split_pool(pool, highest, a, b, point)) == map_of(pool).insert(
            b,
            cut_circle(pool[slot(pool, b)].1->Circle_0.center, point),
        ).insert((highest + 1) as u64, first_half(pool[slot(pool, a)].1, point)).insert(
            (highest + 2) as u64,
            second_half(pool[slot(pool, a)].1, point),
        ).remove(a),
{
    let circle_b = pool[slot(pool, b)].1->Circle_0;
    let shape_a = pool[slot(pool, a)].1;
    lemma_map_update(pool, highest as int, b, cut_circle(circle_b.center, point));
    let once = cut_in_place(pool, b, point);
    lemma_map_halves(once, highest, shape_a, point);
    lemma_map_without(with_halves(once, highest, shape_a, point), highest + 2, a);
}

/// What the split of two arcs, or of two lines, makes of the mapping.
proof fn lemma_split_pair(pool: Seq<(u64, Shape)>, highest: u64, a: u64, b: u64, point: u64)
    requires
        ascending(pool),
        bounded(pool, highest as int),
        highest <= u64::MAX - 4,
        has_key(pool, a),
        has_key(pool, b),
        (pool[slot(pool, a)].1 is Arc && pool[slot(pool, b)].1 is Arc) || (pool[slot(
            pool,
            a,
        )].1 is Line && pool[slot(pool, b)].1 is Line),
    ensures
        ascending(split_pool(pool, highest, a, b, point)),
        bounded(split_pool(pool, highest, a, b, point), highest + 4),
        map_of(split_pool(pool, highest, a, b, point)) == map_of(pool).insert(
            (highest + 1) as u64,
            first_half(pool[slot(pool, a)].1, point),
        ).insert((highest + 2) as u64, second_half(pool[slot(pool, a)].1, point)).insert(
            (highest + 3) as u64,
            first_half(pool[slot(pool, b)].1, point),
        ).insert((highest + 4) as u64, second_half(pool[slot(pool, b)].1, point)).remove(
            a,
        ).remove(b),
{
    let shape_a = pool[slot(pool, a)].1;
    let shape_b = pool[slot(pool, b)].1;
    lemma_map_halves(pool, highest, shape_a, point);
    let two = with_halves(pool, highest, shape_a, point);
    lemma_map_halves(two, (highest + 2) as u64, shape_b, point);
    let four = with_halves(two, (highest + 2) as u64, shape_b, point);
    lemma_map_without(four, highest + 4, a);
    lemma_map_without(without(four, a), highest + 4, b);
}

/// A split keeps the pool in order and does to the mapping what [`split_map`] says.
proof fn lemma_split_map(pool: Seq<(u64, Shape)>, highest: u64, a: u64, b: u64, point: u64)
    requires
        ascending(pool),
        bounded(pool, highest as int),
        highest <= u64::MAX - 4,
        has_key(pool, a),
        has_key(pool, b),
    ensures
        ascending(split_pool(pool, highest, a, b, point)),
        bounded(
            split_pool(pool, highest, a, b, point),
            highest + born(map_of(pool)[a], map_of(pool)[b], highest).len(),
        ),
        map_of(split_pool(pool, highest, a, b, point)) == split_map(
            map_of(pool),
            highest,
            a,
            b,
            point,
        ),
{
    let shape_a = pool[slot(pool, a)].1;
    let shape_b = pool[slot(pool, b)].1;
    lemma_map_at(pool, a);
    lemma_map_at(pool, b);
    match (shape_a, shape_b) {
        (Shape::Circle(_), Shape::Circle(_)) => {
            lemma_split_circles(pool, highest, a, b, point);
        },
        (Shape::Circle(_), Shape::Arc(_)) => {
            lemma_split_circle_arc(pool, highest, a, b, point);
        },
        (Shape::Arc(_), Shape::Circle(_)) => {
            lemma_split_arc_circle(pool, highest, a, b, point);
        },
        (Shape::Arc(_), Shape::Arc(_)) | (Shape::Line(_), Shape::Line(_)) => {
            lemma_split_pair(pool, highest, a, b, point);
        },
        _ => {},
    }
}

/// Whether some pair of `pairs` names `k`.
spec fn named_in(pairs: Seq<(u64, u64)>, k: u64) -> bool {
    exists|j: int| 0 <= j < pairs.len() && ((#[trigger] pairs[j]).0 == k || pairs[j].1 == k)
}

/// Whether the shapes of `pool` are all lines, or all circles and arcs.
pub open spec fn uniform(pool: Seq<(u64, Shape)>) -> bool {
    ||| forall|i: int| 0 <= i < pool.len() ==> (#[trigger] pool[i]).1 is Line
    ||| forall|i: int| 0 <= i < pool.len() ==> !((#[trigger] pool[i]).1 is Line)
}

impl SplitView {
    /// Whether `k` is a key of the pool, or was retired by the last split.
    pub open spec fn knows(self, k: u64) -> bool {
        has_key(self.pool, k) || self.deleted.contains(k)
    }

    /// Whether `k` is below every new key.
    pub open spec fn below_fresh(self, k: u64) -> bool {
        forall|j: int| 0 <= j < self.fresh.len() ==> k < #[trigger] self.fresh[j]
    }

    /// Whether a split finds the ids that it needs: one for a point, four for shapes.
    pub open spec fn roomy(self) -> bool {
        self.sketch.highest_point_id < u64::MAX && self.highest <= u64::MAX - 4
    }

    /// Whether the state is sound: what it names is alive, and the lower key stands first.
    pub open spec fn sound(self) -> bool {
        self.alive() && self.ordered()
    }

    /// Whether what the state names is alive.
    ///
    /// The keys of the pool ascend and are not above the highest given out. The shapes
    /// are all lines, or all circles and arcs. Every remembered key and every new key
    /// is alive. Every key that a pair or a collision names is alive, or was retired by
    /// the last split.
    pub open spec fn alive(self) -> bool {
        &&& ascending(self.pool)
        &&& bounded(self.pool, self.highest as int)
        &&& uniform(self.pool)
        &&& forall|i: int|
            0 <= i < self.possible.len() ==> has_key(self.pool, #[trigger] self.possible[i])
        &&& forall|i: int|
            0 <= i < self.fresh.len() ==> has_key(self.pool, #[trigger] self.fresh[i])
        &&& forall|i: int|
            0 <= i < self.collisions.len() ==> self.knows((#[trigger] self.collisions[i]).shape_a)
                && self.knows(self.collisions[i].shape_b)
        &&& forall|i: int|
            0 <= i < self.pairs.len() ==> self.knows((#[trigger] self.pairs[i]).0) && self.knows(
                self.pairs[i].1,
            )
    }

    /// Whether the lower key stands first in every pair and in every collision, and every
    /// key that is named is below every new key.
    pub open spec fn ordered(self) -> bool {
        &&& forall|i: int|
            0 <= i < self.collisions.len() ==> (#[trigger] self.collisions[i]).shape_a
                < self.collisions[i].shape_b
        &&& forall|i: int|
            0 <= i < self.pairs.len() ==> (#[trigger] self.pairs[i]).0 < self.pairs[i].1
        &&& forall|i: int|
            0 <= i < self.possible.len() ==> self.below_fresh(#[trigger] self.possible[i])
        &&& forall|i: int|
            0 <= i < self.collisions.len() ==> self.below_fresh(
                (#[trigger] self.collisions[i]).shape_a,
            ) && self.below_fresh(self.collisions[i].shape_b)
        &&& forall|i: int|
            0 <= i < self.pairs.len() ==> self.below_fresh((#[trigger] self.pairs[i]).0)
                && self.below_fresh(self.pairs[i].1)
    }

    /// The state that the work on `sketch` starts from.
    pub open spec fn start(sketch: SketchView) -> SplitView {
        let pool = numbered(shapes_of(sketch));
        SplitView {
            sketch,
            pool,
            highest: pool.len() as u64,
            pairs: all_pairs(keys_of(pool)),
            collisions: Seq::empty(),
            possible: Seq::empty(),
            fresh: Seq::empty(),
            deleted: Seq::empty(),
        }
    }
}

/// The collisions that live on were there before and name no retired key.
proof fn lemma_live_collisions(collisions: Seq<Collision>, deleted: Seq<u64>)
    ensures
        forall|i: int|
            0 <= i < live_collisions(collisions, deleted).len() ==> collisions.contains(
                #[trigger] live_collisions(collisions, deleted)[i],
            ) && !deleted.contains(live_collisions(collisions, deleted)[i].shape_a)
                && !deleted.contains(live_collisions(collisions, deleted)[i].shape_b),
    decreases collisions.len(),
{
    if collisions.len() > 0 {
        let rest = collisions.drop_last();
        lemma_live_collisions(rest, deleted);
        let live = live_collisions(collisions, deleted);
        assert forall|i: int| 0 <= i < live.len() implies collisions.contains(#[trigger] live[i])
            && !deleted.contains(live[i].shape_a) && !deleted.contains(live[i].shape_b) by {
            if i < live_collisions(rest, deleted).len() {
                let c = live_collisions(rest, deleted)[i];
                assert(rest.contains(c));
                let j = choose|j: int| 0 <= j < rest.len() && rest[j] == c;
                assert(collisions[j] == c);
            } else {
                assert(live[i] == collisions[collisions.len() - 1]);
            }
        }
    }
}

/// No more collisions live on than there were.
pub proof fn lemma_live_collisions_len(collisions: Seq<Collision>, deleted: Seq<u64>)
    ensures
        live_collisions(collisions, deleted).len() <= collisions.len(),
    decreases collisions.len(),
{
    if collisions.len() > 0 {
        lemma_live_collisions_len(collisions.drop_last(), deleted);
    }
}

/// The pairs that live on were there before and name no retired key.
proof fn lemma_live_pairs(pairs: Seq<(u64, u64)>, deleted: Seq<u64>)
    ensures
        forall|i: int|
            0 <= i < live_pairs(pairs, deleted).len() ==> pairs.contains(
                #[trigger] live_pairs(pairs, deleted)[i],
            ) && !deleted.contains(live_pairs(pairs, deleted)[i].0) && !deleted.contains(
                live_pairs(pairs, deleted)[i].1,
            ),
    decreases pairs.len(),
{
    if pairs.len() > 0 {
        let rest = pairs.drop_last();
        lemma_live_pairs(rest, deleted);
        let live = live_pairs(pairs, deleted);
        assert forall|i: int| 0 <= i < live.len() implies pairs.contains(#[trigger] live[i])
            && !deleted.contains(live[i].0) && !deleted.contains(live[i].1) by {
            if i < live_pairs(rest, deleted).len() {
                let c = live_pairs(rest, deleted)[i];
                assert(rest.contains(c));
                let j = choose|j: int| 0 <= j < rest.len() && rest[j] == c;
                assert(pairs[j] == c);
            } else {
                assert(live[i] == pairs[pairs.len() - 1]);
            }
        }
    }
}

/// A remembered key was remembered before, or survives as the partner in a pair.
proof fn lemma_remembered(pairs: Seq<(u64, u64)>, possible: Seq<u64>, deleted: Seq<u64>)
    ensures
        forall|i: int|
            0 <= i < remembered(pairs, possible, deleted).len() ==> possible.contains(
                #[trigger] remembered(pairs, possible, deleted)[i],
            ) || (!deleted.contains(remembered(pairs, possible, deleted)[i]) && named_in(
                pairs,
                remembered(pairs, possible, deleted)[i],
            )),
    decreases pairs.len(),
{
    if pairs.len() > 0 {
        let rest = pairs.drop_last();
        lemma_remembered(rest, possible, deleted);
        let before = remembered(rest, possible, deleted);
        let after = remembered(pairs, possible, deleted);
        let last = pairs[pairs.len() - 1];
        assert(after == remember(before, deleted, last.0, last.1));
        assert forall|i: int| 0 <= i < after.len() implies possible.contains(#[trigger] after[i])
            || (!deleted.contains(after[i]) && named_in(pairs, after[i])) by {
            if i < before.len() {
                assert(after[i] == before[i]);
                if !possible.contains(before[i]) {
                    let j = choose|j: int|
                        0 <= j < rest.len() && ((#[trigger] rest[j]).0 == before[i] || rest[j].1
                            == before[i]);
                    assert(pairs[j] == rest[j]);
                }
            } else {
                assert(after[i] == last.0 || after[i] == last.1);
            }
        }
    }
}

/// Every pair of a product joins a remembered key and a new key.
proof fn lemma_product(possible: Seq<u64>, fresh: Seq<u64>)
    ensures
        forall|i: int|
            0 <= i < product(possible, fresh).len() ==> possible.contains(
                (#[trigger] product(possible, fresh)[i]).0,
            ) && fresh.contains(product(possible, fresh)[i].1),
    decreases possible.len(),
{
    if possible.len() > 0 {
        let rest = possible.drop_last();
        lemma_product(rest, fresh);
        let all = product(possible, fresh);
        let before = product(rest, fresh);
        assert forall|i: int| 0 <= i < all.len() implies possible.contains((#[trigger] all[i]).0)
            && fresh.contains(all[i].1) by {
            if i < before.len() {
                assert(all[i] == before[i]);
                let j = choose|j: int| 0 <= j < rest.len() && rest[j] == before[i].0;
                assert(possible[j] == rest[j]);
            } else {
                let n = i - before.len();
                assert(all[i] == row(possible.last(), fresh)[n]);
                assert(possible[possible.len() - 1] == all[i].0);
                assert(fresh[n] == all[i].1);
            }
        }
    }
}

/// A pair of the queue was put at its front or stood in it before.
proof fn lemma_pushed_front(pairs: Seq<(u64, u64)>, items: Seq<(u64, u64)>)
    ensures
        forall|i: int|
            0 <= i < pushed_front(pairs, items).len() ==> items.contains(
                #[trigger] pushed_front(pairs, items)[i],
            ) || pairs.contains(pushed_front(pairs, items)[i]),
    decreases items.len(),
{
    let all = pushed_front(pairs, items);
    if items.len() > 0 {
        let rest = items.drop_last();
        lemma_pushed_front(pairs, rest);
        let before = pushed_front(pairs, rest);
        assert forall|i: int| 0 <= i < all.len() implies items.contains(#[trigger] all[i])
            || pairs.contains(all[i]) by {
            if i == 0 {
                assert(items[items.len() - 1] == all[0]);
            } else {
                assert(all[i] == before[i - 1]);
                if rest.contains(before[i - 1]) {
                    let j = choose|j: int| 0 <= j < rest.len() && rest[j] == before[i - 1];
                    assert(items[j] == rest[j]);
                }
            }
        }
    } else {
        assert forall|i: int| 0 <= i < all.len() implies pairs.contains(#[trigger] all[i]) by {
            assert(pairs[i] == all[i]);
        }
    }
}

/// In a sound state the next step can be taken, if it is no split or ids are left for
/// one: the collision that it splits at, or the pair that it tests, names two shapes of
/// the pool that go together.
pub proof fn law_sound_is_ready(state: SplitView)
    requires
        state.sound(),
        state.phase() == Phase::Materialize ==> state.roomy(),
    ensures
        state.ready(),
{
    lemma_alive_is_ready(state);
}

/// Where what a state names is alive, the next step can be taken.
proof fn lemma_alive_is_ready(state: SplitView)
    requires
        state.alive(),
        state.phase() == Phase::Materialize ==> state.roomy(),
    ensures
        state.ready(),
{
    match state.phase() {
        Phase::Materialize => {
            let c = state.collisions[0];
            assert(state.knows(c.shape_a) && state.knows(c.shape_b));
            let i = slot(state.pool, c.shape_a);
            let j = slot(state.pool, c.shape_b);
            assert(state.pool[i].1 is Line == state.pool[j].1 is Line);
        },
        Phase::Detect => {
            let pair = state.pairs[0];
            assert(state.knows(pair.0) && state.knows(pair.1));
            let i = slot(state.pool, pair.0);
            let j = slot(state.pool, pair.1);
            assert(state.pool[i].1 is Line == state.pool[j].1 is Line);
        },
        _ => {},
    }
}

/// Cleaning up keeps a sound state sound.
proof fn lemma_cleaned_sound(state: SplitView)
    requires
        state.sound(),
    ensures
        state.cleaned().sound(),
{
    let after = state.cleaned();
    lemma_live_collisions(state.collisions, state.deleted);
    lemma_live_pairs(state.pairs, state.deleted);
    let halfway = remembered(keys_in(state.collisions), state.possible, state.deleted);
    lemma_remembered(keys_in(state.collisions), state.possible, state.deleted);
    lemma_remembered(state.pairs, halfway, state.deleted);
    assert forall|i: int| 0 <= i < halfway.len() implies has_key(
        state.pool,
        #[trigger] halfway[i],
    ) by {
        let k = halfway[i];
        if !state.possible.contains(k) {
            let named = keys_in(state.collisions);
            let j = choose|j: int|
                0 <= j < named.len() && ((#[trigger] named[j]).0 == k || named[j].1 == k);
            assert(state.knows(state.collisions[j].shape_a));
            assert(state.knows(state.collisions[j].shape_b));
        }
    }
    assert forall|i: int| 0 <= i < after.possible.len() implies has_key(
        after.pool,
        #[trigger] after.possible[i],
    ) by {
        let k = after.possible[i];
        if halfway.contains(k) {
        } else {
            let j = choose|j: int|
                0 <= j < state.pairs.len() && ((#[trigger] state.pairs[j]).0 == k
                    || state.pairs[j].1 == k);
            assert(state.knows(state.pairs[j].0));
            assert(state.knows(state.pairs[j].1));
        }
    }
    assert forall|i: int| 0 <= i < after.collisions.len() implies after.knows(
        (#[trigger] after.collisions[i]).shape_a,
    ) && after.knows(after.collisions[i].shape_b) by {
        let c = after.collisions[i];
        assert(state.collisions.contains(c));
        let j = choose|j: int| 0 <= j < state.collisions.len() && state.collisions[j] == c;
        assert(state.knows(state.collisions[j].shape_a));
        assert(state.knows(state.collisions[j].shape_b));
    }
    assert forall|i: int| 0 <= i < after.pairs.len() implies after.knows(
        (#[trigger] after.pairs[i]).0,
    ) && after.knows(after.pairs[i].1) by {
        let c = after.pairs[i];
        assert(state.pairs.contains(c));
        let j = choose|j: int| 0 <= j < state.pairs.len() && state.pairs[j] == c;
        assert(state.knows(state.pairs[j].0));
        assert(state.knows(state.pairs[j].1));
    }
}

/// Scheduling keeps a sound state sound.
proof fn lemma_scheduled_sound(state: SplitView)
    requires
        state.sound(),
    ensures
        state.scheduled().sound(),
{
    let after = state.scheduled();
    let items = product(state.possible, state.fresh);
    lemma_product(state.possible, state.fresh);
    lemma_pushed_front(state.pairs, items);
    assert forall|i: int| 0 <= i < after.pairs.len() implies after.knows(
        (#[trigger] after.pairs[i]).0,
    ) && after.knows(after.pairs[i].1) by {
        let c = after.pairs[i];
        if items.contains(c) {
            let j = choose|j: int| 0 <= j < items.len() && items[j] == c;
            assert(state.possible.contains(items[j].0));
            assert(state.fresh.contains(items[j].1));
            let p = choose|p: int| 0 <= p < state.possible.len() && state.possible[p] == c.0;
            let f = choose|f: int| 0 <= f < state.fresh.len() && state.fresh[f] == c.1;
            assert(has_key(state.pool, state.possible[p]));
            assert(has_key(state.pool, state.fresh[f]));
        } else {
            let j = choose|j: int| 0 <= j < state.pairs.len() && state.pairs[j] == c;
            assert(state.knows(state.pairs[j].0));
            assert(state.knows(state.pairs[j].1));
        }
    }
}

/// Testing a pair keeps a sound state sound.
proof fn lemma_detected_sound(state: SplitView, contact: Contact)
    requires
        state.sound(),
        state.phase() == Phase::Detect,
    ensures
        state.detected(contact).sound(),
{
    let after = state.detected(contact);
    let pair = state.pairs[0];
    let found = identified(state.shape(pair.0), pair.0, state.shape(pair.1), pair.1, contact);
    lemma_identified(state.shape(pair.0), pair.0, state.shape(pair.1), pair.1, contact);
    assert(state.knows(pair.0) && state.knows(pair.1));
    assert(after.collisions =~= found);
    assert forall|i: int| 0 <= i < after.pairs.len() implies after.knows(
        (#[trigger] after.pairs[i]).0,
    ) && after.knows(after.pairs[i].1) by {
        assert(after.pairs[i] == state.pairs[i + 1]);
        assert(state.knows(state.pairs[i + 1].0));
        assert(state.knows(state.pairs[i + 1].1));
    }
    assert(pair.0 < pair.1);
    assert forall|i: int| 0 <= i < after.collisions.len() implies (
    #[trigger] after.collisions[i]).shape_a == pair.0 && after.collisions[i].shape_b == pair.1 by {
        assert(after.collisions[i] == found[i]);
    }
}

/// The keys that a split makes are the two, or the four, above the highest so far.
proof fn lemma_born(shape_a: Shape, shape_b: Shape, highest: u64, k: u64)
    requires
        highest <= u64::MAX - 4,
    ensures
        born(shape_a, shape_b, highest).contains(k) <==> match (shape_a, shape_b) {
            (Shape::Circle(_), Shape::Arc(_)) | (Shape::Arc(_), Shape::Circle(_)) => k
                == highest + 1 || k == highest + 2,
            (Shape::Arc(_), Shape::Arc(_)) | (Shape::Line(_), Shape::Line(_)) => k == highest + 1
                || k == highest + 2 || k == highest + 3 || k == highest + 4,
            _ => false,
        },
{
    let made = born(shape_a, shape_b, highest);
    if made.len() == 2 {
        assert(made[0] == highest + 1 && made[1] == highest + 2);
    }
    if made.len() == 4 {
        assert(made[0] == highest + 1 && made[1] == highest + 2);
        assert(made[2] == highest + 3 && made[3] == highest + 4);
    }
}

/// The keys that a split retires are those of the shapes that it replaces.
proof fn lemma_retired(shape_a: Shape, shape_b: Shape, a: u64, b: u64, k: u64)
    ensures
        retired(shape_a, shape_b, a, b).contains(k) <==> match (shape_a, shape_b) {
            (Shape::Circle(_), Shape::Arc(_)) => k == b,
            (Shape::Arc(_), Shape::Circle(_)) => k == a,
            (Shape::Arc(_), Shape::Arc(_)) | (Shape::Line(_), Shape::Line(_)) => k == a || k
                == b,
            _ => false,
        },
{
    let gone = retired(shape_a, shape_b, a, b);
    if gone.len() == 1 {
        assert(gone[0] == a || gone[0] == b);
    }
    if gone.len() == 2 {
        assert(gone[0] == a && gone[1] == b);
    }
}

/// What a split does to the keys and the kinds of a mapping.
proof fn lemma_split_map_effect(
    shapes: Map<u64, Shape>,
    highest: u64,
    a: u64,
    b: u64,
    point: u64,
    k: u64,
)
    requires
        highest <= u64::MAX - 4,
        shapes.dom().contains(a),
        shapes.dom().contains(b),
        a <= highest,
        b <= highest,
        shapes.dom().contains(k) ==> k <= highest,
        shapes[a].splits_with(shapes[b]),
    ensures
        ({
            let after = split_map(shapes, highest, a, b, point);
            let made = born(shapes[a], shapes[b], highest);
            let gone = retired(shapes[a], shapes[b], a, b);
            &&& after.dom().contains(k) == ((shapes.dom().contains(k) && !gone.contains(k))
                || made.contains(k))
            &&& after.dom().contains(k) && shapes.dom().contains(k) ==> (after[k] is Line
                <==> shapes[k] is Line)
            &&& made.contains(k) ==> (after[k] is Line <==> shapes[a] is Line)
        }),
{
    lemma_born(shapes[a], shapes[b], highest, k);
    lemma_retired(shapes[a], shapes[b], a, b, k);
}

/// What a split does to the keys and the kinds of the pool.
proof fn lemma_split_effect(state: SplitView, k: u64)
    requires
        state.alive(),
        state.roomy(),
        state.phase() == Phase::Materialize,
    ensures
        ({
            let c = state.collisions[0];
            let after = state.materialized();
            let made = born(state.shape(c.shape_a), state.shape(c.shape_b), state.highest);
            let gone = retired(
                state.shape(c.shape_a),
                state.shape(c.shape_b),
                c.shape_a,
                c.shape_b,
            );
            &&& has_key(after.pool, k) == ((has_key(state.pool, k) && !gone.contains(k))
                || made.contains(k))
            &&& has_key(after.pool, k) && has_key(state.pool, k) ==> (after.shape(k) is Line
                <==> state.shape(k) is Line)
            &&& made.contains(k) ==> (after.shape(k) is Line <==> state.shape(c.shape_a) is Line)
        }),
{
    lemma_alive_is_ready(state);
    let c = state.collisions[0];
    let a = c.shape_a;
    let b = c.shape_b;
    let point = (state.sketch.highest_point_id + 1) as u64;
    let after = state.materialized();
    let h = state.highest;
    lemma_split_map(state.pool, h, a, b, point);
    lemma_map_at(state.pool, a);
    lemma_map_at(state.pool, b);
    lemma_map_at(state.pool, k);
    lemma_map_at(after.pool, k);
    lemma_bounded_key(state.pool, h as int, a);
    lemma_bounded_key(state.pool, h as int, b);
    if has_key(state.pool, k) {
        lemma_bounded_key(state.pool, h as int, k);
    }
    lemma_split_map_effect(map_of(state.pool), h, a, b, point, k);
}

/// After a split every key that was alive before is below every new key.
proof fn lemma_materialized_below(state: SplitView, k: u64)
    requires
        state.alive(),
        state.roomy(),
        state.phase() == Phase::Materialize,
        state.knows(k),
    ensures
        state.materialized().below_fresh(k),
{
    let c = state.collisions[0];
    let after = state.materialized();
    let made = born(state.shape(c.shape_a), state.shape(c.shape_b), state.highest);
    assert(after.fresh =~= made);
    lemma_bounded_key(state.pool, state.highest as int, k);
    assert forall|j: int| 0 <= j < after.fresh.len() implies k < #[trigger] after.fresh[j] by {
        lemma_born(state.shape(c.shape_a), state.shape(c.shape_b), state.highest, made[j]);
        assert(made.contains(made[j]));
    }
}

/// After a split the lower key still stands first in every pair and every collision, and
/// every key that is named is below every new key.
proof fn lemma_materialized_ordered(state: SplitView)
    requires
        state.sound(),
        state.roomy(),
        state.phase() == Phase::Materialize,
    ensures
        ({
            let after = state.materialized();
            &&& forall|i: int|
                0 <= i < after.collisions.len() ==> (#[trigger] after.collisions[i]).shape_a
                    < after.collisions[i].shape_b
            &&& forall|i: int|
                0 <= i < after.pairs.len() ==> (#[trigger] after.pairs[i]).0 < after.pairs[i].1
            &&& forall|i: int|
                0 <= i < after.possible.len() ==> after.below_fresh(#[trigger] after.possible[i])
            &&& forall|i: int|
                0 <= i < after.collisions.len() ==> after.below_fresh(
                    (#[trigger] after.collisions[i]).shape_a,
                ) && after.below_fresh(after.collisions[i].shape_b)
            &&& forall|i: int|
                0 <= i < after.pairs.len() ==> after.below_fresh((#[trigger] after.pairs[i]).0)
                    && after.below_fresh(after.pairs[i].1)
        }),
{
    let after = state.materialized();
    assert forall|i: int| 0 <= i < after.collisions.len() implies (
    #[trigger] after.collisions[i]).shape_a < after.collisions[i].shape_b && after.below_fresh(
        after.collisions[i].shape_a,
    ) && after.below_fresh(after.collisions[i].shape_b) by {
        let next = state.collisions[i + 1];
        assert(after.collisions[i] == next);
        assert(state.knows(next.shape_a) && state.knows(next.shape_b));
        lemma_materialized_below(state, next.shape_a);
        lemma_materialized_below(state, next.shape_b);
    }
    assert forall|i: int| 0 <= i < after.pairs.len() implies after.below_fresh(
        (#[trigger] after.pairs[i]).0,
    ) && after.below_fresh(after.pairs[i].1) by {
        assert(state.knows(state.pairs[i].0) && state.knows(state.pairs[i].1));
        lemma_materialized_below(state, state.pairs[i].0);
        lemma_materialized_below(state, state.pairs[i].1);
    }
}

/// After a split the keys of the pool ascend and are not above the highest given out.
proof fn lemma_materialized_pool(state: SplitView)
    requires
        state.alive(),
        state.roomy(),
        state.phase() == Phase::Materialize,
    ensures
        ascending(state.materialized().pool),
        bounded(state.materialized().pool, state.materialized().highest as int),
{
    lemma_alive_is_ready(state);
    let c = state.collisions[0];
    let point = (state.sketch.highest_point_id + 1) as u64;
    lemma_split_map(state.pool, state.highest, c.shape_a, c.shape_b, point);
    lemma_map_at(state.pool, c.shape_a);
    lemma_map_at(state.pool, c.shape_b);
}

/// After a split the shapes of the pool are still all lines, or all circles and arcs.
proof fn lemma_materialized_uniform(state: SplitView)
    requires
        state.alive(),
        state.roomy(),
        state.phase() == Phase::Materialize,
    ensures
        uniform(state.materialized().pool),
{
    lemma_alive_is_ready(state);
    lemma_materialized_pool(state);
    let a = state.collisions[0].shape_a;
    let after = state.materialized();
    let lines = state.shape(a) is Line;
    assert forall|i: int| 0 <= i < after.pool.len() implies ((#[trigger] after.pool[i]).1 is Line
        <==> lines) by {
        let k = after.pool[i].0;
        lemma_slot_unique(after.pool, i);
        lemma_split_effect(state, k);
        if has_key(state.pool, k) {
            let n = slot(state.pool, k);
            let m = slot(state.pool, a);
            assert(state.pool[n].1 is Line <==> state.pool[m].1 is Line);
        }
    }
}

/// After a split every key that was alive is alive or was retired by the split.
proof fn lemma_materialized_knows(state: SplitView, k: u64)
    requires
        state.alive(),
        state.roomy(),
        state.phase() == Phase::Materialize,
        state.knows(k),
    ensures
        state.materialized().knows(k),
{
    let c = state.collisions[0];
    let after = state.materialized();
    let gone = retired(
        state.shape(c.shape_a),
        state.shape(c.shape_b),
        c.shape_a,
        c.shape_b,
    );
    assert(after.deleted =~= gone);
    lemma_split_effect(state, k);
}

/// After a split the pool is in order and of one kind, and every key that is named is
/// alive or was retired by the split.
proof fn lemma_materialized_alive(state: SplitView)
    requires
        state.alive(),
        state.roomy(),
        state.phase() == Phase::Materialize,
    ensures
        state.materialized().alive(),
{
    lemma_materialized_pool(state);
    lemma_materialized_uniform(state);
    let c = state.collisions[0];
    let after = state.materialized();
    let made = born(state.shape(c.shape_a), state.shape(c.shape_b), state.highest);
    assert(after.fresh =~= made);
    assert forall|i: int| 0 <= i < after.fresh.len() implies has_key(
        after.pool,
        #[trigger] after.fresh[i],
    ) by {
        assert(made.contains(made[i]));
        lemma_split_effect(state, made[i]);
    }
    assert forall|i: int| 0 <= i < after.collisions.len() implies after.knows(
        (#[trigger] after.collisions[i]).shape_a,
    ) && after.knows(after.collisions[i].shape_b) by {
        let next = state.collisions[i + 1];
        assert(after.collisions[i] == next);
        assert(state.knows(next.shape_a) && state.knows(next.shape_b));
        lemma_materialized_knows(state, next.shape_a);
        lemma_materialized_knows(state, next.shape_b);
    }
    assert forall|i: int| 0 <= i < after.pairs.len() implies after.knows(
        (#[trigger] after.pairs[i]).0,
    ) && after.knows(after.pairs[i].1) by {
        assert(state.knows(state.pairs[i].0) && state.knows(state.pairs[i].1));
        lemma_materialized_knows(state, state.pairs[i].0);
        lemma_materialized_knows(state, state.pairs[i].1);
    }
}

/// Splitting at a collision keeps a sound state sound.
proof fn lemma_materialized_sound(state: SplitView)
    requires
        state.sound(),
        state.roomy(),
        state.phase() == Phase::Materialize,
    ensures
        state.materialized().sound(),
{
    lemma_materialized_alive(state);
    lemma_materialized_ordered(state);
}

/// A sound state is sound after the next step, whatever the kernel found, if the step is
/// no split or ids are left for one. So the work never names a shape that is gone, nor
/// tests or splits two shapes that do not go together, and every collision carries the
/// lower key of its two shapes first.
pub proof fn law_step_keeps_sound(state: SplitView, contact: Contact)
    requires
        state.sound(),
        state.phase() == Phase::Materialize ==> state.roomy(),
    ensures
        state.step(contact).sound(),
{
    match state.phase() {
        Phase::CleanUp => lemma_cleaned_sound(state),
        Phase::Schedule => lemma_scheduled_sound(state),
        Phase::Materialize => lemma_materialized_sound(state),
        Phase::Detect => lemma_detected_sound(state, contact),
        Phase::Idle => {},
    }
}

/// Every pair of `key` with keys above it names `key` and one of `keys`.
proof fn lemma_pairs_above(key: u64, keys: Seq<u64>)
    ensures
        forall|i: int|
            0 <= i < pairs_above(key, keys).len() ==> (#[trigger] pairs_above(key, keys)[i]).0
                == key && keys.contains(pairs_above(key, keys)[i].1) && key < pairs_above(
                key,
                keys,
            )[i].1,
    decreases keys.len(),
{
    if keys.len() > 0 {
        let rest = keys.drop_last();
        lemma_pairs_above(key, rest);
        let all = pairs_above(key, keys);
        let before = pairs_above(key, rest);
        assert forall|i: int| 0 <= i < all.len() implies (#[trigger] all[i]).0 == key
            && keys.contains(all[i].1) && key < all[i].1 by {
            if i < before.len() {
                assert(all[i] == before[i]);
                let j = choose|j: int| 0 <= j < rest.len() && rest[j] == before[i].1;
                assert(keys[j] == rest[j]);
            } else {
                assert(keys[keys.len() - 1] == all[i].1);
            }
        }
    }
}

/// Every pair of the first `n` keys with keys above them names two of `keys`.
proof fn lemma_pairs_upto(keys: Seq<u64>, n: int)
    requires
        n <= keys.len(),
    ensures
        forall|i: int|
            0 <= i < pairs_upto(keys, n).len() ==> keys.contains(
                (#[trigger] pairs_upto(keys, n)[i]).0,
            ) && keys.contains(pairs_upto(keys, n)[i].1) && pairs_upto(keys, n)[i].0
                < pairs_upto(keys, n)[i].1,
    decreases n,
{
    if n > 0 {
        lemma_pairs_upto(keys, n - 1);
        lemma_pairs_above(keys[n - 1], keys);
        let all = pairs_upto(keys, n);
        let before = pairs_upto(keys, n - 1);
        assert forall|i: int| 0 <= i < all.len() implies keys.contains((#[trigger] all[i]).0)
            && keys.contains(all[i].1) && all[i].0 < all[i].1 by {
            if i < before.len() {
                assert(all[i] == before[i]);
            } else {
                assert(all[i] == pairs_above(keys[n - 1], keys)[i - before.len()]);
                assert(keys[n - 1] == all[i].0);
            }
        }
    }
}

/// The work starts in a sound state on a sketch that has lines only, or circles and arcs
/// only.
pub proof fn law_start_is_sound(sketch: SketchView)
    requires
        sketch.line_segments.len() + sketch.circles.len() + sketch.arcs.len() < u64::MAX,
        sketch.line_segments.len() == 0 || (sketch.circles.len() == 0 && sketch.arcs.len() == 0),
    ensures
        SplitView::start(sketch).sound(),
{
    let state = SplitView::start(sketch);
    let pool = state.pool;
    let keys = keys_of(pool);
    lemma_pairs_upto(keys, keys.len() as int);
    assert forall|i: int| 0 <= i < state.pairs.len() implies state.knows(
        (#[trigger] state.pairs[i]).0,
    ) && state.knows(state.pairs[i].1) by {
        let pair = state.pairs[i];
        let m = choose|m: int| 0 <= m < keys.len() && keys[m] == pair.0;
        let n = choose|n: int| 0 <= n < keys.len() && keys[n] == pair.1;
        assert(pool[m].0 == pair.0);
        assert(pool[n].0 == pair.1);
    }
    if sketch.line_segments.len() == 0 {
        assert forall|i: int| 0 <= i < pool.len() implies !((#[trigger] pool[i]).1 is Line) by {}
    } else {
        assert forall|i: int| 0 <= i < pool.len() implies (#[trigger] pool[i]).1 is Line by {}
    }
}

/// A pair whose carriers do not meet leaves everything but the queue of pairs as it is:
/// no shape, no point and no collision is added or taken away.
pub proof fn law_apart_changes_nothing(state: SplitView)
    requires
        state.phase() == Phase::Detect,
    ensures
        state.step(Contact::Apart) == (SplitView { pairs: state.pairs.drop_first(), ..state }),
{
    let pair = state.pairs[0];
    let a = state.shape(pair.0);
    let b = state.shape(pair.1);
    lemma_identified(a, pair.0, b, pair.1, Contact::Apart);
    assert(identified(a, pair.0, b, pair.1, Contact::Apart) =~= Seq::<Collision>::empty());
    assert(state.collisions + Seq::<Collision>::empty() =~= state.collisions);
}

/// The items of `entries`, in order.
pub open spec fn items<T>(entries: Seq<(u64, T)>) -> Seq<T> {
    Seq::new(entries.len(), |i: int| entries[i].1)
}

/// What `pick` takes from `shapes`, in order.
spec fn gather<T>(shapes: Seq<Shape>, pick: spec_fn(Shape) -> Option<T>) -> Seq<T>
    decreases shapes.len(),
{
    if shapes.len() == 0 {
        Seq::empty()
    } else {
        match pick(shapes.last()) {
            Some(item) => gather(shapes.drop_last(), pick).push(item),
            None => gather(shapes.drop_last(), pick),
        }
    }
}

/// What is taken from two sequences is what is taken from the one, then from the other.
proof fn lemma_gather_both<T>(
    first: Seq<Shape>,
    second: Seq<Shape>,
    pick: spec_fn(Shape) -> Option<T>,
)
    ensures
        gather(first + second, pick) == gather(first, pick) + gather(second, pick),
    decreases second.len(),
{
    if second.len() == 0 {
        assert(first + second =~= first);
        assert(gather(first, pick) + gather(second, pick) =~= gather(first, pick));
    } else {
        lemma_gather_both(first, second.drop_last(), pick);
        assert((first + second).drop_last() =~= first + second.drop_last());
        assert((first + second).last() == second.last());
        assert(gather(first + second, pick) =~= gather(first, pick) + gather(second, pick));
    }
}

/// Nothing is taken from shapes of which `pick` takes none.
proof fn lemma_gather_none<T>(shapes: Seq<Shape>, pick: spec_fn(Shape) -> Option<T>)
    requires
        forall|i: int| 0 <= i < shapes.len() ==> pick(#[trigger] shapes[i]) is None,
    ensures
        gather(shapes, pick) == Seq::<T>::empty(),
    decreases shapes.len(),
{
    if shapes.len() > 0 {
        assert(pick(shapes[shapes.len() - 1]) is None);
        assert forall|i: int| 0 <= i < shapes.drop_last().len() implies pick(
            #[trigger] shapes.drop_last()[i],
        ) is None by {
            assert(shapes.drop_last()[i] == shapes[i]);
        }
        lemma_gather_none(shapes.drop_last(), pick);
    }
}

/// From shapes of which `pick` takes every one, it takes them all.
proof fn lemma_gather_all<T>(shapes: Seq<Shape>, taken: Seq<T>, pick: spec_fn(Shape) -> Option<T>)
    requires
        shapes.len() == taken.len(),
        forall|i: int| 0 <= i < shapes.len() ==> pick(#[trigger] shapes[i]) == Some(taken[i]),
    ensures
        gather(shapes, pick) == taken,
    decreases shapes.len(),
{
    if shapes.len() > 0 {
        assert(pick(shapes[shapes.len() - 1]) == Some(taken[taken.len() - 1]));
        assert forall|i: int| 0 <= i < shapes.drop_last().len() implies pick(
            #[trigger] shapes.drop_last()[i],
        ) == Some(taken.drop_last()[i]) by {
            assert(shapes.drop_last()[i] == shapes[i]);
        }
        lemma_gather_all(shapes.drop_last(), taken.drop_last(), pick);
        assert(gather(shapes, pick) =~= taken);
    } else {
        assert(gather(shapes, pick) =~= taken);
    }
}

/// The line that `shape` is, if it is one.
spec fn as_line(shape: Shape) -> Option<Line2> {
    match shape {
        Shape::Line(line) => Some(line),
        _ => None,
    }
}

/// The circle that `shape` is, if it is one.
spec fn as_circle(shape: Shape) -> Option<Circle2> {
    match shape {
        Shape::Circle(circle) => Some(circle),
        _ => None,
    }
}

/// The arc that `shape` is, if it is one.
spec fn as_arc(shape: Shape) -> Option<Arc2> {
    match shape {
        Shape::Arc(arc) => Some(arc),
        _ => None,
    }
}

/// The lines, the circles and the arcs among the shapes of a pool are gathered from its
/// shapes, whatever their keys.
proof fn lemma_kinds_gathered(shapes: Seq<Shape>)
    ensures
        lines_in(numbered(shapes)) == gather(shapes, |s: Shape| as_line(s)),
        circles_in(numbered(shapes)) == gather(shapes, |s: Shape| as_circle(s)),
        arcs_in(numbered(shapes)) == gather(shapes, |s: Shape| as_arc(s)),
    decreases shapes.len(),
{
    if shapes.len() > 0 {
        lemma_kinds_gathered(shapes.drop_last());
        assert(numbered(shapes).drop_last() =~= numbered(shapes.drop_last()));
        assert(numbered(shapes).last().1 == shapes.last());
    }
}

/// The pool that the work starts from holds the shapes of the sketch: its lines are the
/// lines of the sketch in their order, and so are its circles and its arcs.
pub proof fn law_pool_holds_the_sketch(sketch: SketchView)
    ensures
        lines_in(SplitView::start(sketch).pool) == items(sketch.line_segments),
        circles_in(SplitView::start(sketch).pool) == items(sketch.circles),
        arcs_in(SplitView::start(sketch).pool) == items(sketch.arcs),
{
    let lines = line_shapes(sketch.line_segments);
    let circles = circle_shapes(sketch.circles);
    let arcs = arc_shapes(sketch.arcs);
    lemma_kinds_gathered(shapes_of(sketch));
    let line = |s: Shape| as_line(s);
    let circle = |s: Shape| as_circle(s);
    let arc = |s: Shape| as_arc(s);
    lemma_gather_both(lines + circles, arcs, line);
    lemma_gather_both(lines, circles, line);
    lemma_gather_all(lines, items(sketch.line_segments), line);
    lemma_gather_none(circles, line);
    lemma_gather_none(arcs, line);
    assert(gather(shapes_of(sketch), line) =~= items(sketch.line_segments));
    lemma_gather_both(lines + circles, arcs, circle);
    lemma_gather_both(lines, circles, circle);
    lemma_gather_none(lines, circle);
    lemma_gather_all(circles, items(sketch.circles), circle);
    lemma_gather_none(arcs, circle);
    assert(gather(shapes_of(sketch), circle) =~= items(sketch.circles));
    lemma_gather_both(lines + circles, arcs, arc);
    lemma_gather_both(lines, circles, arc);
    lemma_gather_none(lines, arc);
    lemma_gather_none(circles, arc);
    lemma_gather_all(arcs, items(sketch.arcs), arc);
    assert(gather(shapes_of(sketch), arc) =~= items(sketch.arcs));
}

/// A sketch whose shapes carry the ids one, two, three and so on, as every sketch does
/// that the work ends in, is the sketch that its untouched pool is emitted as. So a
/// second split of a sketch in which the kernel finds no collision gives it back.
pub proof fn law_untouched_pool_gives_the_sketch_back(sketch: SketchView)
    requires
        sketch.line_segments == numbered(items(sketch.line_segments)),
        sketch.circles == numbered(items(sketch.circles)),
        sketch.arcs == numbered(items(sketch.arcs)),
    ensures
        numbered(lines_in(SplitView::start(sketch).pool)) == sketch.line_segments,
        numbered(circles_in(SplitView::start(sketch).pool)) == sketch.circles,
        numbered(arcs_in(SplitView::start(sketch).pool)) == sketch.arcs,
{
    law_pool_holds_the_sketch(sketch);
}

} // verus!
