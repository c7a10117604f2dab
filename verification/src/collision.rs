use vstd::prelude::*;

use crate::layer_id::LayerId;
use crate::target::{
    indices_where, matching_objects, object_matches, objects_for_target, ObjectInfo, Target,
};

verus! {

/// Some object `target` designates on `layer` overlaps some other object on
/// `layer`, overlap being `overlaps` on object indices.
pub open spec fn layer_collision(
    objects: Seq<ObjectInfo>,
    target: Target,
    layer: LayerId,
    overlaps: spec_fn(int, int) -> bool,
) -> bool {
    exists|i: int, j: int|
        #![trigger overlaps(i, j)]
        0 <= i < objects.len() && 0 <= j < objects.len() && i != j && target.selects_on_layer(
            objects[i],
            layer,
        ) && objects[j].layer == layer && overlaps(i, j)
}

/// Some object `t1` designates on `layer` overlaps some other object that
/// `t2` designates on `layer`.
pub open spec fn pair_collision(
    objects: Seq<ObjectInfo>,
    t1: Target,
    t2: Target,
    layer: LayerId,
    overlaps: spec_fn(int, int) -> bool,
) -> bool {
    exists|i: int, j: int|
        #![trigger overlaps(i, j)]
        0 <= i < objects.len() && 0 <= j < objects.len() && i != j && t1.selects_on_layer(
            objects[i],
            layer,
        ) && t2.selects_on_layer(objects[j], layer) && overlaps(i, j)
}

/// Overlap as a call of `collides` on the object indices `i`, `j` reported it.
pub open spec fn reported<F: Fn(usize, usize) -> bool>(collides: F, b: bool) -> spec_fn(
    int,
    int,
) -> bool {
    |i: int, j: int| collides.ensures((i as usize, j as usize), b)
}

/// Overlap unless a call of `collides` on `i`, `j` reported none.
pub open spec fn not_denied<F: Fn(usize, usize) -> bool>(collides: F) -> spec_fn(int, int) -> bool {
    |i: int, j: int| !collides.ensures((i as usize, j as usize), false)
}

/// Whether some pair `(firsts[m1], seconds[m2])` of distinct indices overlaps.
fn any_pair_collides<F: Fn(usize, usize) -> bool>(
    firsts: &Vec<usize>,
    seconds: &Vec<usize>,
    collides: &F,
) -> (hit: bool)
    requires
        forall|m1: int, m2: int|
            0 <= m1 < firsts.len() && 0 <= m2 < seconds.len() ==> collides.requires(
                (#[trigger] firsts[m1], #[trigger] seconds[m2]),
            ),
    ensures
        hit ==> exists|m1: int, m2: int|
            0 <= m1 < firsts.len() && 0 <= m2 < seconds.len() && firsts[m1] != seconds[m2]
                && collides.ensures((firsts[m1], seconds[m2]), true),
        !hit ==> forall|m1: int, m2: int|
            0 <= m1 < firsts.len() && 0 <= m2 < seconds.len() && firsts[m1] != seconds[m2]
                ==> collides.ensures((firsts[m1], seconds[m2]), false),
{
    let mut a: usize = 0;
    while a < firsts.len()
        invariant
            0 <= a <= firsts.len(),
            forall|m1: int, m2: int|
            0 <= m1 < firsts.len() && 0 <= m2 < seconds.len() ==> collides.requires(
                (#[trigger] firsts[m1], #[trigger] seconds[m2]),
            ),
            forall|m1: int, m2: int|
                0 <= m1 < a && 0 <= m2 < seconds.len() && firsts[m1] != seconds[m2]
                    ==> collides.ensures((firsts[m1], seconds[m2]), false),
        decreases firsts.len() - a,
    {
        let mut b: usize = 0;
        while b < seconds.len()
            invariant
                0 <= a < firsts.len(),
                0 <= b <= seconds.len(),
                forall|m1: int, m2: int|
            0 <= m1 < firsts.len() && 0 <= m2 < seconds.len() ==> collides.requires(
                (#[trigger] firsts[m1], #[trigger] seconds[m2]),
            ),
                forall|m1: int, m2: int|
                    0 <= m1 < a && 0 <= m2 < seconds.len() && firsts[m1] != seconds[m2]
                        ==> collides.ensures((firsts[m1], seconds[m2]), false),
                forall|m2: int|
                    0 <= m2 < b && firsts[a as int] != seconds[m2] ==> collides.ensures(
                        (firsts[a as int], seconds[m2]),
                        false,
                    ),
            decreases seconds.len() - b,
        {
            if firsts[a] != seconds[b] {
                let c = collides(firsts[a], seconds[b]);
                if c {
                    assert(firsts[a as int] != seconds[b as int]);
                    return true;
                }
            }
            b += 1;
        }
        a += 1;
    }
    false
}

/// Whether an object that `target` designates on `layer` overlaps another
/// object on `layer`; `collides(i, j)` tells whether `objects[i]` and
/// `objects[j]` overlap.
pub fn layer_collision_for_target<F: Fn(usize, usize) -> bool>(
    objects: &Vec<ObjectInfo>,
    target: &Target,
    layer: LayerId,
    collides: &F,
) -> (hit: bool)
    requires
        forall|i: usize, j: usize|
            i < objects.len() && j < objects.len() ==> #[trigger] collides.requires((i, j)),
    ensures
        hit ==> layer_collision(objects@, *target, layer, reported(*collides, true)),
        !hit ==> !layer_collision(objects@, *target, layer, not_denied(*collides)),
        hit ==> exists|i: int, j: int|
            #![trigger objects@[i], objects@[j]]
            0 <= i < objects.len() && 0 <= j < objects.len() && i != j && target.selects_on_layer(
                objects@[i],
                layer,
            ) && objects@[j].layer == layer && collides.ensures((i as usize, j as usize), true),
        !hit ==> forall|i: int, j: int|
            #![trigger objects@[i], objects@[j]]
            0 <= i < objects.len() && 0 <= j < objects.len() && i != j && target.selects_on_layer(
                objects@[i],
                layer,
            ) && objects@[j].layer == layer ==> collides.ensures((i as usize, j as usize), false),
{
    let firsts = objects_for_target(objects, target, layer);
    let seconds = objects_on_layer(objects, layer);
    let hit = any_pair_collides(&firsts, &seconds, collides);
    proof {
        if hit {
            let (m1, m2) = choose|m1: int, m2: int|
                0 <= m1 < firsts.len() && 0 <= m2 < seconds.len() && firsts[m1] != seconds[m2]
                    && collides.ensures((firsts[m1], seconds[m2]), true);
            let (i, j) = (firsts[m1] as int, seconds[m2] as int);
            assert(reported(*collides, true)(i, j));
            assert(target.selects_on_layer(objects@[i], layer) && objects@[j].layer == layer);
            assert(0 <= i < objects.len() && 0 <= j < objects.len() && i != j
                && target.selects_on_layer(objects@[i], layer) && objects@[j].layer == layer
                && collides.ensures((i as usize, j as usize), true));
        } else {
            assert forall|i: int, j: int|
                0 <= i < objects.len() && 0 <= j < objects.len() && i != j
                    && target.selects_on_layer(objects@[i], layer) && objects@[j].layer == layer
                implies !#[trigger] not_denied(*collides)(i, j) by {
                let p1 = |k: int| target.selects_on_layer(objects@[k], layer);
                let p2 = |k: int| objects@[k].layer == layer;
                assert(p1(i));
                assert(p2(j));
                assert(firsts@.contains(i as usize));
                assert(seconds@.contains(j as usize));
            }
            assert forall|i: int, j: int|
                #![trigger objects@[i], objects@[j]]
                0 <= i < objects.len() && 0 <= j < objects.len() && i != j
                    && target.selects_on_layer(objects@[i], layer) && objects@[j].layer == layer
                implies collides.ensures((i as usize, j as usize), false) by {
                assert(!not_denied(*collides)(i, j));
            }
        }
    }
    hit
}

/// Whether an object that `t1` designates on `layer` overlaps another object
/// that `t2` designates on `layer`.
pub fn collision_on_layer<F: Fn(usize, usize) -> bool>(
    objects: &Vec<ObjectInfo>,
    t1: &Target,
    t2: &Target,
    layer: LayerId,
    collides: &F,
) -> (hit: bool)
    requires
        forall|i: usize, j: usize|
            i < objects.len() && j < objects.len() ==> #[trigger] collides.requires((i, j)),
    ensures
        hit ==> pair_collision(objects@, *t1, *t2, layer, reported(*collides, true)),
        !hit ==> !pair_collision(objects@, *t1, *t2, layer, not_denied(*collides)),
        hit ==> exists|i: int, j: int|
            #![trigger objects@[i], objects@[j]]
            0 <= i < objects.len() && 0 <= j < objects.len() && i != j && t1.selects_on_layer(
                objects@[i],
                layer,
            ) && t2.selects_on_layer(objects@[j], layer) && collides.ensures(
                (i as usize, j as usize),
                true,
            ),
        !hit ==> forall|i: int, j: int|
            #![trigger objects@[i], objects@[j]]
            0 <= i < objects.len() && 0 <= j < objects.len() && i != j && t1.selects_on_layer(
                objects@[i],
                layer,
            ) && t2.selects_on_layer(objects@[j], layer) ==> collides.ensures(
                (i as usize, j as usize),
                false,
            ),
{
    let firsts = objects_for_target(objects, t1, layer);
    let seconds = objects_for_target(objects, t2, layer);
    let hit = any_pair_collides(&firsts, &seconds, collides);
    proof {
        if hit {
            let (m1, m2) = choose|m1: int, m2: int|
                0 <= m1 < firsts.len() && 0 <= m2 < seconds.len() && firsts[m1] != seconds[m2]
                    && collides.ensures((firsts[m1], seconds[m2]), true);
            let (i, j) = (firsts[m1] as int, seconds[m2] as int);
            assert(reported(*collides, true)(i, j));
            assert(0 <= i < objects.len() && 0 <= j < objects.len() && i != j
                && t1.selects_on_layer(objects@[i], layer) && t2.selects_on_layer(objects@[j], layer)
                && collides.ensures((i as usize, j as usize), true));
        } else {
            assert forall|i: int, j: int|
                0 <= i < objects.len() && 0 <= j < objects.len() && i != j
                    && t1.selects_on_layer(objects@[i], layer) && t2.selects_on_layer(
                    objects@[j],
                    layer,
                ) implies !#[trigger] not_denied(*collides)(i, j) by {
                let p1 = |k: int| t1.selects_on_layer(objects@[k], layer);
                let p2 = |k: int| t2.selects_on_layer(objects@[k], layer);
                assert(p1(i));
                assert(p2(j));
                assert(firsts@.contains(i as usize));
                assert(seconds@.contains(j as usize));
            }
            assert forall|i: int, j: int|
                #![trigger objects@[i], objects@[j]]
                0 <= i < objects.len() && 0 <= j < objects.len() && i != j
                    && t1.selects_on_layer(objects@[i], layer) && t2.selects_on_layer(objects@[j], layer)
                implies collides.ensures((i as usize, j as usize), false) by {
                assert(!not_denied(*collides)(i, j));
            }
        }
    }
    hit
}

/// Indices, in table order, of the objects drawn on `layer`.
pub fn objects_on_layer(objects: &Vec<ObjectInfo>, layer: LayerId) -> (r: Vec<usize>)
    ensures
        indices_where(r@, objects.len() as int, |k: int| objects@[k].layer == layer),
{
    let r = matching_objects(objects, None, None, Some(layer));
    assert((|k: int| object_matches(objects@[k], None, None, Some(layer))) =~= (|k: int|
        objects@[k].layer == layer));
    r
}

} // verus!
