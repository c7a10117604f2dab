use vstd::prelude::*;

use crate::collision::{layer_collision, not_denied, pair_collision, reported};
use crate::events::{
    answering, binding_answers, fires_with, key_run, key_step, layer_is, KeyChange, lemma_select_preserves, not_gainsaid, possibly_fires, said,
    select_by_flags, some_selected, surely_fires,
};
use crate::layer_id::LayerId;
use crate::target::{ObjectInfo, Target};
use crate::world_event::WorldEvent;

verus! {

/// No two objects of the table share an id (as in a scene, which keys its
/// objects by id).
pub open spec fn ids_unique(objects: Seq<ObjectInfo>) -> bool {
    forall|i: int, j: int|
        0 <= i < objects.len() && 0 <= j < objects.len() && i != j ==> (#[trigger] objects[i]).id@
            != (#[trigger] objects[j]).id@
}

/// A key fires its bindings once per transition: a report that repeats the
/// key's state (a second press while it is held, a second release while it
/// is up) fires nothing and changes nothing.
pub proof fn law_repeated_report_fires_nothing<K, A>(
    held: Set<K>,
    bindings: Seq<WorldEvent<K, A>>,
    key: K,
    pressed: bool,
)
    ensures
        ({
            let c = KeyChange { key, pressed };
            let first = key_step(held, bindings, c);
            let second = key_step(first.0, bindings, c);
            &&& second.1 == Seq::<usize>::empty()
            &&& second.0 == first.0
        }),
{
    let c = KeyChange { key, pressed };
    let first = key_step(held, bindings, c);
    if pressed {
        assert(first.0.contains(key));
    } else {
        assert(!first.0.contains(key));
    }
}

/// A key pressed and released between two ticks fires both its presses and
/// then its releases, and is up again afterwards.
pub proof fn law_press_and_release_between_ticks<K, A>(
    held: Set<K>,
    bindings: Seq<WorldEvent<K, A>>,
    key: K,
)
    requires
        !held.contains(key),
    ensures
        ({
            let changes = seq![KeyChange { key, pressed: true }, KeyChange { key, pressed: false }];
            let run = key_run(held, bindings, changes);
            &&& run.1 == answering(bindings, key, true) + answering(bindings, key, false)
            &&& run.0 == held
        }),
{
    let changes = seq![KeyChange { key, pressed: true }, KeyChange { key, pressed: false }];
    assert(changes.drop_last() =~= seq![KeyChange { key, pressed: true }]);
    assert(changes.drop_last().drop_last() =~= Seq::<KeyChange<K>>::empty());
    reveal_with_fuel(key_run, 3);
    let one = key_run(held, bindings, changes.drop_last());
    assert(one.0 == held.insert(key));
    assert(one.1 =~= answering(bindings, key, true));
    assert(one.0.remove(key) =~= held);
}

/// Filtering the indices `0..n` keeps them in increasing order and keeps
/// exactly the indices that satisfy the predicate.
proof fn lemma_index_filter(n: nat, pred: spec_fn(usize) -> bool)
    requires
        n <= usize::MAX + 1,
    ensures
        ({
            let r = Seq::new(n, |i: int| i as usize).filter(pred);
            &&& forall|m: int| 0 <= m < r.len() ==> #[trigger] r[m] < n
            &&& forall|m1: int, m2: int| 0 <= m1 < m2 < r.len() ==> r[m1] < r[m2]
            &&& forall|i: int| 0 <= i < n ==> (#[trigger] r.contains(i as usize) <==> pred(i as usize))
        }),
    decreases n,
{
    reveal(Seq::filter);
    if n > 0 {
        let s = Seq::new(n, |i: int| i as usize);
        let s0 = Seq::new((n - 1) as nat, |i: int| i as usize);
        assert(s.drop_last() =~= s0);
        assert(s.last() == (n - 1) as usize);
        lemma_index_filter((n - 1) as nat, pred);
        let r0 = s0.filter(pred);
        let r = s.filter(pred);
        assert(r == if pred((n - 1) as usize) { r0.push((n - 1) as usize) } else { r0 });
        assert forall|i: int| 0 <= i < n implies (#[trigger] r.contains(i as usize) <==> pred(i as usize)) by {
            if i < n - 1 {
                if r.contains(i as usize) {
                    let m = choose|m: int| 0 <= m < r.len() && r[m] == i as usize;
                    if m < r0.len() {
                        assert(r0[m] == i as usize);
                        assert(r0.contains(i as usize));
                    }
                }
                if r0.contains(i as usize) {
                    let m = choose|m: int| 0 <= m < r0.len() && r0[m] == i as usize;
                    assert(r[m] == i as usize);
                }
            } else {
                if pred((n - 1) as usize) {
                    assert(r[r0.len() as int] == (n - 1) as usize);
                } else if r.contains(i as usize) {
                    let m = choose|m: int| 0 <= m < r.len() && r[m] == i as usize;
                    assert(r0[m] < n - 1);
                }
            }
        }
    }
}

/// A reported key change that is a transition (the key goes down while up,
/// or up while down) fires every binding of that key of the matching kind,
/// presses for going down and releases for going up, each once, in binding
/// order, and no other binding.
pub proof fn law_transition_fires_all_bindings_of_the_key<K, A>(
    held: Set<K>,
    bindings: Seq<WorldEvent<K, A>>,
    key: K,
    pressed: bool,
)
    requires
        held.contains(key) != pressed,
        bindings.len() <= usize::MAX,
    ensures
        ({
            let fired = key_run(held, bindings, seq![KeyChange { key, pressed }]).1;
            &&& forall|m: int| 0 <= m < fired.len() ==> #[trigger] fired[m] < bindings.len()
            &&& forall|m1: int, m2: int| 0 <= m1 < m2 < fired.len() ==> fired[m1] < fired[m2]
            &&& forall|i: int|
                0 <= i < bindings.len() ==> (#[trigger] fired.contains(i as usize) <==> (
                bindings[i].key_of() == Some(key) && if pressed {
                    bindings[i] is KeyPress
                } else {
                    bindings[i] is KeyRelease
                }))
        }),
{
    let changes = seq![KeyChange { key, pressed }];
    assert(changes.drop_last() =~= Seq::<KeyChange<K>>::empty());
    reveal_with_fuel(key_run, 2);
    let fired = key_run(held, bindings, changes).1;
    assert(fired =~= answering(bindings, key, pressed));
    let pred = |i: usize| binding_answers(bindings[i as int], key, pressed);
    lemma_index_filter(bindings.len(), pred);
    assert forall|i: int| 0 <= i < bindings.len() implies (#[trigger] fired.contains(i as usize) <==> (
        bindings[i].key_of() == Some(key) && if pressed {
            bindings[i] is KeyPress
        } else {
            bindings[i] is KeyRelease
        })) by {
        assert(pred(i as usize) == binding_answers(bindings[i], key, pressed));
    }
}

/// A reported key change that repeats the key's state fires nothing and
/// leaves the held keys as they were.
pub proof fn law_non_transition_fires_nothing<K, A>(
    held: Set<K>,
    bindings: Seq<WorldEvent<K, A>>,
    key: K,
    pressed: bool,
)
    requires
        held.contains(key) == pressed,
    ensures
        key_run(held, bindings, seq![KeyChange { key, pressed }]).1 == Seq::<usize>::empty(),
        key_run(held, bindings, seq![KeyChange { key, pressed }]).0 == held,
{
    let changes = seq![KeyChange { key, pressed }];
    assert(changes.drop_last() =~= Seq::<KeyChange<K>>::empty());
    reveal_with_fuel(key_run, 2);
    assert(Seq::<usize>::empty() + Seq::<usize>::empty() =~= Seq::<usize>::empty());
}

/// Changes apply one after another: the changes of one tick then those of
/// the next give what applying all of them in one tick gives.
pub proof fn law_changes_compose<K, A>(
    held: Set<K>,
    bindings: Seq<WorldEvent<K, A>>,
    first: Seq<KeyChange<K>>,
    second: Seq<KeyChange<K>>,
)
    ensures
        ({
            let a = key_run(held, bindings, first);
            let b = key_run(a.0, bindings, second);
            let all = key_run(held, bindings, first + second);
            &&& all.0 == b.0
            &&& all.1 == a.1 + b.1
        }),
    decreases second.len(),
{
    if second.len() == 0 {
        assert(first + second =~= first);
        assert(key_run(held, bindings, first).1 + Seq::<usize>::empty() =~= key_run(held, bindings, first).1);
    } else {
        let front = second.drop_last();
        law_changes_compose(held, bindings, first, front);
        assert((first + second).drop_last() =~= first + front);
        assert((first + second).last() == second.last());
        let a = key_run(held, bindings, first);
        let bf = key_run(a.0, bindings, front);
        let st = key_step(bf.0, bindings, second.last());
        assert(a.1 + (bf.1 + st.1) =~= (a.1 + bf.1) + st.1);
    }
}

/// An object of the target overlapping any other object on its layer is a
/// layer collision, whether or not the target designates the other object too.
pub proof fn law_layer_collision_any_pair(
    objects: Seq<ObjectInfo>,
    target: Target,
    layer: LayerId,
    overlaps: spec_fn(int, int) -> bool,
    i: int,
    j: int,
)
    requires
        0 <= i < objects.len(),
        0 <= j < objects.len(),
        i != j,
        target.selects_on_layer(objects[i], layer),
        objects[j].layer == layer,
        overlaps(i, j),
    ensures
        layer_collision(objects, target, layer, overlaps),
{
}

/// Any object of the first target overlapping any other object of the
/// second target on the layer is a collision of the two targets, whichever
/// of their objects the pair is.
pub proof fn law_pair_collision_any_pair(
    objects: Seq<ObjectInfo>,
    t1: Target,
    t2: Target,
    layer: LayerId,
    overlaps: spec_fn(int, int) -> bool,
    i: int,
    j: int,
)
    requires
        0 <= i < objects.len(),
        0 <= j < objects.len(),
        i != j,
        t1.selects_on_layer(objects[i], layer),
        t2.selects_on_layer(objects[j], layer),
        overlaps(i, j),
    ensures
        pair_collision(objects, t1, t2, layer, overlaps),
{
}

/// What a target designates: an id or a name designates the object with
/// that id on any layer, the layer filter notwithstanding; a tag designates
/// the objects carrying it, on the filter's layer when a filter is given;
/// designation on a layer also asks the object to be on that layer.
pub proof fn law_target_designation(o: ObjectInfo, s: String, filter: Option<LayerId>, layer: LayerId)
    ensures
        Target::ById(s).selects(o, filter) <==> o.id@ == s@,
        Target::ByName(s).selects(o, filter) <==> o.id@ == s@,
        Target::ByTag(s).selects(o, None) <==> exists|k: int|
            0 <= k < o.tags@.len() && (#[trigger] o.tags@[k])@ == s@,
        Target::ByTag(s).selects(o, Some(layer)) <==> (exists|k: int|
            0 <= k < o.tags@.len() && (#[trigger] o.tags@[k])@ == s@) && o.layer == layer,
        Target::ByTag(s).selects_on_layer(o, layer) <==> Target::ByTag(s).selects(o, None)
            && o.layer == layer,
        Target::ById(s).selects_on_layer(o, layer) <==> o.id@ == s@ && o.layer == layer,
{
}

/// Key events are never fired by the pending-event rules, whatever the
/// scene holds: they fire only through the key bindings.
pub proof fn law_key_events_wait<K, A>(
    e: WorldEvent<K, A>,
    objects: Seq<ObjectInfo>,
    layer_count: int,
    overlaps: spec_fn(int, int) -> bool,
    at_edge: spec_fn(int) -> bool,
    seen: spec_fn(int) -> bool,
    unseen: spec_fn(int) -> bool,
)
    requires
        e.is_key_event(),
    ensures
        !fires_with(e, objects, layer_count, overlaps, at_edge, seen, unseen),
{
}

/// Processing splits the pending events: every event either fires or keeps
/// waiting, none is lost or duplicated.
pub proof fn law_split_keeps_every_event<E>(events: Seq<E>, flags: Seq<bool>)
    ensures
        select_by_flags(events, flags, true).len() + select_by_flags(events, flags, false).len()
            == events.len(),
    decreases events.len(),
{
    if events.len() > 0 {
        law_split_keeps_every_event(events.drop_last(), flags);
    }
}

/// Processing keeps the order of events: with no event firing, the pending
/// events stay exactly as they were.
pub proof fn law_nothing_fires_nothing_changes<E>(events: Seq<E>, flags: Seq<bool>)
    requires
        forall|i: int| 0 <= i < events.len() ==> !#[trigger] flags[i],
    ensures
        select_by_flags(events, flags, false) == events,
        select_by_flags(events, flags, true) == Seq::<E>::empty(),
    decreases events.len(),
{
    if events.len() > 0 {
        let front = events.drop_last();
        assert forall|i: int| 0 <= i < front.len() implies !#[trigger] flags[i] by {
            assert(!flags[i]);
        }
        law_nothing_fires_nothing_changes(front, flags);
        assert(!flags[events.len() - 1]);
        assert(front.push(events.last()) =~= events);
    }
}

/// No call of the probes gave both answers for the same objects, as with
/// probes that compute their answer from the objects alone.
pub open spec fn answers_once<C: Fn(usize, usize) -> bool, B: Fn(usize) -> bool, V: Fn(
    usize,
) -> bool>(collides: C, at_boundary: B, in_view: V) -> bool {
    &&& forall|i: usize, j: usize|
        #![trigger collides.ensures((i, j), true)]
        !(collides.ensures((i, j), true) && collides.ensures((i, j), false))
    &&& forall|k: usize|
        #![trigger at_boundary.ensures((k,), true)]
        !(at_boundary.ensures((k,), true) && at_boundary.ensures((k,), false))
    &&& forall|k: usize|
        #![trigger in_view.ensures((k,), true)]
        !(in_view.ensures((k,), true) && in_view.ensures((k,), false))
}

/// The firing rule is monotone in the probe answers: more overlaps, edge
/// contacts or view answers can only make more events fire.
pub proof fn lemma_fires_monotone<K, A>(
    e: WorldEvent<K, A>,
    objects: Seq<ObjectInfo>,
    layer_count: int,
    o1: spec_fn(int, int) -> bool,
    a1: spec_fn(int) -> bool,
    s1: spec_fn(int) -> bool,
    u1: spec_fn(int) -> bool,
    o2: spec_fn(int, int) -> bool,
    a2: spec_fn(int) -> bool,
    s2: spec_fn(int) -> bool,
    u2: spec_fn(int) -> bool,
)
    requires
        forall|i: int, j: int|
            0 <= i < objects.len() && 0 <= j < objects.len() && #[trigger] o1(i, j) ==> o2(i, j),
        forall|k: int| 0 <= k < objects.len() && #[trigger] a1(k) ==> a2(k),
        forall|k: int| 0 <= k < objects.len() && #[trigger] s1(k) ==> s2(k),
        forall|k: int| 0 <= k < objects.len() && #[trigger] u1(k) ==> u2(k),
        fires_with(e, objects, layer_count, o1, a1, s1, u1),
    ensures
        fires_with(e, objects, layer_count, o2, a2, s2, u2),
{
    match e {
        WorldEvent::LayerCollision { target, layer, .. } => {
            let (i, j) = choose|i: int, j: int|
                #![trigger o1(i, j)]
                0 <= i < objects.len() && 0 <= j < objects.len() && i != j
                    && target.selects_on_layer(objects[i], layer) && objects[j].layer == layer
                    && o1(i, j);
            assert(o2(i, j));
            assert(layer_collision(objects, target, layer, o2));
        },
        WorldEvent::GlobalCollision { target, with_target, .. } => {
            let l = choose|l: int|
                0 <= l < layer_count && #[trigger] pair_collision(
                    objects,
                    target,
                    with_target,
                    LayerId(l as usize),
                    o1,
                );
            let (i, j) = choose|i: int, j: int|
                #![trigger o1(i, j)]
                0 <= i < objects.len() && 0 <= j < objects.len() && i != j
                    && target.selects_on_layer(objects[i], LayerId(l as usize))
                    && with_target.selects_on_layer(objects[j], LayerId(l as usize)) && o1(i, j);
            assert(o2(i, j));
            assert(pair_collision(objects, target, with_target, LayerId(l as usize), o2));
        },
        WorldEvent::BoundaryCollision { target, layer, .. } => {
            let k = choose|k: int|
                0 <= k < objects.len() && target.selects(objects[k], Some(layer)) && #[trigger] a1(k);
            assert(a2(k));
        },
        WorldEvent::CameraEnter { target, .. } => {
            let k = choose|k: int|
                0 <= k < objects.len() && target.selects(objects[k], None) && #[trigger] s1(k);
            assert(s2(k));
        },
        WorldEvent::CameraExit { target, .. } => {
            let k = choose|k: int|
                0 <= k < objects.len() && target.selects(objects[k], None) && #[trigger] u1(k);
            assert(u2(k));
        },
        _ => {},
    }
}

/// Processing the pending events a second time, with the same objects and
/// probes that give one answer per question, fires nothing and leaves the
/// pending events as they are: every event the first pass kept fails its
/// condition, and nothing has changed what the conditions read.
pub proof fn law_reprocessing_fires_nothing<K, A, C: Fn(usize, usize) -> bool, B: Fn(
    usize,
) -> bool, V: Fn(usize) -> bool>(
    pending: Seq<WorldEvent<K, A>>,
    first: Seq<bool>,
    second: Seq<bool>,
    objects: Seq<ObjectInfo>,
    layer_count: int,
    collides: C,
    at_boundary: B,
    in_view: V,
)
    requires
        answers_once(collides, at_boundary, in_view),
        first.len() == pending.len(),
        forall|i: int|
            0 <= i < first.len() && !#[trigger] first[i] ==> !possibly_fires(
                pending[i],
                objects,
                layer_count,
                collides,
                at_boundary,
                in_view,
            ),
        second.len() == select_by_flags(pending, first, false).len(),
        forall|i: int|
            0 <= i < second.len() && #[trigger] second[i] ==> surely_fires(
                select_by_flags(pending, first, false)[i],
                objects,
                layer_count,
                collides,
                at_boundary,
                in_view,
            ),
    ensures
        select_by_flags(select_by_flags(pending, first, false), second, true) == Seq::<
            WorldEvent<K, A>,
        >::empty(),
        select_by_flags(select_by_flags(pending, first, false), second, false) == select_by_flags(
            pending,
            first,
            false,
        ),
{
    let rest = select_by_flags(pending, first, false);
    let kept = |e: WorldEvent<K, A>|
        !possibly_fires(e, objects, layer_count, collides, at_boundary, in_view);
    assert forall|i: int| 0 <= i < pending.len() && first[i] == false implies kept(
        #[trigger] pending[i],
    ) by {}
    lemma_select_preserves(pending, first, false, kept);
    assert forall|i: int| 0 <= i < rest.len() implies !#[trigger] second[i] by {
        assert(kept(rest[i]));
        if second[i] {
            lemma_fires_monotone(
                rest[i],
                objects,
                layer_count,
                reported(collides, true),
                said(at_boundary, true),
                said(in_view, true),
                said(in_view, false),
                not_denied(collides),
                not_gainsaid(at_boundary, true),
                not_gainsaid(in_view, true),
                not_gainsaid(in_view, false),
            );
        }
    }
    law_nothing_fires_nothing_changes(rest, second);
}

/// Objects only collide with others on the same layer: a collision on
/// `layer` is always between two distinct objects that are both on `layer`.
pub proof fn law_collisions_stay_on_one_layer(
    objects: Seq<ObjectInfo>,
    t1: Target,
    t2: Target,
    layer: LayerId,
    overlaps: spec_fn(int, int) -> bool,
)
    requires
        pair_collision(objects, t1, t2, layer, overlaps),
    ensures
        exists|i: int, j: int|
            0 <= i < objects.len() && 0 <= j < objects.len() && i != j && (#[trigger] objects[i]).layer
                == layer && (#[trigger] objects[j]).layer == layer && overlaps(i, j),
{
    let (i, j) = choose|i: int, j: int|
        #![trigger overlaps(i, j)]
        0 <= i < objects.len() && 0 <= j < objects.len() && i != j && t1.selects_on_layer(
            objects[i],
            layer,
        ) && t2.selects_on_layer(objects[j], layer) && overlaps(i, j);
    assert(objects[i].layer == layer && objects[j].layer == layer);
}

/// With a symmetric overlap test, whether two targets collide does not
/// depend on which one is named first.
pub proof fn law_collision_symmetric(
    objects: Seq<ObjectInfo>,
    t1: Target,
    t2: Target,
    layer: LayerId,
    overlaps: spec_fn(int, int) -> bool,
)
    requires
        forall|i: int, j: int| #[trigger] overlaps(i, j) == overlaps(j, i),
    ensures
        pair_collision(objects, t1, t2, layer, overlaps) == pair_collision(
            objects,
            t2,
            t1,
            layer,
            overlaps,
        ),
{
    if pair_collision(objects, t1, t2, layer, overlaps) {
        let (i, j) = choose|i: int, j: int|
            #![trigger overlaps(i, j)]
            0 <= i < objects.len() && 0 <= j < objects.len() && i != j && t1.selects_on_layer(
                objects[i],
                layer,
            ) && t2.selects_on_layer(objects[j], layer) && overlaps(i, j);
        assert(overlaps(j, i));
    }
    if pair_collision(objects, t2, t1, layer, overlaps) {
        let (i, j) = choose|i: int, j: int|
            #![trigger overlaps(i, j)]
            0 <= i < objects.len() && 0 <= j < objects.len() && i != j && t2.selects_on_layer(
                objects[i],
                layer,
            ) && t1.selects_on_layer(objects[j], layer) && overlaps(i, j);
        assert(overlaps(j, i));
    }
}

/// An object never collides with itself: in a table with unique ids, an id
/// target never collides with the same id target.
pub proof fn law_no_self_collision(
    objects: Seq<ObjectInfo>,
    id: String,
    layer: LayerId,
    overlaps: spec_fn(int, int) -> bool,
)
    requires
        ids_unique(objects),
    ensures
        !pair_collision(objects, Target::ById(id), Target::ById(id), layer, overlaps),
{
    if pair_collision(objects, Target::ById(id), Target::ById(id), layer, overlaps) {
        let (i, j) = choose|i: int, j: int|
            #![trigger overlaps(i, j)]
            0 <= i < objects.len() && 0 <= j < objects.len() && i != j
                && Target::ById(id).selects_on_layer(objects[i], layer)
                && Target::ById(id).selects_on_layer(objects[j], layer) && overlaps(i, j);
        assert(objects[i].id@ == objects[j].id@);
    }
}

/// For an id that names exactly one object, exactly one of a layer-enter
/// and a layer-exit event for that layer fires.
pub proof fn law_enter_exit_complementary<K, A>(
    objects: Seq<ObjectInfo>,
    k: int,
    layer: LayerId,
    enter_action: A,
    exit_action: A,
    layer_count: int,
    overlaps: spec_fn(int, int) -> bool,
    at_edge: spec_fn(int) -> bool,
    seen: spec_fn(int) -> bool,
    unseen: spec_fn(int) -> bool,
)
    requires
        ids_unique(objects),
        0 <= k < objects.len(),
    ensures
        ({
            let target = Target::ById(objects[k].id);
            let enter = WorldEvent::<K, A>::LayerEnter { action: enter_action, target, layer };
            let exit = WorldEvent::<K, A>::LayerExit { action: exit_action, target, layer };
            fires_with(enter, objects, layer_count, overlaps, at_edge, seen, unseen) != fires_with(
                exit,
                objects,
                layer_count,
                overlaps,
                at_edge,
                seen,
                unseen,
            )
        }),
{
    let target = Target::ById(objects[k].id);
    assert(target.selects(objects[k], None));
    let on = layer_is(objects, layer, true);
    let off = layer_is(objects, layer, false);
    if objects[k].layer == layer {
        assert(on(k));
        assert(some_selected(objects, target, None, on));
        if some_selected(objects, target, None, off) {
            let j = choose|j: int|
                0 <= j < objects.len() && target.selects(objects[j], None) && #[trigger] off(j);
            assert(objects[j].id@ == objects[k].id@);
            assert(j == k);
        }
    } else {
        assert(off(k));
        assert(some_selected(objects, target, None, off));
        if some_selected(objects, target, None, on) {
            let j = choose|j: int|
                0 <= j < objects.len() && target.selects(objects[j], None) && #[trigger] on(j);
            assert(objects[j].id@ == objects[k].id@);
            assert(j == k);
        }
    }
}

/// For an id that names exactly one object, whose camera view test gives one
/// answer, exactly one of a camera-enter and a camera-exit event fires.
pub proof fn law_camera_enter_exit_complementary<K, A>(
    objects: Seq<ObjectInfo>,
    k: int,
    enter_action: A,
    exit_action: A,
    layer_count: int,
    overlaps: spec_fn(int, int) -> bool,
    at_edge: spec_fn(int) -> bool,
    visible: spec_fn(int) -> bool,
)
    requires
        ids_unique(objects),
        0 <= k < objects.len(),
    ensures
        ({
            let target = Target::ById(objects[k].id);
            let enter = WorldEvent::<K, A>::CameraEnter { action: enter_action, target };
            let exit = WorldEvent::<K, A>::CameraExit { action: exit_action, target };
            let hidden = |i: int| !visible(i);
            fires_with(enter, objects, layer_count, overlaps, at_edge, visible, hidden)
                != fires_with(exit, objects, layer_count, overlaps, at_edge, visible, hidden)
        }),
{
    let target = Target::ById(objects[k].id);
    let hidden = |i: int| !visible(i);
    assert(target.selects(objects[k], None));
    if visible(k) {
        assert(some_selected(objects, target, None, visible));
        if some_selected(objects, target, None, hidden) {
            let j = choose|j: int|
                0 <= j < objects.len() && target.selects(objects[j], None) && #[trigger] hidden(j);
            assert(objects[j].id@ == objects[k].id@);
        }
    } else {
        assert(hidden(k));
        assert(some_selected(objects, target, None, hidden));
        if some_selected(objects, target, None, visible) {
            let j = choose|j: int|
                0 <= j < objects.len() && target.selects(objects[j], None) && #[trigger] visible(j);
            assert(objects[j].id@ == objects[k].id@);
        }
    }
}

/// The accessors agree with the event kinds: exactly the four layer events
/// name a layer, exactly the key events carry a key, and no event is both a
/// press and a release.
pub proof fn law_event_kinds<K, A>(e: WorldEvent<K, A>)
    ensures
        e.layer_of() is Some <==> (e is LayerCollision || e is LayerEnter || e is LayerExit
            || e is BoundaryCollision),
        e.key_of() is Some <==> e.is_key_event(),
        !(e is KeyPress && e is KeyRelease),
{
}

} // verus!
