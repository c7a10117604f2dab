use vstd::prelude::*;
use vstd::std_specs::cmp::PartialEqSpec;

use crate::collision::{
    collision_on_layer, layer_collision, layer_collision_for_target, not_denied, pair_collision,
    reported,
};
use crate::layer_id::LayerId;
use crate::target::{ObjectInfo, Target};
use crate::world_event::WorldEvent;

verus! {

/// A yes/no about object `k` as a call of `probe` on `k` reported it.
pub open spec fn said<F: Fn(usize) -> bool>(probe: F, b: bool) -> spec_fn(int) -> bool {
    |k: int| probe.ensures((k as usize,), b)
}

/// Yes about object `k` unless a call of `probe` on `k` reported the opposite.
pub open spec fn not_gainsaid<F: Fn(usize) -> bool>(probe: F, b: bool) -> spec_fn(int) -> bool {
    |k: int| !probe.ensures((k as usize,), !b)
}

/// Some object that `target` designates (tag targets narrowed to
/// `layer_filter`) satisfies `p`.
pub open spec fn some_selected(
    objects: Seq<ObjectInfo>,
    target: Target,
    layer_filter: Option<LayerId>,
    p: spec_fn(int) -> bool,
) -> bool {
    exists|k: int| 0 <= k < objects.len() && target.selects(objects[k], layer_filter) && #[trigger] p(k)
}

/// Object `k` is on `layer` (with `on` true) or on another layer (with `on` false).
pub open spec fn layer_is(objects: Seq<ObjectInfo>, layer: LayerId, on: bool) -> spec_fn(int) -> bool {
    |k: int| (objects[k].layer == layer) == on
}

/// Whether a non-key event fires, given the scene's objects, its number of
/// layers, and which pairs of objects overlap (`overlaps`), which objects touch
/// the scene's edge (`at_edge`), which are inside the camera's view (`seen`)
/// and which are outside it (`unseen`). Key events never fire here.
pub open spec fn fires_with<K, A>(
    e: WorldEvent<K, A>,
    objects: Seq<ObjectInfo>,
    layer_count: int,
    overlaps: spec_fn(int, int) -> bool,
    at_edge: spec_fn(int) -> bool,
    seen: spec_fn(int) -> bool,
    unseen: spec_fn(int) -> bool,
) -> bool {
    match e {
        WorldEvent::KeyPress { .. } => false,
        WorldEvent::KeyRelease { .. } => false,
        WorldEvent::LayerCollision { target, layer, .. } => layer_collision(
            objects,
            target,
            layer,
            overlaps,
        ),
        WorldEvent::GlobalCollision { target, with_target, .. } => exists|l: int|
            0 <= l < layer_count && #[trigger] pair_collision(
                objects,
                target,
                with_target,
                LayerId(l as usize),
                overlaps,
            ),
        WorldEvent::BoundaryCollision { target, layer, .. } => some_selected(
            objects,
            target,
            Some(layer),
            at_edge,
        ),
        WorldEvent::CameraEnter { target, .. } => some_selected(objects, target, None, seen),
        WorldEvent::CameraExit { target, .. } => some_selected(objects, target, None, unseen),
        WorldEvent::LayerEnter { target, layer, .. } => some_selected(
            objects,
            target,
            None,
            layer_is(objects, layer, true),
        ),
        WorldEvent::LayerExit { target, layer, .. } => some_selected(
            objects,
            target,
            None,
            layer_is(objects, layer, false),
        ),
    }
}

/// The firing rule with every probe answer taken as the probes reported it.
pub open spec fn surely_fires<K, A, C: Fn(usize, usize) -> bool, B: Fn(usize) -> bool, V: Fn(
    usize,
) -> bool>(
    e: WorldEvent<K, A>,
    objects: Seq<ObjectInfo>,
    layer_count: int,
    collides: C,
    at_boundary: B,
    in_view: V,
) -> bool {
    fires_with(
        e,
        objects,
        layer_count,
        reported(collides, true),
        said(at_boundary, true),
        said(in_view, true),
        said(in_view, false),
    )
}

/// The firing rule with every probe answer taken as "yes" unless a probe
/// reported "no".
pub open spec fn possibly_fires<K, A, C: Fn(usize, usize) -> bool, B: Fn(usize) -> bool, V: Fn(
    usize,
) -> bool>(
    e: WorldEvent<K, A>,
    objects: Seq<ObjectInfo>,
    layer_count: int,
    collides: C,
    at_boundary: B,
    in_view: V,
) -> bool {
    fires_with(
        e,
        objects,
        layer_count,
        not_denied(collides),
        not_gainsaid(at_boundary, true),
        not_gainsaid(in_view, true),
        not_gainsaid(in_view, false),
    )
}

/// The events of `events` whose flag is `want`, in their order.
pub open spec fn select_by_flags<E>(events: Seq<E>, flags: Seq<bool>, want: bool) -> Seq<E>
    decreases events.len(),
{
    if events.len() == 0 {
        Seq::empty()
    } else {
        let rest = select_by_flags(events.drop_last(), flags, want);
        if flags[events.len() - 1] == want {
            rest.push(events.last())
        } else {
            rest
        }
    }
}

/// Whether some object that `target` designates satisfies `probe`'s answer `want`.
fn any_selected<F: Fn(usize) -> bool>(
    objects: &Vec<ObjectInfo>,
    target: &Target,
    layer_filter: Option<LayerId>,
    probe: &F,
    want: bool,
) -> (hit: bool)
    requires
        forall|k: usize| k < objects.len() ==> #[trigger] probe.requires((k,)),
    ensures
        hit ==> some_selected(objects@, *target, layer_filter, said(*probe, want)),
        !hit ==> !some_selected(objects@, *target, layer_filter, not_gainsaid(*probe, want)),
{
    let mut k: usize = 0;
    while k < objects.len()
        invariant
            0 <= k <= objects.len(),
            forall|k: usize| k < objects.len() ==> #[trigger] probe.requires((k,)),
            forall|j: int|
                0 <= j < k && target.selects(objects@[j], layer_filter) ==> probe.ensures(
                    (j as usize,),
                    !want,
                ),
        decreases objects.len() - k,
    {
        if target.designates(&objects[k], layer_filter) {
            let answer = probe(k);
            if answer == want {
                assert(said(*probe, want)(k as int));
                return true;
            }
        }
        k += 1;
    }
    assert forall|j: int|
        0 <= j < objects.len() && target.selects(objects@[j], layer_filter) implies !#[trigger] not_gainsaid(
        *probe,
        want,
    )(j) by {}
    false
}

/// Whether some object that `target` designates is on (or, with `on` false,
/// off) `layer`.
fn any_selected_layer(objects: &Vec<ObjectInfo>, target: &Target, layer: LayerId, on: bool) -> (hit:
    bool)
    ensures
        hit == some_selected(objects@, *target, None, layer_is(objects@, layer, on)),
{
    let ghost p = layer_is(objects@, layer, on);
    let mut k: usize = 0;
    while k < objects.len()
        invariant
            0 <= k <= objects.len(),
            p == layer_is(objects@, layer, on),
            forall|j: int| 0 <= j < k && target.selects(objects@[j], None) ==> !p(j),
        decreases objects.len() - k,
    {
        if target.designates(&objects[k], None) && (objects[k].layer == layer) == on {
            assert(p(k as int));
            return true;
        }
        k += 1;
    }
    false
}

/// Whether objects of `t1` and `t2` overlap on one of the first `layer_count` layers.
fn collision_on_any_layer<F: Fn(usize, usize) -> bool>(
    objects: &Vec<ObjectInfo>,
    t1: &Target,
    t2: &Target,
    layer_count: usize,
    collides: &F,
) -> (hit: bool)
    requires
        forall|i: usize, j: usize|
            i < objects.len() && j < objects.len() ==> #[trigger] collides.requires((i, j)),
    ensures
        hit ==> exists|l: int|
            0 <= l < layer_count && #[trigger] pair_collision(
                objects@,
                *t1,
                *t2,
                LayerId(l as usize),
                reported(*collides, true),
            ),
        !hit ==> !exists|l: int|
            0 <= l < layer_count && #[trigger] pair_collision(
                objects@,
                *t1,
                *t2,
                LayerId(l as usize),
                not_denied(*collides),
            ),
{
    let mut l: usize = 0;
    while l < layer_count
        invariant
            0 <= l <= layer_count,
            forall|i: usize, j: usize|
            i < objects.len() && j < objects.len() ==> #[trigger] collides.requires((i, j)),
            forall|m: int|
                0 <= m < l ==> !#[trigger] pair_collision(
                    objects@,
                    *t1,
                    *t2,
                    LayerId(m as usize),
                    not_denied(*collides),
                ),
        decreases layer_count - l,
    {
        if collision_on_layer(objects, t1, t2, LayerId(l), collides) {
            assert(pair_collision(
                objects@,
                *t1,
                *t2,
                LayerId(l as int as usize),
                reported(*collides, true),
            ));
            return true;
        }
        l += 1;
    }
    false
}

/// Whether the event `e` fires, as its rule reads the objects and the probes.
fn event_fires<K, A, C: Fn(usize, usize) -> bool, B: Fn(usize) -> bool, V: Fn(usize) -> bool>(
    e: &WorldEvent<K, A>,
    objects: &Vec<ObjectInfo>,
    layer_count: usize,
    collides: &C,
    at_boundary: &B,
    in_view: &V,
) -> (fire: bool)
    requires
        forall|i: usize, j: usize|
            i < objects.len() && j < objects.len() ==> #[trigger] collides.requires((i, j)),
        forall|k: usize| k < objects.len() ==> #[trigger] at_boundary.requires((k,)),
        forall|k: usize| k < objects.len() ==> #[trigger] in_view.requires((k,)),
    ensures
        fire ==> surely_fires(*e, objects@, layer_count as int, *collides, *at_boundary, *in_view),
        !fire ==> !possibly_fires(
            *e,
            objects@,
            layer_count as int,
            *collides,
            *at_boundary,
            *in_view,
        ),
{
    match e {
        WorldEvent::KeyPress { .. } => false,
        WorldEvent::KeyRelease { .. } => false,
        WorldEvent::LayerCollision { target, layer, .. } => layer_collision_for_target(
            objects,
            target,
            *layer,
            collides,
        ),
        WorldEvent::GlobalCollision { target, with_target, .. } => collision_on_any_layer(
            objects,
            target,
            with_target,
            layer_count,
            collides,
        ),
        WorldEvent::BoundaryCollision { target, layer, .. } => any_selected(
            objects,
            target,
            Some(*layer),
            at_boundary,
            true,
        ),
        WorldEvent::CameraEnter { target, .. } => any_selected(objects, target, None, in_view, true),
        WorldEvent::CameraExit { target, .. } => any_selected(objects, target, None, in_view, false),
        WorldEvent::LayerEnter { target, layer, .. } => any_selected_layer(
            objects,
            target,
            *layer,
            true,
        ),
        WorldEvent::LayerExit { target, layer, .. } => any_selected_layer(
            objects,
            target,
            *layer,
            false,
        ),
    }
}

} // verus!

verus! {

/// A key change that an input source reported: `key` went down (`pressed`)
/// or up.
#[derive(Clone, Debug)]
pub struct KeyChange<K> {
    pub key: K,
    pub pressed: bool,
}

/// Binding `e` answers the report that `key` went down (`pressed`) or up:
/// a press of that key answers it going down, a release of that key answers
/// it going up.
pub open spec fn binding_answers<K, A>(e: WorldEvent<K, A>, key: K, pressed: bool) -> bool {
    match e {
        WorldEvent::KeyPress { key: k, .. } => pressed && k == key,
        WorldEvent::KeyRelease { key: k, .. } => !pressed && k == key,
        _ => false,
    }
}

/// Indices, in order, of the bindings that answer `key` going down
/// (`pressed`) or up.
pub open spec fn answering<K, A>(bindings: Seq<WorldEvent<K, A>>, key: K, pressed: bool) -> Seq<usize> {
    Seq::new(bindings.len(), |i: int| i as usize).filter(
        |i: usize| binding_answers(bindings[i as int], key, pressed),
    )
}

/// One reported change applied to the set of held keys: a key that goes
/// down while up, or up while down, is a transition, and the bindings that
/// answer it fire; a report that changes nothing fires nothing. Returns the
/// new set of held keys and the bindings that fire.
pub open spec fn key_step<K, A>(
    held: Set<K>,
    bindings: Seq<WorldEvent<K, A>>,
    change: KeyChange<K>,
) -> (Set<K>, Seq<usize>) {
    if change.pressed {
        if held.contains(change.key) {
            (held, Seq::empty())
        } else {
            (held.insert(change.key), answering(bindings, change.key, true))
        }
    } else {
        if held.contains(change.key) {
            (held.remove(change.key), answering(bindings, change.key, false))
        } else {
            (held, Seq::empty())
        }
    }
}

/// The reported changes applied in order: the held keys afterwards and the
/// bindings that fire, in firing order.
pub open spec fn key_run<K, A>(
    held: Set<K>,
    bindings: Seq<WorldEvent<K, A>>,
    changes: Seq<KeyChange<K>>,
) -> (Set<K>, Seq<usize>)
    decreases changes.len(),
{
    if changes.len() == 0 {
        (held, Seq::empty())
    } else {
        let (h, f) = key_run(held, bindings, changes.drop_last());
        let (h2, f2) = key_step(h, bindings, changes.last());
        (h2, f + f2)
    }
}

/// Where `key` stands in `held`, if it does.
fn find_key<K: PartialEq>(held: &Vec<K>, key: &K) -> (r: Option<usize>)
    requires
        vstd::laws_eq::obeys_concrete_eq::<K>(),
    ensures
        match r {
            Some(p) => p < held.len() && held@[p as int] == *key,
            None => !held@.contains(*key),
        },
{
    proof {
        reveal(vstd::laws_eq::obeys_concrete_eq);
    }
    let mut i: usize = 0;
    while i < held.len()
        invariant
            0 <= i <= held.len(),
            K::obeys_eq_spec(),
            forall|x: K, y: K| x.eq_spec(&y) <==> x == y,
            forall|j: int| 0 <= j < i ==> held@[j] != *key,
        decreases held.len() - i,
    {
        if held[i].eq(key) {
            return Some(i);
        }
        i += 1;
    }
    None
}

/// Indices, in order, of the bindings that answer `key` going down
/// (`pressed`) or up.
fn answering_bindings<K: PartialEq, A>(
    bindings: &Vec<WorldEvent<K, A>>,
    key: &K,
    pressed: bool,
) -> (r: Vec<usize>)
    requires
        vstd::laws_eq::obeys_concrete_eq::<K>(),
    ensures
        r@ == answering(bindings@, *key, pressed),
{
    proof {
        reveal(vstd::laws_eq::obeys_concrete_eq);
    }
    let ghost idx = Seq::new(bindings.len() as nat, |i: int| i as usize);
    let ghost pred = |i: usize| binding_answers(bindings@[i as int], *key, pressed);
    let mut r: Vec<usize> = Vec::new();
    proof {
        reveal(Seq::filter);
        assert(idx.take(0).filter(pred) =~= Seq::<usize>::empty());
    }
    let mut i: usize = 0;
    while i < bindings.len()
        invariant
            0 <= i <= bindings.len(),
            idx == Seq::new(bindings.len() as nat, |i: int| i as usize),
            pred == (|i: usize| binding_answers(bindings@[i as int], *key, pressed)),
            K::obeys_eq_spec(),
            forall|x: K, y: K| x.eq_spec(&y) <==> x == y,
            r@ == idx.take(i as int).filter(pred),
        decreases bindings.len() - i,
    {
        let answers = match &bindings[i] {
            WorldEvent::KeyPress { key: k, .. } => pressed && k.eq(key),
            WorldEvent::KeyRelease { key: k, .. } => !pressed && k.eq(key),
            _ => false,
        };
        proof {
            assert(idx.take(i + 1).drop_last() =~= idx.take(i as int));
            assert(idx.take(i + 1).last() == i);
            assert(answers == pred(i));
        }
        let ghost old_r = r@;
        if answers {
            r.push(i);
        }
        proof {
            reveal(Seq::filter);
            let s1 = idx.take(i + 1);
            assert(s1.filter(pred) == if pred(s1.last()) {
                s1.drop_last().filter(pred).push(s1.last())
            } else {
                s1.drop_last().filter(pred)
            });
            assert(r@ == s1.filter(pred));
        }
        i += 1;
    }
    proof {
        assert(idx.take(bindings.len() as int) =~= idx);
    }
    r
}

/// The two queues of a scene: the key bindings, which stay registered, and
/// the other events, which wait until they fire. The queue also keeps the set
/// of keys held, so that each reported key change fires its bindings once
/// per transition.
#[derive(Debug)]
pub struct EventQueue<K, A> {
    events: Vec<WorldEvent<K, A>>,
    key_events: Vec<WorldEvent<K, A>>,
    held: Vec<K>,
}

impl<K, A> EventQueue<K, A> {
    /// The events that wait to fire, in the order they were added.
    pub closed spec fn pending(self) -> Seq<WorldEvent<K, A>> {
        self.events@
    }

    /// The key bindings, in the order they were added.
    pub closed spec fn key_bindings(self) -> Seq<WorldEvent<K, A>> {
        self.key_events@
    }

    /// The keys held, as the reported changes left them.
    pub closed spec fn held_keys(self) -> Set<K> {
        Set::new(|k: K| self.held@.contains(k))
    }

    /// No key event waits among the pending events, every binding is a key
    /// event, and no key is recorded twice as held.
    #[verifier::type_invariant]
    closed spec fn routed(self) -> bool {
        &&& forall|i: int| 0 <= i < self.events@.len() ==> !(#[trigger] self.events@[i]).is_key_event()
        &&& forall|i: int|
            0 <= i < self.key_events@.len() ==> (#[trigger] self.key_events@[i]).is_key_event()
        &&& forall|i: int, j: int|
            0 <= i < self.held@.len() && 0 <= j < self.held@.len() && i != j ==> self.held@[i]
                != self.held@[j]
    }

    /// An empty queue, with no key held.
    pub fn new() -> (q: Self)
        ensures
            q.pending() == Seq::<WorldEvent<K, A>>::empty(),
            q.key_bindings() == Seq::<WorldEvent<K, A>>::empty(),
            q.held_keys() == Set::<K>::empty(),
    {
        let q = EventQueue { events: Vec::new(), key_events: Vec::new(), held: Vec::new() };
        assert(q.held_keys() =~= Set::<K>::empty());
        q
    }

    /// The events that wait to fire.
    pub fn events(&self) -> (v: &Vec<WorldEvent<K, A>>)
        ensures
            v@ == self.pending(),
    {
        &self.events
    }

    /// The key bindings.
    pub fn key_events(&self) -> (v: &Vec<WorldEvent<K, A>>)
        ensures
            v@ == self.key_bindings(),
    {
        &self.key_events
    }

    /// Queues an event: a key press or release becomes a key binding; any
    /// other event waits among the pending events.
    pub fn add_event(&mut self, event: WorldEvent<K, A>)
        ensures
            event.is_key_event() ==> final(self).key_bindings() == old(self).key_bindings().push(event)
                && final(self).pending() == old(self).pending(),
            !event.is_key_event() ==> final(self).pending() == old(self).pending().push(event)
                && final(self).key_bindings() == old(self).key_bindings(),
            final(self).held_keys() == old(self).held_keys(),
    {
        proof {
            use_type_invariant(&*self);
        }
        if event.is_key_press() || event.is_key_release() {
            let mut bindings: Vec<WorldEvent<K, A>> = Vec::new();
            std::mem::swap(&mut bindings, &mut self.key_events);
            bindings.push(event);
            self.key_events = bindings;
        } else {
            let mut pending: Vec<WorldEvent<K, A>> = Vec::new();
            std::mem::swap(&mut pending, &mut self.events);
            pending.push(event);
            self.events = pending;
        }
    }

    /// Takes out the pending events that fire this tick and keeps the others
    /// waiting, in their order. `objects` describes the scene's objects,
    /// `layer_count` is its number of layers, `collides(i, j)` tells whether
    /// objects `i` and `j` overlap, `at_boundary(k)` whether object `k`
    /// touches the edge of the scene and `in_view(k)` whether it is inside
    /// the camera's view. Returns the fired events, in their order.
    pub fn process_events<C: Fn(usize, usize) -> bool, B: Fn(usize) -> bool, V: Fn(usize) -> bool>(
        &mut self,
        objects: &Vec<ObjectInfo>,
        layer_count: usize,
        collides: &C,
        at_boundary: &B,
        in_view: &V,
    ) -> (fired: Vec<WorldEvent<K, A>>)
        requires
            forall|i: usize, j: usize|
            i < objects.len() && j < objects.len() ==> #[trigger] collides.requires((i, j)),
            forall|k: usize| k < objects.len() ==> #[trigger] at_boundary.requires((k,)),
            forall|k: usize| k < objects.len() ==> #[trigger] in_view.requires((k,)),
        ensures
            exists|flags: Seq<bool>|
                {
                    &&& flags.len() == old(self).pending().len()
                    &&& fired@ == #[trigger] select_by_flags(old(self).pending(), flags, true)
                    &&& final(self).pending() == select_by_flags(old(self).pending(), flags, false)
                    &&& forall|i: int|
                        0 <= i < flags.len() ==> (#[trigger] flags[i] ==> surely_fires(
                            old(self).pending()[i],
                            objects@,
                            layer_count as int,
                            *collides,
                            *at_boundary,
                            *in_view,
                        )) && (!flags[i] ==> !possibly_fires(
                            old(self).pending()[i],
                            objects@,
                            layer_count as int,
                            *collides,
                            *at_boundary,
                            *in_view,
                        ))
                },
            final(self).key_bindings() == old(self).key_bindings(),
            final(self).held_keys() == old(self).held_keys(),
    {
        proof {
            use_type_invariant(&*self);
        }
        let mut pending: Vec<WorldEvent<K, A>> = Vec::new();
        std::mem::swap(&mut pending, &mut self.events);
        let ghost all = pending@;
        assert(all == old(self).pending());
        let n = pending.len();
        let mut flags: Vec<bool> = Vec::new();
        let mut i: usize = 0;
        while i < n
            invariant
                0 <= i <= n,
                n == pending.len(),
                pending@ == all,
                flags.len() == i,
                forall|i: usize, j: usize|
            i < objects.len() && j < objects.len() ==> #[trigger] collides.requires((i, j)),
                forall|k: usize| k < objects.len() ==> #[trigger] at_boundary.requires((k,)),
                forall|k: usize| k < objects.len() ==> #[trigger] in_view.requires((k,)),
                forall|j: int|
                    0 <= j < i ==> (#[trigger] flags@[j] ==> surely_fires(
                        all[j],
                        objects@,
                        layer_count as int,
                        *collides,
                        *at_boundary,
                        *in_view,
                    )) && (!flags@[j] ==> !possibly_fires(
                        all[j],
                        objects@,
                        layer_count as int,
                        *collides,
                        *at_boundary,
                        *in_view,
                    )),
            decreases n - i,
        {
            let f = event_fires(&pending[i], objects, layer_count, collides, at_boundary, in_view);
            flags.push(f);
            i += 1;
        }
        let mut fired: Vec<WorldEvent<K, A>> = Vec::new();
        let mut remaining: Vec<WorldEvent<K, A>> = Vec::new();
        let mut k: usize = 0;
        while pending.len() > 0
            invariant
                0 <= k <= n,
                n == all.len(),
                flags.len() == n,
                pending@ == all.skip(k as int),
                fired@ == select_by_flags(all.take(k as int), flags@, true),
                remaining@ == select_by_flags(all.take(k as int), flags@, false),
                forall|j: int| 0 <= j < all.len() ==> !(#[trigger] all[j]).is_key_event(),
            decreases pending.len(),
        {
            let e = pending.remove(0);
            proof {
                assert(all.take(k + 1).drop_last() =~= all.take(k as int));
                assert(pending@ =~= all.skip(k + 1));
            }
            if flags[k] {
                fired.push(e);
            } else {
                remaining.push(e);
            }
            k += 1;
        }
        proof {
            assert(all.take(n as int) =~= all);
            let not_key = |e: WorldEvent<K, A>| !e.is_key_event();
            assert forall|j: int| 0 <= j < all.len() implies not_key(#[trigger] all[j]) by {}
            lemma_select_preserves(all, flags@, false, not_key);
            assert forall|j: int| 0 <= j < remaining@.len() implies !(#[trigger] remaining@[j]).is_key_event() by {
                assert(not_key(remaining@[j]));
            }
        }
        self.events = remaining;
        assert(flags@.len() == old(self).pending().len());
        assert(fired@ == select_by_flags(old(self).pending(), flags@, true));
        fired
    }

    /// Applies the key changes reported since the last tick, in order, and
    /// returns the indices of the bindings that fire, in firing order: a key
    /// going down while up fires the presses of that key, a key going up
    /// while down fires its releases; a report that changes nothing fires
    /// nothing.
    pub fn process_key_events(&mut self, changes: Vec<KeyChange<K>>) -> (fire: Vec<usize>) where
        K: PartialEq,

        requires
            vstd::laws_eq::obeys_concrete_eq::<K>(),
        ensures
            final(self).pending() == old(self).pending(),
            final(self).key_bindings() == old(self).key_bindings(),
            final(self).held_keys() == key_run(
                old(self).held_keys(),
                old(self).key_bindings(),
                changes@,
            ).0,
            fire@ == key_run(old(self).held_keys(), old(self).key_bindings(), changes@).1,
    {
        proof {
            use_type_invariant(&*self);
            reveal(vstd::laws_eq::obeys_concrete_eq);
        }
        let mut held: Vec<K> = Vec::new();
        std::mem::swap(&mut held, &mut self.held);
        let ghost all = changes@;
        let ghost start = old(self).held_keys();
        let ghost bindings = self.key_events@;
        assert(Set::new(|x: K| held@.contains(x)) =~= start);
        let mut changes = changes;
        let mut fire: Vec<usize> = Vec::new();
        let n = changes.len();
        let mut k: usize = 0;
        while changes.len() > 0
            invariant
                0 <= k <= n,
                n == all.len(),
                changes@ == all.skip(k as int),
                self.key_events@ == bindings,
                self.events@ == old(self).events@,
                bindings == old(self).key_bindings(),
                start == old(self).held_keys(),
                vstd::laws_eq::obeys_concrete_eq::<K>(),
                K::obeys_eq_spec(),
                forall|x: K, y: K| x.eq_spec(&y) <==> x == y,
                forall|i: int, j: int|
                    0 <= i < held@.len() && 0 <= j < held@.len() && i != j ==> held@[i] != held@[j],
                Set::new(|x: K| held@.contains(x)) == key_run(start, bindings, all.take(k as int)).0,
                fire@ == key_run(start, bindings, all.take(k as int)).1,
            decreases changes.len(),
        {
            let c = changes.remove(0);
            let ghost before_set = Set::new(|x: K| held@.contains(x));
            let ghost before_held = held@;
            let ghost before_fire = fire@;
            proof {
                assert(all.take(k + 1).drop_last() =~= all.take(k as int));
                assert(all.take(k + 1).last() == c);
                assert(changes@ =~= all.skip(k + 1));
            }
            let pos = find_key(&held, &c.key);
            proof {
                assert(before_set.contains(c.key) == (pos is Some)) by {
                    if let Some(p) = pos {
                        assert(held@.contains(c.key));
                    }
                }
            }
            if c.pressed {
                if pos.is_none() {
                    let mut part = answering_bindings(&self.key_events, &c.key, true);
                    fire.append(&mut part);
                    held.push(c.key);
                    proof {
                        assert(Set::new(|x: K| held@.contains(x)) =~= before_set.insert(c.key)) by {
                            assert forall|x: K| held@.contains(x) <==> before_set.contains(x) || x == c.key by {
                                if held@.contains(x) {
                                    let m = choose|m: int| 0 <= m < held@.len() && held@[m] == x;
                                    if m < before_held.len() {
                                        assert(before_held[m] == x);
                                    }
                                }
                                if before_held.contains(x) {
                                    let m = choose|m: int| 0 <= m < before_held.len() && before_held[m] == x;
                                    assert(held@[m] == x);
                                }
                                if x == c.key {
                                    assert(held@[before_held.len() as int] == x);
                                }
                            }
                        }
                        assert forall|i: int, j: int|
                            0 <= i < held@.len() && 0 <= j < held@.len() && i != j implies held@[i] != held@[j] by {
                            if i < before_held.len() && j < before_held.len() {
                                assert(held@[i] == before_held[i] && held@[j] == before_held[j]);
                            } else if i < before_held.len() {
                                assert(held@[i] == before_held[i]);
                                assert(before_held.contains(held@[i]));
                            } else if j < before_held.len() {
                                assert(held@[j] == before_held[j]);
                                assert(before_held.contains(held@[j]));
                            }
                        }
                    }
                }
            } else {
                if let Some(p) = pos {
                    let mut part = answering_bindings(&self.key_events, &c.key, false);
                    fire.append(&mut part);
                    held.remove(p);
                    proof {
                        assert(held@ == before_held.remove(p as int));
                        assert(Set::new(|x: K| held@.contains(x)) =~= before_set.remove(c.key)) by {
                            assert forall|x: K| held@.contains(x) <==> before_set.contains(x) && x != c.key by {
                                if held@.contains(x) {
                                    let m = choose|m: int| 0 <= m < held@.len() && held@[m] == x;
                                    if m < p {
                                        assert(before_held[m] == x);
                                        assert(m != p as int);
                                    } else {
                                        assert(before_held[m + 1] == x);
                                        assert(m + 1 != p as int);
                                    }
                                }
                                if before_held.contains(x) && x != c.key {
                                    let m = choose|m: int| 0 <= m < before_held.len() && before_held[m] == x;
                                    assert(m != p as int);
                                    if m < p {
                                        assert(held@[m] == x);
                                    } else {
                                        assert(held@[m - 1] == x);
                                    }
                                }
                            }
                        }
                        assert forall|i: int, j: int|
                            0 <= i < held@.len() && 0 <= j < held@.len() && i != j implies held@[i] != held@[j] by {
                            let i0 = if i < p { i } else { i + 1 };
                            let j0 = if j < p { j } else { j + 1 };
                            assert(held@[i] == before_held[i0]);
                            assert(held@[j] == before_held[j0]);
                        }
                    }
                }
            }
            k += 1;
        }
        proof {
            assert(all.take(n as int) =~= all);
        }
        self.held = held;
        fire
    }

    /// The keys held, as the reported changes left them.
    pub fn held(&self) -> (v: &Vec<K>)
        ensures
            forall|k: K| v@.contains(k) <==> self.held_keys().contains(k),
    {
        &self.held
    }
}

/// What holds of every event whose flag is `want` holds of every event
/// that `select_by_flags` keeps for `want`.
pub proof fn lemma_select_preserves<E>(events: Seq<E>, flags: Seq<bool>, want: bool, p: spec_fn(E) -> bool)
    requires
        forall|i: int| 0 <= i < events.len() && flags[i] == want ==> p(#[trigger] events[i]),
    ensures
        forall|j: int|
            0 <= j < select_by_flags(events, flags, want).len() ==> p(
                #[trigger] select_by_flags(events, flags, want)[j],
            ),
    decreases events.len(),
{
    if events.len() > 0 {
        let front = events.drop_last();
        assert forall|i: int| 0 <= i < front.len() && flags[i] == want implies p(#[trigger] front[i]) by {
            assert(front[i] == events[i]);
        }
        lemma_select_preserves(front, flags, want, p);
        let rest = select_by_flags(front, flags, want);
        let all = select_by_flags(events, flags, want);
        assert forall|j: int| 0 <= j < all.len() implies p(#[trigger] all[j]) by {
            if j < rest.len() {
                assert(p(rest[j]));
            } else {
                assert(p(events[events.len() - 1]));
            }
        }
    }
}

} // verus!
