use vstd::prelude::*;

use crate::layer_id::LayerId;

verus! {

/// Selects the world objects that an event or an action is about.
#[derive(Debug, Clone, PartialEq, Eq)]
pub enum Target {
    /// The object whose id is the given string.
    ById(String),
    /// The object whose id is the given string (names and ids share one namespace).
    ByName(String),
    /// Every object that carries the given tag.
    ByTag(String),
}

/// What the event rules read of one world object: its id, the layer it is
/// drawn on and its tags. A scene hands the rules one entry per object it holds.
#[derive(Debug, Clone)]
pub struct ObjectInfo {
    pub id: String,
    pub layer: LayerId,
    pub tags: Vec<String>,
}

/// `tag` occurs among `tags`.
pub open spec fn tags_contain(tags: Seq<String>, tag: Seq<char>) -> bool {
    exists|i: int| 0 <= i < tags.len() && (#[trigger] tags[i])@ == tag
}

/// Whether `tag` is one of `tags`.
pub fn has_tag(tags: &Vec<String>, tag: &String) -> (found: bool)
    ensures
        found == tags_contain(tags@, tag@),
{
    let mut i: usize = 0;
    while i < tags.len()
        invariant
            0 <= i <= tags.len(),
            forall|j: int| 0 <= j < i ==> (#[trigger] tags@[j])@ != tag@,
        decreases tags.len() - i,
    {
        if tags[i] == *tag {
            return true;
        }
        i += 1;
    }
    false
}

impl Target {
    /// Whether the target designates object `o`. An id or a name designates
    /// the object with that id on any layer; a tag designates every object
    /// carrying it, on `layer_filter` when one is given.
    pub open spec fn selects(self, o: ObjectInfo, layer_filter: Option<LayerId>) -> bool {
        match self {
            Target::ById(id) => o.id@ == id@,
            Target::ByName(name) => o.id@ == name@,
            Target::ByTag(tag) => tags_contain(o.tags@, tag@) && (layer_filter matches Some(l)
                ==> o.layer == l),
        }
    }

    /// Whether the target designates object `o` and `o` is drawn on `layer`.
    pub open spec fn selects_on_layer(self, o: ObjectInfo, layer: LayerId) -> bool {
        self.selects(o, Some(layer)) && o.layer == layer
    }

    /// Executable form of `selects`.
    pub fn designates(&self, o: &ObjectInfo, layer_filter: Option<LayerId>) -> (b: bool)
        ensures
            b == self.selects(*o, layer_filter),
    {
        match self {
            Target::ById(id) => o.id == *id,
            Target::ByName(name) => o.id == *name,
            Target::ByTag(tag) => {
                has_tag(&o.tags, tag) && match layer_filter {
                    Some(l) => o.layer == l,
                    None => true,
                }
            },
        }
    }
}

/// The strictly increasing sequence of all indices `k < n` for which `p(k)` holds.
pub open spec fn indices_where(r: Seq<usize>, n: int, p: spec_fn(int) -> bool) -> bool {
    &&& forall|m: int| 0 <= m < r.len() ==> 0 <= #[trigger] r[m] < n && p(r[m] as int)
    &&& forall|m1: int, m2: int| 0 <= m1 < m2 < r.len() ==> r[m1] < r[m2]
    &&& forall|k: int| 0 <= k < n && #[trigger] p(k) ==> r.contains(k as usize)
}

/// Object `o` is designated by `target`, if one is given (with
/// `layer_filter`), and lies on `layer`, if one is given.
pub open spec fn object_matches(
    o: ObjectInfo,
    target: Option<&Target>,
    layer_filter: Option<LayerId>,
    layer: Option<LayerId>,
) -> bool {
    &&& target matches Some(t) ==> t.selects(o, layer_filter)
    &&& layer matches Some(l) ==> o.layer == l
}

/// Indices, in table order, of the objects that `object_matches` keeps.
pub(crate) fn matching_objects(
    objects: &Vec<ObjectInfo>,
    target: Option<&Target>,
    layer_filter: Option<LayerId>,
    layer: Option<LayerId>,
) -> (r: Vec<usize>)
    ensures
        indices_where(
            r@,
            objects.len() as int,
            |k: int| object_matches(objects@[k], target, layer_filter, layer),
        ),
{
    let ghost p = |k: int| object_matches(objects@[k], target, layer_filter, layer);
    let mut r: Vec<usize> = Vec::new();
    let mut k: usize = 0;
    while k < objects.len()
        invariant
            0 <= k <= objects.len(),
            p == (|k: int| object_matches(objects@[k], target, layer_filter, layer)),
            forall|m: int| 0 <= m < r.len() ==> 0 <= #[trigger] r@[m] < k && p(r@[m] as int),
            forall|m1: int, m2: int| 0 <= m1 < m2 < r.len() ==> r@[m1] < r@[m2],
            forall|j: int| 0 <= j < k && #[trigger] p(j) ==> r@.contains(j as usize),
        decreases objects.len() - k,
    {
        let on_layer = match layer {
            Some(l) => objects[k].layer == l,
            None => true,
        };
        let designated = match target {
            Some(t) => t.designates(&objects[k], layer_filter),
            None => true,
        };
        if on_layer && designated {
            let ghost old_r = r@;
            r.push(k);
            assert forall|j: int| 0 <= j < k + 1 && #[trigger] p(j) implies r@.contains(j as usize) by {
                if j < k {
                    let m = choose|m: int| 0 <= m < old_r.len() && old_r[m] == j as usize;
                    assert(r@[m] == j as usize);
                } else {
                    assert(r@[old_r.len() as int] == j as usize);
                }
            }
        }
        k += 1;
    }
    r
}

/// Indices, in table order, of the objects that `target` designates
/// (the layer filter narrows tag targets only).
pub fn selected_objects(objects: &Vec<ObjectInfo>, target: &Target, layer_filter: Option<LayerId>) -> (r:
    Vec<usize>)
    ensures
        indices_where(r@, objects.len() as int, |k: int| target.selects(objects@[k], layer_filter)),
{
    let r = matching_objects(objects, Some(target), layer_filter, None);
    assert((|k: int| object_matches(objects@[k], Some(target), layer_filter, None)) =~= (|k: int|
        target.selects(objects@[k], layer_filter)));
    r
}

/// Indices, in table order, of the objects on `layer` that `target` designates.
pub fn objects_for_target(objects: &Vec<ObjectInfo>, target: &Target, layer: LayerId) -> (r: Vec<usize>)
    ensures
        indices_where(r@, objects.len() as int, |k: int| target.selects_on_layer(objects@[k], layer)),
{
    let r = matching_objects(objects, Some(target), Some(layer), Some(layer));
    assert((|k: int| object_matches(objects@[k], Some(target), Some(layer), Some(layer))) =~= (|k: int|
        target.selects_on_layer(objects@[k], layer)));
    r
}

} // verus!
