use flowmango::{collision_on_layer, layer_collision_for_target, objects_on_layer, LayerId, ObjectInfo, Target};

fn obj(id: &str, layer: usize, tags: &[&str]) -> ObjectInfo {
    ObjectInfo {
        id: id.to_string(),
        layer: LayerId(layer),
        tags: tags.iter().map(|t| t.to_string()).collect(),
    }
}

// Axis-aligned boxes (x, y, w, h) for the objects of the table, by index.
fn boxes() -> Vec<(f32, f32, f32, f32)> {
    vec![
        (0.0, 0.0, 10.0, 10.0),   // a
        (5.0, 5.0, 10.0, 10.0),   // b overlaps a
        (100.0, 0.0, 5.0, 5.0),   // c alone
        (2.0, 2.0, 3.0, 3.0),     // d overlaps a, other layer
    ]
}

fn table() -> Vec<ObjectInfo> {
    vec![
        obj("a", 1, &["red"]),
        obj("b", 1, &["blue"]),
        obj("c", 1, &["blue"]),
        obj("d", 2, &["blue"]),
    ]
}

fn overlap(i: usize, j: usize) -> bool {
    let b = boxes();
    let (p1, p2) = (b[i], b[j]);
    p1.0 < p2.0 + p2.2 && p1.0 + p1.2 > p2.0 && p1.1 < p2.1 + p2.3 && p1.1 + p1.3 > p2.1
}

#[test]
fn targets_collide_on_their_layer() {
    let objs = table();
    let t1 = Target::ById("a".to_string());
    let t2 = Target::ByTag("blue".to_string());
    assert!(collision_on_layer(&objs, &t1, &t2, LayerId(1), &overlap));
    assert!(collision_on_layer(&objs, &t2, &t1, LayerId(1), &overlap));
}

#[test]
fn objects_on_other_layers_never_collide() {
    let objs = table();
    let t1 = Target::ById("a".to_string());
    let t2 = Target::ById("d".to_string());
    // d overlaps a in space but sits on layer 2
    assert!(overlap(0, 3));
    assert!(!collision_on_layer(&objs, &t1, &t2, LayerId(1), &overlap));
    assert!(!collision_on_layer(&objs, &t1, &t2, LayerId(2), &overlap));
}

#[test]
fn an_object_does_not_collide_with_itself() {
    let objs = table();
    let t = Target::ById("c".to_string());
    let always = |_: usize, _: usize| true;
    assert!(!collision_on_layer(&objs, &t, &t, LayerId(1), &always));
}

#[test]
fn layer_collision_checks_against_every_object_on_the_layer() {
    let objs = table();
    assert!(layer_collision_for_target(&objs, &Target::ById("a".to_string()), LayerId(1), &overlap));
    assert!(!layer_collision_for_target(&objs, &Target::ById("c".to_string()), LayerId(1), &overlap));
    assert!(!layer_collision_for_target(&objs, &Target::ById("d".to_string()), LayerId(2), &overlap));
}

#[test]
fn objects_on_layer_lists_indices() {
    let objs = table();
    assert_eq!(objects_on_layer(&objs, LayerId(1)), vec![0, 1, 2]);
    assert_eq!(objects_on_layer(&objs, LayerId(2)), vec![3]);
    assert!(objects_on_layer(&objs, LayerId(7)).is_empty());
}
