use flowmango::{has_tag, objects_for_target, selected_objects, LayerId, ObjectInfo, Target};

fn obj(id: &str, layer: usize, tags: &[&str]) -> ObjectInfo {
    ObjectInfo {
        id: id.to_string(),
        layer: LayerId(layer),
        tags: tags.iter().map(|t| t.to_string()).collect(),
    }
}

fn table() -> Vec<ObjectInfo> {
    vec![
        obj("player", 3, &["player", "hero"]),
        obj("ground", 3, &["platform"]),
        obj("tree_fg", 4, &["foreground", "platform"]),
        obj("mountains", 0, &["background"]),
    ]
}

#[test]
fn layer_id_compares_by_index() {
    let a = LayerId(2);
    let b = a;
    assert_eq!(a, b);
    assert_ne!(a, LayerId(3));
    assert_eq!(b.0, 2);
}

#[test]
fn has_tag_finds_present_tag() {
    let tags = vec!["player".to_string(), "hero".to_string()];
    assert!(has_tag(&tags, &"hero".to_string()));
    assert!(!has_tag(&tags, &"enemy".to_string()));
    assert!(!has_tag(&Vec::new(), &"hero".to_string()));
}

#[test]
fn tag_target_selects_all_tagged_objects_in_order() {
    let objs = table();
    let r = selected_objects(&objs, &Target::ByTag("platform".to_string()), None);
    assert_eq!(r, vec![1, 2]);
}

#[test]
fn layer_filter_narrows_tag_targets_only() {
    let objs = table();
    let r = selected_objects(&objs, &Target::ByTag("platform".to_string()), Some(LayerId(4)));
    assert_eq!(r, vec![2]);
    // an id target ignores the filter
    let r = selected_objects(&objs, &Target::ById("player".to_string()), Some(LayerId(4)));
    assert_eq!(r, vec![0]);
    let r = selected_objects(&objs, &Target::ByName("mountains".to_string()), Some(LayerId(1)));
    assert_eq!(r, vec![3]);
}

#[test]
fn missing_id_selects_nothing() {
    let objs = table();
    let r = selected_objects(&objs, &Target::ById("ghost".to_string()), None);
    assert!(r.is_empty());
}

#[test]
fn objects_for_target_keeps_objects_on_the_layer() {
    let objs = table();
    assert_eq!(objects_for_target(&objs, &Target::ById("player".to_string()), LayerId(3)), vec![0]);
    assert!(objects_for_target(&objs, &Target::ById("player".to_string()), LayerId(4)).is_empty());
    assert_eq!(
        objects_for_target(&objs, &Target::ByTag("platform".to_string()), LayerId(3)),
        vec![1]
    );
}
