use flowmango::{LayerId, Target, WorldEvent};

type Ev = WorldEvent<String, u32>;

fn t(id: &str) -> Target {
    Target::ById(id.to_string())
}

fn all_kinds() -> Vec<Ev> {
    vec![
        WorldEvent::KeyPress { key: "a".to_string(), action: 1, target: t("p1") },
        WorldEvent::KeyRelease { key: "b".to_string(), action: 2, target: t("p2") },
        WorldEvent::LayerCollision { action: 3, target: t("p3"), layer: LayerId(3) },
        WorldEvent::LayerEnter { action: 4, target: t("p4"), layer: LayerId(4) },
        WorldEvent::LayerExit { action: 5, target: t("p5"), layer: LayerId(5) },
        WorldEvent::CameraEnter { action: 6, target: t("p6") },
        WorldEvent::CameraExit { action: 7, target: t("p7") },
        WorldEvent::BoundaryCollision { action: 8, target: t("p8"), layer: LayerId(8) },
        WorldEvent::GlobalCollision { action: 9, target: t("p9"), with_target: t("q9") },
    ]
}

#[test]
fn targets_and_actions_are_read_from_every_variant() {
    for (i, e) in all_kinds().iter().enumerate() {
        let n = (i + 1) as u32;
        assert_eq!(*e.get_action(), n);
        match e.get_target() {
            Target::ById(id) => assert_eq!(id, &format!("p{}", n)),
            _ => panic!("wrong target"),
        }
    }
}

#[test]
fn only_layer_events_name_a_layer() {
    let layers: Vec<Option<LayerId>> = all_kinds().iter().map(|e| e.get_layer()).collect();
    assert_eq!(
        layers,
        vec![
            None,
            None,
            Some(LayerId(3)),
            Some(LayerId(4)),
            Some(LayerId(5)),
            None,
            None,
            Some(LayerId(8)),
            None
        ]
    );
}

#[test]
fn only_key_events_carry_a_key() {
    let evs = all_kinds();
    assert_eq!(evs[0].get_key(), Some(&"a".to_string()));
    assert_eq!(evs[1].get_key(), Some(&"b".to_string()));
    for e in &evs[2..] {
        assert!(e.get_key().is_none());
    }
}

#[test]
fn press_and_release_are_told_apart() {
    let evs = all_kinds();
    assert!(evs[0].is_key_press() && !evs[0].is_key_release());
    assert!(evs[1].is_key_release() && !evs[1].is_key_press());
    for e in &evs[2..] {
        assert!(!e.is_key_press() && !e.is_key_release());
    }
}
