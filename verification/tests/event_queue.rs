use flowmango::{EventQueue, KeyChange, LayerId, ObjectInfo, Target, WorldEvent};

type Ev = WorldEvent<String, u32>;

fn obj(id: &str, layer: usize, tags: &[&str]) -> ObjectInfo {
    ObjectInfo {
        id: id.to_string(),
        layer: LayerId(layer),
        tags: tags.iter().map(|t| t.to_string()).collect(),
    }
}

fn t(id: &str) -> Target {
    Target::ById(id.to_string())
}

fn tag(tag: &str) -> Target {
    Target::ByTag(tag.to_string())
}

fn table() -> Vec<ObjectInfo> {
    vec![
        obj("player", 2, &["player"]),
        obj("coin", 2, &["pickup"]),
        obj("cloud", 0, &["background"]),
        obj("bird", 1, &["pickup"]),
    ]
}

fn actions(evs: &[Ev]) -> Vec<u32> {
    evs.iter().map(|e| *e.get_action()).collect()
}

fn none2(_: usize, _: usize) -> bool {
    false
}
fn none1(_: usize) -> bool {
    false
}

#[test]
fn key_events_become_bindings_others_wait() {
    let mut q: EventQueue<String, u32> = EventQueue::new();
    q.add_event(WorldEvent::CameraEnter { action: 1, target: t("player") });
    q.add_event(WorldEvent::KeyPress { key: "a".to_string(), action: 2, target: t("player") });
    q.add_event(WorldEvent::KeyRelease { key: "a".to_string(), action: 3, target: t("player") });
    q.add_event(WorldEvent::LayerEnter { action: 4, target: t("player"), layer: LayerId(2) });
    assert_eq!(actions(q.events()), vec![1, 4]);
    assert_eq!(actions(q.key_events()), vec![2, 3]);
}

#[test]
fn layer_enter_and_exit() {
    let objs = table();
    let mut q: EventQueue<String, u32> = EventQueue::new();
    q.add_event(WorldEvent::LayerEnter { action: 1, target: t("player"), layer: LayerId(2) });
    q.add_event(WorldEvent::LayerExit { action: 2, target: t("player"), layer: LayerId(2) });
    q.add_event(WorldEvent::LayerEnter { action: 3, target: t("player"), layer: LayerId(1) });
    q.add_event(WorldEvent::LayerExit { action: 4, target: t("player"), layer: LayerId(1) });
    q.add_event(WorldEvent::LayerEnter { action: 5, target: t("ghost"), layer: LayerId(1) });
    let fired = q.process_events(&objs, 3, &none2, &none1, &none1);
    assert_eq!(actions(&fired), vec![1, 4]);
    assert_eq!(actions(q.events()), vec![2, 3, 5]);
}

#[test]
fn tag_targets_fire_when_any_tagged_object_qualifies() {
    let objs = table();
    let mut q: EventQueue<String, u32> = EventQueue::new();
    // pickups sit on layers 2 and 1: both enter and exit of layer 2 fire
    q.add_event(WorldEvent::LayerEnter { action: 1, target: tag("pickup"), layer: LayerId(2) });
    q.add_event(WorldEvent::LayerExit { action: 2, target: tag("pickup"), layer: LayerId(2) });
    q.add_event(WorldEvent::LayerEnter { action: 3, target: tag("nothing"), layer: LayerId(2) });
    let fired = q.process_events(&objs, 3, &none2, &none1, &none1);
    assert_eq!(actions(&fired), vec![1, 2]);
    assert_eq!(actions(q.events()), vec![3]);
}

#[test]
fn camera_events_follow_the_view_test() {
    let objs = table();
    let in_view = |k: usize| k == 0 || k == 1;
    let mut q: EventQueue<String, u32> = EventQueue::new();
    q.add_event(WorldEvent::CameraEnter { action: 1, target: t("player") });
    q.add_event(WorldEvent::CameraExit { action: 2, target: t("player") });
    q.add_event(WorldEvent::CameraEnter { action: 3, target: t("cloud") });
    q.add_event(WorldEvent::CameraExit { action: 4, target: t("cloud") });
    q.add_event(WorldEvent::CameraExit { action: 5, target: tag("pickup") });
    let fired = q.process_events(&objs, 3, &none2, &none1, &in_view);
    assert_eq!(actions(&fired), vec![1, 4, 5]);
    assert_eq!(actions(q.events()), vec![2, 3]);
}

#[test]
fn boundary_events_use_the_layer_for_tags_only() {
    let objs = table();
    let at_edge = |k: usize| k == 3; // the bird, on layer 1
    let mut q: EventQueue<String, u32> = EventQueue::new();
    q.add_event(WorldEvent::BoundaryCollision { action: 1, target: tag("pickup"), layer: LayerId(2) });
    q.add_event(WorldEvent::BoundaryCollision { action: 2, target: tag("pickup"), layer: LayerId(1) });
    q.add_event(WorldEvent::BoundaryCollision { action: 3, target: t("bird"), layer: LayerId(2) });
    let fired = q.process_events(&objs, 3, &none2, &at_edge, &none1);
    assert_eq!(actions(&fired), vec![2, 3]);
    assert_eq!(actions(q.events()), vec![1]);
}

#[test]
fn collision_events() {
    let objs = table();
    // player (0) overlaps coin (1) and bird (3) in space
    let collides = |i: usize, j: usize| {
        let pair = (i.min(j), i.max(j));
        pair == (0, 1) || pair == (0, 3)
    };
    let mut q: EventQueue<String, u32> = EventQueue::new();
    q.add_event(WorldEvent::LayerCollision { action: 1, target: t("player"), layer: LayerId(2) });
    q.add_event(WorldEvent::LayerCollision { action: 2, target: t("cloud"), layer: LayerId(0) });
    q.add_event(WorldEvent::GlobalCollision { action: 3, target: t("player"), with_target: tag("pickup") });
    q.add_event(WorldEvent::GlobalCollision { action: 4, target: t("player"), with_target: t("bird") });
    let fired = q.process_events(&objs, 3, &collides, &none1, &none1);
    assert_eq!(actions(&fired), vec![1, 3]);
    assert_eq!(actions(q.events()), vec![2, 4]);
}

#[test]
fn global_collision_only_looks_at_existing_layers() {
    let objs = vec![obj("a", 5, &[]), obj("b", 5, &[])];
    let always = |_: usize, _: usize| true;
    let mut q: EventQueue<String, u32> = EventQueue::new();
    q.add_event(WorldEvent::GlobalCollision { action: 1, target: t("a"), with_target: t("b") });
    let fired = q.process_events(&objs, 5, &always, &none1, &none1);
    assert!(fired.is_empty());
    let fired = q.process_events(&objs, 6, &always, &none1, &none1);
    assert_eq!(actions(&fired), vec![1]);
    assert!(q.events().is_empty());
}

#[test]
fn nothing_fires_then_queue_is_unchanged() {
    let objs = table();
    let mut q: EventQueue<String, u32> = EventQueue::new();
    q.add_event(WorldEvent::CameraEnter { action: 1, target: t("player") });
    q.add_event(WorldEvent::LayerEnter { action: 2, target: t("player"), layer: LayerId(0) });
    q.add_event(WorldEvent::KeyPress { key: "a".to_string(), action: 3, target: t("player") });
    let fired = q.process_events(&objs, 3, &none2, &none1, &none1);
    assert!(fired.is_empty());
    assert_eq!(actions(q.events()), vec![1, 2]);
    assert_eq!(actions(q.key_events()), vec![3]);
}

fn key_queue() -> EventQueue<String, u32> {
    let mut q: EventQueue<String, u32> = EventQueue::new();
    q.add_event(WorldEvent::KeyPress { key: "a".to_string(), action: 1, target: t("player") });
    q.add_event(WorldEvent::KeyRelease { key: "a".to_string(), action: 2, target: t("player") });
    q.add_event(WorldEvent::KeyPress { key: "d".to_string(), action: 3, target: t("player") });
    q
}

fn down(k: &str) -> KeyChange<String> {
    KeyChange { key: k.to_string(), pressed: true }
}

fn up(k: &str) -> KeyChange<String> {
    KeyChange { key: k.to_string(), pressed: false }
}

#[test]
fn key_press_fires_once_on_going_down() {
    let mut q = key_queue();
    // nothing reported: nothing fires
    assert!(q.process_key_events(Vec::new()).is_empty());
    // a goes down
    assert_eq!(q.process_key_events(vec![down("a")]), vec![0]);
    // a repeated press report while a is held fires nothing
    assert!(q.process_key_events(vec![down("a")]).is_empty());
    assert!(q.process_key_events(Vec::new()).is_empty());
}

#[test]
fn key_release_fires_once_on_going_up() {
    let mut q = key_queue();
    // a release of a key that is up fires nothing
    assert!(q.process_key_events(vec![up("a")]).is_empty());
    assert_eq!(q.process_key_events(vec![down("a")]), vec![0]);
    assert_eq!(q.process_key_events(vec![up("a")]), vec![1]);
    assert!(q.process_key_events(vec![up("a")]).is_empty());
    // a new press and release fire again
    assert_eq!(q.process_key_events(vec![down("a")]), vec![0]);
    assert_eq!(q.process_key_events(vec![up("a")]), vec![1]);
}

#[test]
fn press_and_release_between_ticks_both_fire() {
    let mut q = key_queue();
    assert_eq!(q.process_key_events(vec![down("a"), up("a")]), vec![0, 1]);
    // a is up again
    assert!(q.process_key_events(vec![up("a")]).is_empty());
    let mut a_held = false;
    for k in q.held() {
        if k == "a" {
            a_held = true;
        }
    }
    assert!(!a_held);
}

#[test]
fn key_bindings_of_different_keys_are_independent() {
    let mut q = key_queue();
    assert_eq!(q.process_key_events(vec![down("a")]), vec![0]);
    // a goes up and d goes down, in that order
    assert_eq!(q.process_key_events(vec![up("a"), down("d")]), vec![1, 2]);
    // d goes down again before a: firing follows the order of the reports
    assert_eq!(q.process_key_events(vec![up("d"), down("d"), down("a")]), vec![2, 0]);
    // bindings stay registered
    assert_eq!(q.key_events().len(), 3);
}

#[test]
fn binding_added_later_sees_the_held_keys() {
    let mut q: EventQueue<String, u32> = EventQueue::new();
    q.add_event(WorldEvent::KeyPress { key: "a".to_string(), action: 1, target: t("player") });
    assert_eq!(q.process_key_events(vec![down("a")]), vec![0]);
    // a release binding added while a is held fires when a goes up
    q.add_event(WorldEvent::KeyRelease { key: "a".to_string(), action: 2, target: t("player") });
    assert_eq!(q.process_key_events(vec![up("a")]), vec![1]);
    assert!(q.held().is_empty());
}

#[test]
fn processing_twice_fires_nothing_more() {
    let objs = table();
    let in_view = |k: usize| k == 0;
    let mut q: EventQueue<String, u32> = EventQueue::new();
    q.add_event(WorldEvent::CameraEnter { action: 1, target: t("player") });
    q.add_event(WorldEvent::CameraEnter { action: 2, target: t("cloud") });
    q.add_event(WorldEvent::LayerExit { action: 3, target: t("player"), layer: LayerId(0) });
    let fired = q.process_events(&objs, 3, &none2, &none1, &in_view);
    assert_eq!(actions(&fired), vec![1, 3]);
    let again = q.process_events(&objs, 3, &none2, &none1, &in_view);
    assert!(again.is_empty());
    assert_eq!(actions(q.events()), vec![2]);
}
