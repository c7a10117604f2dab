//! Depth-layer bookkeeping for a 2.5D scene: layer identifiers, event targets,
//! the queue of world events and the rules that decide when an event fires.

mod collision;
mod events;
mod laws;
mod layer_id;
mod naming;
mod target;
mod world_event;

pub use collision::{
    collision_on_layer, layer_collision, layer_collision_for_target, not_denied, objects_on_layer,
    pair_collision, reported,
};
pub use layer_id::LayerId;
pub use target::{
    has_tag, indices_where, object_matches, objects_for_target, selected_objects, tags_contain, ObjectInfo, Target,
};
pub use world_event::WorldEvent;
pub use events::{
    answering, binding_answers, fires_with, key_run, key_step, layer_is, KeyChange, lemma_select_preserves, not_gainsaid,
    possibly_fires, said, select_by_flags, some_selected, surely_fires, EventQueue,
};
pub use laws::{
    answers_once, ids_unique,     law_camera_enter_exit_complementary, law_collision_symmetric,
    law_collisions_stay_on_one_layer, law_enter_exit_complementary, law_event_kinds,
    law_key_events_wait, law_no_self_collision, law_press_and_release_between_ticks,
    law_repeated_report_fires_nothing, law_transition_fires_all_bindings_of_the_key,
    law_non_transition_fires_nothing, law_changes_compose, law_layer_collision_any_pair,
    law_pair_collision_any_pair, law_target_designation,
    law_nothing_fires_nothing_changes, 
    law_reprocessing_fires_nothing, law_split_keeps_every_event, lemma_fires_monotone,
};
pub use naming::{
    canvas_name, decimal, decimal_string, digit_char, law_canvas_names_distinct, spec_canvas_name,
};
