use flowmango::{canvas_name, decimal_string, LayerId};

#[test]
fn canvas_name_is_layer_underscore_id() {
    assert_eq!(canvas_name(LayerId(3), "player"), "3_player");
    assert_eq!(canvas_name(LayerId(0), ""), "0_");
    assert_eq!(canvas_name(LayerId(120), "tree_fg"), "120_tree_fg");
}

#[test]
fn decimal_string_writes_digits() {
    assert_eq!(decimal_string(0), "0");
    assert_eq!(decimal_string(7), "7");
    assert_eq!(decimal_string(10), "10");
    assert_eq!(decimal_string(1234567890), "1234567890");
    assert_eq!(decimal_string(usize::MAX), usize::MAX.to_string());
}

#[test]
fn canvas_names_of_distinct_objects_differ() {
    // "1" + "_2_x" against "12" + "_x": the first underscore separates the layer
    assert_ne!(canvas_name(LayerId(1), "2_x"), canvas_name(LayerId(12), "x"));
    assert_ne!(canvas_name(LayerId(1), "a"), canvas_name(LayerId(1), "b"));
}
