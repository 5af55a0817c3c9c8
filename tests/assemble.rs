use vil2json::{
    convert_layout, is_layer_empty, keys_per_layer, select_layers, Cell, LayerShapeError,
    KEYMAP_VERSION,
};

fn strings(v: &[&str]) -> Vec<String> {
    v.iter().map(|s| s.to_string()).collect()
}

fn one_key_layer(keys: [&str; 8]) -> Vec<Vec<Cell>> {
    keys.iter().map(|k| vec![Cell::Key(k.to_string())]).collect()
}

#[test]
fn test_is_layer_empty() {
    assert!(is_layer_empty(&vec![
        "KC_TRNS".to_string(),
        "KC_NO".to_string()
    ]));
    assert!(!is_layer_empty(&vec![
        "KC_Q".to_string(),
        "KC_TRNS".to_string()
    ]));
}

#[test]
fn emptiness_edge_cases() {
    assert!(is_layer_empty(&[]));
    assert!(is_layer_empty(&strings(&["", "KC_NO", "KC_TRNS", ""])));
    assert!(!is_layer_empty(&strings(&["KC_TRNS", "KC_Q"])));
    assert!(!is_layer_empty(&strings(&["KC_TRNSX"])));
    assert!(!is_layer_empty(&strings(&["kc_no"])));
    assert!(!is_layer_empty(&strings(&[" "])));
}

#[test]
fn cap_applies_before_empty_filter() {
    let a = strings(&["KC_A"]);
    let b = strings(&["KC_B"]);
    let c = strings(&["KC_C"]);
    let empty = strings(&["KC_TRNS", "KC_NO"]);
    let layers = vec![a.clone(), empty.clone(), b.clone(), empty.clone(), c.clone()];
    assert_eq!(
        select_layers(layers.clone(), Some(3), true),
        vec![a.clone(), b.clone()]
    );
    assert_eq!(
        select_layers(layers.clone(), None, true),
        vec![a.clone(), b.clone(), c.clone()]
    );
    assert_eq!(
        select_layers(layers.clone(), Some(3), false),
        vec![a.clone(), empty.clone(), b.clone()]
    );
    assert_eq!(select_layers(layers.clone(), None, false), layers);
    assert_eq!(select_layers(layers.clone(), Some(10), false), layers);
    assert_eq!(select_layers(layers.clone(), Some(0), true), Vec::<Vec<String>>::new());
}

#[test]
fn end_to_end_single_layer() {
    let layout = vec![one_key_layer([
        "L0", "L1", "L2", "L3", "R0", "R1", "R2", "R3",
    ])];
    let keymap = convert_layout(
        layout,
        "crkbd/rev4_1/standard".to_string(),
        "LAYOUT_split_3x6_3_ex2".to_string(),
        None,
        false,
    )
    .unwrap();
    assert_eq!(keymap.version, 1);
    assert_eq!(KEYMAP_VERSION, 1);
    assert_eq!(keymap.keyboard, "crkbd/rev4_1/standard");
    assert_eq!(keymap.layout, "LAYOUT_split_3x6_3_ex2");
    assert_eq!(
        keymap.layers,
        vec![strings(&["L0", "R0", "L1", "R1", "L2", "R2", "L3", "R3"])]
    );
    assert_eq!(keys_per_layer(&keymap.layers), 8);
}

#[test]
fn conversion_filters_and_caps() {
    let layout = vec![
        one_key_layer(["A", "B", "C", "D", "E", "F", "G", "H"]),
        one_key_layer([
            "KC_TRNS", "KC_TRNS", "KC_NO", "KC_NO", "KC_TRNS", "KC_TRNS", "KC_NO", "KC_NO",
        ]),
        one_key_layer(["1", "2", "3", "4", "5", "6", "7", "8"]),
    ];
    let keymap = convert_layout(layout, "kb".to_string(), "LAYOUT".to_string(), Some(2), true)
        .unwrap();
    assert_eq!(
        keymap.layers,
        vec![strings(&["A", "E", "B", "F", "C", "G", "D", "H"])]
    );
}

#[test]
fn conversion_reports_first_misshapen_layer() {
    let mut short = one_key_layer(["A", "B", "C", "D", "E", "F", "G", "H"]);
    short.pop();
    let mut long = one_key_layer(["A", "B", "C", "D", "E", "F", "G", "H"]);
    long.push(vec![Cell::NoKey]);
    let layout = vec![
        one_key_layer(["A", "B", "C", "D", "E", "F", "G", "H"]),
        long,
        short,
    ];
    let err = convert_layout(layout, "kb".to_string(), "LAYOUT".to_string(), Some(1), false)
        .unwrap_err();
    assert_eq!(err, LayerShapeError { layer: 1, rows: 9 });
}

#[test]
fn no_layers_convert_to_an_empty_keymap() {
    let keymap =
        convert_layout(Vec::new(), "kb".to_string(), "LAYOUT".to_string(), None, true).unwrap();
    assert!(keymap.layers.is_empty());
    assert_eq!(keys_per_layer(&keymap.layers), 0);
}

#[test]
fn key_count_comes_from_first_layer() {
    let layers = vec![strings(&["a", "b", "c"]), strings(&["d"])];
    assert_eq!(keys_per_layer(&layers), 3);
}
