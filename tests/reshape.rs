use vil2json::{flatten_layer, Cell, RowCountError};

fn key(s: &str) -> Cell {
    Cell::Key(s.to_string())
}

fn texts(v: &[&str]) -> Vec<String> {
    v.iter().map(|s| s.to_string()).collect()
}

#[test]
fn test_flatten_layer() {
    let layer = vec![
        vec![key("KC_Q"), key("KC_W"), Cell::NoKey],
        vec![key("KC_A"), Cell::NoKey, key("KC_S")],
        vec![key("KC_Z")],
        vec![],
        vec![key("KC_Y"), key("KC_U"), Cell::NoKey],
        vec![key("KC_O"), Cell::NoKey, key("KC_I")],
        vec![key("KC_SLASH")],
        vec![],
    ];

    let flattened = flatten_layer(layer);
    assert_eq!(
        flattened,
        Ok(texts(&[
            "KC_Q", "KC_W", "KC_U", "KC_Y", "KC_A", "KC_S", "KC_I", "KC_O", "KC_Z", "KC_SLASH"
        ]))
    );
}

#[test]
fn placeholders_and_unknown_cells_are_dropped_anywhere() {
    let layer = vec![
        vec![Cell::NoKey, key("L0"), Cell::Unknown, Cell::NoKey],
        vec![Cell::NoKey],
        vec![Cell::Unknown, key("L2")],
        vec![key("L3"), Cell::NoKey],
        vec![Cell::NoKey, key("R0"), Cell::NoKey],
        vec![Cell::Unknown, Cell::NoKey],
        vec![key("R2"), Cell::NoKey],
        vec![Cell::NoKey, key("R3")],
    ];
    let flat = flatten_layer(layer).unwrap();
    assert_eq!(flat, texts(&["L0", "R0", "L2", "R2", "L3", "R3"]));
    assert!(flat.iter().all(|k| k != "-1"));
}

#[test]
fn right_rows_are_read_in_reverse() {
    let layer = vec![
        vec![],
        vec![],
        vec![],
        vec![],
        vec![key("A"), key("B"), key("C"), key("D")],
        vec![],
        vec![],
        vec![],
    ];
    let mut flat = flatten_layer(layer).unwrap();
    assert_eq!(flat, texts(&["D", "C", "B", "A"]));
    flat.reverse();
    assert_eq!(flat, texts(&["A", "B", "C", "D"]));
}

#[test]
fn flat_length_counts_key_cells() {
    let layer = vec![
        vec![key("a"), Cell::NoKey, key("b")],
        vec![key("c")],
        vec![Cell::NoKey, Cell::NoKey],
        vec![key("d"), key("e"), key("f")],
        vec![key("g"), Cell::Unknown],
        vec![],
        vec![key("h"), key("i")],
        vec![Cell::NoKey, key("j")],
    ];
    let counted = layer
        .iter()
        .flatten()
        .filter(|c| matches!(c, Cell::Key(_)))
        .count();
    assert_eq!(counted, 10);
    assert_eq!(flatten_layer(layer).unwrap().len(), counted);
}

#[test]
fn layer_without_eight_rows_is_rejected() {
    let seven: Vec<Vec<Cell>> = (0..7).map(|_| vec![key("KC_A")]).collect();
    assert_eq!(flatten_layer(seven), Err(RowCountError { rows: 7 }));
    let nine: Vec<Vec<Cell>> = (0..9).map(|_| vec![key("KC_A")]).collect();
    assert_eq!(flatten_layer(nine), Err(RowCountError { rows: 9 }));
    assert_eq!(flatten_layer(Vec::new()), Err(RowCountError { rows: 0 }));
}

#[test]
fn eight_empty_rows_flatten_to_nothing() {
    let layer: Vec<Vec<Cell>> = (0..8).map(|_| Vec::new()).collect();
    assert_eq!(flatten_layer(layer), Ok(Vec::new()));
}
