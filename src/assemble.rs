use vstd::prelude::*;
use crate::cell::{Cell, texts};
use crate::reshape::{LAYER_ROWS, flat_keys, flatten_layer, rows_of};

verus! {

/// The flat layers of a keymap, as key-code texts.
pub open spec fn layer_texts(layers: Seq<Vec<String>>) -> Seq<Seq<Seq<char>>> {
    layers.map_values(|l: Vec<String>| texts(l@))
}

/// A key code that assigns nothing: transparent, no-op, or empty.
pub open spec fn is_blank_key(k: Seq<char>) -> bool {
    k == "KC_TRNS"@ || k == "KC_NO"@ || k.len() == 0
}

/// A flat layer all of whose key codes assign nothing.
pub open spec fn is_empty_layer(layer: Seq<Seq<char>>) -> bool {
    forall|i: int| 0 <= i < layer.len() ==> is_blank_key(#[trigger] layer[i])
}

/// Tells whether every key of a flat layer is `KC_TRNS`, `KC_NO` or empty.
pub fn is_layer_empty(layer: &[String]) -> (r: bool)
    ensures
        r == is_empty_layer(texts(layer@)),
{
    let transparent = String::from_str("KC_TRNS");
    let no_op = String::from_str("KC_NO");
    let mut i: usize = 0;
    while i < layer.len()
        invariant
            i <= layer@.len(),
            transparent@ == "KC_TRNS"@,
            no_op@ == "KC_NO"@,
            forall|k: int| 0 <= k < i ==> is_blank_key(#[trigger] layer@[k]@),
        decreases layer@.len() - i,
    {
        let key = &layer[i];
        if !(*key == transparent || *key == no_op || key.as_str().is_empty()) {
            assert(texts(layer@)[i as int] == key@);
            return false;
        }
        i = i + 1;
    }
    assert forall|k: int| 0 <= k < texts(layer@).len() implies is_blank_key(
        #[trigger] texts(layer@)[k],
    ) by {
        assert(is_blank_key(layer@[k]@));
    }
    true
}

/// The first `max_layers` layers where a cap is given, else all of them.
pub open spec fn capped(layers: Seq<Seq<Seq<char>>>, max_layers: Option<usize>) -> Seq<
    Seq<Seq<char>>,
> {
    match max_layers {
        Some(m) => if m < layers.len() {
            layers.take(m as int)
        } else {
            layers
        },
        None => layers,
    }
}

/// The layers that are not empty, in their order.
pub open spec fn non_empty(layers: Seq<Seq<Seq<char>>>) -> Seq<Seq<Seq<char>>>
    decreases layers.len(),
{
    if layers.len() == 0 {
        layers
    } else if is_empty_layer(layers.last()) {
        non_empty(layers.drop_last())
    } else {
        non_empty(layers.drop_last()).push(layers.last())
    }
}

/// The layers a keymap keeps: the cap applies first, then the emptiness filter.
pub open spec fn selected(layers: Seq<Seq<Seq<char>>>, max_layers: Option<usize>, filter_empty: bool) -> Seq<
    Seq<Seq<char>>,
> {
    if filter_empty {
        non_empty(capped(layers, max_layers))
    } else {
        capped(layers, max_layers)
    }
}

/// Keeps the first `max_layers` layers, if a cap is given, and then, if
/// `filter_empty` is set, drops the layers whose keys all assign nothing.
pub fn select_layers(layers: Vec<Vec<String>>, max_layers: Option<usize>, filter_empty: bool) -> (r:
    Vec<Vec<String>>)
    ensures
        layer_texts(r@) == selected(layer_texts(layers@), max_layers, filter_empty),
{
    let mut layers = layers;
    let ghost all = layer_texts(layers@);
    if let Some(m) = max_layers {
        layers.truncate(m);
    }
    assert(layer_texts(layers@) =~= capped(all, max_layers));
    if !filter_empty {
        return layers;
    }
    let ghost kept = layers@;
    let mut out: Vec<Vec<String>> = Vec::new();
    for layer in it: layers
        invariant
            it.seq() == kept,
            layer_texts(out@) == non_empty(layer_texts(kept.take(it.index() as int))),
    {
        let ghost n = it.index() as int;
        let ghost before = out@;
        let empty = is_layer_empty(layer.as_slice());
        if !empty {
            out.push(layer);
        }
        proof {
            let prefix = layer_texts(kept.take(n + 1));
            assert(prefix.drop_last() =~= layer_texts(kept.take(n)));
            assert(prefix.last() == texts(kept[n]@));
            if !empty {
                assert(layer_texts(out@) =~= layer_texts(before).push(texts(kept[n]@)));
            }
        }
    }
    assert(kept.take(kept.len() as int) =~= kept);
    out
}

proof fn lemma_non_empty_len(layers: Seq<Seq<Seq<char>>>)
    ensures
        non_empty(layers).len() <= layers.len(),
    decreases layers.len(),
{
    if layers.len() > 0 {
        lemma_non_empty_len(layers.drop_last());
    }
}

/// With a cap of `m` layers, a keymap never keeps more than `m` layers,
/// whether or not empty layers are filtered.
pub proof fn lemma_selected_within_cap(layers: Seq<Seq<Seq<char>>>, m: usize, filter_empty: bool)
    ensures
        selected(layers, Some(m), filter_empty).len() <= m,
{
    lemma_non_empty_len(capped(layers, Some(m)));
}

/// The schema version of the keymap document.
pub const KEYMAP_VERSION: u32 = 1;

/// A keymap document: schema version, keyboard identifier, layout macro name
/// and the flat key list of each layer.
#[derive(Debug)]
pub struct Keymap {
    pub version: u32,
    pub keyboard: String,
    pub layout: String,
    pub layers: Vec<Vec<String>>,
}

/// A layer of a layout export that does not hold the eight rows of a split layout.
#[derive(Debug, Clone, Copy, PartialEq, Eq, Structural)]
pub struct LayerShapeError {
    /// The position of the layer in the export.
    pub layer: usize,
    /// How many rows it held.
    pub rows: usize,
}

/// The stored layers of a layout export, as rows of cells.
pub open spec fn layout_rows(layout: Seq<Vec<Vec<Cell>>>) -> Seq<Seq<Seq<Cell>>> {
    layout.map_values(|l: Vec<Vec<Cell>>| rows_of(l@))
}

/// Every layer holds eight rows.
pub open spec fn well_shaped(layout: Seq<Seq<Seq<Cell>>>) -> bool {
    forall|i: int| 0 <= i < layout.len() ==> (#[trigger] layout[i]).len() == LAYER_ROWS
}

/// The flat keys of each layer.
pub open spec fn flat_layers(layout: Seq<Seq<Seq<Cell>>>) -> Seq<Seq<Seq<char>>> {
    layout.map_values(|rows: Seq<Seq<Cell>>| flat_keys(rows))
}

/// Converts the layers of a layout export into a keymap document.
///
/// Every layer is reshaped into its flat key list; the first `max_layers`
/// are kept where a cap is given, and then, if `filter_empty` is set, the
/// layers whose keys all assign nothing are dropped. The first layer that
/// does not hold eight rows fails the whole conversion.
pub fn convert_layout(
    layout: Vec<Vec<Vec<Cell>>>,
    keyboard: String,
    layout_name: String,
    max_layers: Option<usize>,
    filter_empty: bool,
) -> (r: Result<Keymap, LayerShapeError>)
    ensures
        well_shaped(layout_rows(layout@)) <==> r is Ok,
        r matches Ok(k) ==> {
            &&& k.version == KEYMAP_VERSION
            &&& k.keyboard == keyboard
            &&& k.layout == layout_name
            &&& layer_texts(k.layers@) == selected(
                flat_layers(layout_rows(layout@)),
                max_layers,
                filter_empty,
            )
        },
        r matches Err(e) ==> {
            &&& e.layer < layout@.len()
            &&& e.rows == layout@[e.layer as int]@.len()
            &&& e.rows != LAYER_ROWS
            &&& forall|i: int| 0 <= i < e.layer ==> (#[trigger] layout@[i])@.len() == LAYER_ROWS
        },
{
    let ghost stored = layout@;
    let ghost shaped = layout_rows(stored);
    let mut flat: Vec<Vec<String>> = Vec::new();
    let mut index: usize = 0;
    let count = layout.len();
    for layer_matrix in it: layout
        invariant
            it.seq() == stored,
            shaped == layout_rows(stored),
            index == it.index(),
            index <= stored.len(),
            stored.len() <= usize::MAX,
            forall|i: int| 0 <= i < index ==> (#[trigger] stored[i])@.len() == LAYER_ROWS,
            layer_texts(flat@) == flat_layers(shaped.take(index as int)),
    {
        let ghost before = flat@;
        let ghost current = layer_matrix;
        assert(index < stored.len() && current == stored[index as int]);
        match flatten_layer(layer_matrix) {
            Ok(keys) => {
                flat.push(keys);
                proof {
                    let n = index as int;
                    assert(flat_layers(shaped.take(n + 1)) =~= flat_layers(shaped.take(n)).push(
                        flat_keys(shaped[n]),
                    ));
                    assert(layer_texts(flat@) =~= layer_texts(before).push(texts(flat@[n]@)));
                }
            },
            Err(e) => {
                proof {
                    assert(!well_shaped(shaped)) by {
                        assert(shaped[index as int].len() != LAYER_ROWS);
                    }
                }
                return Err(LayerShapeError { layer: index, rows: e.rows });
            },
        }
        index = index + 1;
    }
    assert(shaped.take(stored.len() as int) =~= shaped);
    assert(well_shaped(shaped)) by {
        assert forall|i: int| 0 <= i < shaped.len() implies (#[trigger] shaped[i]).len()
            == LAYER_ROWS by {
            assert(stored[i]@.len() == LAYER_ROWS);
        }
    }
    Ok(
        Keymap {
            version: KEYMAP_VERSION,
            keyboard,
            layout: layout_name,
            layers: select_layers(flat, max_layers, filter_empty),
        },
    )
}

/// The number of keys per layer that a keymap reports: that of its first
/// layer, or zero when it has none.
pub fn keys_per_layer(layers: &[Vec<String>]) -> (r: usize)
    ensures
        layers@.len() == 0 ==> r == 0,
        layers@.len() > 0 ==> r == layers@[0]@.len(),
{
    if layers.len() == 0 {
        0
    } else {
        layers[0].len()
    }
}

} // verus!
