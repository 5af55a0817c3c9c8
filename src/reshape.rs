use vstd::prelude::*;
use crate::cell::{Cell, cell_keys, row_keys, texts, lemma_row_keys_append, lemma_row_keys_single};

verus! {

/// Rows per stored layer: four for the left half, then four for the right half.
pub const LAYER_ROWS: usize = 8;

/// Physical rows per half.
pub const HALF_ROWS: usize = 4;

/// A layer whose row count is not the eight that a split layout stores.
#[derive(Debug, Clone, Copy, PartialEq, Eq, Structural)]
pub struct RowCountError {
    /// How many rows the layer held.
    pub rows: usize,
}

/// The rows of a stored layer, as sequences of cells.
pub open spec fn rows_of(m: Seq<Vec<Cell>>) -> Seq<Seq<Cell>> {
    m.map_values(|r: Vec<Cell>| r@)
}

/// What physical row `i` contributes: its left row left to right, then its
/// mirrored right row read right to left.
pub open spec fn physical_row(rows: Seq<Seq<Cell>>, i: int) -> Seq<Seq<char>> {
    row_keys(rows[i]) + row_keys(rows[i + 4]).reverse()
}

/// The flat keys of the first `n` physical rows.
pub open spec fn flat_upto(rows: Seq<Seq<Cell>>, n: int) -> Seq<Seq<char>>
    decreases n,
{
    if n <= 0 {
        Seq::empty()
    } else {
        flat_upto(rows, n - 1) + physical_row(rows, n - 1)
    }
}

/// The flat, firmware-ordered keys of an eight-row layer.
pub open spec fn flat_keys(rows: Seq<Seq<Cell>>) -> Seq<Seq<char>> {
    flat_upto(rows, 4)
}

/// Reshapes one stored layer into its flat key list.
///
/// Rows 0-3 are the left half and rows 4-7 the right half, stored mirrored.
/// For each physical row in turn the left row is read left to right and the
/// matching right row right to left; placeholders and values that are not key
/// codes are dropped. A layer without exactly eight rows is rejected.
pub fn flatten_layer(layer_matrix: Vec<Vec<Cell>>) -> (r: Result<Vec<String>, RowCountError>)
    ensures
        layer_matrix@.len() == LAYER_ROWS ==> (r matches Ok(keys) && texts(keys@) == flat_keys(
            rows_of(layer_matrix@),
        )),
        layer_matrix@.len() != LAYER_ROWS ==> (r matches Err(e) && e.rows == layer_matrix@.len()),
{
    if layer_matrix.len() != LAYER_ROWS {
        return Err(RowCountError { rows: layer_matrix.len() });
    }
    let ghost rows = rows_of(layer_matrix@);
    let mut result: Vec<String> = Vec::new();
    let mut i: usize = 0;
    while i < HALF_ROWS
        invariant
            i <= HALF_ROWS,
            layer_matrix@.len() == LAYER_ROWS,
            rows == rows_of(layer_matrix@),
            texts(result@) == flat_upto(rows, i as int),
        decreases HALF_ROWS - i,
    {
        let left = &layer_matrix[i];
        let ghost base = texts(result@);
        let mut j: usize = 0;
        while j < left.len()
            invariant
                j <= left@.len(),
                texts(result@) == base + row_keys(left@.subrange(0, j as int)),
            decreases left@.len() - j,
        {
            let ghost before = result@;
            match &left[j] {
                Cell::Key(s) => result.push(s.clone()),
                _ => {},
            }
            proof {
                let c = left@[j as int];
                lemma_row_keys_append(left@.subrange(0, j as int), seq![c]);
                lemma_row_keys_single(c);
                assert(left@.subrange(0, j as int + 1) =~= left@.subrange(0, j as int) + seq![c]);
                assert(texts(result@) =~= texts(before) + cell_keys(c));
            }
            j = j + 1;
        }
        assert(left@.subrange(0, left@.len() as int) =~= left@);
        let right = &layer_matrix[i + HALF_ROWS];
        let ghost mid = texts(result@);
        let mut j: usize = right.len();
        while j > 0
            invariant
                j <= right@.len(),
                texts(result@) == mid + row_keys(right@.subrange(j as int, right@.len() as int)).reverse(),
            decreases j,
        {
            let ghost before = result@;
            let ghost tail = right@.subrange(j as int, right@.len() as int);
            match &right[j - 1] {
                Cell::Key(s) => result.push(s.clone()),
                _ => {},
            }
            proof {
                let c = right@[j - 1];
                lemma_row_keys_append(seq![c], tail);
                lemma_row_keys_single(c);
                assert(right@.subrange(j - 1, right@.len() as int) =~= seq![c] + tail);
                assert((cell_keys(c) + row_keys(tail)).reverse() =~= row_keys(tail).reverse()
                    + cell_keys(c));
                assert(texts(result@) =~= texts(before) + cell_keys(c));
            }
            j = j - 1;
        }
        assert(right@.subrange(0, right@.len() as int) =~= right@);
        proof {
            assert(rows[i as int] == left@);
            assert(rows[i as int + 4] == right@);
            assert(texts(result@) =~= flat_upto(rows, i as int) + physical_row(rows, i as int));
        }
        i = i + 1;
    }
    Ok(result)
}

/// The number of cells of a row that hold a key code.
pub open spec fn key_cell_count(row: Seq<Cell>) -> nat
    decreases row.len(),
{
    if row.len() == 0 {
        0
    } else {
        key_cell_count(row.drop_last()) + if row.last() is Key {
            1nat
        } else {
            0nat
        }
    }
}

/// The number of cells holding a key code over all rows of a layer.
pub open spec fn layer_key_cell_count(rows: Seq<Seq<Cell>>) -> nat
    decreases rows.len(),
{
    if rows.len() == 0 {
        0
    } else {
        layer_key_cell_count(rows.drop_last()) + key_cell_count(rows.last())
    }
}

proof fn lemma_row_keys_len(row: Seq<Cell>)
    ensures
        row_keys(row).len() == key_cell_count(row),
    decreases row.len(),
{
    if row.len() > 0 {
        lemma_row_keys_len(row.drop_last());
    }
}

proof fn lemma_flat_upto_same_keys(a: Seq<Seq<Cell>>, b: Seq<Seq<Cell>>, n: int)
    requires
        0 <= n <= 4,
        a.len() == LAYER_ROWS,
        b.len() == LAYER_ROWS,
        forall|k: int| 0 <= k < 8 ==> row_keys(#[trigger] a[k]) == row_keys(b[k]),
    ensures
        flat_upto(a, n) == flat_upto(b, n),
    decreases n,
{
    if n > 0 {
        lemma_flat_upto_same_keys(a, b, n - 1);
        assert(row_keys(a[n - 1]) == row_keys(b[n - 1]));
        assert(row_keys(a[n + 3]) == row_keys(b[n + 3]));
    }
}

proof fn lemma_flat_upto_prefix(rows: Seq<Seq<Cell>>, m: int, n: int)
    requires
        0 <= m <= n,
    ensures
        flat_upto(rows, m).len() <= flat_upto(rows, n).len(),
        flat_upto(rows, n).subrange(0, flat_upto(rows, m).len() as int) == flat_upto(rows, m),
    decreases n - m,
{
    if m < n {
        lemma_flat_upto_prefix(rows, m, n - 1);
        let p = flat_upto(rows, n - 1);
        assert(flat_upto(rows, n) == p + physical_row(rows, n - 1));
        assert(flat_upto(rows, n).subrange(0, flat_upto(rows, m).len() as int) =~= p.subrange(
            0,
            flat_upto(rows, m).len() as int,
        ));
    } else {
        assert(flat_upto(rows, n).subrange(0, flat_upto(rows, n).len() as int) =~= flat_upto(
            rows,
            n,
        ));
    }
}

/// A `-1` placeholder inserted anywhere in any row of a layer leaves the
/// layer's flat keys unchanged: placeholders never reach the output.
pub proof fn lemma_placeholder_dropped(rows: Seq<Seq<Cell>>, r: int, j: int)
    requires
        rows.len() == LAYER_ROWS,
        0 <= r < 8,
        0 <= j <= rows[r].len(),
    ensures
        flat_keys(rows.update(r, rows[r].insert(j, Cell::NoKey))) == flat_keys(rows),
{
    let row = rows[r];
    let front = row.subrange(0, j);
    let back = row.subrange(j, row.len() as int);
    assert(row.insert(j, Cell::NoKey) =~= front + seq![Cell::NoKey] + back);
    assert(row =~= front + back);
    lemma_row_keys_append(front + seq![Cell::NoKey], back);
    lemma_row_keys_append(front, seq![Cell::NoKey]);
    lemma_row_keys_append(front, back);
    lemma_row_keys_single(Cell::NoKey);
    assert(row_keys(front) + Seq::<Seq<char>>::empty() =~= row_keys(front));
    let updated = rows.update(r, row.insert(j, Cell::NoKey));
    assert forall|k: int| 0 <= k < 8 implies row_keys(#[trigger] updated[k]) == row_keys(
        rows[k],
    ) by {}
    lemma_flat_upto_same_keys(updated, rows, 4);
}

/// The right row of each physical row is read mirrored: its part of the flat
/// keys, which follows the matching left row's keys, is that row's keys in
/// reverse, and reversing that part again gives the row's keys as stored.
pub proof fn lemma_right_row_mirrored(rows: Seq<Seq<Cell>>, i: int)
    requires
        rows.len() == LAYER_ROWS,
        0 <= i < 4,
    ensures
        ({
            let start = flat_upto(rows, i).len() as int;
            let mid = start + row_keys(rows[i]).len();
            let end = flat_upto(rows, i + 1).len() as int;
            &&& flat_keys(rows).subrange(start, mid) == row_keys(rows[i])
            &&& flat_keys(rows).subrange(mid, end) == row_keys(rows[i + 4]).reverse()
            &&& flat_keys(rows).subrange(mid, end).reverse() == row_keys(rows[i + 4])
        }),
{
    lemma_flat_upto_prefix(rows, i + 1, 4);
    let start = flat_upto(rows, i).len() as int;
    let mid = start + row_keys(rows[i]).len();
    let end = flat_upto(rows, i + 1).len() as int;
    let upto = flat_upto(rows, i + 1);
    let all = flat_keys(rows);
    assert(upto == flat_upto(rows, i) + row_keys(rows[i]) + row_keys(rows[i + 4]).reverse());
    assert(all.subrange(start, mid) =~= upto.subrange(start, mid));
    assert(all.subrange(mid, end) =~= upto.subrange(mid, end));
    assert(upto.subrange(start, mid) =~= row_keys(rows[i]));
    assert(upto.subrange(mid, end) =~= row_keys(rows[i + 4]).reverse());
    assert(row_keys(rows[i + 4]).reverse().reverse() =~= row_keys(rows[i + 4]));
}

proof fn lemma_flat_upto_len(rows: Seq<Seq<Cell>>, n: int)
    requires
        0 <= n <= 4,
        rows.len() == LAYER_ROWS,
    ensures
        flat_upto(rows, n).len() == layer_key_cell_count(rows.subrange(0, n)) + layer_key_cell_count(
            rows.subrange(4, 4 + n),
        ),
    decreases n,
{
    if n > 0 {
        lemma_flat_upto_len(rows, n - 1);
        assert(rows.subrange(0, n).drop_last() =~= rows.subrange(0, n - 1));
        assert(rows.subrange(4, 4 + n).drop_last() =~= rows.subrange(4, 4 + n - 1));
        lemma_row_keys_len(rows[n - 1]);
        lemma_row_keys_len(rows[n + 3]);
    } else {
        assert(rows.subrange(0, 0).len() == 0);
        assert(rows.subrange(4, 4).len() == 0);
    }
}

proof fn lemma_layer_count_split(rows: Seq<Seq<Cell>>, m: int)
    requires
        0 <= m <= rows.len(),
    ensures
        layer_key_cell_count(rows) == layer_key_cell_count(rows.subrange(0, m))
            + layer_key_cell_count(rows.subrange(m, rows.len() as int)),
    decreases rows.len(),
{
    if rows.len() > m {
        lemma_layer_count_split(rows.drop_last(), m);
        assert(rows.drop_last().subrange(0, m) =~= rows.subrange(0, m));
        let tail = rows.subrange(m, rows.len() as int);
        assert(tail.drop_last() =~= rows.drop_last().subrange(m, rows.len() - 1));
        assert(tail.last() == rows.last());
    } else {
        assert(rows.subrange(0, m) =~= rows);
        assert(rows.subrange(m, rows.len() as int).len() == 0);
    }
}

/// Flattening keeps every key: the flat keys of an eight-row layer are as many
/// as the cells of its rows that hold a key code.
pub proof fn lemma_flat_key_count(rows: Seq<Seq<Cell>>)
    requires
        rows.len() == LAYER_ROWS,
    ensures
        flat_keys(rows).len() == layer_key_cell_count(rows),
{
    lemma_flat_upto_len(rows, 4);
    lemma_layer_count_split(rows, 4);
    assert(rows.subrange(4, 8) =~= rows.subrange(4, rows.len() as int));
}

} // verus!
