use vstd::prelude::*;

verus! {

/// One stored key position of a layout export.
#[derive(Debug)]
pub enum Cell {
    /// A key-code identifier such as `KC_Q`.
    Key(String),
    /// The `-1` placeholder: no physical key at this position.
    NoKey,
    /// Any other stored value; it is not a key code and is dropped.
    Unknown,
}

/// The key codes a single cell contributes: its text for a key, nothing otherwise.
pub open spec fn cell_keys(c: Cell) -> Seq<Seq<char>> {
    match c {
        Cell::Key(s) => seq![s@],
        _ => Seq::empty(),
    }
}

/// The key codes of a row, left to right, with placeholders and unknown values dropped.
pub open spec fn row_keys(row: Seq<Cell>) -> Seq<Seq<char>>
    decreases row.len(),
{
    if row.len() == 0 {
        Seq::empty()
    } else {
        row_keys(row.drop_last()) + cell_keys(row.last())
    }
}

/// The text of each string of a sequence.
pub open spec fn texts(v: Seq<String>) -> Seq<Seq<char>> {
    v.map_values(|s: String| s@)
}

/// Dropping cells commutes with splitting a row in two.
pub proof fn lemma_row_keys_append(a: Seq<Cell>, b: Seq<Cell>)
    ensures
        row_keys(a + b) == row_keys(a) + row_keys(b),
    decreases b.len(),
{
    if b.len() == 0 {
        assert(a + b =~= a);
        assert(row_keys(a) + row_keys(b) =~= row_keys(a));
    } else {
        lemma_row_keys_append(a, b.drop_last());
        assert((a + b).drop_last() =~= a + b.drop_last());
        assert((a + b).last() == b.last());
        assert(row_keys(a) + row_keys(b.drop_last()) + cell_keys(b.last()) =~= row_keys(a) + (
        row_keys(b.drop_last()) + cell_keys(b.last())));
    }
}

/// The keys of a one-cell row are that cell's keys.
pub proof fn lemma_row_keys_single(c: Cell)
    ensures
        row_keys(seq![c]) == cell_keys(c),
{
    assert(seq![c].drop_last() =~= Seq::<Cell>::empty());
    assert(seq![c].last() == c);
    assert(row_keys(Seq::<Cell>::empty()) == Seq::<Seq<char>>::empty());
    assert(Seq::<Seq<char>>::empty() + cell_keys(c) =~= cell_keys(c));
}

} // verus!
