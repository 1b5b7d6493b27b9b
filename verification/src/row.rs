//! Rows whose columns are named by a schema read from the document.
//!
//! A schema is a list of column names; a row is a list of cells, of which
//! some may be empty. A field of a record gets the cell of the column whose
//! name stands for it, wherever in the row that column is.

use vstd::prelude::*;

verus! {

/// Whether column `i` of the row gives `field` a value: its name stands for
/// the field and its cell is not empty.
pub open spec fn gives<F>(
    schema: Seq<Seq<char>>,
    cells: Seq<Option<Seq<char>>>,
    which: spec_fn(Seq<char>) -> Option<F>,
    field: F,
    i: int,
) -> bool {
    0 <= i < schema.len() && i < cells.len() && which(schema[i]) == Some(field) && cells[i] is Some
}

/// The cell that the first `upto` columns give `field`: that of the last
/// column among them that gives it one.
pub open spec fn spec_cell_below<F>(
    schema: Seq<Seq<char>>,
    cells: Seq<Option<Seq<char>>>,
    which: spec_fn(Seq<char>) -> Option<F>,
    field: F,
    upto: int,
) -> Option<Seq<char>>
    decreases upto,
{
    if upto <= 0 {
        None
    } else if gives(schema, cells, which, field, upto - 1) {
        cells[upto - 1]
    } else {
        spec_cell_below(schema, cells, which, field, upto - 1)
    }
}

/// The number of columns that a row has under a schema: a cell without a
/// name and a name without a cell count for nothing.
pub open spec fn spec_columns(schema: Seq<Seq<char>>, cells: Seq<Option<Seq<char>>>) -> int {
    if schema.len() <= cells.len() {
        schema.len() as int
    } else {
        cells.len() as int
    }
}

/// The cell that the row gives `field`: that of the last column that gives
/// it one, and none where no column does.
pub open spec fn spec_cell<F>(
    schema: Seq<Seq<char>>,
    cells: Seq<Option<Seq<char>>>,
    which: spec_fn(Seq<char>) -> Option<F>,
    field: F,
) -> Option<Seq<char>> {
    spec_cell_below(schema, cells, which, field, spec_columns(schema, cells))
}

/// A field has the cell of a column that gives it one, and has none only
/// where no column gives it one.
pub proof fn lemma_cell_below<F>(
    schema: Seq<Seq<char>>,
    cells: Seq<Option<Seq<char>>>,
    which: spec_fn(Seq<char>) -> Option<F>,
    field: F,
    upto: int,
)
    ensures
        match spec_cell_below(schema, cells, which, field, upto) {
            Some(v) => exists|i: int|
                0 <= i < upto && #[trigger] gives(schema, cells, which, field, i) && cells[i]
                    == Some(v),
            None => forall|i: int|
                0 <= i < upto ==> !#[trigger] gives(schema, cells, which, field, i),
        },
    decreases upto,
{
    if upto > 0 {
        lemma_cell_below(schema, cells, which, field, upto - 1);
        if gives(schema, cells, which, field, upto - 1) {
        } else {
            match spec_cell_below(schema, cells, which, field, upto - 1) {
                Some(v) => {
                    let i = choose|i: int|
                        0 <= i < upto - 1 && #[trigger] gives(schema, cells, which, field, i)
                            && cells[i] == Some(v);
                    assert(0 <= i < upto && gives(schema, cells, which, field, i));
                },
                None => {},
            }
        }
    }
}

/// Whether no two columns of the schema stand for the same field.
pub open spec fn names_fields_once<F>(
    schema: Seq<Seq<char>>,
    which: spec_fn(Seq<char>) -> Option<F>,
) -> bool {
    forall|i: int, j: int|
        0 <= i < schema.len() && 0 <= j < schema.len() && i != j && which(#[trigger] schema[i])
            is Some ==> which(schema[i]) != which(#[trigger] schema[j])
}

/// Whether the second schema and row are the first ones with their columns
/// in another order: column `i` of the second is column `to[i]` of the
/// first, and column `i` of the first is column `back[i]` of the second.
pub open spec fn reordered(
    schema: Seq<Seq<char>>,
    cells: Seq<Option<Seq<char>>>,
    schema2: Seq<Seq<char>>,
    cells2: Seq<Option<Seq<char>>>,
    to: Seq<int>,
    back: Seq<int>,
) -> bool {
    let n = schema.len();
    &&& cells.len() == n
    &&& schema2.len() == n
    &&& cells2.len() == n
    &&& to.len() == n
    &&& back.len() == n
    &&& forall|i: int| 0 <= i < n ==> 0 <= #[trigger] to[i] < n && back[to[i]] == i
    &&& forall|i: int| 0 <= i < n ==> 0 <= #[trigger] back[i] < n && to[back[i]] == i
    &&& forall|i: int|
        0 <= i < n ==> #[trigger] schema2[i] == schema[to[i]] && cells2[i] == cells[to[i]]
}

/// Schema independence, for one field: where no two columns stand for the
/// same field, putting the columns of the schema in another order, and the
/// cells of the row with them, leaves the cell of every field as it was.
pub proof fn lemma_cell_reordered<F>(
    schema: Seq<Seq<char>>,
    cells: Seq<Option<Seq<char>>>,
    schema2: Seq<Seq<char>>,
    cells2: Seq<Option<Seq<char>>>,
    to: Seq<int>,
    back: Seq<int>,
    which: spec_fn(Seq<char>) -> Option<F>,
    field: F,
)
    requires
        reordered(schema, cells, schema2, cells2, to, back),
        names_fields_once(schema, which),
    ensures
        spec_cell(schema2, cells2, which, field) == spec_cell(schema, cells, which, field),
{
    let n = schema.len() as int;
    lemma_cell_below(schema, cells, which, field, n);
    lemma_cell_below(schema2, cells2, which, field, n);
    let first = spec_cell_below(schema, cells, which, field, n);
    let second = spec_cell_below(schema2, cells2, which, field, n);
    match first {
        Some(v) => {
            let i = choose|i: int|
                0 <= i < n && #[trigger] gives(schema, cells, which, field, i) && cells[i]
                    == Some(v);
            let j = back[i];
            assert(to[j] == i);
            assert(schema2[j] == schema[to[j]]);
            assert(gives(schema2, cells2, which, field, j));
            match second {
                Some(w) => {
                    let k = choose|k: int|
                        0 <= k < n && #[trigger] gives(schema2, cells2, which, field, k)
                            && cells2[k] == Some(w);
                    assert(schema2[k] == schema[to[k]]);
                    assert(which(schema[to[k]]) == Some(field));
                    assert(to[k] == i);
                },
                None => {},
            }
        },
        None => {
            match second {
                Some(w) => {
                    let k = choose|k: int|
                        0 <= k < n && #[trigger] gives(schema2, cells2, which, field, k)
                            && cells2[k] == Some(w);
                    assert(schema2[k] == schema[to[k]]);
                    assert(gives(schema, cells, which, field, to[k]));
                },
                None => {},
            }
        },
    }
}

} // verus!
