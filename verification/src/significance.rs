//! Chi-squared goodness of fit: the shape of the frequency tables and the
//! cells that enter the statistic.
//!
//! The statistic sums `(o - e)^2 / e` over the cells. A cell whose expected
//! frequency is zero adds nothing to it: the term is left out rather than
//! divided by zero. This departs from the textbook statistic, which is
//! undefined for such a cell, and keeps an empty category from turning the
//! whole sum into an infinity or a NaN.

use vstd::prelude::*;
use crate::binary64::{denotes_zero, is_zero};
use crate::error::Error;

verus! {

/// Whether the cell at `cell` enters the statistic: it lies within the table
/// and its expected frequency is not zero.
pub open spec fn contributes(expected: Seq<u64>, cell: int) -> bool {
    0 <= cell < expected.len() && !is_zero(expected[cell])
}

/// `cells` names every contributing cell of the table once, in rising order,
/// and no other.
pub open spec fn lists_contributing_cells(cells: Seq<usize>, expected: Seq<u64>) -> bool {
    &&& forall|k: int| 0 <= k < cells.len() ==> contributes(expected, #[trigger] cells[k] as int)
    &&& forall|k: int, l: int| 0 <= k < l < cells.len() ==> cells[k] < cells[l]
    &&& forall|cell: int| #[trigger]
        contributes(expected, cell) ==> exists|k: int| 0 <= k < cells.len() && cells[k] == cell
}

/// A list of the contributing cells of a table, cut down to the table
/// without its last cell: the list without its last entry where that cell
/// contributes, and the whole list where it does not.
proof fn cells_of_shorter_table(cells: Seq<usize>, expected: Seq<u64>)
    requires
        expected.len() > 0,
        lists_contributing_cells(cells, expected),
    ensures
        contributes(expected, expected.len() - 1) ==> cells.len() > 0 && cells.last()
            == expected.len() - 1 && lists_contributing_cells(
            cells.drop_last(),
            expected.drop_last(),
        ),
        !contributes(expected, expected.len() - 1) ==> lists_contributing_cells(
            cells,
            expected.drop_last(),
        ),
{
    let last = expected.len() - 1;
    let shorter = expected.drop_last();
    if contributes(expected, last) {
        let at = choose|k: int| 0 <= k < cells.len() && cells[k] == last;
        if at < cells.len() - 1 {
            assert(contributes(expected, cells[at + 1] as int));
        }
        let fewer = cells.drop_last();
        assert forall|k: int| 0 <= k < fewer.len() implies contributes(
            shorter,
            #[trigger] fewer[k] as int,
        ) by {
            assert(contributes(expected, cells[k] as int));
            assert(cells[k] < cells[at]);
        }
        assert forall|cell: int| #[trigger] contributes(shorter, cell) implies exists|k: int|
            0 <= k < fewer.len() && fewer[k] == cell by {
            assert(contributes(expected, cell));
            let k = choose|k: int| 0 <= k < cells.len() && cells[k] == cell;
            assert(fewer[k] == cell);
        }
    } else {
        assert forall|k: int| 0 <= k < cells.len() implies contributes(
            shorter,
            #[trigger] cells[k] as int,
        ) by {
            assert(contributes(expected, cells[k] as int));
        }
        assert forall|cell: int| #[trigger] contributes(shorter, cell) implies exists|k: int|
            0 <= k < cells.len() && cells[k] == cell by {
            assert(contributes(expected, cell));
        }
    }
}

/// A table has one list of contributing cells.
pub proof fn contributing_cells_are_unique(x: Seq<usize>, y: Seq<usize>, expected: Seq<u64>)
    requires
        lists_contributing_cells(x, expected),
        lists_contributing_cells(y, expected),
    ensures
        x == y,
    decreases expected.len(),
{
    if expected.len() == 0 {
        if x.len() > 0 {
            assert(contributes(expected, x[0] as int));
        }
        if y.len() > 0 {
            assert(contributes(expected, y[0] as int));
        }
        assert(x =~= y);
    } else {
        cells_of_shorter_table(x, expected);
        cells_of_shorter_table(y, expected);
        if contributes(expected, expected.len() - 1) {
            contributing_cells_are_unique(x.drop_last(), y.drop_last(), expected.drop_last());
            assert(x =~= x.drop_last().push(x.last()));
            assert(y =~= y.drop_last().push(y.last()));
        } else {
            contributing_cells_are_unique(x, y, expected.drop_last());
        }
    }
}

/// The cells over which the chi-squared statistic of two frequency tables is
/// summed. The tables are aligned by position, so tables of different
/// lengths are refused.
pub fn contributing_cells(observed: &[u64], expected: &[u64]) -> (cells: Result<Vec<usize>, Error>)
    ensures
        observed@.len() != expected@.len() ==> cells == Err::<Vec<usize>, Error>(
            Error::ShapeMismatch,
        ),
        observed@.len() == expected@.len() ==> cells is Ok && lists_contributing_cells(
            cells->Ok_0@,
            expected@,
        ),
{
    if observed.len() != expected.len() {
        return Err(Error::ShapeMismatch);
    }
    let mut cells: Vec<usize> = Vec::new();
    let mut cell: usize = 0;
    while cell < expected.len()
        invariant
            cell <= expected@.len(),
            lists_contributing_cells(cells@, expected@.take(cell as int)),
        decreases expected@.len() - cell,
    {
        let ghost seen = expected@.take(cell as int);
        let ghost more = expected@.take(cell + 1);
        let ghost before = cells@;
        if !denotes_zero(expected[cell]) {
            cells.push(cell);
            proof {
                assert forall|c: int| #[trigger] contributes(more, c) implies exists|k: int|
                    0 <= k < cells@.len() && cells@[k] == c by {
                    if c < cell {
                        assert(contributes(seen, c));
                        let k = choose|k: int| 0 <= k < before.len() && before[k] == c;
                        assert(cells@[k] == c);
                    } else {
                        assert(cells@[before.len() as int] == c);
                    }
                }
                assert forall|k: int| 0 <= k < cells@.len() implies contributes(
                    more,
                    #[trigger] cells@[k] as int,
                ) by {
                    if k < before.len() {
                        assert(contributes(seen, before[k] as int));
                    }
                }
                assert forall|k: int, l: int| 0 <= k < l < cells@.len() implies cells@[k]
                    < cells@[l] by {
                    if l == before.len() {
                        assert(contributes(seen, before[k] as int));
                    }
                }
            }
        } else {
            proof {
                assert forall|c: int| #[trigger] contributes(more, c) implies exists|k: int|
                    0 <= k < cells@.len() && cells@[k] == c by {
                    assert(contributes(seen, c));
                }
                assert forall|k: int| 0 <= k < cells@.len() implies contributes(
                    more,
                    #[trigger] cells@[k] as int,
                ) by {
                    assert(contributes(seen, before[k] as int));
                }
            }
        }
        cell += 1;
    }
    assert(expected@.take(cell as int) =~= expected@);
    Ok(cells)
}

} // verus!
