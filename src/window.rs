//! Which slice of a long list is shown in a bounded number of rows.
use std::ops::Range;
use vstd::prelude::*;

verus! {

/// Rows taken by the frame around a list (its top and bottom border).
pub const CHROME_ROWS: usize = 2;

/// Rows left for list entries once the frame is drawn; none when the frame
/// alone fills the area.
pub open spec fn usable_rows(available: int) -> int {
    if available <= CHROME_ROWS { 0 } else { available - CHROME_ROWS }
}

/// How many rows the window reaches below the selection once it scrolls:
/// half a window and two more, but never more than the window itself.
pub open spec fn lead(rows: int) -> int {
    if rows / 2 + 2 <= rows { rows / 2 + 2 } else { rows }
}

/// The visible window `[start, end)` of a list of `length` entries, and the
/// selection's position inside it, for the selection `index` and `available`
/// rows of screen.
pub open spec fn window(index: int, length: int, available: int) -> (int, int, int) {
    let rows = usable_rows(available);
    if length == 0 || rows == 0 {
        (0, 0, 0)
    } else if length <= rows {
        (0, length, index)
    } else if index < rows / 2 {
        (0, if rows <= length { rows } else { length }, index)
    } else {
        let top = if index + lead(rows) <= length { index + lead(rows) } else { length };
        let bottom = top - rows;
        (bottom, top, index - bottom)
    }
}

/// The range of entries to draw and the selection's row within it.
pub fn format_range(index: usize, length: usize, rows: usize) -> (r: (Range<usize>, usize))
    ensures
        (r.0.start as int, r.0.end as int, r.1 as int) == window(
            index as int,
            length as int,
            rows as int,
        ),
{
    if length == 0 || rows <= CHROME_ROWS {
        return (0..0, 0);
    }
    let rows = rows - CHROME_ROWS;
    if length <= rows {
        return (0..length, index);
    }
    let half = rows / 2;
    if index < half {
        return (0..rows, index);
    }
    let reach: usize = if half + 2 <= rows { half + 2 } else { rows };
    let top: usize = if index < length && length - index >= reach { index + reach } else { length };
    let bottom = top - rows;
    (bottom..top, index - bottom)
}

/// The window never holds more rows than are usable, lies inside the list,
/// shows the whole list whenever it fits, and keeps a valid selection inside
/// itself.
pub proof fn lemma_window_bounds(index: int, length: int, available: int)
    requires
        0 <= index,
        0 <= length,
        index < length || index == 0,
    ensures
        ({
            let (start, end, rel) = window(index, length, available);
            &&& 0 <= start <= end <= length
            &&& end - start <= usable_rows(available)
            &&& 0 <= rel
            &&& index < length ==> rel < end - start || usable_rows(available) == 0
            &&& length == 0 ==> rel == 0
            &&& 0 < length <= usable_rows(available) ==> start == 0 && end == length
        }),
{
}

} // verus!
