//! The grid in which completion candidates are shown below the prompt.

use vstd::prelude::*;
use crate::text::{chars_of, strings_view};

verus! {

/// A grid: the width of a column, how many columns fit on a line, and how
/// many lines are shown.
#[derive(Debug, Clone, Copy, PartialEq, Eq, Structural)]
pub struct Grid {
    pub column_width: u64,
    pub columns: u64,
    pub rows: u64,
}

/// The length of the longest text.
pub open spec fn longest(v: Seq<Seq<char>>) -> nat
    decreases v.len(),
{
    if v.len() == 0 {
        0
    } else {
        let m = longest(v.drop_last());
        if v.last().len() > m { v.last().len() } else { m }
    }
}

/// The grid for `n` items whose longest has `longest` characters, on a
/// terminal `term_cols` wide, showing at most `max_rows` lines: columns are
/// the longest item plus `padding` wide, at least one fits on a line, and
/// only as many lines as the items need are shown.
pub open spec fn grid_of(n: nat, longest: nat, term_cols: u16, max_rows: u16, padding: u16) -> Grid {
    let width: int = longest + padding;
    let cols: int = term_cols as int;
    let columns: int = if width == 0 || cols / width == 0 { 1 } else { cols / width };
    let needed: int = (n + columns - 1) / columns;
    Grid {
        column_width: width as u64,
        columns: columns as u64,
        rows: if needed < max_rows { needed as u64 } else { max_rows as u64 },
    }
}

/// Lays the items out.
pub fn grid_for(items: &Vec<String>, term_cols: u16, max_rows: u16, padding: u16) -> (g: Grid)
    requires
        items@.len() < u32::MAX,
        forall|i: int| 0 <= i < items@.len() ==> (#[trigger] items@[i])@.len() < u32::MAX,
    ensures
        g == grid_of(items@.len(), longest(strings_view(items@)), term_cols, max_rows, padding),
{
    let ghost v = strings_view(items@);
    let mut m: u64 = 0;
    let mut i: usize = 0;
    while i < items.len()
        invariant
            i <= items@.len(),
            v == strings_view(items@),
            items@.len() < u32::MAX,
            forall|k: int| 0 <= k < items@.len() ==> (#[trigger] items@[k])@.len() < u32::MAX,
            m == longest(v.take(i as int)),
            m < u32::MAX,
        decreases items.len() - i,
    {
        assert(v.take(i + 1).drop_last() =~= v.take(i as int));
        assert(v[i as int] == items@[i as int]@);
        let n = chars_of(items[i].as_str()).len() as u64;
        if n > m {
            m = n;
        }
        i += 1;
    }
    assert(v.take(i as int) =~= v);
    let width: u64 = m + padding as u64;
    let columns: u64 = if width == 0 || term_cols as u64 / width == 0 { 1 } else { term_cols as u64 / width };
    let n = items.len() as u64;
    let needed: u64 = (n + columns - 1) / columns;
    let rows: u64 = if needed < max_rows as u64 { needed } else { max_rows as u64 };
    Grid { column_width: width, columns, rows }
}

/// Where item `index` goes: its column offset and its line below the
/// prompt, or nothing when it falls past the last line shown.
pub fn cell_of(g: Grid, index: u64) -> (r: Option<(u64, u64)>)
    requires
        g.columns > 0,
        g.columns * g.column_width <= u32::MAX,
    ensures
        index / g.columns < g.rows ==> r == Some((((index % g.columns) * g.column_width) as u64, index / g.columns)),
        index / g.columns >= g.rows ==> r is None,
{
    let line = index / g.columns;
    if line >= g.rows {
        return None;
    }
    let col = index % g.columns;
    assert(col * g.column_width <= g.columns * g.column_width) by (nonlinear_arith)
        requires col < g.columns;
    Some((col * g.column_width, line))
}

} // verus!
