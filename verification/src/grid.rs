//! The symbol table: a fixed 6x6 grid of characters.

use vstd::prelude::*;

verus! {

/// The symbol grid, rows from north to south, columns from west to east.
pub const DIGIPIN_GRID: [[char; 6]; 6] = [
    ['I', 'A', 'B', 'C', 'D', 'E'],
    ['G', 'H', 'J', 'K', 'L', 'M'],
    ['N', 'P', 'Q', 'R', 'S', 'T'],
    ['U', 'r', 'W', 'X', 'Y', 'Z'],
    ['a', 'b', '9', 'd', 'V', 'F'],
    ['2', '3', '4', '5', '6', '7'],
];

/// Whether `(row, col)` names a place of the grid.
pub open spec fn in_grid(row: int, col: int) -> bool {
    0 <= row < 6 && 0 <= col < 6
}

/// The symbol that stands at `(row, col)` of the grid.
pub open spec fn symbol_spec(row: int, col: int) -> char {
    DIGIPIN_GRID[row][col]
}

/// Whether `ch` stands somewhere in the grid.
pub open spec fn is_symbol(ch: char) -> bool {
    exists|row: int, col: int| in_grid(row, col) && #[trigger] symbol_spec(row, col) == ch
}

/// The place of `ch` in the grid, if it has one.
pub open spec fn lookup_spec(ch: char) -> Option<(usize, usize)> {
    if is_symbol(ch) {
        Some(
            choose|place: (usize, usize)|
                in_grid(place.0 as int, place.1 as int) && symbol_spec(
                    place.0 as int,
                    place.1 as int,
                ) == ch,
        )
    } else {
        None
    }
}

/// No symbol stands at two places of the grid.
pub proof fn lemma_symbols_distinct(row1: int, col1: int, row2: int, col2: int)
    requires
        in_grid(row1, col1),
        in_grid(row2, col2),
        symbol_spec(row1, col1) == symbol_spec(row2, col2),
    ensures
        row1 == row2,
        col1 == col2,
{
}

/// `lookup_spec` is the inverse of `symbol_spec`: it gives `(row, col)` for
/// `ch` exactly when `ch` stands at `(row, col)`.
pub proof fn lemma_lookup_inverse(ch: char, row: usize, col: usize)
    ensures
        lookup_spec(ch) == Some((row, col)) <==> in_grid(row as int, col as int) && symbol_spec(
            row as int,
            col as int,
        ) == ch,
        lookup_spec(ch) is Some <==> is_symbol(ch),
{
    if is_symbol(ch) {
        let (r, c) = choose|r: int, c: int| in_grid(r, c) && symbol_spec(r, c) == ch;
        let witness = (r as usize, c as usize);
        assert(in_grid(witness.0 as int, witness.1 as int) && symbol_spec(
            witness.0 as int,
            witness.1 as int,
        ) == ch);
        let place = lookup_spec(ch)->0;
        if in_grid(row as int, col as int) && symbol_spec(row as int, col as int) == ch {
            lemma_symbols_distinct(place.0 as int, place.1 as int, row as int, col as int);
        }
    }
}

/// The symbol at `(row, col)` of the grid.
pub fn symbol_at(row: usize, col: usize) -> (ch: char)
    requires
        row < 6,
        col < 6,
    ensures
        ch == symbol_spec(row as int, col as int),
{
    DIGIPIN_GRID[row][col]
}

/// The place of `ch` in the grid: `Some((row, col))` when `ch` is the symbol at
/// `(row, col)`, `None` when `ch` is no symbol of the grid.
pub fn lookup_grid(ch: char) -> (found: Option<(usize, usize)>)
    ensures
        found == lookup_spec(ch),
        found is Some <==> is_symbol(ch),
        found matches Some((row, col)) ==> in_grid(row as int, col as int) && symbol_spec(
            row as int,
            col as int,
        ) == ch,
{
    let mut row: usize = 0;
    while row < 6
        invariant
            row <= 6,
            forall|r: int, c: int| 0 <= r < row && 0 <= c < 6 ==> symbol_spec(r, c) != ch,
        decreases 6 - row,
    {
        let mut col: usize = 0;
        while col < 6
            invariant
                row < 6,
                col <= 6,
                forall|r: int, c: int| 0 <= r < row && 0 <= c < 6 ==> symbol_spec(r, c) != ch,
                forall|c: int| 0 <= c < col ==> symbol_spec(row as int, c) != ch,
            decreases 6 - col,
        {
            if DIGIPIN_GRID[row][col] == ch {
                proof {
                    lemma_lookup_inverse(ch, row, col);
                }
                return Some((row, col));
            }
            col += 1;
        }
        row += 1;
    }
    None
}

} // verus!
