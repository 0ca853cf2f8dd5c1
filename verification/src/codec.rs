//! Codes and the cells they name: a code holds one symbol for each level of
//! subdivision, the symbol at the `(row, col)` that was chosen on that level.

use vstd::prelude::*;
use crate::error::Error;
use crate::grid::{
    in_grid, is_symbol, lemma_lookup_inverse, lookup_grid, lookup_spec, symbol_at, symbol_spec,
};
use crate::grouping::{
    group_code, group_spec, lemma_strip_clean, lemma_strip_group, strip_separators, strip_spec,
    SEPARATOR,
};

verus! {

/// Whether every cell of `cells` names a place of the grid.
pub open spec fn valid_cells(cells: Seq<(usize, usize)>) -> bool {
    forall|i: int| 0 <= i < cells.len() ==> in_grid((#[trigger] cells[i]).0 as int, cells[i].1 as int)
}

/// The symbols of `cells`, one for each cell, in order.
pub open spec fn symbols_spec(cells: Seq<(usize, usize)>) -> Seq<char> {
    Seq::new(cells.len(), |i: int| symbol_spec(cells[i].0 as int, cells[i].1 as int))
}

/// The code of `cells`: their symbols, grouped for display.
pub open spec fn encode_spec(cells: Seq<(usize, usize)>) -> Seq<char> {
    group_spec(symbols_spec(cells))
}

/// Whether every character of `symbols` stands in the grid.
pub open spec fn all_symbols(symbols: Seq<char>) -> bool {
    forall|i: int| 0 <= i < symbols.len() ==> is_symbol(#[trigger] symbols[i])
}

/// Whether `k` is the place of the first character of `symbols` that does not
/// stand in the grid.
pub open spec fn is_first_invalid(symbols: Seq<char>, k: int) -> bool {
    &&& 0 <= k < symbols.len()
    &&& !is_symbol(symbols[k])
    &&& forall|j: int| 0 <= j < k ==> is_symbol(#[trigger] symbols[j])
}

/// The place of the first character of `symbols` that does not stand in the
/// grid, where there is one.
pub open spec fn first_invalid(symbols: Seq<char>) -> int {
    choose|k: int| is_first_invalid(symbols, k)
}

/// The cells that `symbols` name, one for each symbol, in order.
pub open spec fn cells_spec(symbols: Seq<char>) -> Seq<(usize, usize)> {
    Seq::new(symbols.len(), |i: int| lookup_spec(symbols[i])->0)
}

/// What decoding `code` gives: separators carry nothing and are dropped; a code
/// without symbols is invalid; the first character that is no symbol is
/// reported; otherwise the cells that the symbols name.
pub open spec fn decode_spec(code: Seq<char>) -> Result<Seq<(usize, usize)>, Error> {
    let symbols = strip_spec(code);
    if symbols.len() == 0 {
        Err(Error::InvalidPin)
    } else if all_symbols(symbols) {
        Ok(cells_spec(symbols))
    } else {
        Err(Error::InvalidChar(symbols[first_invalid(symbols)]))
    }
}

/// The code of a path of cells, largest cell first: the symbol of each cell,
/// grouped for display.
pub fn digipin_from_cells(cells: &[(usize, usize)]) -> (code: String)
    requires
        valid_cells(cells@),
    ensures
        code@ == encode_spec(cells@),
{
    let mut raw = String::new();
    let mut i: usize = 0;
    while i < cells.len()
        invariant
            i <= cells.len(),
            valid_cells(cells@),
            raw@ == symbols_spec(cells@.take(i as int)),
        decreases cells.len() - i,
    {
        let (row, col) = cells[i];
        raw.push(symbol_at(row, col));
        i += 1;
        assert(raw@ =~= symbols_spec(cells@.take(i as int)));
    }
    assert(cells@.take(i as int) =~= cells@);
    group_code(raw.as_str())
}

/// The path of cells that a code names, largest cell first. Separators may
/// stand anywhere in the code, or nowhere.
pub fn cells_from_digipin(digipin: &str) -> (decoded: Result<Vec<(usize, usize)>, Error>)
    ensures
        match decoded {
            Ok(cells) => decode_spec(digipin@) == Ok::<Seq<(usize, usize)>, Error>(cells@),
            Err(e) => decode_spec(digipin@) == Err::<Seq<(usize, usize)>, Error>(e),
        },
        decoded is Ok <==> strip_spec(digipin@).len() > 0 && all_symbols(strip_spec(digipin@)),
        decoded matches Ok(cells) ==> valid_cells(cells@) && symbols_spec(cells@) == strip_spec(
            digipin@,
        ),
        (decoded matches Err(Error::InvalidPin)) <==> strip_spec(digipin@).len() == 0,
        (decoded matches Err(Error::InvalidChar(_))) <==> !all_symbols(strip_spec(digipin@)),
        decoded matches Err(Error::InvalidChar(ch)) ==> !is_symbol(ch) && strip_spec(
            digipin@,
        ).contains(ch),
{
    proof {
        lemma_decode_cases(digipin@);
    }
    let pin = strip_separators(digipin);
    if pin.as_str().is_empty() {
        return Err(Error::InvalidPin);
    }
    let mut cells: Vec<(usize, usize)> = Vec::new();
    for ch in it: pin.as_str().chars()
        invariant
            it.seq() == pin@,
            pin@ == strip_spec(digipin@),
            pin@.len() > 0,
            cells@.len() == it.index(),
            forall|j: int| 0 <= j < it.index() ==> is_symbol(#[trigger] pin@[j]),
            forall|j: int| 0 <= j < it.index() ==> cells@[j] == lookup_spec(#[trigger] pin@[j])->0,
    {
        match lookup_grid(ch) {
            Some(cell) => {
                cells.push(cell);
            },
            None => {
                proof {
                    assert(is_first_invalid(pin@, it.index()));
                }
                return Err(Error::InvalidChar(ch));
            },
        }
    }
    assert(cells@ =~= cells_spec(pin@));
    Ok(cells)
}

/// The separator is no symbol of the grid, so no code is ambiguous.
pub proof fn lemma_separator_is_no_symbol()
    ensures
        !is_symbol(SEPARATOR),
{
    assert forall|row: int, col: int| in_grid(row, col) implies #[trigger] symbol_spec(row, col)
        != SEPARATOR by {}
}

/// The outcomes of decoding, case by case: a code without symbols is invalid,
/// and only such a code; a character that is no symbol is reported, and it is
/// one of the code; cells come out when there are symbols and nothing else, one
/// cell of the grid for each symbol.
pub proof fn lemma_decode_cases(code: Seq<char>)
    ensures
        decode_spec(code) == Err::<Seq<(usize, usize)>, Error>(Error::InvalidPin) <==> strip_spec(
            code,
        ).len() == 0,
        (decode_spec(code) matches Err(Error::InvalidChar(_))) <==> !all_symbols(strip_spec(code)),
        decode_spec(code) matches Err(Error::InvalidChar(ch)) ==> !is_symbol(ch) && strip_spec(
            code,
        ).contains(ch),
        decode_spec(code) is Ok <==> strip_spec(code).len() > 0 && all_symbols(strip_spec(code)),
        decode_spec(code) matches Ok(cells) ==> valid_cells(cells) && symbols_spec(cells)
            == strip_spec(code),
        decode_spec(code) != Err::<Seq<(usize, usize)>, Error>(Error::NonFiniteInput),
{
    let symbols = strip_spec(code);
    if symbols.len() > 0 && !all_symbols(symbols) {
        let bad = choose|i: int| 0 <= i < symbols.len() && !is_symbol(symbols[i]);
        lemma_first_invalid_exists(symbols, bad);
    }
    if symbols.len() > 0 && all_symbols(symbols) {
        lemma_cells_of_symbols(symbols);
    }
}

/// Where some character is no symbol, there is a first one.
proof fn lemma_first_invalid_exists(symbols: Seq<char>, bad: int)
    requires
        0 <= bad < symbols.len(),
        !is_symbol(symbols[bad]),
    ensures
        is_first_invalid(symbols, first_invalid(symbols)),
    decreases bad,
{
    if forall|j: int| 0 <= j < bad ==> is_symbol(#[trigger] symbols[j]) {
        assert(is_first_invalid(symbols, bad));
    } else {
        let earlier = choose|j: int| 0 <= j < bad && !is_symbol(#[trigger] symbols[j]);
        lemma_first_invalid_exists(symbols, earlier);
    }
}

/// The cells that symbols name are cells of the grid, and their symbols are
/// those symbols.
proof fn lemma_cells_of_symbols(symbols: Seq<char>)
    requires
        all_symbols(symbols),
    ensures
        valid_cells(cells_spec(symbols)),
        symbols_spec(cells_spec(symbols)) == symbols,
{
    let cells = cells_spec(symbols);
    assert forall|i: int| 0 <= i < symbols.len() implies in_grid(
        (#[trigger] cells[i]).0 as int,
        cells[i].1 as int,
    ) && symbol_spec(cells[i].0 as int, cells[i].1 as int) == symbols[i] by {
        assert(is_symbol(symbols[i]));
        lemma_lookup_inverse(symbols[i], cells[i].0, cells[i].1);
    }
    assert(symbols_spec(cells) =~= symbols);
}

/// Decoding undoes encoding: the code of a path of one or more cells of the grid
/// names that path again.
pub proof fn lemma_decode_encode(cells: Seq<(usize, usize)>)
    requires
        cells.len() > 0,
        valid_cells(cells),
    ensures
        decode_spec(encode_spec(cells)) == Ok::<Seq<(usize, usize)>, Error>(cells),
{
    let symbols = symbols_spec(cells);
    lemma_separator_is_no_symbol();
    assert forall|i: int| 0 <= i < symbols.len() implies is_symbol(#[trigger] symbols[i])
        && symbols[i] != SEPARATOR by {
        assert(in_grid(cells[i].0 as int, cells[i].1 as int));
    }
    lemma_strip_group(symbols);
    lemma_strip_clean(symbols);
    assert forall|i: int| 0 <= i < cells.len() implies cells_spec(symbols)[i] == cells[i] by {
        assert(in_grid(cells[i].0 as int, cells[i].1 as int));
        lemma_lookup_inverse(symbols[i], cells[i].0, cells[i].1);
    }
    assert(cells_spec(symbols) =~= cells);
}

/// Encoding undoes decoding up to the grouping: the code of the cells that a
/// code names holds the symbols of that code, grouped anew.
pub proof fn lemma_encode_decode(code: Seq<char>)
    requires
        decode_spec(code) is Ok,
    ensures
        encode_spec(decode_spec(code)->Ok_0) == group_spec(strip_spec(code)),
{
    lemma_decode_cases(code);
}

/// A code decodes alike grouped and ungrouped.
pub proof fn lemma_decode_grouped(raw: Seq<char>)
    ensures
        decode_spec(group_spec(raw)) == decode_spec(raw),
{
    lemma_strip_group(raw);
}

/// Separators carry nothing: two codes with the same symbols in the same order
/// decode alike, wherever their separators stand.
pub proof fn lemma_decode_ignores_separators(code1: Seq<char>, code2: Seq<char>)
    requires
        strip_spec(code1) == strip_spec(code2),
    ensures
        decode_spec(code1) == decode_spec(code2),
{
}

} // verus!
