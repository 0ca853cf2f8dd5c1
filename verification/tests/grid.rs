use global_digital_address::{lookup_grid, symbol_at, DIGIPIN_GRID};

#[test]
fn grid_holds_the_documented_symbols() {
    let rows = ["IABCDE", "GHJKLM", "NPQRST", "UrWXYZ", "ab9dVF", "234567"];
    for (r, row) in rows.iter().enumerate() {
        let symbols: Vec<char> = row.chars().collect();
        assert_eq!(symbols.len(), 6);
        for c in 0..6 {
            assert_eq!(DIGIPIN_GRID[r][c], symbols[c]);
        }
    }
}

#[test]
fn grid_symbols_are_distinct() {
    let mut seen: Vec<char> = Vec::new();
    for row in DIGIPIN_GRID.iter() {
        for &sym in row.iter() {
            assert!(!seen.contains(&sym));
            seen.push(sym);
        }
    }
    assert_eq!(seen.len(), 36);
}

#[test]
fn symbol_at_reads_the_grid() {
    for r in 0..6 {
        for c in 0..6 {
            assert_eq!(symbol_at(r, c), DIGIPIN_GRID[r][c]);
        }
    }
    assert_eq!(symbol_at(0, 0), 'I');
    assert_eq!(symbol_at(0, 5), 'E');
    assert_eq!(symbol_at(3, 1), 'r');
    assert_eq!(symbol_at(5, 0), '2');
    assert_eq!(symbol_at(5, 5), '7');
}

#[test]
fn lookup_finds_every_symbol() {
    for r in 0..6 {
        for c in 0..6 {
            assert_eq!(lookup_grid(DIGIPIN_GRID[r][c]), Some((r, c)));
        }
    }
}

#[test]
fn lookup_gives_row_then_column() {
    assert_eq!(lookup_grid('I'), Some((0, 0)));
    assert_eq!(lookup_grid('E'), Some((0, 5)));
    assert_eq!(lookup_grid('G'), Some((1, 0)));
    assert_eq!(lookup_grid('9'), Some((4, 2)));
    assert_eq!(lookup_grid('2'), Some((5, 0)));
    assert_eq!(lookup_grid('7'), Some((5, 5)));
}

#[test]
fn lookup_tells_cases_apart() {
    assert_eq!(lookup_grid('r'), Some((3, 1)));
    assert_eq!(lookup_grid('R'), Some((2, 3)));
    assert_eq!(lookup_grid('a'), Some((4, 0)));
    assert_eq!(lookup_grid('A'), Some((0, 1)));
    assert_eq!(lookup_grid('i'), None);
    assert_eq!(lookup_grid('v'), None);
}

#[test]
fn lookup_rejects_what_is_not_in_the_grid() {
    for ch in ['-', '$', ' ', 'O', '0', '1', '8', 'c', 'e', 'f', '\u{e9}', '\n'] {
        assert_eq!(lookup_grid(ch), None);
    }
}
