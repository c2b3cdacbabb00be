//! A single cell of the board, stored as the byte that renders it: the mine
//! glyph, the empty glyph (no mine counted yet) or a decimal digit `1`..`8`.

use vstd::prelude::*;

verus! {

/// The byte that marks a mine, `*`.
pub const MINA: u8 = 42;

/// The byte of a cell with no adjacent mine counted, `.`.
pub const VACIO: u8 = 46;

/// The digit `0`, base of the counted cells.
pub const CERO: u8 = 48;

/// The line feed that separates the rows of a board in text.
pub const SALTO: u8 = 10;

/// A non-mine cell: empty, or holding a count from one to eight.
pub open spec fn es_cuenta(b: u8) -> bool {
    b == VACIO || (CERO + 1 <= b && b <= CERO + 8)
}

/// What may stand in a cell of a board.
pub open spec fn celda_valida(b: u8) -> bool {
    b == MINA || es_cuenta(b)
}

/// The number of mines a non-mine cell has counted.
pub open spec fn valor(b: u8) -> nat {
    if b == VACIO {
        0
    } else {
        (b - CERO) as nat
    }
}

/// The byte that shows a count: the empty glyph for zero, else its digit.
pub open spec fn glifo(n: nat) -> u8
    recommends
        n <= 9,
{
    if n == 0 {
        VACIO
    } else {
        (CERO + n) as u8
    }
}

/// A board as rows of cells.
pub open spec fn vista(t: &Vec<Vec<u8>>) -> Seq<Seq<u8>> {
    t@.map_values(|f: Vec<u8>| f@)
}

/// Whether the cell holds a mine.
pub fn es_una_mina(casilla: &u8) -> (r: bool)
    ensures
        r == (*casilla == MINA),
{
    *casilla == MINA
}

/// Counts one more adjacent mine in a non-mine cell: an empty cell becomes
/// `1`, a digit `n` becomes `n + 1`.
pub fn incrementar_casilla(casilla: &mut u8)
    requires
        es_cuenta(*old(casilla)),
    ensures
        *final(casilla) == glifo(valor(*old(casilla)) + 1),
{
    if *casilla == VACIO {
        *casilla = CERO;
    }
    *casilla = *casilla + 1;
}

} // verus!
