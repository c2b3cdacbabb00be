//! Reading a board from text: one row per line, `*` for a mine, `.` for an
//! empty cell.

use vstd::prelude::*;

use crate::celda::{vista, MINA, SALTO, VACIO};

verus! {

/// Why a text is not a board.
#[derive(Debug, Clone, Copy, PartialEq, Eq, Structural)]
pub enum ErrorBuscaminas {
    /// A byte that is neither a glyph nor a line feed, with its row and
    /// column (the number of glyphs before it on its line).
    CaracterInvalido { byte: u8, fila: usize, columna: usize },
}

/// A byte that a board's text may hold.
pub open spec fn byte_aceptado(b: u8) -> bool {
    b == MINA || b == VACIO || b == SALTO
}

/// A text made of glyphs and line feeds only.
pub open spec fn todo_aceptado(s: Seq<u8>) -> bool {
    forall|i: int| 0 <= i < s.len() ==> byte_aceptado(#[trigger] s[i])
}

/// `e` is the error for the first byte of `s` that is not accepted.
pub open spec fn primer_error(s: Seq<u8>, e: ErrorBuscaminas) -> bool {
    exists|i: int|
        0 <= i < s.len() && !byte_aceptado(#[trigger] s[i]) && todo_aceptado(s.take(i))
            && e == error_en(s, i)
}

/// The lines of a text, split at every line feed: a text with `k` line
/// feeds has `k + 1` lines, the last one empty when the text ends in a line
/// feed.
pub open spec fn dividir(s: Seq<u8>) -> Seq<Seq<u8>>
    decreases s.len(),
{
    if s.len() == 0 {
        seq![Seq::empty()]
    } else {
        let previas = dividir(s.drop_last());
        if s.last() == SALTO {
            previas.push(Seq::empty())
        } else {
            previas.update(previas.len() - 1, previas.last().push(s.last()))
        }
    }
}

/// A text splits into at least one line.
pub proof fn lema_dividir_no_vacio(s: Seq<u8>)
    ensures
        dividir(s).len() >= 1,
    decreases s.len(),
{
    if s.len() > 0 {
        lema_dividir_no_vacio(s.drop_last());
    }
}

/// A text of glyphs and line feeds splits into lines of glyphs alone.
pub proof fn lema_dividir_glifos(s: Seq<u8>)
    requires
        todo_aceptado(s),
    ensures
        forall|f: int, c: int|
            0 <= f < dividir(s).len() && 0 <= c < dividir(s)[f].len() ==> #[trigger] dividir(s)[f][c]
                == MINA || dividir(s)[f][c] == VACIO,
    decreases s.len(),
{
    lema_dividir_no_vacio(s);
    if s.len() > 0 {
        let previas = s.drop_last();
        assert forall|i: int| 0 <= i < previas.len() implies byte_aceptado(#[trigger] previas[i]) by {
            assert(previas[i] == s[i]);
        }
        lema_dividir_glifos(previas);
        lema_dividir_no_vacio(previas);
        assert(byte_aceptado(s[s.len() - 1]));
    }
}

/// The number of line feeds in a text.
pub open spec fn saltos(s: Seq<u8>) -> nat
    decreases s.len(),
{
    if s.len() == 0 {
        0
    } else {
        saltos(s.drop_last()) + if s.last() == SALTO {
            1nat
        } else {
            0nat
        }
    }
}

/// Lines joined back into a text, a line feed between each two.
pub open spec fn unir(lineas: Seq<Seq<u8>>) -> Seq<u8>
    decreases lineas.len(),
{
    if lineas.len() == 0 {
        Seq::empty()
    } else if lineas.len() == 1 {
        lineas[0]
    } else {
        unir(lineas.drop_last()) + seq![SALTO] + lineas.last()
    }
}

/// Splitting keeps the shape of the text: a text with `k` line feeds gives
/// `k + 1` lines, a trailing line feed included; no line holds a line feed;
/// and the lines joined with line feeds give back the text, so each line
/// holds exactly the bytes of its line of the text.
pub proof fn ley_forma_de_lectura(s: Seq<u8>)
    ensures
        dividir(s).len() == saltos(s) + 1,
        forall|f: int, c: int|
            0 <= f < dividir(s).len() && 0 <= c < dividir(s)[f].len() ==> #[trigger] dividir(s)[f][c]
                != SALTO,
        unir(dividir(s)) == s,
    decreases s.len(),
{
    if s.len() > 0 {
        let previo = s.drop_last();
        ley_forma_de_lectura(previo);
        lema_dividir_no_vacio(previo);
        let lineas = dividir(previo);
        if s.last() == SALTO {
            let nuevas = lineas.push(Seq::empty());
            assert(nuevas.drop_last() =~= lineas);
            assert(unir(nuevas) =~= s);
        } else {
            let nuevas = lineas.update(lineas.len() - 1, lineas.last().push(s.last()));
            if lineas.len() == 1 {
                assert(unir(nuevas) =~= s);
            } else {
                assert(nuevas.drop_last() =~= lineas.drop_last());
                assert(unir(lineas) == unir(lineas.drop_last()) + seq![SALTO] + lineas.last());
                assert(s =~= previo.push(s.last()));
                assert(unir(nuevas) =~= s);
            }
        }
    }
}

/// The row of the byte that follows the text `s`.
pub open spec fn fila_tras(s: Seq<u8>) -> int {
    dividir(s).len() - 1
}

/// The column of the byte that follows the text `s`.
pub open spec fn columna_tras(s: Seq<u8>) -> int {
    dividir(s).last().len() as int
}

/// The error for an invalid byte at index `i` of the text `s`.
pub open spec fn error_en(s: Seq<u8>, i: int) -> ErrorBuscaminas {
    ErrorBuscaminas::CaracterInvalido {
        byte: s[i],
        fila: fila_tras(s.take(i)) as usize,
        columna: columna_tras(s.take(i)) as usize,
    }
}

/// Builds the board that a text describes, one row per line. The first byte
/// that is neither `*`, `.` nor a line feed stops the reading with an error
/// that gives the byte and its place.
pub fn armar_buscaminas(entrada: &[u8]) -> (r: Result<Vec<Vec<u8>>, ErrorBuscaminas>)
    ensures
        r is Ok <==> todo_aceptado(entrada@),
        r matches Ok(t) ==> vista(&t) == dividir(entrada@),
        r matches Err(e) ==> primer_error(entrada@, e),
{
    let mut tablero: Vec<Vec<u8>> = Vec::new();
    tablero.push(Vec::new());
    let mut fila: usize = 0;
    let ghost s = entrada@;
    assert(s.take(0) =~= Seq::<u8>::empty());
    assert(vista(&tablero) =~~= dividir(s.take(0)));
    for i in 0..entrada.len()
        invariant
            s == entrada@,
            vista(&tablero) == dividir(s.take(i as int)),
            tablero.len() == fila + 1,
            fila <= i,
            forall|j: int| 0 <= j < i ==> byte_aceptado(#[trigger] s[j]),
    {
        let byte = entrada[i];
        assert(s.take(i + 1).drop_last() =~= s.take(i as int));
                if byte == SALTO {
            fila = fila + 1;
            tablero.push(Vec::new());
            assert(vista(&tablero) =~~= dividir(s.take(i + 1)));
        } else if byte == MINA || byte == VACIO {
            tablero[fila].push(byte);
            assert(vista(&tablero) =~~= dividir(s.take(i + 1)));
        } else {
            let columna = tablero[fila].len();
            assert(todo_aceptado(s.take(i as int)));
            return Err(ErrorBuscaminas::CaracterInvalido { byte, fila, columna });
        }
    }
    assert(s.take(s.len() as int) =~= s);
    Ok(tablero)
}

} // verus!
