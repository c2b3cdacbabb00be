//! Writing a board as text: one line per row, the cells of a row separated
//! by a single space, every line ended by a line feed.

use vstd::prelude::*;

use crate::celda::{vista, CERO, MINA, SALTO, VACIO};
use crate::resolucion::{en_tablero, minas_vecinas, sin_resolver, solucion};

verus! {

/// The space that separates the cells of a row.
pub const ESPACIO: u8 = 32;

/// The cells of a row, a space between each two.
pub open spec fn linea(fila: Seq<u8>) -> Seq<u8>
    decreases fila.len(),
{
    if fila.len() == 0 {
        Seq::empty()
    } else if fila.len() == 1 {
        seq![fila[0]]
    } else {
        linea(fila.drop_last()) + seq![ESPACIO, fila.last()]
    }
}

/// The rows of a board, each written as a line and ended by a line feed.
pub open spec fn texto(g: Seq<Seq<u8>>) -> Seq<u8>
    decreases g.len(),
{
    if g.len() == 0 {
        Seq::empty()
    } else {
        texto(g.drop_last()) + linea(g.last()) + seq![SALTO]
    }
}

/// A row with no zero digit is written with none.
proof fn lema_linea_sin_ceros(fila: Seq<u8>)
    requires
        forall|c: int| 0 <= c < fila.len() ==> #[trigger] fila[c] != CERO,
    ensures
        forall|i: int| 0 <= i < linea(fila).len() ==> #[trigger] linea(fila)[i] != CERO,
    decreases fila.len(),
{
    if fila.len() > 1 {
        let previa = fila.drop_last();
        assert forall|c: int| 0 <= c < previa.len() implies #[trigger] previa[c] != CERO by {
            assert(previa[c] == fila[c]);
        }
        lema_linea_sin_ceros(previa);
        let cola = seq![ESPACIO, fila.last()];
        assert forall|i: int| 0 <= i < linea(fila).len() implies #[trigger] linea(fila)[i]
            != CERO by {
            if i >= linea(previa).len() {
                assert(linea(fila)[i] == cola[i - linea(previa).len()]);
            }
        }
    }
}

/// A board with no zero digit is written with none.
proof fn lema_texto_sin_ceros(g: Seq<Seq<u8>>)
    requires
        forall|f: int, c: int| en_tablero(g, f, c) ==> #[trigger] g[f][c] != CERO,
    ensures
        forall|i: int| 0 <= i < texto(g).len() ==> #[trigger] texto(g)[i] != CERO,
    decreases g.len(),
{
    if g.len() > 0 {
        let previas = g.drop_last();
        assert forall|f: int, c: int| en_tablero(previas, f, c) implies #[trigger] previas[f][c]
            != CERO by {
            assert(en_tablero(g, f, c));
        }
        lema_texto_sin_ceros(previas);
        let ultima = g.last();
        assert forall|c: int| 0 <= c < ultima.len() implies #[trigger] ultima[c] != CERO by {
            assert(en_tablero(g, g.len() - 1, c));
        }
        lema_linea_sin_ceros(ultima);
        let cabeza = texto(previas) + linea(ultima);
        assert forall|i: int| 0 <= i < texto(g).len() implies #[trigger] texto(g)[i] != CERO by {
            if i < texto(previas).len() {
                assert(texto(g)[i] == texto(previas)[i]);
            } else if i < cabeza.len() {
                assert(texto(g)[i] == linea(ultima)[i - texto(previas).len()]);
            }
        }
    }
}

/// A solved board shows no `0`: a cell with no mine around it keeps the
/// empty glyph, in the board and in its text.
pub proof fn ley_cero_es_vacio(g: Seq<Seq<u8>>)
    requires
        sin_resolver(g),
    ensures
        forall|f: int, c: int|
            en_tablero(g, f, c) && g[f][c] != MINA && minas_vecinas(g, f, c) == 0
                ==> #[trigger] solucion(g)[f][c] == VACIO,
        forall|i: int| 0 <= i < texto(solucion(g)).len() ==> #[trigger] texto(solucion(g))[i] != CERO,
{
    let r = solucion(g);
    assert forall|f: int, c: int| en_tablero(r, f, c) implies #[trigger] r[f][c] != CERO by {
        assert(en_tablero(g, f, c));
    }
    lema_texto_sin_ceros(r);
}

/// Writes the board as text: each cell as its byte, a space between the
/// cells of a row, a line feed after every row, the last one included.
pub fn tablero_a_texto(tablero: &Vec<Vec<u8>>) -> (r: Vec<u8>)
    ensures
        r@ == texto(vista(tablero)),
{
    let ghost g = vista(tablero);
    let mut salida: Vec<u8> = Vec::new();
    assert(g.take(0).len() == 0);
    for i in 0..tablero.len()
        invariant
            g == vista(tablero),
            salida@ == texto(g.take(i as int)),
    {
        let fila = &tablero[i];
        let ghost inicio = salida@;
        assert(fila@ == g[i as int]);
        for j in 0..fila.len()
            invariant
                fila@ == g[i as int],
                salida@ == inicio + linea(fila@.take(j as int)),
        {
            assert(fila@.take(j + 1).drop_last() =~= fila@.take(j as int));
            if j > 0 {
                salida.push(ESPACIO);
            }
            salida.push(fila[j]);
            assert(salida@ =~= inicio + linea(fila@.take(j + 1)));
        }
        assert(fila@.take(fila@.len() as int) =~= fila@);
        salida.push(SALTO);
        assert(g.take(i + 1).drop_last() =~= g.take(i as int));
        assert(salida@ =~= texto(g.take(i + 1)));
    }
    assert(g.take(g.len() as int) =~= g);
    salida
}

} // verus!
