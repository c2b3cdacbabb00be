//! Solving a board: every non-mine cell comes to show how many mines stand
//! in the eight cells around it.

use vstd::prelude::*;

use crate::celda::{
    celda_valida, es_cuenta, es_una_mina, glifo, incrementar_casilla, valor, vista, MINA, VACIO,
};

verus! {

/// Whether `(f, c)` is a cell of the board. Rows may differ in length, so
/// the column is bounded by the row's own length.
pub open spec fn en_tablero(g: Seq<Seq<u8>>, f: int, c: int) -> bool {
    0 <= f < g.len() && 0 <= c < g[f].len()
}

/// Whether `(f, c)` lies in the three-by-three square centred on `(r, k)`.
pub open spec fn cerca(f: int, c: int, r: int, k: int) -> bool {
    r - 1 <= f <= r + 1 && k - 1 <= c <= k + 1
}

/// One if a mine stands at `(f, c)`, zero if not or if there is no such cell.
pub open spec fn mina_en(g: Seq<Seq<u8>>, f: int, c: int) -> nat {
    if en_tablero(g, f, c) && g[f][c] == MINA {
        1
    } else {
        0
    }
}

/// The number of mines among the eight cells around `(f, c)` that exist.
pub open spec fn minas_vecinas(g: Seq<Seq<u8>>, f: int, c: int) -> nat {
    mina_en(g, f - 1, c - 1) + mina_en(g, f - 1, c) + mina_en(g, f - 1, c + 1)
        + mina_en(g, f, c - 1) + mina_en(g, f, c + 1)
        + mina_en(g, f + 1, c - 1) + mina_en(g, f + 1, c) + mina_en(g, f + 1, c + 1)
}

/// Whether `(f, c)` comes before `(r, k)` in row-major order.
pub open spec fn antes_de(f: int, c: int, r: int, k: int) -> bool {
    f < r || (f == r && c < k)
}

/// `mina_en`, counting only cells that come before `(r, k)`.
pub open spec fn mina_previa(g: Seq<Seq<u8>>, f: int, c: int, r: int, k: int) -> nat {
    if antes_de(f, c, r, k) {
        mina_en(g, f, c)
    } else {
        0
    }
}

/// The mines around `(f, c)` that come before `(r, k)` in row-major order.
pub open spec fn minas_previas(g: Seq<Seq<u8>>, f: int, c: int, r: int, k: int) -> nat {
    mina_previa(g, f - 1, c - 1, r, k) + mina_previa(g, f - 1, c, r, k)
        + mina_previa(g, f - 1, c + 1, r, k) + mina_previa(g, f, c - 1, r, k)
        + mina_previa(g, f, c + 1, r, k) + mina_previa(g, f + 1, c - 1, r, k)
        + mina_previa(g, f + 1, c, r, k) + mina_previa(g, f + 1, c + 1, r, k)
}

/// Two boards with the same rows, each of the same length.
pub open spec fn misma_forma(a: Seq<Seq<u8>>, b: Seq<Seq<u8>>) -> bool {
    a.len() == b.len() && forall|f: int| 0 <= f < a.len() ==> #[trigger] a[f].len() == b[f].len()
}

/// A board of mines and empty cells only, as read from text.
pub open spec fn sin_resolver(g: Seq<Seq<u8>>) -> bool {
    forall|f: int, c: int| en_tablero(g, f, c) ==> #[trigger] g[f][c] == MINA || g[f][c] == VACIO
}

/// The cell `(f, c)` of `g` after one more mine is counted around `(r, k)`.
pub open spec fn incrementada(g: Seq<Seq<u8>>, f: int, c: int, r: int, k: int) -> u8 {
    if cerca(f, c, r, k) && g[f][c] != MINA {
        glifo(valor(g[f][c]) + 1)
    } else {
        g[f][c]
    }
}

/// `despues` is `antes` solved: the mines stay, and every other cell shows
/// the number of mines around it in `antes`.
pub open spec fn resuelto(antes: Seq<Seq<u8>>, despues: Seq<Seq<u8>>) -> bool {
    &&& misma_forma(antes, despues)
    &&& forall|f: int, c: int| #[trigger]
        en_tablero(despues, f, c) ==> despues[f][c] == if antes[f][c] == MINA {
            MINA
        } else {
            glifo(minas_vecinas(antes, f, c))
        }
}

/// Counts one more mine in every non-mine cell of the square around
/// `(fila, columna)`. Cells outside the board are left out: each row is
/// bounded by its own length.
#[verifier::loop_isolation(false)]
pub fn incrementar_adyacentes(buscaminas: &mut Vec<Vec<u8>>, fila: usize, columna: usize)
    requires
        en_tablero(vista(old(buscaminas)), fila as int, columna as int),
        forall|f: int, c: int|
            en_tablero(vista(old(buscaminas)), f, c) && cerca(f, c, fila as int, columna as int)
                ==> celda_valida(#[trigger] vista(old(buscaminas))[f][c]),
    ensures
        misma_forma(vista(old(buscaminas)), vista(final(buscaminas))),
        forall|f: int, c: int| #[trigger]
            en_tablero(vista(final(buscaminas)), f, c) ==> vista(final(buscaminas))[f][c]
                == incrementada(vista(old(buscaminas)), f, c, fila as int, columna as int),
{
    let ghost g0 = vista(buscaminas);
    assert(g0.len() == buscaminas.len() && g0[fila as int] == buscaminas[fila as int]@);
    let fila_desde: usize = if fila == 0 { 0 } else { fila - 1 };
    let fila_hasta: usize = if fila + 1 < buscaminas.len() { fila + 2 } else { buscaminas.len() };
    let columna_desde: usize = if columna == 0 { 0 } else { columna - 1 };
    for f in fila_desde..fila_hasta
        invariant
            buscaminas.len() == g0.len(),
            misma_forma(g0, vista(buscaminas)),
            forall|f2: int, c2: int| #[trigger]
                en_tablero(vista(buscaminas), f2, c2) ==> vista(buscaminas)[f2][c2] == if f2
                    < f {
                    incrementada(g0, f2, c2, fila as int, columna as int)
                } else {
                    g0[f2][c2]
                },
    {
        let largo = buscaminas[f].len();
        let columna_hasta: usize = if largo > columna && largo - columna >= 2 {
            columna + 2
        } else {
            largo
        };
        let mut c: usize = columna_desde;
        while c < columna_hasta
            invariant
                columna_desde <= c,
                c <= columna_hasta || c == columna_desde,
                f < buscaminas.len(),
                largo == buscaminas[f as int].len(),
                fila_desde <= f < fila_hasta,
                misma_forma(g0, vista(buscaminas)),
                forall|f2: int, c2: int| #[trigger]
                    en_tablero(vista(buscaminas), f2, c2) ==> vista(buscaminas)[f2][c2] == if f2
                        < f || (f2 == f && c2 < c) {
                        incrementada(g0, f2, c2, fila as int, columna as int)
                    } else {
                        g0[f2][c2]
                    },
            decreases columna_hasta - c,
        {
            let ghost g1 = vista(buscaminas);
            assert(en_tablero(g1, f as int, c as int));
            if !es_una_mina(&buscaminas[f][c]) {
                incrementar_casilla(&mut buscaminas[f][c]);
            }
            assert forall|f2: int, c2: int| #[trigger]
                en_tablero(vista(buscaminas), f2, c2) implies vista(buscaminas)[f2][c2] == if f2
                    < f || (f2 == f && c2 < c + 1) {
                    incrementada(g0, f2, c2, fila as int, columna as int)
                } else {
                    g0[f2][c2]
                } by {
                assert(en_tablero(g1, f2, c2));
            }
            c = c + 1;
        }
    }
}

/// The solved form of a board: the mines stay, and every other cell shows
/// the number of mines around it.
pub open spec fn solucion(g: Seq<Seq<u8>>) -> Seq<Seq<u8>> {
    Seq::new(
        g.len(),
        |f: int|
            Seq::new(
                g[f].len(),
                |c: int|
                    if g[f][c] == MINA {
                        MINA
                    } else {
                        glifo(minas_vecinas(g, f, c))
                    },
            ),
    )
}

/// A board solves to one result only, `solucion`.
pub proof fn lema_resuelto_es_solucion(antes: Seq<Seq<u8>>, despues: Seq<Seq<u8>>)
    requires
        resuelto(antes, despues),
    ensures
        despues == solucion(antes),
{
    assert forall|f: int| 0 <= f < despues.len() implies #[trigger] despues[f] =~= solucion(
        antes,
    )[f] by {
        assert forall|c: int| 0 <= c < despues[f].len() implies despues[f][c] == solucion(
            antes,
        )[f][c] by {
            assert(en_tablero(despues, f, c));
        }
    }
    assert(despues =~= solucion(antes));
}

/// Every cell of `g` shows what `g0` gives it once the mines before
/// `(r, k)` in row-major order have been counted.
pub open spec fn contado_hasta(g0: Seq<Seq<u8>>, g: Seq<Seq<u8>>, r: int, k: int) -> bool {
    &&& misma_forma(g0, g)
    &&& forall|f: int, c: int| #[trigger]
        en_tablero(g, f, c) ==> g[f][c] == if g0[f][c] == MINA {
            MINA
        } else {
            glifo(minas_previas(g0, f, c, r, k))
        }
}

/// A count of at most eight is shown by a non-mine byte that reads back as
/// the same count.
proof fn lema_glifo(n: nat)
    requires
        n <= 8,
    ensures
        es_cuenta(glifo(n)),
        valor(glifo(n)) == n,
        glifo(n) != MINA,
{
}

/// Counting the cell `(r, k)` adds its mine, if it has one, to the cells
/// around it and to no other.
proof fn lema_paso(g0: Seq<Seq<u8>>, f: int, c: int, r: int, k: int)
    requires
        en_tablero(g0, r, k),
    ensures
        minas_previas(g0, f, c, r, k + 1) == minas_previas(g0, f, c, r, k) + if cerca(f, c, r, k)
            && !(f == r && c == k) && g0[r][k] == MINA {
            1nat
        } else {
            0nat
        },
        cerca(f, c, r, k) && !(f == r && c == k) ==> minas_previas(g0, f, c, r, k) <= 7,
{
}

/// Past the last cell of a row, counting goes on at the start of the next.
proof fn lema_fin_de_fila(g0: Seq<Seq<u8>>, f: int, c: int, r: int)
    requires
        0 <= r < g0.len(),
    ensures
        minas_previas(g0, f, c, r, g0[r].len() as int) == minas_previas(g0, f, c, r + 1, 0),
{
}

/// Past the last row, every mine has been counted.
proof fn lema_fin_de_tablero(g0: Seq<Seq<u8>>, f: int, c: int)
    ensures
        minas_previas(g0, f, c, g0.len() as int, 0) == minas_vecinas(g0, f, c),
{
}

/// Solves a board read from text: the mines stay, and every other cell
/// comes to show the number of mines around it, the empty glyph for none.
/// The cells are visited in row-major order, and each mine found adds one
/// to the non-mine cells around it.
pub fn buscar_minas_adyacentes(buscaminas: &mut Vec<Vec<u8>>)
    requires
        sin_resolver(vista(old(buscaminas))),
    ensures
        resuelto(vista(old(buscaminas)), vista(final(buscaminas))),
{
    let ghost g0 = vista(buscaminas);
    let filas = buscaminas.len();
    for fila in 0..filas
        invariant
            filas == buscaminas.len(),
            sin_resolver(g0),
            contado_hasta(g0, vista(buscaminas), fila as int, 0),
    {
        let largo = buscaminas[fila].len();
        assert(largo == g0[fila as int].len());
        for columna in 0..largo
            invariant
                filas == buscaminas.len(),
                fila < filas,
                largo == g0[fila as int].len(),
                sin_resolver(g0),
                contado_hasta(g0, vista(buscaminas), fila as int, columna as int),
        {
            let ghost g1 = vista(buscaminas);
            assert(en_tablero(g1, fila as int, columna as int));
            if es_una_mina(&buscaminas[fila][columna]) {
                assert forall|f: int, c: int|
                    en_tablero(g1, f, c) && cerca(f, c, fila as int, columna as int) implies celda_valida(
                    #[trigger] g1[f][c],
                ) by {
                    if g0[f][c] != MINA {
                        lema_paso(g0, f, c, fila as int, columna as int);
                        lema_glifo(minas_previas(g0, f, c, fila as int, columna as int));
                    }
                }
                incrementar_adyacentes(buscaminas, fila, columna);
            }
            assert forall|f: int, c: int| #[trigger]
                en_tablero(vista(buscaminas), f, c) implies vista(buscaminas)[f][c] == if g0[f][c]
                == MINA {
                MINA
            } else {
                glifo(minas_previas(g0, f, c, fila as int, columna + 1))
            } by {
                assert(en_tablero(g1, f, c));
                if g0[f][c] != MINA {
                    lema_paso(g0, f, c, fila as int, columna as int);
                    lema_glifo(minas_previas(g0, f, c, fila as int, columna as int));
                }
            }
        }
        assert forall|f: int, c: int| #[trigger]
            en_tablero(vista(buscaminas), f, c) implies vista(buscaminas)[f][c] == if g0[f][c]
            == MINA {
            MINA
        } else {
            glifo(minas_previas(g0, f, c, fila + 1, 0))
        } by {
            lema_fin_de_fila(g0, f, c, fila as int);
        }
    }
    assert forall|f: int, c: int| #[trigger]
        en_tablero(vista(buscaminas), f, c) implies vista(buscaminas)[f][c] == if g0[f][c]
        == MINA {
        MINA
    } else {
        glifo(minas_vecinas(g0, f, c))
    } by {
        lema_fin_de_tablero(g0, f, c);
    }
}

} // verus!
