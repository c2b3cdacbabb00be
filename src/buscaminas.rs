//! A minesweeper board that is read from text once, solved once and written
//! back as text.

use vstd::prelude::*;

use crate::celda::vista;
use crate::lectura::{
    armar_buscaminas, dividir, lema_dividir_glifos, primer_error, todo_aceptado, ErrorBuscaminas,
};
use crate::resolucion::{
    buscar_minas_adyacentes, lema_resuelto_es_solucion, resuelto, sin_resolver, solucion,
};
use crate::texto::{tablero_a_texto, texto};

verus! {

use vstd::string::StringSliceAdditionalSpecFns;

/// A board: rows of cells, each the byte that renders it. Rows may differ in
/// length.
#[derive(Debug)]
pub struct Buscaminas {
    tablero: Vec<Vec<u8>>,
}

impl View for Buscaminas {
    type V = Seq<Seq<u8>>;

    closed spec fn view(&self) -> Seq<Seq<u8>> {
        vista(&self.tablero)
    }
}

impl Buscaminas {
    /// Reads a board from its text, one row per line. The first byte that
    /// is neither `*`, `.` nor a line feed gives an error with its place.
    pub fn desde_texto(entrada: &str) -> (r: Result<Buscaminas, ErrorBuscaminas>)
        ensures
            r is Ok <==> todo_aceptado(entrada.spec_bytes()),
            r matches Ok(b) ==> b@ == dividir(entrada.spec_bytes()) && sin_resolver(b@),
            r matches Err(e) ==> primer_error(entrada.spec_bytes(), e),
    {
        let bytes = entrada.as_bytes();
        match armar_buscaminas(bytes) {
            Ok(tablero) => {
                proof {
                    lema_dividir_glifos(bytes@);
                }
                Ok(Buscaminas { tablero })
            },
            Err(e) => Err(e),
        }
    }

    /// The rows of the board.
    pub fn tablero(&self) -> (r: &Vec<Vec<u8>>)
        ensures
            vista(r) == self@,
    {
        &self.tablero
    }

    /// Solves the board in place: the mines stay, and every other cell comes
    /// to show the number of mines around it, the empty glyph for none. A
    /// board is solved once, as read from text.
    pub fn resolver(&mut self)
        requires
            sin_resolver(old(self)@),
        ensures
            resuelto(old(self)@, final(self)@),
            final(self)@ == solucion(old(self)@),
    {
        buscar_minas_adyacentes(&mut self.tablero);
        proof {
            lema_resuelto_es_solucion(old(self)@, self@);
        }
    }

    /// The board as text: one line per row, a space between the cells of a
    /// row, a line feed after every row.
    pub fn a_texto(&self) -> (r: Vec<u8>)
        ensures
            r@ == texto(self@),
    {
        tablero_a_texto(&self.tablero)
    }
}

/// Reads a board from text, solves it and writes the solved board as text;
/// the first byte that is neither `*`, `.` nor a line feed gives an error
/// instead.
pub fn resolver_buscaminas(entrada: &[u8]) -> (r: Result<Vec<u8>, ErrorBuscaminas>)
    ensures
        r is Ok <==> todo_aceptado(entrada@),
        r matches Ok(t) ==> t@ == texto(solucion(dividir(entrada@))),
        r matches Err(e) ==> primer_error(entrada@, e),
{
    match armar_buscaminas(entrada) {
        Ok(mut tablero) => {
            proof {
                lema_dividir_glifos(entrada@);
            }
            let ghost leido = vista(&tablero);
            buscar_minas_adyacentes(&mut tablero);
            proof {
                lema_resuelto_es_solucion(leido, vista(&tablero));
            }
            Ok(tablero_a_texto(&tablero))
        },
        Err(e) => Err(e),
    }
}

} // verus!
