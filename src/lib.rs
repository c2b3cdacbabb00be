//! Minesweeper boards: parsing a text grid, counting the mines around each
//! cell, and rendering the solved board back to text.

pub mod buscaminas;
pub mod celda;
pub mod lectura;
pub mod resolucion;
pub mod texto;

pub use buscaminas::{resolver_buscaminas, Buscaminas};
pub use celda::{es_una_mina, incrementar_casilla, CERO, MINA, SALTO, VACIO};
pub use lectura::{armar_buscaminas, ErrorBuscaminas};
pub use resolucion::{buscar_minas_adyacentes, incrementar_adyacentes};
pub use texto::{tablero_a_texto, ESPACIO};
