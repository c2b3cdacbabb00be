use buscaminas::{
    armar_buscaminas, buscar_minas_adyacentes, incrementar_adyacentes, incrementar_casilla,
    Buscaminas, MINA, VACIO,
};

#[test]
fn arma_buscaminas_en_base_a_string() {
    let input = "*..\n..*\n.*.".to_string();
    let buscaminas = Buscaminas::desde_texto(&input).unwrap();
    let tablero = buscaminas.tablero();
    assert_eq!(tablero.len(), 3);
    assert_eq!(tablero[0].len(), 3);
    assert_eq!(tablero[0][0], MINA);
    assert_eq!(tablero[0][1], VACIO);
    assert_eq!(tablero[0][2], VACIO);
    assert_eq!(tablero[1][0], VACIO);
    assert_eq!(tablero[1][1], VACIO);
    assert_eq!(tablero[1][2], MINA);
    assert_eq!(tablero[2][0], VACIO);
    assert_eq!(tablero[2][1], MINA);
    assert_eq!(tablero[2][2], VACIO);
}

#[test]
#[should_panic]
fn buscaminas_falla_si_hay_un_caracter_invalido() {
    let input = "..*\n*.,".to_string();
    let _ = Buscaminas::desde_texto(&input).unwrap();
}

#[test]
fn resuelve_correctamente() {
    let input = "*..\n..*\n.*.".to_string();
    let mut buscaminas = Buscaminas::desde_texto(&input).unwrap();
    buscaminas.resolver();
    let tablero = buscaminas.tablero();
    assert_eq!(tablero[0][0], MINA);
    assert_eq!(tablero[0][1], b'2');
    assert_eq!(tablero[0][2], b'1');
    assert_eq!(tablero[1][0], b'2');
    assert_eq!(tablero[1][1], b'3');
    assert_eq!(tablero[1][2], MINA);
    assert_eq!(tablero[2][0], b'1');
    assert_eq!(tablero[2][1], MINA);
    assert_eq!(tablero[2][2], b'2');
}

#[test]
fn buscaminas_incrementa_adyacentes_correctamente() {
    let mut buscaminas = vec![
        vec![MINA, VACIO, VACIO],
        vec![VACIO, VACIO, MINA],
        vec![VACIO, MINA, VACIO],
    ];
    let fila = 2;
    let columna = 1;
    incrementar_adyacentes(&mut buscaminas, fila, columna);
    assert_eq!(buscaminas[0][0], MINA);
    assert_eq!(buscaminas[0][1], VACIO);
    assert_eq!(buscaminas[0][2], VACIO);
    assert_eq!(buscaminas[1][0], b'1');
    assert_eq!(buscaminas[1][1], b'1');
    assert_eq!(buscaminas[1][2], MINA);
    assert_eq!(buscaminas[2][0], b'1');
    assert_eq!(buscaminas[2][1], MINA);
    assert_eq!(buscaminas[2][2], b'1');
}

#[test]
fn buscaminas_incrementa_casilla_correctamente() {
    let mut casilla = b'1';
    incrementar_casilla(&mut casilla);
    assert_eq!(casilla, b'2');
}

#[test]
fn buscaminas_inicializa_casilla_en_cero_correctamente_y_la_incrementa() {
    let mut casilla = VACIO;
    incrementar_casilla(&mut casilla);
    assert_eq!(casilla, b'1');
}

#[test]
fn arma_buscaminas_en_base_a_bytes() {
    let input_bytes: &[u8] = &vec![42, 46, 46, 10, 46, 46, 42, 10, 46, 42, 46];
    let buscaminas = armar_buscaminas(input_bytes).unwrap();
    assert_eq!(buscaminas.len(), 3);
    assert_eq!(buscaminas[0].len(), 3);
    assert_eq!(buscaminas[0][0], MINA);
    assert_eq!(buscaminas[0][1], VACIO);
    assert_eq!(buscaminas[0][2], VACIO);
    assert_eq!(buscaminas[1][0], VACIO);
    assert_eq!(buscaminas[1][1], VACIO);
    assert_eq!(buscaminas[1][2], MINA);
    assert_eq!(buscaminas[2][0], VACIO);
    assert_eq!(buscaminas[2][1], MINA);
    assert_eq!(buscaminas[2][2], VACIO);
}

#[test]
#[should_panic]
fn main_falla_si_hay_un_caracter_invalido() {
    let input_bytes: &[u8] = &vec![41];
    armar_buscaminas(input_bytes).unwrap();
}

#[test]
fn busca_minas_adyacentes_correctamente() {
    let mut buscaminas = vec![
        vec![MINA, VACIO, VACIO],
        vec![VACIO, VACIO, MINA],
        vec![VACIO, MINA, VACIO],
    ];
    buscar_minas_adyacentes(&mut buscaminas);
    assert_eq!(buscaminas[0][0], MINA);
    assert_eq!(buscaminas[0][1], b'2');
    assert_eq!(buscaminas[0][2], b'1');
    assert_eq!(buscaminas[1][0], b'2');
    assert_eq!(buscaminas[1][1], b'3');
    assert_eq!(buscaminas[1][2], MINA);
    assert_eq!(buscaminas[2][0], b'1');
    assert_eq!(buscaminas[2][1], MINA);
    assert_eq!(buscaminas[2][2], b'2');
}

#[test]
fn main_incrementa_adyacentes_correctamente() {
    let mut buscaminas = vec![
        vec![MINA, VACIO, VACIO],
        vec![VACIO, VACIO, MINA],
        vec![VACIO, MINA, VACIO],
    ];
    let fila = 2;
    let columna = 1;
    incrementar_adyacentes(&mut buscaminas, fila, columna);
    assert_eq!(buscaminas[0][0], MINA);
    assert_eq!(buscaminas[0][1], VACIO);
    assert_eq!(buscaminas[0][2], VACIO);
    assert_eq!(buscaminas[1][0], b'1');
    assert_eq!(buscaminas[1][1], b'1');
    assert_eq!(buscaminas[1][2], MINA);
    assert_eq!(buscaminas[2][0], b'1');
    assert_eq!(buscaminas[2][1], MINA);
    assert_eq!(buscaminas[2][2], b'1');
}

#[test]
fn main_incrementa_casilla_correctamente() {
    let mut casilla = b'1';
    incrementar_casilla(&mut casilla);
    assert_eq!(casilla, b'2');
}

#[test]
fn main_inicializa_casilla_en_cero_correctamente_y_la_incrementa() {
    let mut casilla = VACIO;
    incrementar_casilla(&mut casilla);
    assert_eq!(casilla, b'1');
}
