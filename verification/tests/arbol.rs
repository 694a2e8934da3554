use libreria_avl::arbol::{
    actualizar_altura, obtener_altura, obtener_balance, rotar_derecha, rotar_izquierda, Libro, Nodo,
};
use libreria_avl::consultas::{buscar, contar_nodos, encontrar_isbn_maximo, obtener_estadisticas};
use libreria_avl::eliminacion::{eliminar, encontrar_minimo};
use libreria_avl::formato::{decimal_u32, describir_libro};
use libreria_avl::impresion::lineas_para_imprimir;
use libreria_avl::insercion::insertar;

fn libro(isbn: u32, titulo: &str) -> Libro {
    Libro { isbn, titulo: titulo.to_string() }
}

fn hoja(isbn: u32, titulo: &str) -> Option<Box<Nodo>> {
    Some(Box::new(Nodo::nuevo(libro(isbn, titulo))))
}

/// Checks order, recorded heights and balance; returns the true height.
fn comprobar_avl(t: &Option<Box<Nodo>>, lo: i64, hi: i64) -> i32 {
    match t {
        None => 0,
        Some(n) => {
            let k = n.libro.isbn as i64;
            assert!(lo < k && k < hi, "orden roto en {}", k);
            let hi_izq = comprobar_avl(&n.izquierdo, lo, k);
            let hi_der = comprobar_avl(&n.derecho, k, hi);
            assert!((hi_izq - hi_der).abs() <= 1, "desequilibrio en {}", k);
            let h = 1 + hi_izq.max(hi_der);
            assert_eq!(n.altura, h, "altura registrada incorrecta en {}", k);
            h
        }
    }
}

fn es_avl(t: &Option<Box<Nodo>>) {
    comprobar_avl(t, -1, 1i64 << 32);
}

fn construir(datos: &[(u32, &str)]) -> Option<Box<Nodo>> {
    let mut raiz: Option<Box<Nodo>> = None;
    for (isbn, titulo) in datos {
        raiz = Some(insertar(raiz.take(), libro(*isbn, titulo)));
        es_avl(&raiz);
    }
    raiz
}

fn inventario() -> Option<Box<Nodo>> {
    construir(&[
        (10, "El Quijote"),
        (20, "1984"),
        (30, "Hamlet"),
        (5, "Fahrenheit 451"),
        (2, "La Odisea"),
        (25, "El Principito"),
    ])
}

fn lineas(t: &Option<Box<Nodo>>) -> Vec<(usize, u32, String)> {
    lineas_para_imprimir(t, 0).into_iter().map(|l| (l.nivel, l.isbn, l.titulo)).collect()
}

fn titulo_de(t: &Option<Box<Nodo>>, isbn: u32) -> Option<String> {
    buscar(t, isbn).map(|l| l.titulo.clone())
}

#[test]
fn hoja_nueva_tiene_altura_uno() {
    let n = Nodo::nuevo(libro(10, "El Quijote"));
    assert_eq!(n.altura, 1);
    assert!(n.izquierdo.is_none() && n.derecho.is_none());
    assert_eq!(obtener_altura(&Some(Box::new(n))), 1);
    assert_eq!(obtener_altura(&None), 0);
}

#[test]
fn actualizar_altura_toma_el_hijo_mas_alto() {
    let mut n = Nodo::nuevo(libro(10, "A"));
    n.izquierdo = hoja(5, "B");
    let mut d = Nodo::nuevo(libro(20, "C"));
    d.derecho = hoja(30, "D");
    d.altura = 2;
    n.derecho = Some(Box::new(d));
    actualizar_altura(&mut n);
    assert_eq!(n.altura, 3);
    assert_eq!(obtener_balance(&n), -1);
}

#[test]
fn rotacion_derecha_sube_el_hijo_izquierdo() {
    // (2 <- 5 <- 10) en cadena hacia la izquierda
    let mut medio = Nodo::nuevo(libro(5, "B"));
    medio.izquierdo = hoja(2, "A");
    medio.altura = 2;
    let mut raiz = Nodo::nuevo(libro(10, "C"));
    raiz.izquierdo = Some(Box::new(medio));
    raiz.altura = 3;
    let r = rotar_derecha(Box::new(raiz));
    assert_eq!(r.libro.isbn, 5);
    assert_eq!(r.altura, 2);
    assert_eq!(r.izquierdo.as_ref().unwrap().libro.isbn, 2);
    assert_eq!(r.derecho.as_ref().unwrap().libro.isbn, 10);
    assert_eq!(r.derecho.as_ref().unwrap().altura, 1);
    es_avl(&Some(r));
}

#[test]
fn rotacion_izquierda_sube_el_hijo_derecho() {
    let mut medio = Nodo::nuevo(libro(20, "B"));
    medio.derecho = hoja(30, "C");
    medio.altura = 2;
    let mut raiz = Nodo::nuevo(libro(10, "A"));
    raiz.derecho = Some(Box::new(medio));
    raiz.altura = 3;
    let r = rotar_izquierda(Box::new(raiz));
    assert_eq!(r.libro.isbn, 20);
    assert_eq!(r.altura, 2);
    assert_eq!(r.izquierdo.as_ref().unwrap().libro.isbn, 10);
    assert_eq!(r.derecho.as_ref().unwrap().libro.isbn, 30);
    es_avl(&Some(r));
}

#[test]
fn insercion_del_inventario_da_el_arbol_documentado() {
    let raiz = inventario();
    assert_eq!(
        lineas(&raiz),
        vec![
            (1, 30, "Hamlet".to_string()),
            (2, 25, "El Principito".to_string()),
            (0, 20, "1984".to_string()),
            (2, 10, "El Quijote".to_string()),
            (1, 5, "Fahrenheit 451".to_string()),
            (2, 2, "La Odisea".to_string()),
        ]
    );
}

#[test]
fn estadisticas_del_inventario() {
    let raiz = inventario();
    let e = obtener_estadisticas(&raiz);
    assert_eq!(e.altura, 3);
    assert_eq!(e.total_nodos, 6);
    assert_eq!(e.isbn_maximo, Some("ISBN: 30, Titulo: Hamlet".to_string()));
}

#[test]
fn estadisticas_del_arbol_vacio() {
    let e = obtener_estadisticas(&None);
    assert_eq!(e.altura, 0);
    assert_eq!(e.total_nodos, 0);
    assert_eq!(e.isbn_maximo, None);
}

#[test]
fn busquedas_del_inventario() {
    let raiz = inventario();
    assert_eq!(titulo_de(&raiz, 20), Some("1984".to_string()));
    assert_eq!(titulo_de(&raiz, 5), Some("Fahrenheit 451".to_string()));
    assert_eq!(titulo_de(&raiz, 30), Some("Hamlet".to_string()));
    assert_eq!(buscar(&raiz, 20).unwrap().isbn, 20);
    assert!(buscar(&raiz, 100).is_none());
    assert!(buscar(&raiz, 15).is_none());
    assert!(buscar(&None, 15).is_none());
}

#[test]
fn eliminaciones_del_inventario() {
    let mut raiz = inventario();
    // nodo hoja
    raiz = eliminar(raiz.take(), 2);
    es_avl(&raiz);
    assert!(buscar(&raiz, 2).is_none());
    // nodo con un hijo
    raiz = eliminar(raiz.take(), 5);
    es_avl(&raiz);
    assert!(buscar(&raiz, 5).is_none());
    // nodo con dos hijos (la raiz)
    raiz = eliminar(raiz.take(), 20);
    es_avl(&raiz);
    assert!(buscar(&raiz, 20).is_none());
    assert_eq!(
        lineas(&raiz),
        vec![
            (1, 30, "Hamlet".to_string()),
            (0, 25, "El Principito".to_string()),
            (1, 10, "El Quijote".to_string()),
        ]
    );
    let e = obtener_estadisticas(&raiz);
    assert_eq!(e.altura, 2);
    assert_eq!(e.total_nodos, 3);
    assert_eq!(e.isbn_maximo, Some("ISBN: 30, Titulo: Hamlet".to_string()));
}

#[test]
fn vaciar_el_arbol() {
    let mut raiz = inventario();
    for isbn in [20, 2, 30, 10, 25, 5] {
        raiz = eliminar(raiz.take(), isbn);
        es_avl(&raiz);
        assert!(buscar(&raiz, isbn).is_none());
    }
    assert!(raiz.is_none());
    assert_eq!(obtener_estadisticas(&raiz).isbn_maximo, None);
}

#[test]
fn eliminar_un_isbn_ausente_no_cambia_nada() {
    let mut raiz = inventario();
    let antes = lineas(&raiz);
    raiz = eliminar(raiz.take(), 15);
    assert_eq!(lineas(&raiz), antes);
    assert!(eliminar(None, 7).is_none());
}

#[test]
fn isbn_repetido_conserva_el_primer_libro() {
    let mut raiz = inventario();
    let antes = lineas(&raiz);
    raiz = Some(insertar(raiz.take(), libro(20, "Otro titulo")));
    assert_eq!(lineas(&raiz), antes);
    assert_eq!(titulo_de(&raiz, 20), Some("1984".to_string()));
}

#[test]
fn rotacion_doble_izquierda_derecha_al_insertar() {
    let raiz = construir(&[(30, "C"), (10, "A"), (20, "B")]);
    assert_eq!(
        lineas(&raiz),
        vec![(1, 30, "C".to_string()), (0, 20, "B".to_string()), (1, 10, "A".to_string())]
    );
}

#[test]
fn rotacion_doble_derecha_izquierda_al_insertar() {
    let raiz = construir(&[(10, "A"), (30, "C"), (20, "B")]);
    assert_eq!(
        lineas(&raiz),
        vec![(1, 30, "C".to_string()), (0, 20, "B".to_string()), (1, 10, "A".to_string())]
    );
}

#[test]
fn rotaciones_al_eliminar() {
    // derecha simple: quitar el hijo derecho de 20 deja la izquierda dos niveles mas alta
    let mut raiz = construir(&[(20, "B"), (10, "A"), (30, "C"), (5, "D")]);
    raiz = eliminar(raiz.take(), 30);
    es_avl(&raiz);
    assert_eq!(raiz.as_ref().unwrap().libro.isbn, 10);
    // doble izquierda-derecha
    let mut raiz = construir(&[(20, "B"), (10, "A"), (30, "C"), (15, "D")]);
    raiz = eliminar(raiz.take(), 30);
    es_avl(&raiz);
    assert_eq!(raiz.as_ref().unwrap().libro.isbn, 15);
    // izquierda simple
    let mut raiz = construir(&[(20, "B"), (10, "A"), (30, "C"), (40, "D")]);
    raiz = eliminar(raiz.take(), 10);
    es_avl(&raiz);
    assert_eq!(raiz.as_ref().unwrap().libro.isbn, 30);
    // doble derecha-izquierda
    let mut raiz = construir(&[(20, "B"), (10, "A"), (30, "C"), (25, "D")]);
    raiz = eliminar(raiz.take(), 10);
    es_avl(&raiz);
    assert_eq!(raiz.as_ref().unwrap().libro.isbn, 25);
}

#[test]
fn muchas_inserciones_y_eliminaciones_mantienen_el_avl() {
    let mut raiz: Option<Box<Nodo>> = None;
    for i in 0..200u32 {
        let isbn = (i * 37) % 211;
        raiz = Some(insertar(raiz.take(), libro(isbn, "x")));
        es_avl(&raiz);
    }
    assert_eq!(contar_nodos(&raiz), 200);
    let h = obtener_altura(&raiz);
    assert!(h <= 10, "altura {}", h);
    for i in 0..100u32 {
        let isbn = (i * 37) % 211;
        raiz = eliminar(raiz.take(), isbn);
        es_avl(&raiz);
        assert!(buscar(&raiz, isbn).is_none());
    }
    assert_eq!(contar_nodos(&raiz), 100);
}

#[test]
fn insertar_y_eliminar_devuelve_el_contenido() {
    let raiz = inventario();
    let antes = lineas(&raiz);
    let con = Some(insertar(raiz, libro(15, "Nuevo")));
    assert_eq!(titulo_de(&con, 15), Some("Nuevo".to_string()));
    assert_eq!(contar_nodos(&con), 7);
    let sin = eliminar(con, 15);
    let mut despues = lineas(&sin);
    let mut esperado = antes.clone();
    despues.sort_by_key(|l| l.1);
    esperado.sort_by_key(|l| l.1);
    assert_eq!(despues, esperado);
    assert_eq!(contar_nodos(&sin), 6);
}

#[test]
fn minimo_y_maximo() {
    let raiz = inventario();
    assert_eq!(encontrar_minimo(raiz.as_ref().unwrap()), 2);
    let d = &raiz.as_ref().unwrap().derecho;
    assert_eq!(encontrar_minimo(d.as_ref().unwrap()), 25);
    assert_eq!(encontrar_isbn_maximo(&raiz).unwrap().isbn, 30);
    assert_eq!(encontrar_isbn_maximo(&raiz).unwrap().titulo, "Hamlet");
    assert!(encontrar_isbn_maximo(&None).is_none());
}

#[test]
fn contar_nodos_cuenta_los_libros() {
    assert_eq!(contar_nodos(&None), 0);
    assert_eq!(contar_nodos(&inventario()), 6);
}

#[test]
fn notacion_decimal() {
    assert_eq!(decimal_u32(0), "0");
    assert_eq!(decimal_u32(7), "7");
    assert_eq!(decimal_u32(10), "10");
    assert_eq!(decimal_u32(1984), "1984");
    assert_eq!(decimal_u32(u32::MAX), "4294967295");
}

#[test]
fn descripcion_de_un_libro() {
    assert_eq!(describir_libro(&libro(30, "Hamlet")), "ISBN: 30, Titulo: Hamlet");
    assert_eq!(describir_libro(&libro(0, "")), "ISBN: 0, Titulo: ");
}

#[test]
fn clonar_un_libro() {
    let l = libro(20, "1984");
    let c = l.clone();
    assert_eq!(c.isbn, 20);
    assert_eq!(c.titulo, "1984");
}

#[test]
fn lineas_con_nivel_inicial() {
    let raiz = construir(&[(2, "B"), (1, "A")]);
    let v = lineas_para_imprimir(&raiz, 3);
    let niveles: Vec<(usize, u32)> = v.iter().map(|l| (l.nivel, l.isbn)).collect();
    assert_eq!(niveles, vec![(3, 2), (4, 1)]);
}

#[test]
fn eliminar_y_reinsertar_devuelve_el_contenido() {
    let raiz = inventario();
    let mut antes = lineas(&raiz);
    let sin = eliminar(raiz, 20);
    assert_eq!(contar_nodos(&sin), 5);
    let con = Some(insertar(sin, libro(20, "1984")));
    es_avl(&con);
    let mut despues = lineas(&con);
    antes.sort_by_key(|l| l.1);
    despues.sort_by_key(|l| l.1);
    let sin_niveles = |v: Vec<(usize, u32, String)>| -> Vec<(u32, String)> {
        v.into_iter().map(|l| (l.1, l.2)).collect()
    };
    assert_eq!(sin_niveles(despues), sin_niveles(antes));
}

#[test]
fn la_cuenta_no_cambia_con_isbn_repetido_o_ausente() {
    let raiz = inventario();
    let raiz = Some(insertar(raiz, libro(5, "Repetido")));
    assert_eq!(contar_nodos(&raiz), 6);
    let raiz = eliminar(raiz, 99);
    assert_eq!(contar_nodos(&raiz), 6);
}

#[test]
fn eliminar_con_rotacion_simple_en_la_raiz() {
    // 2(1, 4(3, 5)) sin 1 da 4(2(-, 3), 5)
    let raiz = construir(&[(2, "B"), (1, "A"), (4, "D"), (3, "C"), (5, "E")]);
    let raiz = eliminar(raiz, 1);
    es_avl(&raiz);
    assert_eq!(
        lineas(&raiz),
        vec![(1, 5, "E".to_string()), (0, 4, "D".to_string()), (2, 3, "C".to_string()), (1, 2, "B".to_string())]
    );
    let r = raiz.as_ref().unwrap();
    assert_eq!(r.altura, 3);
    assert_eq!(r.izquierdo.as_ref().unwrap().altura, 2);
}

#[test]
fn pasos_de_insercion_documentados() {
    // tras 10, 20, 30, 5 el arbol es 20(10(5, -), 30); insertar 2 rota a la derecha en 10
    let raiz = construir(&[(10, "El Quijote"), (20, "1984"), (30, "Hamlet"), (5, "Fahrenheit 451")]);
    let niveles: Vec<(usize, u32)> = lineas(&raiz).into_iter().map(|l| (l.0, l.1)).collect();
    assert_eq!(niveles, vec![(1, 30), (0, 20), (1, 10), (2, 5)]);
    let raiz = Some(insertar(raiz, libro(2, "La Odisea")));
    let niveles: Vec<(usize, u32)> = lineas(&raiz).into_iter().map(|l| (l.0, l.1)).collect();
    assert_eq!(niveles, vec![(1, 30), (0, 20), (2, 10), (1, 5), (2, 2)]);
}

/// A tree with correct heights and balance whose keys are out of order:
/// 10(30, 20), each child a leaf.
fn arbol_desordenado() -> Option<Box<Nodo>> {
    let mut raiz = Nodo::nuevo(libro(10, "A"));
    raiz.izquierdo = hoja(30, "C");
    raiz.derecho = hoja(20, "B");
    raiz.altura = 2;
    Some(Box::new(raiz))
}

#[test]
fn insertar_en_arbol_desordenado_termina_con_alturas_correctas() {
    let raiz = Some(insertar(arbol_desordenado(), libro(40, "D")));
    let raiz = Some(insertar(raiz, libro(50, "E")));
    fn altura_real(t: &Option<Box<Nodo>>) -> i32 {
        match t {
            None => 0,
            Some(n) => {
                let (a, b) = (altura_real(&n.izquierdo), altura_real(&n.derecho));
                assert!((a - b).abs() <= 1);
                assert_eq!(n.altura, 1 + a.max(b));
                1 + a.max(b)
            }
        }
    }
    altura_real(&raiz);
    assert_eq!(contar_nodos(&raiz), 5);
}

#[test]
fn eliminar_en_arbol_desordenado_termina() {
    // la busqueda de 30 baja a la derecha y no lo encuentra: el arbol no cambia
    let raiz = eliminar(arbol_desordenado(), 30);
    assert_eq!(contar_nodos(&raiz), 3);
    // la raiz se quita con su sucesor buscado en el subarbol derecho
    let raiz = eliminar(raiz, 10);
    assert_eq!(contar_nodos(&raiz), 2);
    assert_eq!(raiz.as_ref().unwrap().libro.isbn, 20);
}
