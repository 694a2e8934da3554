use vstd::prelude::*;
use crate::arbol::{
    Libro, Nodo, altura, altura_registrada, alturas_correctas, clave_maxima, libro_buscado,
    obtener_altura, ordenado, tamano, vista,
};
use crate::formato::{describir_libro, texto_libro};
use crate::lemas::{lema_altura_registrada, lema_clave_maxima, lema_claves_hijos, lema_tamano_vista};

verus! {

/// The book of the rightmost node of `t`, if `t` is not empty.
pub open spec fn libro_mas_a_la_derecha(t: Option<Box<Nodo>>) -> Option<Libro>
    decreases t,
{
    match t {
        None => None,
        Some(n) => match n.derecho {
            Some(_) => libro_mas_a_la_derecha(n.derecho),
            None => Some(n.libro),
        },
    }
}

/// Binary search for the book with ISBN `isbn`; returns a reference to it.
/// In a search tree it finds the book exactly when the tree holds that ISBN.
pub fn buscar(nodo: &Option<Box<Nodo>>, isbn: u32) -> (r: Option<&Libro>)
    ensures
        r is Some <==> libro_buscado(*nodo, isbn) is Some,
        r is Some ==> *r.unwrap() == libro_buscado(*nodo, isbn).unwrap(),
        r matches Some(l) ==> l.isbn == isbn && vista(*nodo).contains_key(isbn),
        ordenado(*nodo) ==> (r is Some <==> vista(*nodo).contains_key(isbn)),
        ordenado(*nodo) && r is Some ==> *r.unwrap() == vista(*nodo)[isbn],
    decreases *nodo,
{
    match nodo {
        None => None,
        Some(n) => {
            proof {
                lema_claves_hijos(*n);
            }
            if isbn == n.libro.isbn {
                Some(&n.libro)
            } else if isbn < n.libro.isbn {
                proof {
                    if ordenado(*nodo) {
                        assert(!vista(n.derecho).contains_key(isbn));
                    }
                }
                buscar(&n.izquierdo, isbn)
            } else {
                proof {
                    if ordenado(*nodo) {
                        assert(!vista(n.izquierdo).contains_key(isbn));
                    }
                }
                buscar(&n.derecho, isbn)
            }
        },
    }
}

/// The number of nodes of the tree; in a search tree, the number of books.
pub fn contar_nodos(nodo: &Option<Box<Nodo>>) -> (r: u32)
    requires
        tamano(*nodo) <= u32::MAX,
    ensures
        r == tamano(*nodo),
        ordenado(*nodo) ==> r == vista(*nodo).len(),
    decreases *nodo,
{
    proof {
        if ordenado(*nodo) {
            lema_tamano_vista(*nodo);
        }
    }
    match nodo {
        None => 0,
        Some(n) => 1 + contar_nodos(&n.izquierdo) + contar_nodos(&n.derecho),
    }
}

/// The book of the rightmost node; in a search tree, the book with the largest ISBN.
pub fn encontrar_isbn_maximo(nodo: &Option<Box<Nodo>>) -> (r: Option<&Libro>)
    ensures
        r is None <==> nodo is None,
        r is Some ==> *r.unwrap() == libro_mas_a_la_derecha(*nodo).unwrap(),
        r matches Some(l) ==> vista(*nodo).contains_key(l.isbn),
        ordenado(*nodo) && r is Some ==> forall|k: u32| #[trigger]
            vista(*nodo).contains_key(k) ==> k <= r.unwrap().isbn,
        ordenado(*nodo) && r is Some ==> r.unwrap().isbn == clave_maxima(vista(*nodo))
            && *r.unwrap() == vista(*nodo)[r.unwrap().isbn],
    decreases *nodo,
{
    match nodo {
        None => None,
        Some(n) => {
            proof {
                lema_claves_hijos(*n);
            }
            if let Some(_) = &n.derecho {
                let r = encontrar_isbn_maximo(&n.derecho);
                proof {
                    if ordenado(*nodo) {
                        let l = r.unwrap();
                        let m = vista(*nodo);
                        assert(vista(n.derecho).contains_key(l.isbn));
                        assert(n.libro.isbn < l.isbn);
                        assert forall|j: u32| #[trigger] m.contains_key(j) implies j <= l.isbn by {
                            if !vista(n.derecho).contains_key(j) && j != n.libro.isbn {
                                assert(vista(n.izquierdo).contains_key(j));
                            }
                        }
                        lema_clave_maxima(m, l.isbn);
                    }
                }
                r
            } else {
                proof {
                    if ordenado(*nodo) {
                        let m = vista(*nodo);
                        assert forall|j: u32| #[trigger] m.contains_key(j) implies j <= n.libro.isbn by {}
                        lema_clave_maxima(m, n.libro.isbn);
                    }
                }
                Some(&n.libro)
            }
        },
    }
}

/// Statistics of a tree: its height, its number of nodes and the description
/// of the book with the largest ISBN.
pub struct Estadisticas {
    pub altura: i32,
    pub total_nodos: u32,
    pub isbn_maximo: Option<String>,
}

/// All statistics of the tree in one call.
pub fn obtener_estadisticas(nodo: &Option<Box<Nodo>>) -> (e: Estadisticas)
    requires
        tamano(*nodo) <= u32::MAX,
    ensures
        e.altura as int == altura_registrada(*nodo),
        alturas_correctas(*nodo) ==> e.altura as int == altura(*nodo) as int,
        e.total_nodos == tamano(*nodo),
        e.isbn_maximo is None <==> nodo is None,
        nodo is Some ==> e.isbn_maximo.unwrap()@ == texto_libro(
            libro_mas_a_la_derecha(*nodo).unwrap().isbn,
            libro_mas_a_la_derecha(*nodo).unwrap().titulo@,
        ),
        ordenado(*nodo) && nodo is Some ==> e.isbn_maximo.unwrap()@ == texto_libro(
            clave_maxima(vista(*nodo)),
            vista(*nodo)[clave_maxima(vista(*nodo))].titulo@,
        ),
{
    proof {
        if alturas_correctas(*nodo) {
            lema_altura_registrada(*nodo);
        }
    }
    let altura = obtener_altura(nodo);
    let total_nodos = contar_nodos(nodo);
    let isbn_maximo = match encontrar_isbn_maximo(nodo) {
        Some(libro) => Some(describir_libro(libro)),
        None => None,
    };
    Estadisticas { altura, total_nodos, isbn_maximo }
}

} // verus!
