use vstd::prelude::*;
use crate::arbol::{
    Libro, Nodo, actualizar_altura, altura, alturas_correctas, balance_registrado, balanceado,
    con_altura_actualizada, con_derecho, con_izquierdo, diferencia, en_orden, equilibrado,
    libro_buscado, obtener_balance, ordenado, rotacion_derecha, rotacion_izquierda, rotar_derecha,
    rotar_izquierda, vista, vista_tras_insertar,
};
use crate::equilibrio::{
    hijos_equilibrados, lema_doble_derecha_izquierda, lema_doble_izquierda_derecha,
    lema_simple_derecha, lema_simple_izquierda,
};
use crate::lemas::{
    lema_altura_acotada, lema_altura_cero, lema_altura_registrada, lema_busqueda, lema_claves_hijos,
    lema_hijos_equilibrados,
};

verus! {

/// When an insertion of `isbn` makes a tree one level taller, the root keeps
/// its book and leans towards the side where `isbn` went.
pub open spec fn crece_hacia(r: Nodo, clave_raiz: u32, isbn: u32) -> bool {
    &&& r.libro.isbn == clave_raiz
    &&& isbn < clave_raiz ==> diferencia(r) == 1
    &&& isbn > clave_raiz ==> diferencia(r) == -1
}

/// The rebalancing after an insertion of `isbn` below the node `n`, whose
/// recorded height is up to date: a right rotation when the left side is two
/// levels taller and `isbn` went to the left of the left child, a left
/// rotation in the mirror case, a left-right double rotation when `isbn` went
/// to the right of the left child, a right-left double rotation in the mirror
/// case, and nothing otherwise.
pub open spec fn reequilibrar_tras_insertar(n: Nodo, isbn: u32) -> Nodo {
    let b = balance_registrado(n);
    if b > 1 && isbn < n.izquierdo.unwrap().libro.isbn {
        rotacion_derecha(n)
    } else if b < -1 && isbn > n.derecho.unwrap().libro.isbn {
        rotacion_izquierda(n)
    } else if b > 1 && isbn > n.izquierdo.unwrap().libro.isbn {
        rotacion_derecha(
            con_izquierdo(n, Some(Box::new(rotacion_izquierda(*n.izquierdo.unwrap())))),
        )
    } else if b < -1 && isbn < n.derecho.unwrap().libro.isbn {
        rotacion_izquierda(con_derecho(n, Some(Box::new(rotacion_derecha(*n.derecho.unwrap())))))
    } else {
        n
    }
}

/// The tree that inserting `libro` into `t` builds: a new leaf in place of the
/// empty tree; otherwise the book goes down the side its ISBN belongs to, the
/// node's height is brought up to date and the node is rebalanced; a present
/// ISBN leaves the tree as it is.
pub open spec fn arbol_insertado(t: Option<Box<Nodo>>, libro: Libro) -> Box<Nodo>
    decreases t,
{
    match t {
        None => Box::new(Nodo { libro: libro, izquierdo: None, derecho: None, altura: 1 }),
        Some(n) => if libro.isbn < n.libro.isbn {
            Box::new(
                reequilibrar_tras_insertar(
                    con_altura_actualizada(con_izquierdo(*n, Some(arbol_insertado(n.izquierdo, libro)))),
                    libro.isbn,
                ),
            )
        } else if libro.isbn > n.libro.isbn {
            Box::new(
                reequilibrar_tras_insertar(
                    con_altura_actualizada(con_derecho(*n, Some(arbol_insertado(n.derecho, libro)))),
                    libro.isbn,
                ),
            )
        } else {
            n
        },
    }
}

/// What `arbol_insertado` builds: on a tree with correct heights and balance,
/// a tree with correct heights and balance, at most one level taller, the same
/// tree when the search finds the ISBN; on a search tree, a search tree holding
/// the new book besides the old ones, with the new book slotted into the
/// in-order sequence.
pub open spec fn insercion_correcta(t: Option<Box<Nodo>>, libro: Libro) -> bool {
    let r = arbol_insertado(t, libro);
    &&& equilibrado(Some(r))
    &&& altura(t) <= altura(Some(r)) <= altura(t) + 1
    &&& libro_buscado(t, libro.isbn) is Some ==> Some(r) == t
    &&& altura(Some(r)) == altura(t) + 1 && t is Some ==> crece_hacia(
        *r,
        t.unwrap().libro.isbn,
        libro.isbn,
    )
    &&& ordenado(t) ==> ordenado(Some(r))
    &&& ordenado(t) ==> vista(Some(r)) == vista_tras_insertar(vista(t), libro)
    &&& ordenado(t) && !vista(t).contains_key(libro.isbn) ==> exists|i: int|
        0 <= i <= en_orden(t).len() && en_orden(Some(r)) == #[trigger] en_orden(t).insert(i, libro)
}

/// `arbol_insertado` is correct on any tree with correct heights and balance
/// that is a search tree or has room for one more level.
pub proof fn lema_arbol_insertado(t: Option<Box<Nodo>>, libro: Libro)
    requires
        equilibrado(t),
        ordenado(t) || altura(t) < i32::MAX,
    ensures
        insercion_correcta(t, libro),
    decreases t, 1nat,
{
    match t {
        None => {
            let r = arbol_insertado(t, libro);
            assert(r.izquierdo is None && r.derecho is None && r.altura == 1);
            assert(altura(r.izquierdo) == 0 && altura(r.derecho) == 0);
            assert(altura(Some(r)) == 1);
            assert(alturas_correctas(Some(r)));
            assert(vista(Some(r)) =~= vista_tras_insertar(vista(t), libro));
            assert(en_orden(Some(r)) =~= en_orden(t).insert(0, libro));
        },
        Some(n) => {
            lema_busqueda(t, libro.isbn);
            lema_claves_hijos(n);
            if libro.isbn < n.libro.isbn {
                lema_insercion_izquierda(t, libro);
            } else if libro.isbn > n.libro.isbn {
                lema_insercion_derecha(t, libro);
            }
        },
    }
}

/// Insertion below the left child of the root.
proof fn lema_insercion_izquierda(t: Option<Box<Nodo>>, libro: Libro)
    requires
        equilibrado(t),
        t is Some,
        libro.isbn < t.unwrap().libro.isbn,
        ordenado(t) || altura(t) < i32::MAX,
    ensures
        insercion_correcta(t, libro),
    decreases t, 0nat,
{
    lema_busqueda(t, libro.isbn);
    if ordenado(t) {
        lema_altura_acotada(t);
    }
    let n = t.unwrap();
    lema_claves_hijos(n);
    lema_hijos_equilibrados(n);
    lema_altura_cero(n.izquierdo);
    lema_altura_cero(n.derecho);
    let c = arbol_insertado(n.izquierdo, libro);
    lema_arbol_insertado(n.izquierdo, libro);
    lema_altura_registrada(Some(c));
    let m = con_altura_actualizada(con_izquierdo(*n, Some(c)));
    assert(alturas_correctas(Some(Box::new(m))));
    assert(hijos_equilibrados(m));
    lema_altura_cero(Some(c));
    if ordenado(t) {
        assert forall|k: u32| #[trigger] vista(Some(c)).contains_key(k) implies k < n.libro.isbn by {
            if k != libro.isbn {
                assert(vista(n.izquierdo).contains_key(k));
            }
        }
        assert(ordenado(Some(Box::new(m))));
        assert(vista(Some(Box::new(m))) =~= vista_tras_insertar(vista(t), libro));
        if !vista(t).contains_key(libro.isbn) {
            let i = choose|i: int|
                0 <= i <= en_orden(n.izquierdo).len() && en_orden(Some(c))
                    == #[trigger] en_orden(n.izquierdo).insert(i, libro);
            assert(en_orden(Some(Box::new(m))) =~= en_orden(t).insert(i, libro));
        }
    }
    if libro_buscado(t, libro.isbn) is Some {
        assert(m == *n);
    }
    let b = balance_registrado(m);
    assert(b == diferencia(m));
    if b > 1 {
        assert(altura(Some(c)) == altura(n.izquierdo) + 1);
        assert(altura(m.izquierdo) == altura(m.derecho) + 2);
        assert(c.libro.isbn == n.izquierdo.unwrap().libro.isbn);
    }
    if b > 1 && libro.isbn < c.libro.isbn {
        lema_simple_derecha(m);
    } else if b > 1 && libro.isbn > c.libro.isbn {
        lema_doble_izquierda_derecha(m);
    } else {
        assert(balanceado(Some(Box::new(m))));
    }
}

/// Insertion below the right child of the root.
proof fn lema_insercion_derecha(t: Option<Box<Nodo>>, libro: Libro)
    requires
        equilibrado(t),
        t is Some,
        libro.isbn > t.unwrap().libro.isbn,
        ordenado(t) || altura(t) < i32::MAX,
    ensures
        insercion_correcta(t, libro),
    decreases t, 0nat,
{
    lema_busqueda(t, libro.isbn);
    if ordenado(t) {
        lema_altura_acotada(t);
    }
    let n = t.unwrap();
    lema_claves_hijos(n);
    lema_hijos_equilibrados(n);
    lema_altura_cero(n.izquierdo);
    lema_altura_cero(n.derecho);
    let c = arbol_insertado(n.derecho, libro);
    lema_arbol_insertado(n.derecho, libro);
    lema_altura_registrada(Some(c));
    let m = con_altura_actualizada(con_derecho(*n, Some(c)));
    assert(alturas_correctas(Some(Box::new(m))));
    assert(hijos_equilibrados(m));
    lema_altura_cero(Some(c));
    if ordenado(t) {
        assert forall|k: u32| #[trigger] vista(Some(c)).contains_key(k) implies n.libro.isbn < k by {
            if k != libro.isbn {
                assert(vista(n.derecho).contains_key(k));
            }
        }
        assert(ordenado(Some(Box::new(m))));
        assert(vista(Some(Box::new(m))) =~= vista_tras_insertar(vista(t), libro));
        if !vista(t).contains_key(libro.isbn) {
            let i = choose|i: int|
                0 <= i <= en_orden(n.derecho).len() && en_orden(Some(c))
                    == #[trigger] en_orden(n.derecho).insert(i, libro);
            let j = en_orden(n.izquierdo).len() + 1 + i;
            assert(en_orden(Some(Box::new(m))) =~= en_orden(t).insert(j, libro));
        }
    }
    if libro_buscado(t, libro.isbn) is Some {
        assert(m == *n);
    }
    let b = balance_registrado(m);
    assert(b == diferencia(m));
    if b < -1 {
        assert(altura(Some(c)) == altura(n.derecho) + 1);
        assert(altura(m.derecho) == altura(m.izquierdo) + 2);
        assert(c.libro.isbn == n.derecho.unwrap().libro.isbn);
    }
    if b < -1 && libro.isbn > c.libro.isbn {
        lema_simple_izquierda(m);
    } else if b < -1 && libro.isbn < c.libro.isbn {
        lema_doble_derecha_izquierda(m);
    } else {
        assert(balanceado(Some(Box::new(m))));
    }
}

/// Inserts `libro` into the AVL tree `nodo_opt` and returns the new root.
/// A book whose ISBN the search finds already present leaves the tree as it was.
/// The heights and the balance are kept on any tree that has them; the books
/// and the search order are kept on a search tree.
pub fn insertar(nodo_opt: Option<Box<Nodo>>, libro: Libro) -> (r: Box<Nodo>)
    requires
        equilibrado(nodo_opt),
        ordenado(nodo_opt) || altura(nodo_opt) < i32::MAX,
    ensures
        r == arbol_insertado(nodo_opt, libro),
        equilibrado(Some(r)),
        altura(nodo_opt) <= altura(Some(r)) <= altura(nodo_opt) + 1,
        libro_buscado(nodo_opt, libro.isbn) is Some ==> Some(r) == nodo_opt,
        altura(Some(r)) == altura(nodo_opt) + 1 && nodo_opt is Some ==> crece_hacia(
            *r,
            nodo_opt.unwrap().libro.isbn,
            libro.isbn,
        ),
        ordenado(nodo_opt) ==> ordenado(Some(r)),
        ordenado(nodo_opt) ==> vista(Some(r)) == vista_tras_insertar(vista(nodo_opt), libro),
        ordenado(nodo_opt) && vista(nodo_opt).contains_key(libro.isbn) ==> Some(r) == nodo_opt,
        ordenado(nodo_opt) && !vista(nodo_opt).contains_key(libro.isbn) ==> exists|i: int|
            0 <= i <= en_orden(nodo_opt).len() && en_orden(Some(r))
                == #[trigger] en_orden(nodo_opt).insert(i, libro),
    decreases nodo_opt,
{
    proof {
        lema_arbol_insertado(nodo_opt, libro);
        lema_busqueda(nodo_opt, libro.isbn);
        if ordenado(nodo_opt) {
            lema_altura_acotada(nodo_opt);
        }
    }
    let mut nodo = match nodo_opt {
        None => return Box::new(Nodo::nuevo(libro)),
        Some(n) => n,
    };
    let ghost viejo = *nodo;
    let ghost clave = libro.isbn;
    let isbn_nuevo = libro.isbn;
    proof {
        lema_claves_hijos(nodo);
        lema_hijos_equilibrados(nodo);
    }
    if isbn_nuevo < nodo.libro.isbn {
        nodo.izquierdo = Some(insertar(nodo.izquierdo.take(), libro));
    } else if isbn_nuevo > nodo.libro.isbn {
        nodo.derecho = Some(insertar(nodo.derecho.take(), libro));
    } else {
        return nodo;
    }
    proof {
        lema_altura_registrada(nodo.izquierdo);
        lema_altura_registrada(nodo.derecho);
    }
    actualizar_altura(&mut nodo);
    proof {
        assert(alturas_correctas(Some(nodo)));
    }
    let balance = obtener_balance(&nodo);

    proof {
        assert(balance == diferencia(*nodo));
        assert(-1 <= diferencia(viejo) <= 1);
        lema_altura_cero(viejo.izquierdo);
        lema_altura_cero(viejo.derecho);
        if balance > 1 {
            assert(clave < viejo.libro.isbn);
            assert(altura(nodo.izquierdo) == altura(viejo.izquierdo) + 1);
            assert(altura(nodo.izquierdo) == altura(nodo.derecho) + 2);
        }
        if balance < -1 {
            assert(clave > viejo.libro.isbn);
            assert(altura(nodo.derecho) == altura(viejo.derecho) + 1);
            assert(altura(nodo.derecho) == altura(nodo.izquierdo) + 2);
        }
    }
    if balance > 1 && isbn_nuevo < nodo.izquierdo.as_ref().unwrap().libro.isbn {
        proof {
            lema_simple_derecha(*nodo);
        }
        return rotar_derecha(nodo);
    }
    if balance < -1 && isbn_nuevo > nodo.derecho.as_ref().unwrap().libro.isbn {
        proof {
            lema_simple_izquierda(*nodo);
        }
        return rotar_izquierda(nodo);
    }
    if balance > 1 && isbn_nuevo > nodo.izquierdo.as_ref().unwrap().libro.isbn {
        proof {
            lema_doble_izquierda_derecha(*nodo);
        }
        let hijo_izq = nodo.izquierdo.take().unwrap();
        nodo.izquierdo = Some(rotar_izquierda(hijo_izq));
        return rotar_derecha(nodo);
    }
    if balance < -1 && isbn_nuevo < nodo.derecho.as_ref().unwrap().libro.isbn {
        proof {
            lema_doble_derecha_izquierda(*nodo);
        }
        let hijo_der = nodo.derecho.take().unwrap();
        nodo.derecho = Some(rotar_derecha(hijo_der));
        return rotar_izquierda(nodo);
    }
    nodo
}

} // verus!
