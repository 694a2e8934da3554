use vstd::prelude::*;
use crate::arbol::{
    Libro, Nodo, actualizar_altura, altura, alturas_correctas, balance_registrado, balanceado,
    clave_minima, con_altura_actualizada, con_derecho, con_izquierdo, diferencia, en_orden,
    equilibrado, libro_buscado, obtener_balance, ordenado, rotacion_derecha, rotacion_izquierda,
    rotar_derecha, rotar_izquierda, vista,
};
use crate::consultas::buscar;
use crate::equilibrio::{
    hijos_equilibrados, lema_doble_derecha_izquierda, lema_doble_izquierda_derecha,
    lema_simple_derecha, lema_simple_izquierda,
};
use crate::lemas::{
    lema_altura_cero, lema_altura_registrada, lema_busqueda, lema_clave_minima, lema_claves_hijos,
    lema_en_orden, lema_hijos_equilibrados,
};

verus! {

/// The ISBN of the leftmost node of a non-empty tree.
pub open spec fn isbn_mas_a_la_izquierda(n: Box<Nodo>) -> u32
    decreases n,
{
    match n.izquierdo {
        Some(izq) => isbn_mas_a_la_izquierda(izq),
        None => n.libro.isbn,
    }
}

/// The rebalancing after a removal below the node `n`, whose recorded height
/// is up to date: when the left side is two levels taller, a right rotation if
/// the left child does not lean right and a left-right double rotation if it
/// does; the mirror cases when the right side is two levels taller; nothing
/// otherwise.
pub open spec fn reequilibrar_tras_eliminar(n: Nodo) -> Nodo {
    let b = balance_registrado(n);
    if b > 1 && balance_registrado(*n.izquierdo.unwrap()) >= 0 {
        rotacion_derecha(n)
    } else if b > 1 && balance_registrado(*n.izquierdo.unwrap()) < 0 {
        rotacion_derecha(
            con_izquierdo(n, Some(Box::new(rotacion_izquierda(*n.izquierdo.unwrap())))),
        )
    } else if b < -1 && balance_registrado(*n.derecho.unwrap()) <= 0 {
        rotacion_izquierda(n)
    } else if b < -1 && balance_registrado(*n.derecho.unwrap()) > 0 {
        rotacion_izquierda(con_derecho(n, Some(Box::new(rotacion_derecha(*n.derecho.unwrap())))))
    } else {
        n
    }
}

/// The book that takes the place of a removed node with two children: the
/// book that a search of the right subtree finds for its leftmost ISBN.
pub open spec fn libro_sucesor(n: Nodo) -> Libro {
    match libro_buscado(n.derecho, isbn_mas_a_la_izquierda(n.derecho.unwrap())) {
        Some(l) => l,
        None => n.libro,
    }
}

/// The tree that removing `isbn` from `t` leaves: the removal goes down the
/// side the ISBN belongs to and the node is then brought up to date and
/// rebalanced; a leaf goes away, a node with one child is replaced by that
/// child, and a node with two children takes the book of its in-order
/// successor, which is then removed from the right subtree.
pub open spec fn arbol_eliminado(t: Option<Box<Nodo>>, isbn: u32) -> Option<Box<Nodo>>
    decreases t,
{
    match t {
        None => None,
        Some(n) => if isbn < n.libro.isbn {
            Some(
                Box::new(
                    reequilibrar_tras_eliminar(
                        con_altura_actualizada(con_izquierdo(*n, arbol_eliminado(n.izquierdo, isbn))),
                    ),
                ),
            )
        } else if isbn > n.libro.isbn {
            Some(
                Box::new(
                    reequilibrar_tras_eliminar(
                        con_altura_actualizada(con_derecho(*n, arbol_eliminado(n.derecho, isbn))),
                    ),
                ),
            )
        } else if n.izquierdo is None && n.derecho is None {
            None
        } else if n.izquierdo is None {
            n.derecho
        } else if n.derecho is None {
            n.izquierdo
        } else {
            let s = isbn_mas_a_la_izquierda(n.derecho.unwrap());
            Some(
                Box::new(
                    reequilibrar_tras_eliminar(
                        con_altura_actualizada(
                            Nodo {
                                libro: libro_sucesor(*n),
                                izquierdo: n.izquierdo,
                                derecho: arbol_eliminado(n.derecho, s),
                                altura: n.altura,
                            },
                        ),
                    ),
                ),
            )
        },
    }
}

/// The smallest ISBN of a non-empty subtree: the one of its leftmost node
/// (the in-order successor when called on the right subtree of a node).
pub fn encontrar_minimo(nodo: &Box<Nodo>) -> (r: u32)
    ensures
        r == isbn_mas_a_la_izquierda(*nodo),
        vista(Some(*nodo)).contains_key(r),
        ordenado(Some(*nodo)) ==> forall|k: u32| #[trigger] vista(Some(*nodo)).contains_key(k) ==> r <= k,
        ordenado(Some(*nodo)) ==> r == clave_minima(vista(Some(*nodo))),
    decreases *nodo,
{
    proof {
        lema_claves_hijos(*nodo);
    }
    if let Some(ref izq) = nodo.izquierdo {
        let r = encontrar_minimo(izq);
        proof {
            assert(nodo.izquierdo == Some(*izq));
            if ordenado(Some(*nodo)) {
                lema_clave_minima(vista(Some(*nodo)), r);
            }
        }
        r
    } else {
        proof {
            if ordenado(Some(*nodo)) {
                lema_clave_minima(vista(Some(*nodo)), nodo.libro.isbn);
            }
        }
        nodo.libro.isbn
    }
}

/// The leftmost ISBN of a tree is one of its ISBNs and the first in its
/// in-order sequence; in a search tree it is the smallest.
pub proof fn lema_mas_a_la_izquierda(n: Box<Nodo>)
    ensures
        vista(Some(n)).contains_key(isbn_mas_a_la_izquierda(n)),
        en_orden(Some(n)).len() > 0,
        en_orden(Some(n))[0].isbn == isbn_mas_a_la_izquierda(n),
        ordenado(Some(n)) ==> forall|k: u32| #[trigger] vista(Some(n)).contains_key(k)
            ==> isbn_mas_a_la_izquierda(n) <= k,
    decreases n,
{
    lema_claves_hijos(n);
    match n.izquierdo {
        Some(izq) => {
            lema_mas_a_la_izquierda(izq);
            assert(n.izquierdo == Some(izq));
            assert(en_orden(Some(n))[0] == en_orden(Some(izq))[0]);
        },
        None => {
            assert(en_orden(n.izquierdo) =~= Seq::<Libro>::empty());
            assert(en_orden(Some(n)) =~= seq![n.libro] + en_orden(n.derecho));
        },
    }
}

/// Rebalancing a node whose subtrees have correct heights and balance and
/// differ in height by at most two: the result has correct heights and
/// balance, keeps the in-order sequence (and, in a search tree, the books and
/// the order), is at most one level lower, and is the node itself when it was
/// already balanced.
pub proof fn lema_reequilibrar_tras_eliminar(m: Nodo)
    requires
        hijos_equilibrados(m),
        alturas_correctas(Some(Box::new(m))),
        -2 <= diferencia(m) <= 2,
    ensures
        ({
            let r = reequilibrar_tras_eliminar(m);
            &&& equilibrado(Some(Box::new(r)))
            &&& en_orden(Some(Box::new(r))) == en_orden(Some(Box::new(m)))
            &&& ordenado(Some(Box::new(m))) ==> ordenado(Some(Box::new(r))) && vista(
                Some(Box::new(r)),
            ) == vista(Some(Box::new(m)))
            &&& altura(Some(Box::new(r))) <= altura(Some(Box::new(m))) <= altura(Some(Box::new(r))) + 1
            &&& -1 <= diferencia(m) <= 1 ==> r == m
        }),
{
    lema_altura_registrada(m.izquierdo);
    lema_altura_registrada(m.derecho);
    lema_altura_cero(m.izquierdo);
    lema_altura_cero(m.derecho);
    let b = balance_registrado(m);
    assert(b == diferencia(m));
    if b > 1 {
        let l = *m.izquierdo.unwrap();
        assert(m.izquierdo == Some(Box::new(l)));
        lema_hijos_equilibrados(Box::new(l));
        lema_altura_registrada(l.izquierdo);
        lema_altura_registrada(l.derecho);
        assert(balance_registrado(l) == diferencia(l));
        if balance_registrado(l) >= 0 {
            lema_simple_derecha(m);
        } else {
            lema_doble_izquierda_derecha(m);
        }
    } else if b < -1 {
        let d = *m.derecho.unwrap();
        assert(m.derecho == Some(Box::new(d)));
        lema_hijos_equilibrados(Box::new(d));
        lema_altura_registrada(d.izquierdo);
        lema_altura_registrada(d.derecho);
        assert(balance_registrado(d) == diferencia(d));
        if balance_registrado(d) <= 0 {
            lema_simple_izquierda(m);
        } else {
            lema_doble_derecha_izquierda(m);
        }
    } else {
        assert(balanceado(Some(Box::new(m))));
    }
}

/// What `arbol_eliminado` leaves: on a tree with correct heights and balance,
/// a tree with correct heights and balance, at most one level lower, the same
/// tree when the search does not find the ISBN; on a search tree, a search
/// tree holding the old books but the removed one, with that book taken out
/// of the in-order sequence.
pub open spec fn eliminacion_correcta(t: Option<Box<Nodo>>, isbn: u32) -> bool {
    let r = arbol_eliminado(t, isbn);
    &&& equilibrado(r)
    &&& altura(r) <= altura(t) <= altura(r) + 1
    &&& libro_buscado(t, isbn) is None ==> r == t
    &&& ordenado(t) ==> ordenado(r)
    &&& ordenado(t) ==> vista(r) == vista(t).remove(isbn)
    &&& ordenado(t) && vista(t).contains_key(isbn) ==> exists|j: int|
        0 <= j < en_orden(t).len() && en_orden(t)[j].isbn == isbn && en_orden(r)
            == #[trigger] en_orden(t).remove(j)
}

/// `arbol_eliminado` is correct on any tree with correct heights and balance.
pub proof fn lema_arbol_eliminado(t: Option<Box<Nodo>>, isbn: u32)
    requires
        equilibrado(t),
    ensures
        eliminacion_correcta(t, isbn),
    decreases t, 2nat,
{
    lema_busqueda(t, isbn);
    match t {
        None => {
            assert(vista(t) =~= vista(t).remove(isbn));
        },
        Some(n) => {
            if isbn < n.libro.isbn {
                lema_eliminacion_izquierda(t, isbn);
            } else if isbn > n.libro.isbn {
                lema_eliminacion_derecha(t, isbn);
            } else {
                lema_eliminacion_en_la_raiz(t, isbn);
            }
        },
    }
}

/// Removal below the left child of the root.
proof fn lema_eliminacion_izquierda(t: Option<Box<Nodo>>, isbn: u32)
    requires
        equilibrado(t),
        t is Some,
        isbn < t.unwrap().libro.isbn,
    ensures
        eliminacion_correcta(t, isbn),
    decreases t, 1nat,
{
    lema_busqueda(t, isbn);
    lema_altura_registrada(t);
    let n = t.unwrap();
    lema_claves_hijos(n);
    lema_hijos_equilibrados(n);
    lema_altura_cero(n.izquierdo);
    lema_altura_cero(n.derecho);
    let si = en_orden(n.izquierdo);
    let sd = en_orden(n.derecho);
    assert(en_orden(t) == si + seq![n.libro] + sd);
    let c = arbol_eliminado(n.izquierdo, isbn);
    lema_arbol_eliminado(n.izquierdo, isbn);
    lema_altura_registrada(c);
    let m = con_altura_actualizada(con_izquierdo(*n, c));
    assert(alturas_correctas(Some(Box::new(m))));
    assert(hijos_equilibrados(m));
    if ordenado(t) {
        assert(!vista(n.derecho).contains_key(isbn));
        assert(ordenado(Some(Box::new(m))));
        assert(vista(Some(Box::new(m))) =~= vista(t).remove(isbn));
        if vista(t).contains_key(isbn) {
            let j = choose|j: int|
                0 <= j < si.len() && si[j].isbn == isbn && en_orden(c)
                    == #[trigger] si.remove(j);
            assert(en_orden(Some(Box::new(m))) =~= en_orden(t).remove(j));
            assert(en_orden(t)[j] == si[j]);
        }
    }
    if libro_buscado(t, isbn) is None {
        assert(m == *n);
    }
    lema_reequilibrar_tras_eliminar(m);
}

/// Removal below the right child of the root.
proof fn lema_eliminacion_derecha(t: Option<Box<Nodo>>, isbn: u32)
    requires
        equilibrado(t),
        t is Some,
        isbn > t.unwrap().libro.isbn,
    ensures
        eliminacion_correcta(t, isbn),
    decreases t, 1nat,
{
    lema_busqueda(t, isbn);
    lema_altura_registrada(t);
    let n = t.unwrap();
    lema_claves_hijos(n);
    lema_hijos_equilibrados(n);
    lema_altura_cero(n.izquierdo);
    lema_altura_cero(n.derecho);
    let si = en_orden(n.izquierdo);
    let sd = en_orden(n.derecho);
    assert(en_orden(t) == si + seq![n.libro] + sd);
    let c = arbol_eliminado(n.derecho, isbn);
    lema_arbol_eliminado(n.derecho, isbn);
    lema_altura_registrada(c);
    let m = con_altura_actualizada(con_derecho(*n, c));
    assert(alturas_correctas(Some(Box::new(m))));
    assert(hijos_equilibrados(m));
    if ordenado(t) {
        assert(!vista(n.izquierdo).contains_key(isbn));
        assert(ordenado(Some(Box::new(m))));
        assert(vista(Some(Box::new(m))) =~= vista(t).remove(isbn));
        if vista(t).contains_key(isbn) {
            let j = choose|j: int|
                0 <= j < sd.len() && sd[j].isbn == isbn && en_orden(c)
                    == #[trigger] sd.remove(j);
            let k = si.len() + 1 + j;
            assert(en_orden(Some(Box::new(m))) =~= en_orden(t).remove(k));
            assert(en_orden(t)[k] == sd[j]);
        }
    }
    if libro_buscado(t, isbn) is None {
        assert(m == *n);
    }
    lema_reequilibrar_tras_eliminar(m);
}

/// Removal of the root's own ISBN.
proof fn lema_eliminacion_en_la_raiz(t: Option<Box<Nodo>>, isbn: u32)
    requires
        equilibrado(t),
        t is Some,
        isbn == t.unwrap().libro.isbn,
    ensures
        eliminacion_correcta(t, isbn),
    decreases t, 1nat,
{
    lema_busqueda(t, isbn);
    lema_altura_registrada(t);
    let n = t.unwrap();
    lema_claves_hijos(n);
    lema_hijos_equilibrados(n);
    lema_altura_cero(n.izquierdo);
    lema_altura_cero(n.derecho);
    let si = en_orden(n.izquierdo);
    let sd = en_orden(n.derecho);
    assert(en_orden(t) == si + seq![n.libro] + sd);
    if ordenado(t) {
        assert(!vista(n.izquierdo).contains_key(isbn));
        assert(!vista(n.derecho).contains_key(isbn));
        assert(en_orden(t)[si.len() as int] == n.libro);
    }
    if n.izquierdo is None && n.derecho is None {
        if ordenado(t) {
            assert(vista(None) =~= vista(t).remove(isbn));
            assert(en_orden(None) =~= en_orden(t).remove(0));
        }
    } else if n.izquierdo is None {
        if ordenado(t) {
            assert(vista(n.derecho) =~= vista(t).remove(isbn));
            assert(en_orden(n.derecho) =~= en_orden(t).remove(0));
        }
    } else if n.derecho is None {
        if ordenado(t) {
            assert(vista(n.izquierdo) =~= vista(t).remove(isbn));
            assert(en_orden(n.izquierdo) =~= en_orden(t).remove(si.len() as int));
        }
    } else {
        lema_eliminar_con_dos_hijos(t, isbn);
    }
}

/// Removing the ISBN of a node with two children: the node takes the book of
/// its in-order successor, which leaves the right subtree.
proof fn lema_eliminar_con_dos_hijos(t: Option<Box<Nodo>>, isbn: u32)
    requires
        equilibrado(t),
        t is Some,
        t.unwrap().libro.isbn == isbn,
        t.unwrap().izquierdo is Some,
        t.unwrap().derecho is Some,
    ensures
        equilibrado(arbol_eliminado(t, isbn)),
        altura(arbol_eliminado(t, isbn)) <= altura(t) <= altura(arbol_eliminado(t, isbn)) + 1,
        ordenado(t) ==> ordenado(arbol_eliminado(t, isbn)),
        ordenado(t) ==> vista(arbol_eliminado(t, isbn)) == vista(t).remove(isbn),
        ordenado(t) ==> en_orden(arbol_eliminado(t, isbn)) == en_orden(t).remove(
            en_orden(t.unwrap().izquierdo).len() as int,
        ),
    decreases t, 0nat,
{
    let n = t.unwrap();
    lema_altura_registrada(t);
    lema_claves_hijos(n);
    lema_hijos_equilibrados(n);
    let si = en_orden(n.izquierdo);
    let sd = en_orden(n.derecho);
    assert(en_orden(t) == si + seq![n.libro] + sd);
    if ordenado(t) {
        assert(!vista(n.izquierdo).contains_key(isbn));
        assert(!vista(n.derecho).contains_key(isbn));
    }
        let rd = n.derecho.unwrap();
        assert(n.derecho == Some(rd));
        let s = isbn_mas_a_la_izquierda(rd);
        lema_mas_a_la_izquierda(rd);
        let c = arbol_eliminado(n.derecho, s);
        lema_arbol_eliminado(n.derecho, s);
        lema_altura_registrada(c);
        let m = con_altura_actualizada(
            Nodo { libro: libro_sucesor(*n), izquierdo: n.izquierdo, derecho: c, altura: n.altura },
        );
        assert(alturas_correctas(Some(Box::new(m))));
        assert(hijos_equilibrados(m));
        if ordenado(t) {
            lema_busqueda(n.derecho, s);
            lema_en_orden(n.derecho);
            assert(libro_sucesor(*n) == vista(n.derecho)[s]);
            assert(libro_sucesor(*n) == sd[0]);
            assert(n.libro.isbn < s);
            assert forall|k: u32| #[trigger] vista(n.izquierdo).contains_key(k) implies k < s by {}
            assert forall|k: u32| #[trigger] vista(c).contains_key(k) implies s < k by {
                assert(vista(n.derecho).contains_key(k));
            }
            assert(ordenado(Some(Box::new(m))));
            assert(vista(Some(Box::new(m))) =~= vista(t).remove(isbn));
            let j = choose|j: int|
                0 <= j < sd.len() && sd[j].isbn == s && en_orden(c) == #[trigger] sd.remove(j);
            assert(j == 0) by {
                if j > 0 {
                    assert(sd[0].isbn < sd[j].isbn);
                }
            }
            assert(en_orden(Some(Box::new(m))) =~= en_orden(t).remove(si.len() as int));
        }
    lema_reequilibrar_tras_eliminar(m);
}

/// Removes the book with ISBN `isbn` from the AVL tree `nodo_opt` and returns
/// the new root; an ISBN that the search does not find leaves the tree as it
/// was. The heights and the balance are kept on any tree that has them; the
/// books and the search order are kept on a search tree.
#[verifier::rlimit(40)]
pub fn eliminar(nodo_opt: Option<Box<Nodo>>, isbn: u32) -> (r: Option<Box<Nodo>>)
    requires
        equilibrado(nodo_opt),
    ensures
        r == arbol_eliminado(nodo_opt, isbn),
        libro_buscado(nodo_opt, isbn) is None ==> r == nodo_opt,
        !vista(nodo_opt).contains_key(isbn) ==> r == nodo_opt,
        equilibrado(r),
        altura(r) <= altura(nodo_opt) <= altura(r) + 1,
        ordenado(nodo_opt) ==> ordenado(r),
        ordenado(nodo_opt) ==> vista(r) == vista(nodo_opt).remove(isbn),
        ordenado(nodo_opt) && vista(nodo_opt).contains_key(isbn) ==> exists|j: int|
            0 <= j < en_orden(nodo_opt).len() && en_orden(nodo_opt)[j].isbn == isbn && en_orden(r)
                == #[trigger] en_orden(nodo_opt).remove(j),
    decreases nodo_opt,
{
    proof {
        lema_arbol_eliminado(nodo_opt, isbn);
        lema_busqueda(nodo_opt, isbn);
        lema_altura_registrada(nodo_opt);
    }
    match nodo_opt {
        None => None,
        Some(mut nodo) => {
            let ghost viejo = *nodo;
            proof {
                lema_claves_hijos(nodo);
                lema_hijos_equilibrados(nodo);
                lema_altura_cero(viejo.izquierdo);
                lema_altura_cero(viejo.derecho);
            }
            // Buscar el nodo a eliminar
            if isbn < nodo.libro.isbn {
                nodo.izquierdo = eliminar(nodo.izquierdo.take(), isbn);
            } else if isbn > nodo.libro.isbn {
                nodo.derecho = eliminar(nodo.derecho.take(), isbn);
            } else {
                // Nodo hoja
                if nodo.izquierdo.is_none() && nodo.derecho.is_none() {
                    return None;
                }
                // Nodo con solo hijo derecho
                if nodo.izquierdo.is_none() {
                    return nodo.derecho.take();
                }
                // Nodo con solo hijo izquierdo
                if nodo.derecho.is_none() {
                    return nodo.izquierdo.take();
                }
                // Nodo con dos hijos: el sucesor in-orden ocupa su lugar
                let sucesor_isbn = encontrar_minimo(nodo.derecho.as_ref().unwrap());
                if let Some(sucesor_libro) = buscar(&nodo.derecho, sucesor_isbn) {
                    nodo.libro = sucesor_libro.clone();
                }
                nodo.derecho = eliminar(nodo.derecho.take(), sucesor_isbn);
            }
            proof {
                lema_altura_registrada(nodo.izquierdo);
                lema_altura_registrada(nodo.derecho);
            }
            actualizar_altura(&mut nodo);
            proof {
                assert(alturas_correctas(Some(nodo)));
                assert(-1 <= diferencia(viejo) <= 1);
                lema_altura_cero(nodo.izquierdo);
                lema_altura_cero(nodo.derecho);
            }
            let balance = obtener_balance(&nodo);
            proof {
                assert(balance == diferencia(*nodo));
                if balance > 1 {
                    let l = *nodo.izquierdo.unwrap();
                    assert(nodo.izquierdo == Some(Box::new(l)));
                    assert(altura(nodo.izquierdo) == altura(nodo.derecho) + 2);
                    assert(equilibrado(Some(Box::new(l))));
                    lema_hijos_equilibrados(Box::new(l));
                }
                if balance < -1 {
                    let d = *nodo.derecho.unwrap();
                    assert(nodo.derecho == Some(Box::new(d)));
                    assert(altura(nodo.derecho) == altura(nodo.izquierdo) + 2);
                    assert(equilibrado(Some(Box::new(d))));
                    lema_hijos_equilibrados(Box::new(d));
                }
            }

            if balance > 1 && obtener_balance(nodo.izquierdo.as_ref().unwrap()) >= 0 {
                proof {
                    lema_simple_derecha(*nodo);
                }
                return Some(rotar_derecha(nodo));
            }
            if balance > 1 && obtener_balance(nodo.izquierdo.as_ref().unwrap()) < 0 {
                proof {
                    lema_doble_izquierda_derecha(*nodo);
                }
                let hijo_izq = nodo.izquierdo.take().unwrap();
                nodo.izquierdo = Some(rotar_izquierda(hijo_izq));
                return Some(rotar_derecha(nodo));
            }
            if balance < -1 && obtener_balance(nodo.derecho.as_ref().unwrap()) <= 0 {
                proof {
                    lema_simple_izquierda(*nodo);
                }
                return Some(rotar_izquierda(nodo));
            }
            if balance < -1 && obtener_balance(nodo.derecho.as_ref().unwrap()) > 0 {
                proof {
                    lema_doble_derecha_izquierda(*nodo);
                }
                let hijo_der = nodo.derecho.take().unwrap();
                nodo.derecho = Some(rotar_derecha(hijo_der));
                return Some(rotar_izquierda(nodo));
            }
            Some(nodo)
        },
    }
}

} // verus!
