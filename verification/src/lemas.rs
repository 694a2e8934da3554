use vstd::prelude::*;
use crate::arbol::{
    Libro, Nodo, altura, altura_registrada, alturas_correctas, balanceado, clave_maxima,
    clave_minima, diferencia, en_orden, equilibrado, libro_buscado, mayor, ordenado,
    rotacion_derecha, rotacion_derecha_cabe, rotacion_izquierda, rotacion_izquierda_cabe, tamano,
    vista,
};

verus! {

// ---------------------------------------------------------------------------
// Heights recorded and heights computed
// ---------------------------------------------------------------------------

/// In a tree with correct heights the root records the true height.
pub proof fn lema_altura_registrada(t: Option<Box<Nodo>>)
    requires
        alturas_correctas(t),
    ensures
        altura_registrada(t) == altura(t) as int,
{
}

/// The children of a node of a tree with correct heights and balance have
/// correct heights and balance, and their roots record their true heights.
pub proof fn lema_hijos_equilibrados(n: Box<Nodo>)
    requires
        equilibrado(Some(n)),
    ensures
        equilibrado(n.izquierdo),
        equilibrado(n.derecho),
        altura_registrada(n.izquierdo) == altura(n.izquierdo) as int,
        altura_registrada(n.derecho) == altura(n.derecho) as int,
        -1 <= diferencia(*n) <= 1,
{
    lema_altura_registrada(n.izquierdo);
    lema_altura_registrada(n.derecho);
}

/// A binary search only finds a book the tree holds under that ISBN; in a
/// search tree it finds exactly the book stored under the ISBN.
pub proof fn lema_busqueda(t: Option<Box<Nodo>>, k: u32)
    ensures
        libro_buscado(t, k) matches Some(l) ==> l.isbn == k && vista(t).contains_key(k),
        ordenado(t) ==> libro_buscado(t, k) == if vista(t).contains_key(k) {
            Some(vista(t)[k])
        } else {
            None::<Libro>
        },
    decreases t,
{
    match t {
        None => {},
        Some(n) => {
            lema_claves_hijos(n);
            lema_busqueda(n.izquierdo, k);
            lema_busqueda(n.derecho, k);
            if ordenado(t) {
                if k < n.libro.isbn {
                    assert(!vista(n.derecho).contains_key(k));
                } else if k > n.libro.isbn {
                    assert(!vista(n.izquierdo).contains_key(k));
                }
            }
        },
    }
}

/// In a search tree the books come in order strictly increasing by ISBN, and
/// each is the book the tree stores under its ISBN.
pub proof fn lema_en_orden(t: Option<Box<Nodo>>)
    requires
        ordenado(t),
    ensures
        forall|i: int| 0 <= i < en_orden(t).len() ==> #[trigger] vista(t).contains_key(en_orden(t)[i].isbn)
            && vista(t)[en_orden(t)[i].isbn] == en_orden(t)[i],
        forall|i: int, j: int| 0 <= i < j < en_orden(t).len() ==> en_orden(t)[i].isbn < en_orden(t)[j].isbn,
    decreases t,
{
    match t {
        None => {},
        Some(n) => {
            lema_claves_hijos(n);
            lema_en_orden(n.izquierdo);
            lema_en_orden(n.derecho);
            let si = en_orden(n.izquierdo);
            let sd = en_orden(n.derecho);
            let s = en_orden(t);
            assert(s == si + seq![n.libro] + sd);
            assert forall|i: int| 0 <= i < s.len() implies #[trigger] vista(t).contains_key(s[i].isbn)
                && vista(t)[s[i].isbn] == s[i] by {
                if i < si.len() {
                    assert(s[i] == si[i]);
                    assert(vista(n.izquierdo).contains_key(si[i].isbn));
                    assert(!vista(n.derecho).contains_key(si[i].isbn));
                } else if i > si.len() {
                    assert(s[i] == sd[i - si.len() - 1]);
                    assert(vista(n.derecho).contains_key(sd[i - si.len() - 1].isbn));
                }
            }
            assert forall|i: int, j: int| 0 <= i < j < s.len() implies s[i].isbn < s[j].isbn by {
                if i < si.len() {
                    assert(vista(n.izquierdo).contains_key(si[i].isbn));
                    if j > si.len() {
                        assert(vista(n.derecho).contains_key(sd[j - si.len() - 1].isbn));
                    }
                } else if i == si.len() {
                    assert(vista(n.derecho).contains_key(sd[j - si.len() - 1].isbn));
                } else {
                    assert(s[i] == sd[i - si.len() - 1]);
                    assert(s[j] == sd[j - si.len() - 1]);
                }
            }
        },
    }
}

/// The largest key is the key that no other key exceeds.
pub proof fn lema_clave_maxima(m: Map<u32, Libro>, k: u32)
    requires
        m.contains_key(k),
        forall|j: u32| #[trigger] m.contains_key(j) ==> j <= k,
    ensures
        clave_maxima(m) == k,
{
    let c = clave_maxima(m);
    assert(m.contains_key(c) && forall|j: u32| #[trigger] m.contains_key(j) ==> j <= c);
    assert(c <= k && k <= c);
}

/// The smallest key is the key that exceeds no other key.
pub proof fn lema_clave_minima(m: Map<u32, Libro>, k: u32)
    requires
        m.contains_key(k),
        forall|j: u32| #[trigger] m.contains_key(j) ==> k <= j,
    ensures
        clave_minima(m) == k,
{
    let c = clave_minima(m);
    assert(m.contains_key(c) && forall|j: u32| #[trigger] m.contains_key(j) ==> c <= j);
    assert(c <= k && k <= c);
}

/// A tree is empty exactly when its height is 0.
pub proof fn lema_altura_cero(t: Option<Box<Nodo>>)
    ensures
        (altura(t) == 0) <==> (t is None),
{
}

// ---------------------------------------------------------------------------
// The size of a search tree is bounded by the range of its keys
// ---------------------------------------------------------------------------

/// Every key of a subtree is a key of the whole tree.
pub proof fn lema_claves_hijos(n: Box<Nodo>)
    ensures
        forall|k: u32| #[trigger] vista(n.izquierdo).contains_key(k) ==> vista(Some(n)).contains_key(k),
        forall|k: u32| #[trigger] vista(n.derecho).contains_key(k) ==> vista(Some(n)).contains_key(k),
        vista(Some(n)).contains_key(n.libro.isbn),
        forall|k: u32| #[trigger] vista(Some(n)).contains_key(k) ==> k == n.libro.isbn
            || vista(n.izquierdo).contains_key(k) || vista(n.derecho).contains_key(k),
{
}

/// A search tree whose keys lie strictly between `lo` and `hi` has fewer than
/// `hi - lo` nodes.
pub proof fn lema_tamano_por_rango(t: Option<Box<Nodo>>, lo: int, hi: int)
    requires
        lo < hi,
        ordenado(t),
        forall|k: u32| #[trigger] vista(t).contains_key(k) ==> lo < k < hi,
    ensures
        tamano(t) + lo < hi,
    decreases t,
{
    match t {
        None => {},
        Some(n) => {
            let k = n.libro.isbn as int;
            lema_claves_hijos(n);
            assert(lo < k < hi);
            lema_tamano_por_rango(n.izquierdo, lo, k);
            lema_tamano_por_rango(n.derecho, k, hi);
        },
    }
}

/// In a search tree every node holds a different ISBN, so the number of nodes
/// is the number of books.
pub proof fn lema_tamano_vista(t: Option<Box<Nodo>>)
    requires
        ordenado(t),
    ensures
        vista(t).dom().finite(),
        vista(t).len() == tamano(t),
    decreases t,
{
    match t {
        None => {
            assert(vista(t).dom() =~= Set::<u32>::empty());
        },
        Some(n) => {
            lema_tamano_vista(n.izquierdo);
            lema_tamano_vista(n.derecho);
            let dl = vista(n.izquierdo).dom();
            let dr = vista(n.derecho).dom();
            assert(dl.disjoint(dr));
            vstd::set_lib::lemma_set_disjoint_lens(dl, dr);
            assert(vista(n.izquierdo).union_prefer_right(vista(n.derecho)).dom() =~= dl + dr);
            assert(!(dl + dr).contains(n.libro.isbn));
            vstd::set::axiom_set_insert_len(dl + dr, n.libro.isbn);
            assert(vista(t).dom() =~= (dl + dr).insert(n.libro.isbn));
        },
    }
}

// ---------------------------------------------------------------------------
// The fewest nodes an AVL tree of a given height can have
// ---------------------------------------------------------------------------

/// The fewest nodes of a balanced tree of height `h`.
pub open spec fn min_nodos(h: nat) -> nat
    decreases h,
{
    if h == 0 {
        0
    } else if h == 1 {
        1
    } else {
        1 + min_nodos((h - 1) as nat) + min_nodos((h - 2) as nat)
    }
}

/// `min_nodos` grows with the height.
pub proof fn lema_min_nodos_monotono(a: nat, b: nat)
    requires
        a <= b,
    ensures
        min_nodos(a) <= min_nodos(b),
    decreases b,
{
    if a < b {
        lema_min_nodos_monotono(a, (b - 1) as nat);
        if b >= 2 {
            assert(min_nodos(b) == 1 + min_nodos((b - 1) as nat) + min_nodos((b - 2) as nat));
        }
    }
}

/// A balanced tree has at least `min_nodos` of its height nodes.
pub proof fn lema_tamano_minimo(t: Option<Box<Nodo>>)
    requires
        balanceado(t),
    ensures
        tamano(t) >= min_nodos(altura(t)),
    decreases t,
{
    match t {
        None => {},
        Some(n) => {
            lema_tamano_minimo(n.izquierdo);
            lema_tamano_minimo(n.derecho);
            let hl = altura(n.izquierdo);
            let hr = altura(n.derecho);
            let h = altura(t);
            if h >= 2 {
                if hl >= hr {
                    assert(hl == h - 1);
                    lema_min_nodos_monotono((h - 2) as nat, hr);
                } else {
                    assert(hr == h - 1);
                    lema_min_nodos_monotono((h - 2) as nat, hl);
                }
            }
        },
    }
}

/// Two to the power `k`.
pub open spec fn dos_a_la(k: nat) -> nat
    decreases k,
{
    if k == 0 {
        1
    } else {
        2 * dos_a_la((k - 1) as nat)
    }
}

/// `min_nodos` at least doubles every two levels.
pub proof fn lema_min_nodos_exponencial(k: nat)
    ensures
        min_nodos(2 * k) + 1 >= dos_a_la(k),
    decreases k,
{
    if k > 0 {
        let j = (k - 1) as nat;
        lema_min_nodos_exponencial(j);
        lema_min_nodos_monotono(2 * j, 2 * j + 1);
        assert(min_nodos(2 * k) == 1 + min_nodos(2 * j + 1) + min_nodos(2 * j));
    }
}

/// An ordered, balanced tree of `u32` keys has height at most 65.
pub proof fn lema_altura_acotada(t: Option<Box<Nodo>>)
    requires
        ordenado(t),
        balanceado(t),
    ensures
        altura(t) <= 65,
{
    lema_tamano_por_rango(t, -1, 0x1_0000_0000);
    lema_tamano_minimo(t);
    if altura(t) > 65 {
        lema_min_nodos_exponencial(33);
        lema_min_nodos_monotono(66, altura(t));
        assert(dos_a_la(33) == 0x2_0000_0000) by {
            reveal_with_fuel(dos_a_la, 34);
        }
    }
}

// ---------------------------------------------------------------------------
// Rotations keep the contents and the order
// ---------------------------------------------------------------------------

/// A right rotation at `y` keeps the books and the search order, records correct
/// heights, and moves the three subtrees `A`, `B`, `C` of `((A x B) y C)` to
/// `(A x (B y C))`.
pub proof fn lema_rotacion_derecha(y: Nodo)
    requires
        y.izquierdo is Some,
        alturas_correctas(y.izquierdo.unwrap().izquierdo),
        alturas_correctas(y.izquierdo.unwrap().derecho),
        alturas_correctas(y.derecho),
        altura(y.izquierdo.unwrap().izquierdo) < i32::MAX - 1,
        altura(y.izquierdo.unwrap().derecho) < i32::MAX - 1,
        altura(y.derecho) < i32::MAX - 1,
    ensures
        ({
            let x = *y.izquierdo.unwrap();
            let r = rotacion_derecha(y);
            let b = *r.derecho.unwrap();
            &&& rotacion_derecha_cabe(y)
            &&& r.libro == x.libro
            &&& r.izquierdo == x.izquierdo
            &&& r.derecho is Some
            &&& b.libro == y.libro
            &&& b.izquierdo == x.derecho
            &&& b.derecho == y.derecho
            &&& ordenado(Some(Box::new(y))) ==> ordenado(Some(Box::new(r))) && vista(
                Some(Box::new(r)),
            ) == vista(Some(Box::new(y)))
            &&& alturas_correctas(Some(Box::new(r)))
            &&& en_orden(Some(Box::new(r))) == en_orden(Some(Box::new(y)))
            &&& altura(r.derecho) == 1 + mayor(altura(x.derecho) as int, altura(y.derecho) as int)
            &&& altura(Some(Box::new(r))) == 1 + mayor(
                altura(x.izquierdo) as int,
                altura(r.derecho) as int,
            )
        }),
{
    let x = *y.izquierdo.unwrap();
    let r = rotacion_derecha(y);
    let b = *r.derecho.unwrap();
    lema_altura_registrada(x.izquierdo);
    lema_altura_registrada(x.derecho);
    lema_altura_registrada(y.derecho);
    lema_claves_hijos(Box::new(x));
    lema_claves_hijos(Box::new(y));
    lema_claves_hijos(Box::new(b));
    lema_claves_hijos(Box::new(r));
    assert(y.izquierdo == Some(Box::new(x)));
    assert(r.derecho == Some(Box::new(b)));
    assert(alturas_correctas(Some(Box::new(b))));
    assert(en_orden(Some(Box::new(r))) =~= en_orden(Some(Box::new(y)))) by {
        assert(en_orden(Some(Box::new(x))) == en_orden(x.izquierdo) + seq![x.libro] + en_orden(x.derecho));
        assert(en_orden(Some(Box::new(b))) == en_orden(x.derecho) + seq![y.libro] + en_orden(y.derecho));
    }
    if ordenado(Some(Box::new(y))) {
    assert(ordenado(y.izquierdo));
    assert(ordenado(Some(Box::new(x))));
    assert forall|k: u32| #[trigger] vista(x.derecho).contains_key(k) implies k < y.libro.isbn
        && x.libro.isbn < k by {
        assert(vista(Some(Box::new(x))).contains_key(k));
    }
    assert(x.libro.isbn < y.libro.isbn) by {
        assert(vista(Some(Box::new(x))).contains_key(x.libro.isbn));
    }
    assert(ordenado(Some(Box::new(b))));
    assert forall|k: u32| #[trigger] vista(r.derecho).contains_key(k) implies x.libro.isbn < k by {
        if k != y.libro.isbn && !vista(y.derecho).contains_key(k) {
            assert(vista(x.derecho).contains_key(k));
        }
    }
    assert(ordenado(Some(Box::new(r))));
    assert(vista(Some(Box::new(r))) =~= vista(Some(Box::new(y)))) by {
        let va = vista(x.izquierdo);
        let vb = vista(x.derecho);
        let vc = vista(y.derecho);
        assert(vista(Some(Box::new(x))) == va.union_prefer_right(vb).insert(x.libro.isbn, x.libro));
        assert(vista(Some(Box::new(b))) == vb.union_prefer_right(vc).insert(y.libro.isbn, y.libro));
        assert(vista(Some(Box::new(r))) == va.union_prefer_right(vista(r.derecho)).insert(x.libro.isbn, x.libro));
        assert(vista(Some(Box::new(y))) == vista(y.izquierdo).union_prefer_right(vc).insert(y.libro.isbn, y.libro));
        assert forall|k: u32| #[trigger] vista(y.derecho).contains_key(k) implies y.libro.isbn < k by {}
        assert forall|k: u32| #[trigger] vista(x.izquierdo).contains_key(k) implies k < x.libro.isbn by {}
    }
    }
}

/// A left rotation at `x` keeps the books and the search order, records correct
/// heights, and moves the three subtrees `A`, `B`, `C` of `(A x (B y C))` to
/// `((A x B) y C)`.
pub proof fn lema_rotacion_izquierda(x: Nodo)
    requires
        x.derecho is Some,
        alturas_correctas(x.izquierdo),
        alturas_correctas(x.derecho.unwrap().izquierdo),
        alturas_correctas(x.derecho.unwrap().derecho),
        altura(x.izquierdo) < i32::MAX - 1,
        altura(x.derecho.unwrap().izquierdo) < i32::MAX - 1,
        altura(x.derecho.unwrap().derecho) < i32::MAX - 1,
    ensures
        ({
            let y = *x.derecho.unwrap();
            let r = rotacion_izquierda(x);
            let a = *r.izquierdo.unwrap();
            &&& rotacion_izquierda_cabe(x)
            &&& r.libro == y.libro
            &&& r.derecho == y.derecho
            &&& r.izquierdo is Some
            &&& a.libro == x.libro
            &&& a.izquierdo == x.izquierdo
            &&& a.derecho == y.izquierdo
            &&& ordenado(Some(Box::new(x))) ==> ordenado(Some(Box::new(r))) && vista(
                Some(Box::new(r)),
            ) == vista(Some(Box::new(x)))
            &&& alturas_correctas(Some(Box::new(r)))
            &&& en_orden(Some(Box::new(r))) == en_orden(Some(Box::new(x)))
            &&& altura(r.izquierdo) == 1 + mayor(altura(x.izquierdo) as int, altura(y.izquierdo) as int)
            &&& altura(Some(Box::new(r))) == 1 + mayor(
                altura(r.izquierdo) as int,
                altura(y.derecho) as int,
            )
        }),
{
    let y = *x.derecho.unwrap();
    let r = rotacion_izquierda(x);
    let a = *r.izquierdo.unwrap();
    lema_altura_registrada(x.izquierdo);
    lema_altura_registrada(y.izquierdo);
    lema_altura_registrada(y.derecho);
    lema_claves_hijos(Box::new(x));
    lema_claves_hijos(Box::new(y));
    lema_claves_hijos(Box::new(a));
    lema_claves_hijos(Box::new(r));
    assert(x.derecho == Some(Box::new(y)));
    assert(r.izquierdo == Some(Box::new(a)));
    assert(alturas_correctas(Some(Box::new(a))));
    assert(en_orden(Some(Box::new(r))) =~= en_orden(Some(Box::new(x)))) by {
        assert(en_orden(Some(Box::new(y))) == en_orden(y.izquierdo) + seq![y.libro] + en_orden(y.derecho));
        assert(en_orden(Some(Box::new(a))) == en_orden(x.izquierdo) + seq![x.libro] + en_orden(y.izquierdo));
    }
    if ordenado(Some(Box::new(x))) {
    assert(ordenado(x.derecho));
    assert(ordenado(Some(Box::new(y))));
    assert forall|k: u32| #[trigger] vista(y.izquierdo).contains_key(k) implies x.libro.isbn < k
        && k < y.libro.isbn by {
        assert(vista(Some(Box::new(y))).contains_key(k));
    }
    assert(x.libro.isbn < y.libro.isbn) by {
        assert(vista(Some(Box::new(y))).contains_key(y.libro.isbn));
    }
    assert(ordenado(Some(Box::new(a))));
    assert forall|k: u32| #[trigger] vista(r.izquierdo).contains_key(k) implies k < y.libro.isbn by {
        if k != x.libro.isbn && !vista(x.izquierdo).contains_key(k) {
            assert(vista(y.izquierdo).contains_key(k));
        }
    }
    assert(ordenado(Some(Box::new(r))));
    assert(vista(Some(Box::new(r))) =~= vista(Some(Box::new(x)))) by {
        let va = vista(x.izquierdo);
        let vb = vista(y.izquierdo);
        let vc = vista(y.derecho);
        assert(vista(Some(Box::new(y))) == vb.union_prefer_right(vc).insert(y.libro.isbn, y.libro));
        assert(vista(Some(Box::new(a))) == va.union_prefer_right(vb).insert(x.libro.isbn, x.libro));
        assert(vista(Some(Box::new(r))) == vista(r.izquierdo).union_prefer_right(vc).insert(y.libro.isbn, y.libro));
        assert(vista(Some(Box::new(x))) == va.union_prefer_right(vista(x.derecho)).insert(x.libro.isbn, x.libro));
        assert forall|k: u32| #[trigger] vista(x.izquierdo).contains_key(k) implies k < x.libro.isbn by {}
        assert forall|k: u32| #[trigger] vista(y.derecho).contains_key(k) implies y.libro.isbn < k by {}
    }
    }
}

} // verus!
