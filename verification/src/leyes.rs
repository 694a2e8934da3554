use vstd::prelude::*;
use crate::arbol::{Libro, Nodo, altura, en_orden, es_avl, libro_buscado, ordenado, tamano, vista};
use crate::formato::{decimal, digito, texto_libro};
use crate::impresion::lineas;
use crate::eliminacion::{arbol_eliminado, lema_arbol_eliminado};
use crate::insercion::{arbol_insertado, lema_arbol_insertado};
use crate::lemas::{
    dos_a_la, lema_altura_acotada, lema_busqueda, lema_claves_hijos, lema_en_orden,
    lema_min_nodos_exponencial, lema_min_nodos_monotono, lema_tamano_minimo, lema_tamano_vista,
};

verus! {

/// After `insertar`, a search for the new book's ISBN finds the new book when
/// the ISBN was new and the stored book otherwise; a search for any other ISBN
/// finds what it found before.
pub proof fn ley_insertar_luego_buscar(t: Option<Box<Nodo>>, libro: Libro, otro: u32)
    requires
        es_avl(t),
    ensures
        libro_buscado(Some(arbol_insertado(t, libro)), otro) == if otro == libro.isbn
            && libro_buscado(t, otro) is None {
            Some(libro)
        } else {
            libro_buscado(t, otro)
        },
{
    lema_arbol_insertado(t, libro);
    lema_busqueda(t, otro);
    lema_busqueda(Some(arbol_insertado(t, libro)), otro);
}

/// After `eliminar`, a search for the removed ISBN finds nothing; a search
/// for any other ISBN finds what it found before.
pub proof fn ley_eliminar_luego_buscar(t: Option<Box<Nodo>>, isbn: u32, otro: u32)
    requires
        es_avl(t),
    ensures
        libro_buscado(arbol_eliminado(t, isbn), otro) == if otro == isbn {
            None::<Libro>
        } else {
            libro_buscado(t, otro)
        },
{
    lema_arbol_eliminado(t, isbn);
    lema_busqueda(t, otro);
    lema_busqueda(arbol_eliminado(t, isbn), otro);
}

/// Inserting a book with a new ISBN and then removing that ISBN gives back the
/// books of the original tree, in the same in-order sequence.
pub proof fn ley_insertar_y_eliminar(t: Option<Box<Nodo>>, libro: Libro)
    requires
        es_avl(t),
        !vista(t).contains_key(libro.isbn),
    ensures
        en_orden(arbol_eliminado(Some(arbol_insertado(t, libro)), libro.isbn)) == en_orden(t),
        vista(arbol_eliminado(Some(arbol_insertado(t, libro)), libro.isbn)) == vista(t),
{
    let r1 = Some(arbol_insertado(t, libro));
    lema_arbol_insertado(t, libro);
    lema_arbol_eliminado(r1, libro.isbn);
    lema_en_orden(r1);
    let s = en_orden(t);
    let i = choose|i: int| 0 <= i <= s.len() && en_orden(r1) == #[trigger] s.insert(i, libro);
    assert(vista(r1).contains_key(libro.isbn));
    let j = choose|j: int|
        0 <= j < en_orden(r1).len() && en_orden(r1)[j].isbn == libro.isbn && en_orden(
            arbol_eliminado(r1, libro.isbn),
        ) == #[trigger] en_orden(r1).remove(j);
    assert(en_orden(r1)[i] == libro);
    assert(j == i) by {
        if j < i {
            assert(en_orden(r1)[j].isbn < en_orden(r1)[i].isbn);
        } else if i < j {
            assert(en_orden(r1)[i].isbn < en_orden(r1)[j].isbn);
        }
    }
    assert(s.insert(i, libro).remove(i) =~= s);
    assert(vista(t).insert(libro.isbn, libro).remove(libro.isbn) =~= vista(t));
}

/// Removing a book and inserting it again gives back a tree where every
/// search finds what it found in the original tree.
pub proof fn ley_eliminar_y_reinsertar(t: Option<Box<Nodo>>, libro: Libro, otro: u32)
    requires
        es_avl(t),
        libro_buscado(t, libro.isbn) == Some(libro),
    ensures
        vista(Some(arbol_insertado(arbol_eliminado(t, libro.isbn), libro))) == vista(t),
        libro_buscado(Some(arbol_insertado(arbol_eliminado(t, libro.isbn), libro)), otro)
            == libro_buscado(t, otro),
{
    let r1 = arbol_eliminado(t, libro.isbn);
    lema_busqueda(t, libro.isbn);
    lema_arbol_eliminado(t, libro.isbn);
    lema_altura_acotada(r1);
    lema_arbol_insertado(r1, libro);
    assert(vista(t).remove(libro.isbn).insert(libro.isbn, libro) =~= vista(t));
    lema_busqueda(t, otro);
    lema_busqueda(Some(arbol_insertado(r1, libro)), otro);
}

/// Inserting a second book with an ISBN that is already present changes
/// nothing: the tree stays exactly as the first insertion left it.
pub proof fn ley_isbn_repetido(t: Option<Box<Nodo>>, primero: Libro, segundo: Libro)
    requires
        es_avl(t),
        primero.isbn == segundo.isbn,
    ensures
        arbol_insertado(Some(arbol_insertado(t, primero)), segundo) == arbol_insertado(t, primero),
{
    let r1 = Some(arbol_insertado(t, primero));
    lema_arbol_insertado(t, primero);
    lema_busqueda(r1, segundo.isbn);
    lema_altura_acotada(r1);
    lema_arbol_insertado(r1, segundo);
}

/// The node count after `insertar`: one more exactly when the ISBN was new.
pub proof fn ley_cuenta_tras_insertar(t: Option<Box<Nodo>>, libro: Libro)
    requires
        es_avl(t),
    ensures
        tamano(Some(arbol_insertado(t, libro))) == tamano(t) + if vista(t).contains_key(libro.isbn) {
            0int
        } else {
            1int
        },
{
    lema_arbol_insertado(t, libro);
    lema_tamano_vista(t);
    lema_tamano_vista(Some(arbol_insertado(t, libro)));
}

/// The node count after `eliminar`: one fewer exactly when the ISBN was present.
pub proof fn ley_cuenta_tras_eliminar(t: Option<Box<Nodo>>, isbn: u32)
    requires
        es_avl(t),
    ensures
        tamano(arbol_eliminado(t, isbn)) == tamano(t) - if vista(t).contains_key(isbn) {
            1int
        } else {
            0int
        },
{
    lema_arbol_eliminado(t, isbn);
    lema_tamano_vista(t);
    lema_tamano_vista(arbol_eliminado(t, isbn));
    if !vista(t).contains_key(isbn) {
        assert(vista(t).remove(isbn) =~= vista(t));
    }
}

/// An AVL tree of `n` books has height at most `2 log2(n + 1) + 1`, so a
/// search visits few nodes; with ISBNs of 32 bits the height never exceeds 65.
pub proof fn ley_altura_logaritmica(t: Option<Box<Nodo>>)
    requires
        es_avl(t),
    ensures
        dos_a_la(altura(t) / 2) <= tamano(t) + 1,
        tamano(t) == vista(t).len(),
        altura(t) <= 65,
{
    lema_tamano_vista(t);
    lema_altura_acotada(t);
    lema_tamano_minimo(t);
    let k = altura(t) / 2;
    lema_min_nodos_exponencial(k);
    lema_min_nodos_monotono(2 * k, altura(t));
}

/// The numeric value of a decimal digit character.
pub open spec fn valor_cifra(c: char) -> int {
    c as int - '0' as int
}

/// The number that a string of decimal digits denotes.
pub open spec fn valor_decimal(s: Seq<char>) -> int
    decreases s.len(),
{
    if s.len() == 0 {
        0
    } else {
        valor_decimal(s.drop_last()) * 10 + valor_cifra(s.last())
    }
}

/// The decimal text of `n` reads back as `n`: it is a non-empty string of
/// digits, without a leading zero unless it is the single digit `0`, whose value
/// in base ten is `n`.
pub proof fn ley_decimal(n: nat)
    ensures
        decimal(n).len() > 0,
        forall|i: int| 0 <= i < decimal(n).len() ==> 0 <= valor_cifra(#[trigger] decimal(n)[i]) <= 9,
        decimal(n).len() > 1 <==> n >= 10,
        decimal(n).len() > 1 ==> decimal(n)[0] != '0',
        valor_decimal(decimal(n)) == n,
    decreases n,
{
    if n < 10 {
        assert(valor_cifra(digito(n)) == n);
        assert(decimal(n).drop_last() =~= Seq::<char>::empty());
        assert(valor_decimal(decimal(n).drop_last()) == 0);
        assert(decimal(n).last() == digito(n));
    } else {
        let m = n / 10;
        let d = n % 10;
        ley_decimal(m);
        assert(valor_cifra(digito(d)) == d);
        let s = decimal(n);
        assert(s == decimal(m) + seq![digito(d)]);
        assert(s.drop_last() =~= decimal(m));
        assert(s.last() == digito(d));
        assert(valor_decimal(s) == valor_decimal(decimal(m)) * 10 + d);
        assert(m * 10 + d == n);
        assert(s[0] == decimal(m)[0]);
        if decimal(m).len() == 1 {
            assert(decimal(m) == seq![digito(m)]);
        }
        assert forall|i: int| 0 <= i < s.len() implies 0 <= valor_cifra(#[trigger] s[i]) <= 9 by {
            if i < decimal(m).len() {
                assert(s[i] == decimal(m)[i]);
            }
        }
    }
}

/// The description of a book is a prefix that depends on the ISBN alone
/// followed by the whole title.
pub proof fn ley_texto_libro(isbn: u32, titulo: Seq<char>, otro_titulo: Seq<char>)
    ensures
        ({
            let s = texto_libro(isbn, titulo);
            let o = texto_libro(isbn, otro_titulo);
            &&& s.len() >= titulo.len()
            &&& s.subrange(s.len() - titulo.len(), s.len() as int) == titulo
            &&& s.len() - titulo.len() == o.len() - otro_titulo.len()
            &&& s.subrange(0, s.len() - titulo.len()) == o.subrange(0, o.len() - otro_titulo.len())
        }),
{
    let p = "ISBN: "@ + decimal(isbn as nat) + ", Titulo: "@;
    assert(texto_libro(isbn, titulo) == p + titulo);
    assert(texto_libro(isbn, otro_titulo) == p + otro_titulo);
    assert((p + titulo).subrange(p.len() as int, (p + titulo).len() as int) =~= titulo);
    assert((p + titulo).subrange(0, p.len() as int) =~= p);
    assert((p + otro_titulo).subrange(0, p.len() as int) =~= p);
}

/// The depth of the node a binary search for `isbn` stops at: the number of
/// nodes it passes on the way.
pub open spec fn profundidad(t: Option<Box<Nodo>>, isbn: u32) -> nat
    decreases t,
{
    match t {
        None => 0,
        Some(n) => if isbn == n.libro.isbn {
            0
        } else if isbn < n.libro.isbn {
            1 + profundidad(n.izquierdo, isbn)
        } else {
            1 + profundidad(n.derecho, isbn)
        },
    }
}

/// Printing a tree sideways gives one line per book: read from the last line
/// to the first, the lines carry the books in order of ISBN (the in-order
/// sequence); every line lies between `nivel` and `nivel` plus the tree's
/// height, and only the root's line is at `nivel`; in a search tree each line
/// is indented by `nivel` plus the depth of its book's node.
pub proof fn ley_lineas(t: Option<Box<Nodo>>, nivel: nat)
    ensures
        en_orden(t).len() == tamano(t),
        lineas(t, nivel).len() == en_orden(t).len(),
        forall|i: int| #![trigger lineas(t, nivel)[i]] 0 <= i < lineas(t, nivel).len() ==> {
            let b = en_orden(t)[lineas(t, nivel).len() - 1 - i];
            &&& lineas(t, nivel)[i].1 == b.isbn
            &&& lineas(t, nivel)[i].2 == b.titulo@
            &&& nivel <= lineas(t, nivel)[i].0 < nivel + altura(t)
        },
        forall|i: int, j: int|
            #![trigger lineas(t, nivel)[i], lineas(t, nivel)[j]]
            0 <= i < lineas(t, nivel).len() && 0 <= j < lineas(t, nivel).len() && lineas(t, nivel)[i].0
                == nivel && lineas(t, nivel)[j].0 == nivel ==> i == j,
        ordenado(t) ==> forall|i: int| #![trigger lineas(t, nivel)[i]]
            0 <= i < lineas(t, nivel).len() ==> lineas(t, nivel)[i].0 == nivel + profundidad(
                t,
                lineas(t, nivel)[i].1,
            ),
    decreases t,
{
    match t {
        None => {},
        Some(n) => {
            ley_lineas(n.izquierdo, nivel + 1);
            ley_lineas(n.derecho, nivel + 1);
            let a = lineas(n.derecho, nivel + 1);
            let b = lineas(n.izquierdo, nivel + 1);
            let x = (nivel, n.libro.isbn, n.libro.titulo@);
            let l = lineas(t, nivel);
            let e = en_orden(t);
            let el = en_orden(n.izquierdo);
            let er = en_orden(n.derecho);
            assert(l == a.push(x) + b);
            assert(e == el + seq![n.libro] + er);
            let len = l.len();
            assert(len == a.len() + 1 + b.len());
            assert forall|i: int| #![trigger l[i]] 0 <= i < len implies {
                let c = e[len - 1 - i];
                &&& l[i].1 == c.isbn
                &&& l[i].2 == c.titulo@
                &&& nivel <= l[i].0 < nivel + altura(t)
            } by {
                if i < a.len() {
                    assert(l[i] == a[i]);
                    assert(e[len - 1 - i] == er[a.len() - 1 - i]);
                } else if i == a.len() {
                    assert(l[i] == x);
                    assert(e[len - 1 - i] == n.libro);
                } else {
                    assert(l[i] == b[i - a.len() - 1]);
                    assert(e[len - 1 - i] == el[b.len() - 1 - (i - a.len() - 1)]);
                }
            }
            if ordenado(t) {
                lema_claves_hijos(n);
                lema_en_orden(n.izquierdo);
                lema_en_orden(n.derecho);
                assert forall|i: int| #![trigger l[i]] 0 <= i < len implies l[i].0 == nivel
                    + profundidad(t, l[i].1) by {
                    if i < a.len() {
                        assert(l[i] == a[i]);
                        let k = a.len() - 1 - i;
                        assert(er[k].isbn == a[i].1);
                        assert(vista(n.derecho).contains_key(er[k].isbn));
                    } else if i == a.len() {
                        assert(l[i] == x);
                    } else {
                        assert(l[i] == b[i - a.len() - 1]);
                        let k = b.len() - 1 - (i - a.len() - 1);
                        assert(el[k].isbn == b[i - a.len() - 1].1);
                        assert(vista(n.izquierdo).contains_key(el[k].isbn));
                    }
                }
            }
            assert forall|i: int, j: int| #![trigger l[i], l[j]]
                0 <= i < len && 0 <= j < len && l[i].0 == nivel && l[j].0 == nivel implies i == j by {
                if i < a.len() {
                    assert(l[i] == a[i]);
                } else if i > a.len() {
                    assert(l[i] == b[i - a.len() - 1]);
                }
                if j < a.len() {
                    assert(l[j] == a[j]);
                } else if j > a.len() {
                    assert(l[j] == b[j - a.len() - 1]);
                }
            }
        },
    }
}

} // verus!
