use vstd::prelude::*;
use crate::arbol::{Nodo, altura};

verus! {

/// One printed line of the tree: the depth that sets its indentation and the book.
pub struct Linea {
    pub nivel: usize,
    pub isbn: u32,
    pub titulo: String,
}

/// A line as plain values.
pub open spec fn vista_linea(l: Linea) -> (nat, u32, Seq<char>) {
    (l.nivel as nat, l.isbn, l.titulo@)
}

/// The lines that print a tree sideways, its root at depth `nivel`: the right
/// subtree first, then the root, then the left subtree, each subtree one level deeper.
pub open spec fn lineas(t: Option<Box<Nodo>>, nivel: nat) -> Seq<(nat, u32, Seq<char>)>
    decreases t,
{
    match t {
        None => Seq::empty(),
        Some(n) => lineas(n.derecho, nivel + 1).push((nivel, n.libro.isbn, n.libro.titulo@)) + lineas(
            n.izquierdo,
            nivel + 1,
        ),
    }
}

/// The lines that print the tree `nodo` with its root at depth `nivel`
/// (indented by `4 * nivel` spaces when printed).
pub fn lineas_para_imprimir(nodo: &Option<Box<Nodo>>, nivel: usize) -> (v: Vec<Linea>)
    requires
        nivel + altura(*nodo) <= usize::MAX,
    ensures
        v@.map_values(|l: Linea| vista_linea(l)) == lineas(*nodo, nivel as nat),
    decreases *nodo,
{
    match nodo {
        None => Vec::new(),
        Some(n) => {
            let mut v = lineas_para_imprimir(&n.derecho, nivel + 1);
            let ghost antes = v@;
            v.push(Linea { nivel, isbn: n.libro.isbn, titulo: n.libro.titulo.clone() });
            let mut resto = lineas_para_imprimir(&n.izquierdo, nivel + 1);
            let ghost medio = v@;
            let ghost despues = resto@;
            v.append(&mut resto);
            proof {
                assert(medio.map_values(|l: Linea| vista_linea(l)) =~= antes.map_values(
                    |l: Linea| vista_linea(l),
                ).push((nivel as nat, n.libro.isbn, n.libro.titulo@)));
                assert(v@.map_values(|l: Linea| vista_linea(l)) =~= medio.map_values(
                    |l: Linea| vista_linea(l),
                ) + despues.map_values(|l: Linea| vista_linea(l)));
            }
            v
        },
    }
}

} // verus!
