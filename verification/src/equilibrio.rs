use vstd::prelude::*;
use crate::arbol::{
    Nodo, altura, balanceado, con_derecho, con_izquierdo, diferencia, en_orden, equilibrado,
    ordenado, rotacion_derecha, rotacion_derecha_cabe, rotacion_izquierda, rotacion_izquierda_cabe,
    vista,
};
use crate::lemas::{lema_rotacion_derecha, lema_rotacion_izquierda};

verus! {

/// A node whose two subtrees have correct heights and balance; its own
/// recorded height and balance may be off.
pub open spec fn hijos_equilibrados(n: Nodo) -> bool {
    &&& equilibrado(n.izquierdo)
    &&& equilibrado(n.derecho)
}

/// Left side two levels taller, left child not leaning right: one right
/// rotation restores the balance.
pub proof fn lema_simple_derecha(n: Nodo)
    requires
        hijos_equilibrados(n),
        altura(n.izquierdo) < i32::MAX,
        altura(n.izquierdo) == altura(n.derecho) + 2,
        0 <= diferencia(*n.izquierdo.unwrap()) <= 1,
    ensures
        n.izquierdo is Some,
        rotacion_derecha_cabe(n),
        equilibrado(Some(Box::new(rotacion_derecha(n)))),
        en_orden(Some(Box::new(rotacion_derecha(n)))) == en_orden(Some(Box::new(n))),
        ordenado(Some(Box::new(n))) ==> ordenado(Some(Box::new(rotacion_derecha(n)))) && vista(
            Some(Box::new(rotacion_derecha(n))),
        ) == vista(Some(Box::new(n))),
        altura(Some(Box::new(rotacion_derecha(n)))) == altura(n.izquierdo) + 1 - diferencia(
            *n.izquierdo.unwrap(),
        ),
{
    let x = *n.izquierdo.unwrap();
    assert(n.izquierdo == Some(Box::new(x)));
    assert(equilibrado(Some(Box::new(x))));
    lema_rotacion_derecha(n);
    let r = rotacion_derecha(n);
    let b = *r.derecho.unwrap();
    assert(r.derecho == Some(Box::new(b)));
    assert(balanceado(Some(Box::new(b))));
    assert(balanceado(Some(Box::new(r))));
}

/// Right side two levels taller, right child not leaning left: one left
/// rotation restores the balance.
pub proof fn lema_simple_izquierda(n: Nodo)
    requires
        hijos_equilibrados(n),
        altura(n.derecho) < i32::MAX,
        altura(n.derecho) == altura(n.izquierdo) + 2,
        -1 <= diferencia(*n.derecho.unwrap()) <= 0,
    ensures
        n.derecho is Some,
        rotacion_izquierda_cabe(n),
        equilibrado(Some(Box::new(rotacion_izquierda(n)))),
        en_orden(Some(Box::new(rotacion_izquierda(n)))) == en_orden(Some(Box::new(n))),
        ordenado(Some(Box::new(n))) ==> ordenado(Some(Box::new(rotacion_izquierda(n)))) && vista(
            Some(Box::new(rotacion_izquierda(n))),
        ) == vista(Some(Box::new(n))),
        altura(Some(Box::new(rotacion_izquierda(n)))) == altura(n.derecho) + 1 + diferencia(
            *n.derecho.unwrap(),
        ),
{
    let y = *n.derecho.unwrap();
    assert(n.derecho == Some(Box::new(y)));
    assert(equilibrado(Some(Box::new(y))));
    lema_rotacion_izquierda(n);
    let r = rotacion_izquierda(n);
    let a = *r.izquierdo.unwrap();
    assert(r.izquierdo == Some(Box::new(a)));
    assert(balanceado(Some(Box::new(a))));
    assert(balanceado(Some(Box::new(r))));
}

/// Left side two levels taller, left child leaning right: a left rotation of
/// the left child followed by a right rotation restores the balance.
pub proof fn lema_doble_izquierda_derecha(n: Nodo)
    requires
        hijos_equilibrados(n),
        altura(n.izquierdo) < i32::MAX,
        altura(n.izquierdo) == altura(n.derecho) + 2,
        diferencia(*n.izquierdo.unwrap()) == -1,
    ensures
        ({
            let l = *n.izquierdo.unwrap();
            let n2 = con_izquierdo(n, Some(Box::new(rotacion_izquierda(l))));
            &&& n.izquierdo is Some
            &&& l.derecho is Some
            &&& rotacion_izquierda_cabe(l)
            &&& rotacion_derecha_cabe(n2)
            &&& equilibrado(Some(Box::new(rotacion_derecha(n2))))
            &&& en_orden(Some(Box::new(rotacion_derecha(n2)))) == en_orden(Some(Box::new(n)))
            &&& ordenado(Some(Box::new(n))) ==> ordenado(Some(Box::new(rotacion_derecha(n2)))) && vista(
                Some(Box::new(rotacion_derecha(n2))),
            ) == vista(Some(Box::new(n)))
            &&& altura(Some(Box::new(rotacion_derecha(n2)))) == altura(n.izquierdo)
        }),
{
    let l = *n.izquierdo.unwrap();
    assert(n.izquierdo == Some(Box::new(l)));
    assert(equilibrado(Some(Box::new(l))));
    let m = *l.derecho.unwrap();
    assert(l.derecho == Some(Box::new(m)));
    assert(equilibrado(Some(Box::new(m))));
    lema_rotacion_izquierda(l);
    let l2 = rotacion_izquierda(l);
    let a = *l2.izquierdo.unwrap();
    assert(l2.izquierdo == Some(Box::new(a)));
    assert(balanceado(Some(Box::new(a))));
    let n2 = con_izquierdo(n, Some(Box::new(l2)));
    assert(en_orden(Some(Box::new(n2))) =~= en_orden(Some(Box::new(n))));
    if ordenado(Some(Box::new(n))) {
        assert(ordenado(n.izquierdo));
        assert(ordenado(Some(Box::new(n2)))) by {
            assert(vista(n2.izquierdo) == vista(n.izquierdo));
        }
        assert(vista(Some(Box::new(n2))) =~= vista(Some(Box::new(n))));
    }
    lema_rotacion_derecha(n2);
    let r = rotacion_derecha(n2);
    let b = *r.derecho.unwrap();
    assert(r.derecho == Some(Box::new(b)));
    assert(r.izquierdo == Some(Box::new(a)));
    assert(balanceado(Some(Box::new(b))));
    assert(balanceado(Some(Box::new(r))));
}

/// Right side two levels taller, right child leaning left: a right rotation of
/// the right child followed by a left rotation restores the balance.
pub proof fn lema_doble_derecha_izquierda(n: Nodo)
    requires
        hijos_equilibrados(n),
        altura(n.derecho) < i32::MAX,
        altura(n.derecho) == altura(n.izquierdo) + 2,
        diferencia(*n.derecho.unwrap()) == 1,
    ensures
        ({
            let d = *n.derecho.unwrap();
            let n2 = con_derecho(n, Some(Box::new(rotacion_derecha(d))));
            &&& n.derecho is Some
            &&& d.izquierdo is Some
            &&& rotacion_derecha_cabe(d)
            &&& rotacion_izquierda_cabe(n2)
            &&& equilibrado(Some(Box::new(rotacion_izquierda(n2))))
            &&& en_orden(Some(Box::new(rotacion_izquierda(n2)))) == en_orden(Some(Box::new(n)))
            &&& ordenado(Some(Box::new(n))) ==> ordenado(Some(Box::new(rotacion_izquierda(n2)))) && vista(
                Some(Box::new(rotacion_izquierda(n2))),
            ) == vista(Some(Box::new(n)))
            &&& altura(Some(Box::new(rotacion_izquierda(n2)))) == altura(n.derecho)
        }),
{
    let d = *n.derecho.unwrap();
    assert(n.derecho == Some(Box::new(d)));
    assert(equilibrado(Some(Box::new(d))));
    let m = *d.izquierdo.unwrap();
    assert(d.izquierdo == Some(Box::new(m)));
    assert(equilibrado(Some(Box::new(m))));
    lema_rotacion_derecha(d);
    let d2 = rotacion_derecha(d);
    let b = *d2.derecho.unwrap();
    assert(d2.derecho == Some(Box::new(b)));
    assert(balanceado(Some(Box::new(b))));
    let n2 = con_derecho(n, Some(Box::new(d2)));
    assert(en_orden(Some(Box::new(n2))) =~= en_orden(Some(Box::new(n))));
    if ordenado(Some(Box::new(n))) {
        assert(ordenado(n.derecho));
        assert(ordenado(Some(Box::new(n2)))) by {
            assert(vista(n2.derecho) == vista(n.derecho));
        }
        assert(vista(Some(Box::new(n2))) =~= vista(Some(Box::new(n))));
    }
    lema_rotacion_izquierda(n2);
    let r = rotacion_izquierda(n2);
    let a = *r.izquierdo.unwrap();
    assert(r.izquierdo == Some(Box::new(a)));
    assert(r.derecho == Some(Box::new(b)));
    assert(balanceado(Some(Box::new(a))));
    assert(balanceado(Some(Box::new(r))));
}

} // verus!
