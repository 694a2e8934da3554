use vstd::prelude::*;

verus! {

/// A book of the inventory, identified by its ISBN.
#[derive(Debug)]
pub struct Libro {
    pub isbn: u32,
    pub titulo: String,
}

impl Clone for Libro {
    /// A copy of the book: the same ISBN and the same title.
    fn clone(&self) -> (c: Libro)
        ensures
            c.isbn == self.isbn,
            c.titulo == self.titulo,
    {
        Libro { isbn: self.isbn, titulo: self.titulo.clone() }
    }
}

/// A node of the AVL tree: a book, two subtrees and the height recorded at this node.
pub struct Nodo {
    pub libro: Libro,
    pub izquierdo: Option<Box<Nodo>>,
    pub derecho: Option<Box<Nodo>>,
    pub altura: i32,
}

// ---------------------------------------------------------------------------
// The mathematical model of a tree
// ---------------------------------------------------------------------------

/// The larger of two integers.
pub open spec fn mayor(a: int, b: int) -> int {
    if a >= b { a } else { b }
}

/// The height of a tree: 0 for the empty tree, 1 for a leaf.
pub open spec fn altura(t: Option<Box<Nodo>>) -> nat
    decreases t,
{
    match t {
        None => 0,
        Some(n) => (1 + mayor(altura(n.izquierdo) as int, altura(n.derecho) as int)) as nat,
    }
}

/// The number of nodes of a tree.
pub open spec fn tamano(t: Option<Box<Nodo>>) -> nat
    decreases t,
{
    match t {
        None => 0,
        Some(n) => 1 + tamano(n.izquierdo) + tamano(n.derecho),
    }
}

/// What the tree stores: each ISBN mapped to its book.
pub open spec fn vista(t: Option<Box<Nodo>>) -> Map<u32, Libro>
    decreases t,
{
    match t {
        None => Map::empty(),
        Some(n) => vista(n.izquierdo).union_prefer_right(vista(n.derecho)).insert(
            n.libro.isbn,
            n.libro,
        ),
    }
}

/// The books of the tree in order: left subtree, node, right subtree.
pub open spec fn en_orden(t: Option<Box<Nodo>>) -> Seq<Libro>
    decreases t,
{
    match t {
        None => Seq::empty(),
        Some(n) => en_orden(n.izquierdo) + seq![n.libro] + en_orden(n.derecho),
    }
}

/// The search-tree order: at every node, the ISBNs on the left are smaller
/// and the ISBNs on the right are larger than the node's own.
pub open spec fn ordenado(t: Option<Box<Nodo>>) -> bool
    decreases t,
{
    match t {
        None => true,
        Some(n) => {
            &&& forall|k: u32| #[trigger]
                vista(n.izquierdo).contains_key(k) ==> k < n.libro.isbn
            &&& forall|k: u32| #[trigger]
                vista(n.derecho).contains_key(k) ==> n.libro.isbn < k
            &&& ordenado(n.izquierdo)
            &&& ordenado(n.derecho)
        },
    }
}

/// Every node records the true height of the subtree it roots.
pub open spec fn alturas_correctas(t: Option<Box<Nodo>>) -> bool
    decreases t,
{
    match t {
        None => true,
        Some(n) => {
            &&& n.altura as int == altura(t) as int
            &&& alturas_correctas(n.izquierdo)
            &&& alturas_correctas(n.derecho)
        },
    }
}

/// The height difference of the two subtrees of a node (left minus right).
pub open spec fn diferencia(n: Nodo) -> int {
    altura(n.izquierdo) as int - altura(n.derecho) as int
}

/// The AVL balance: at every node the two subtrees differ in height by at most one.
pub open spec fn balanceado(t: Option<Box<Nodo>>) -> bool
    decreases t,
{
    match t {
        None => true,
        Some(n) => {
            &&& -1 <= diferencia(*n) <= 1
            &&& balanceado(n.izquierdo)
            &&& balanceado(n.derecho)
        },
    }
}

/// Correct recorded heights and AVL balance, whatever the order of the keys.
pub open spec fn equilibrado(t: Option<Box<Nodo>>) -> bool {
    &&& alturas_correctas(t)
    &&& balanceado(t)
}

/// A well-formed AVL tree: ordered, with correct heights, balanced.
pub open spec fn es_avl(t: Option<Box<Nodo>>) -> bool {
    &&& ordenado(t)
    &&& equilibrado(t)
}

/// The book that a binary search for `isbn` reaches in `t`, if any.
pub open spec fn libro_buscado(t: Option<Box<Nodo>>, isbn: u32) -> Option<Libro>
    decreases t,
{
    match t {
        None => None,
        Some(n) => if isbn == n.libro.isbn {
            Some(n.libro)
        } else if isbn < n.libro.isbn {
            libro_buscado(n.izquierdo, isbn)
        } else {
            libro_buscado(n.derecho, isbn)
        },
    }
}


/// The height recorded at the root, 0 for the empty tree.
pub open spec fn altura_registrada(t: Option<Box<Nodo>>) -> int {
    match t {
        None => 0,
        Some(n) => n.altura as int,
    }
}

/// The balance computed from the recorded heights of the two children.
pub open spec fn balance_registrado(n: Nodo) -> int {
    altura_registrada(n.izquierdo) - altura_registrada(n.derecho)
}

/// The height a node records once brought up to date.
pub open spec fn altura_actualizada(n: Nodo) -> int {
    1 + mayor(altura_registrada(n.izquierdo), altura_registrada(n.derecho))
}

/// The largest ISBN of a non-empty set of books.
pub open spec fn clave_maxima(m: Map<u32, Libro>) -> u32 {
    choose|k: u32| m.contains_key(k) && forall|j: u32| #[trigger] m.contains_key(j) ==> j <= k
}

/// The smallest ISBN of a non-empty set of books.
pub open spec fn clave_minima(m: Map<u32, Libro>) -> u32 {
    choose|k: u32| m.contains_key(k) && forall|j: u32| #[trigger] m.contains_key(j) ==> k <= j
}

/// The contents after inserting a book: a present ISBN keeps its book.
pub open spec fn vista_tras_insertar(m: Map<u32, Libro>, libro: Libro) -> Map<u32, Libro> {
    if m.contains_key(libro.isbn) {
        m
    } else {
        m.insert(libro.isbn, libro)
    }
}


/// The node `n` with its left subtree replaced by `izq`.
pub open spec fn con_izquierdo(n: Nodo, izq: Option<Box<Nodo>>) -> Nodo {
    Nodo { libro: n.libro, izquierdo: izq, derecho: n.derecho, altura: n.altura }
}

/// The node `n` with its right subtree replaced by `der`.
pub open spec fn con_derecho(n: Nodo, der: Option<Box<Nodo>>) -> Nodo {
    Nodo { libro: n.libro, izquierdo: n.izquierdo, derecho: der, altura: n.altura }
}

/// The node with its recorded height brought up to date.
pub open spec fn con_altura_actualizada(n: Nodo) -> Nodo {
    Nodo {
        libro: n.libro,
        izquierdo: n.izquierdo,
        derecho: n.derecho,
        altura: altura_actualizada(n) as i32,
    }
}

/// The result of a right rotation at `y`: its left child `x` rises to the root,
/// `y` becomes the right child of `x` and takes over the right subtree of `x`.
pub open spec fn rotacion_derecha(y: Nodo) -> Nodo {
    let x = *y.izquierdo.unwrap();
    let y2 = con_altura_actualizada(
        Nodo { libro: y.libro, izquierdo: x.derecho, derecho: y.derecho, altura: y.altura },
    );
    con_altura_actualizada(
        Nodo { libro: x.libro, izquierdo: x.izquierdo, derecho: Some(Box::new(y2)), altura: x.altura },
    )
}

/// The result of a left rotation at `x`: its right child `y` rises to the root,
/// `x` becomes the left child of `y` and takes over the left subtree of `y`.
pub open spec fn rotacion_izquierda(x: Nodo) -> Nodo {
    let y = *x.derecho.unwrap();
    let x2 = con_altura_actualizada(
        Nodo { libro: x.libro, izquierdo: x.izquierdo, derecho: y.izquierdo, altura: x.altura },
    );
    con_altura_actualizada(
        Nodo { libro: y.libro, izquierdo: Some(Box::new(x2)), derecho: y.derecho, altura: y.altura },
    )
}

/// The recorded heights met by a right rotation at `y` fit the arithmetic of `i32`.
pub open spec fn rotacion_derecha_cabe(y: Nodo) -> bool {
    let x = *y.izquierdo.unwrap();
    let hy = 1 + mayor(altura_registrada(x.derecho), altura_registrada(y.derecho));
    &&& mayor(altura_registrada(x.derecho), altura_registrada(y.derecho)) < i32::MAX
    &&& mayor(altura_registrada(x.izquierdo), hy) < i32::MAX
}

/// The recorded heights met by a left rotation at `x` fit the arithmetic of `i32`.
pub open spec fn rotacion_izquierda_cabe(x: Nodo) -> bool {
    let y = *x.derecho.unwrap();
    let hx = 1 + mayor(altura_registrada(x.izquierdo), altura_registrada(y.izquierdo));
    &&& mayor(altura_registrada(x.izquierdo), altura_registrada(y.izquierdo)) < i32::MAX
    &&& mayor(hx, altura_registrada(y.derecho)) < i32::MAX
}

// ---------------------------------------------------------------------------
// Node operations
// ---------------------------------------------------------------------------

impl Nodo {
    /// A leaf holding `libro`, of height 1.
    pub fn nuevo(libro: Libro) -> (n: Nodo)
        ensures
            n.libro == libro,
            n.izquierdo is None,
            n.derecho is None,
            n.altura == 1,
    {
        Nodo { libro, izquierdo: None, derecho: None, altura: 1 }
    }
}

/// The height recorded at the root of `nodo`, 0 for the empty tree.
pub fn obtener_altura(nodo: &Option<Box<Nodo>>) -> (h: i32)
    ensures
        h as int == altura_registrada(*nodo),
{
    match nodo {
        None => 0,
        Some(n) => n.altura,
    }
}

/// Sets the node's height to one more than the larger recorded height of its children.
pub fn actualizar_altura(nodo: &mut Nodo)
    requires
        mayor(altura_registrada(old(nodo).izquierdo), altura_registrada(old(nodo).derecho))
            < i32::MAX,
    ensures
        final(nodo).libro == old(nodo).libro,
        final(nodo).izquierdo == old(nodo).izquierdo,
        final(nodo).derecho == old(nodo).derecho,
        final(nodo).altura as int == altura_actualizada(*old(nodo)),
{
    let hi = obtener_altura(&nodo.izquierdo);
    let hd = obtener_altura(&nodo.derecho);
    let m = if hi >= hd {
        hi
    } else {
        hd
    };
    nodo.altura = 1 + m;
}

/// The recorded height of the left child minus that of the right child.
pub fn obtener_balance(nodo: &Nodo) -> (b: i32)
    requires
        i32::MIN <= balance_registrado(*nodo) <= i32::MAX,
    ensures
        b as int == balance_registrado(*nodo),
{
    obtener_altura(&nodo.izquierdo) - obtener_altura(&nodo.derecho)
}

/// Right rotation: the left child of `y` becomes the root of the subtree.
pub fn rotar_derecha(mut y: Box<Nodo>) -> (r: Box<Nodo>)
    requires
        y.izquierdo is Some,
        rotacion_derecha_cabe(*y),
    ensures
        *r == rotacion_derecha(*y),
{
    let mut x = y.izquierdo.take().expect("Hijo izquierdo ausente");
    y.izquierdo = x.derecho.take();
    actualizar_altura(&mut y);
    x.derecho = Some(y);
    actualizar_altura(&mut x);
    x
}

/// Left rotation: the right child of `x` becomes the root of the subtree.
pub fn rotar_izquierda(mut x: Box<Nodo>) -> (r: Box<Nodo>)
    requires
        x.derecho is Some,
        rotacion_izquierda_cabe(*x),
    ensures
        *r == rotacion_izquierda(*x),
{
    let mut y = x.derecho.take().expect("Hijo derecho ausente");
    x.derecho = y.izquierdo.take();
    actualizar_altura(&mut x);
    y.izquierdo = Some(x);
    actualizar_altura(&mut y);
    y
}

} // verus!
