# libreria_avl

A book inventory kept in an AVL tree ordered by ISBN, verified with Verus.

- `src/arbol.rs`: the book and node types, the mathematical model of a tree
  (height, size, contents as a map from ISBN to title, search order, recorded
  heights, balance) and the node operations (heights, balance, rotations).
- `src/insercion.rs`, `src/eliminacion.rs`: insertion and removal with
  rebalancing, each with the spec function of the tree it builds; both keep
  correct heights and balance on any tree, and on a search tree they keep the
  order and change the contents and the in-order sequence exactly.
- `src/consultas.rs`: search, node count, largest ISBN and statistics.
- `src/formato.rs`: the decimal text of an ISBN and the description of a book.
- `src/impresion.rs`: the lines that print the tree sideways.
- `src/lemas.rs`, `src/equilibrio.rs`: the lemmas on search order, heights and
  rotations that the proofs use.
- `src/leyes.rs`: the laws relating the operations.
- `app/main.rs`: the demonstration program that prints to the terminal.
