//! An inventory of books kept in an AVL tree ordered by ISBN.
pub mod arbol;
pub mod consultas;
pub mod eliminacion;
pub mod equilibrio;
pub mod formato;
pub mod impresion;
pub mod insercion;
pub mod lemas;

pub mod leyes;
