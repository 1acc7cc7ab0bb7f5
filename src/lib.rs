//! Middle-end of a compiler for an actor language with reference capabilities:
//! generation-checked arenas, the capability algebra, the syntax tree and IR
//! models, and the lowering of a syntax tree into basic blocks of IR.
pub mod arena;
pub mod ast;
pub mod compiler;
pub mod ir;
pub mod lang;
pub mod print;
pub mod refcap;
pub mod text;
pub mod translate;
