pub mod ack;
pub mod cell;
pub mod console;
pub mod image;
pub mod isa;
pub mod machine;
pub mod mirror;
pub mod pair_iter;
pub mod reorder;
pub mod ruins;
pub mod teleport;
pub mod text;
pub mod vault;
