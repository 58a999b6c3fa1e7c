pub mod node;
pub mod extract;
pub mod index;
pub mod resolve;
pub mod store;
pub mod graph;
