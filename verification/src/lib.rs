pub mod ast;
pub mod builders;
pub mod bytecode;
pub mod codegen;
pub mod committed;
pub mod compiler;
pub mod direction;
pub mod exits;
pub mod growth;
pub mod index_map;
pub mod index_vec;
pub mod labels;
pub mod lambda;
pub mod layout;
pub mod names;
pub mod pool;
pub mod progress;
pub mod references;
pub mod shapes;
pub mod soundness;
pub mod translation;
pub mod type_cache;
pub mod types;
