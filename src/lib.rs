pub mod value;
pub mod registers;
pub mod memory;
pub mod state;
pub mod operations;
pub mod processor;
pub mod tokenizer;
pub mod evaluator;
pub mod optimizer;
pub mod engine;
pub mod executor;
pub mod scheduler;
pub mod fuzz;
pub mod filesystem;
