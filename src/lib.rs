pub mod document;
pub mod laws;
pub mod loader;
pub mod operator_args;
pub mod string_map;
pub mod text;

pub use operator_args::OperatorArgs;
