pub mod parser;
pub mod queries;
pub mod symbol;
