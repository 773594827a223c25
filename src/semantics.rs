pub mod reference;
pub mod symbol;
