pub mod lemmas;
pub mod reference;
