pub mod db;
pub mod state;
