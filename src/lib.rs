pub mod class_hash;
pub mod contract_class;
pub mod felt;
pub mod resources;
pub mod state;
