pub mod guid;
pub mod interfaces;
pub mod model;
pub mod namespaces;
pub mod predicates;
pub mod signature;
pub mod sizes;
pub mod types;
