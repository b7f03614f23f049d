pub mod delete;
pub mod get;
pub mod set;
