pub mod acquire;
pub mod catalog;
pub mod laws;
pub mod merge;
pub mod render;
pub mod search;
pub mod store;
pub mod value_check;
