pub mod api;
pub mod structs;
