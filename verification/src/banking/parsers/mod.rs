pub mod csv;
pub mod mta;
