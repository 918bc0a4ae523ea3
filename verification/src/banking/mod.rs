pub mod parsers;
pub mod providers;
pub mod sync;
pub mod utils;
