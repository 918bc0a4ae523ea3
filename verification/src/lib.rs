pub mod banking;
pub mod decimal;
pub mod float_notation;
pub mod model;
pub mod text;
