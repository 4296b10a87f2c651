pub mod accum;
pub mod model;
pub mod text;
pub mod units;
