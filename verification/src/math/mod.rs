pub mod complex;
pub mod explog;
pub mod fixed;
pub mod polynomial;
pub mod trig;
pub mod wide;
