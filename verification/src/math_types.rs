pub mod matrix;
pub mod scalar;
pub mod vector;
