pub mod boxed;
pub mod scalar;
pub mod string;
pub mod vec;
