pub mod file;
pub mod placeholder;
