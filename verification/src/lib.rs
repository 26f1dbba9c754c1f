pub mod commands;
pub mod error;
pub mod storage;
pub mod text;
