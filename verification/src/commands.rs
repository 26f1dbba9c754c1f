pub mod commands;
pub mod fzf_builder;
