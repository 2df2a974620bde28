pub mod args;
pub mod cipher;
