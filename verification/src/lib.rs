pub mod cipher;
pub mod input;
