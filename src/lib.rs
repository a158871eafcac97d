pub mod arch;
pub mod position;
pub mod text;
pub mod token;
pub mod tokenizer;
