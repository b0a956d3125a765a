//! What stands around the engine: the command line, the tokenizer and the text
//! in which a stack is saved.
pub mod cli_manager;
pub mod file_manager;
pub mod token_laws;
