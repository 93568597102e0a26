pub mod app;
pub mod chars;
pub mod loader;
pub mod text_viewer;
pub mod tokenizer;
