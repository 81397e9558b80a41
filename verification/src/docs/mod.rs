pub mod a1;
pub mod archive;
pub mod cell;
pub mod compound;
pub mod docx;
pub mod embeddings;
pub mod encoding;
pub mod error;
pub mod pathutil;
pub mod strings;
pub mod text;
pub mod xlsx;
pub mod xml;
