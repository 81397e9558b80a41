//! The parameters of the tools the server offers, as plain values, and the choices the
//! tools make before calling into the document operations.

pub mod docx;
pub mod embeddings;
pub mod text;
pub mod xlsx;
