pub mod docs;
pub mod tools;
