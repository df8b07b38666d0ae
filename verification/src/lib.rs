pub mod clipboard;
pub mod models;
pub mod source;
pub mod store;
pub mod text;
