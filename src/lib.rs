pub mod args;
pub mod content_type;
pub mod laws;
pub mod loader;
pub mod paths;
pub mod resolver;
pub mod table;
pub mod text;
pub mod walk;
