pub mod args;
pub mod article;
pub mod cleaner;
pub mod config;
pub mod converter;
pub mod devto;
pub mod errors;
pub mod markdown;
pub mod publish;
pub mod sanitizer;
pub mod text;
