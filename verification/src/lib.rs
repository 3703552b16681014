pub mod arguments;
pub mod headers;
pub mod models;
pub mod pattern;
pub mod query;
pub mod selection;
pub mod strutil;
pub mod transfer;
pub mod urls;
