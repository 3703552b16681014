pub mod json;
