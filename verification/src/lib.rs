pub mod csv;
pub mod decoder;
pub mod error;
pub mod foreign;
pub mod ldb_parser;
pub mod log_parser;
pub mod log_text_parser;
pub mod manifest_parser;
pub mod utils;
