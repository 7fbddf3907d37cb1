//! What the page parsers hand over.

pub mod parsed_file_data;
