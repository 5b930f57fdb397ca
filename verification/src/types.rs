//! The data model of the extracted debug information.

pub mod data_structures;
pub mod operation_types;
pub mod rust_type;
