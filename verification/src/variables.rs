pub mod variable_storage;
pub mod variable_types;
