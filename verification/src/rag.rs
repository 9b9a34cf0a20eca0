//! Procedures that are recommended to the language model.

pub mod get_relevant_procedures_string;
