//! Parsing of Microsoft PDB debug information into a structured model of
//! types, symbols and debug modules, with the rules of that model verified.

pub mod api_compat;
pub mod compare;
pub mod convert;
pub mod decode;
pub mod error;
pub mod new_pdb;
pub mod old_pdb;
pub mod parse;
pub mod records;
pub mod sections;
pub mod symbol_types;
pub mod text;
pub mod type_info;
pub mod type_size;

pub use crate::symbol_types::ParsedPdb;
