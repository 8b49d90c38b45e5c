//! The errors of parsing a PDB.
use vstd::prelude::*;

verus! {

#[derive(Debug)]
pub enum Error {
    /// The file could not be read.
    IoError(String),
    /// The PDB container or one of its streams is invalid.
    PdbCrateError(String),
    /// A dependency needed to handle a record is not available.
    MissingDependency(&'static str),
    /// A feature of the format is not supported.
    Unsupported(&'static str),
    /// A forward reference would need resolving, which is not implemented.
    NeedForwardReferenceImplementation,
    /// A type record could not be converted.
    UnhandledType(String),
    /// A symbol refers to a type index that no parsed type has.
    UnresolvedType(u32),
}

} // verus!
