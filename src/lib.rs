//! Synthesises Windows import libraries: MS-COFF archives that let a linker resolve
//! the exports of a DLL, by name or by ordinal, without that DLL's own import library.
use vstd::prelude::*;

pub mod bytes;
pub mod coff;
pub mod archive;
pub mod symbols;
pub mod library;
pub mod laws;

pub use library::{arch, Import, ImportLibBuilder, ImportLibError, Machine};

verus! {

} // verus!
