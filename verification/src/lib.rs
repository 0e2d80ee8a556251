//! Parsing, formatting and grouping of fixed-column molecular-structure
//! records: atom and heteroatom coordinate lines, chain terminators, and
//! the partition of an ordered atom sequence into contiguous residues.
pub mod text;
pub mod num;
pub mod pdb;

use vstd::prelude::*;

verus! {

pub use pdb::atom::Atom;
pub use pdb::atom::AtomBuilder;
pub use pdb::hetatm::Hetatm;
pub use pdb::hetatm::HetatmBuilder;

} // verus!
