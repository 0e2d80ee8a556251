//! Fixed-column structure records: the shared read capability of atom
//! records, parse errors, and the record kinds of the format.
pub mod line;
pub mod atom;
pub mod hetatm;
pub mod ter;
pub mod residue;
pub mod reader;

use vstd::prelude::*;

verus! {

pub use line::ParseError;
pub use line::FieldKind;
pub use atom::Atom;
pub use atom::AtomBuilder;
pub use hetatm::Hetatm;
pub use hetatm::HetatmBuilder;
pub use ter::Ter;
pub use residue::Residue;
pub use residue::ResidueSlice;
pub use residue::ResidueIterator;
pub use reader::Record;

/// The read capability shared by atom-like records: every field of one
/// coordinate entry. Fixed-point fields are in scaled integer units:
/// coordinates in thousandths, occupancy and temperature factor in
/// hundredths.
pub trait AtomData {
    /// The record kind discriminator, in specification form.
    spec fn record_name_spec(&self) -> Seq<char>;

    /// The atom serial number, in specification form.
    spec fn atom_number_spec(&self) -> i32;

    /// The atom name, in specification form.
    spec fn atom_name_spec(&self) -> Seq<char>;

    /// The alternate location indicator, in specification form.
    spec fn alternate_location_spec(&self) -> char;

    /// The residue name, in specification form.
    spec fn residue_name_spec(&self) -> Seq<char>;

    /// The chain identifier, in specification form.
    spec fn chain_id_spec(&self) -> char;

    /// The residue sequence number, in specification form.
    spec fn residue_number_spec(&self) -> i32;

    /// The insertion code, in specification form.
    spec fn insertion_code_spec(&self) -> char;

    /// The occupancy in hundredths, in specification form.
    spec fn occupancy_spec(&self) -> i64;

    /// The temperature factor in hundredths, in specification form.
    spec fn temperature_factor_spec(&self) -> i64;

    /// The element symbol, in specification form.
    spec fn element_symbol_spec(&self) -> Seq<char>;

    /// The formal charge, in specification form.
    spec fn charge_spec(&self) -> Seq<char>;

    fn record_name(&self) -> (r: String)
        ensures
            r@ == self.record_name_spec(),
    ;

    fn atom_number(&self) -> (r: i32)
        ensures
            r == self.atom_number_spec(),
    ;

    fn atom_name(&self) -> (r: String)
        ensures
            r@ == self.atom_name_spec(),
    ;

    fn alternate_location(&self) -> (r: char)
        ensures
            r == self.alternate_location_spec(),
    ;

    fn residue_name(&self) -> (r: String)
        ensures
            r@ == self.residue_name_spec(),
    ;

    fn chain_id(&self) -> (r: char)
        ensures
            r == self.chain_id_spec(),
    ;

    fn residue_number(&self) -> (r: i32)
        ensures
            r == self.residue_number_spec(),
    ;

    fn insertion_code(&self) -> (r: char)
        ensures
            r == self.insertion_code_spec(),
    ;

    fn occupancy(&self) -> (r: i64)
        ensures
            r == self.occupancy_spec(),
    ;

    fn temperature_factor(&self) -> (r: i64)
        ensures
            r == self.temperature_factor_spec(),
    ;

    fn element_symbol(&self) -> (r: String)
        ensures
            r@ == self.element_symbol_spec(),
    ;

    fn charge(&self) -> (r: String)
        ensures
            r@ == self.charge_spec(),
    ;
}

/// The read capability of a residue: its representative identity.
pub trait ResidueData {
    /// The residue name, in specification form.
    spec fn residue_name_spec(&self) -> Seq<char>;

    /// The residue sequence number, in specification form.
    spec fn residue_number_spec(&self) -> i32;

    /// The chain identifier, in specification form.
    spec fn chain_id_spec(&self) -> char;

    fn residue_name(&self) -> (r: String)
        ensures
            r@ == self.residue_name_spec(),
    ;

    fn residue_number(&self) -> (r: i32)
        ensures
            r == self.residue_number_spec(),
    ;

    fn chain_id(&self) -> (r: char)
        ensures
            r == self.chain_id_spec(),
    ;
}

/// The read capability of a chain: its identifier.
pub trait ChainData {
    /// The chain identifier, in specification form.
    spec fn chain_id_spec(&self) -> char;

    fn chain_id(&self) -> (r: char)
        ensures
            r == self.chain_id_spec(),
    ;
}

} // verus!
