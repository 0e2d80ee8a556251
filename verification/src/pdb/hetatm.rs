//! The heteroatom coordinate record and its staged builder. The record
//! kind is fixed: every heteroatom record formats under the `HETATM`
//! tag.
use vstd::prelude::*;
use crate::text::{ascii_to_string, bytes_of, chars_of, str_to_bytes};
use crate::pdb::line::{
    default_core, default_rec, fmt_core, fmt_rec_spec, hetatm_tag, hetatm_tag_vec,
    lemma_fmt_ascii, parse_core, parse_line_spec, trimmed_rec, wf_rec, ErrV, ParseError,
    RecCore, RecV,
};
use crate::pdb::AtomData;

verus! {

/// One heteroatom coordinate record. Its view is the shared record
/// form, with the record kind always `"HETATM"`; coordinates are in
/// thousandths, occupancy and temperature factor in hundredths.
#[derive(Debug)]
pub struct Hetatm {
    core: RecCore,
}

impl View for Hetatm {
    type V = RecV;

    closed spec fn view(&self) -> RecV {
        self.core@
    }
}

impl Hetatm {
    #[verifier::type_invariant]
    spec fn inv(&self) -> bool {
        wf_rec(self@)
    }

    /// A fresh heteroatom record with the shared defaults.
    pub fn new() -> (r: Hetatm)
        ensures
            r@ == default_rec(hetatm_tag()),
    {
        Hetatm { core: default_core(hetatm_tag_vec()) }
    }

    /// Parses one `HETATM` line, exactly as `parse_line_spec` with the
    /// heteroatom record tag describes. The fixed-point columns accept
    /// sign, digits and one decimal point with at most the column's
    /// fraction digits — narrower than general floating-point syntax.
    pub fn from(line: &str) -> (r: Result<Hetatm, ParseError>)
        ensures
            match r {
                Ok(a) => parse_line_spec(line@, hetatm_tag()) == Ok::<RecV, ErrV>(a@)
                    && trimmed_rec(a@),
                Err(e) => parse_line_spec(line@, hetatm_tag()) == Err::<RecV, ErrV>(e@),
            },
    {
        if !line.is_ascii() {
            return Err(ParseError::InvalidEncoding);
        }
        let b = str_to_bytes(line);
        let tag = hetatm_tag_vec();
        match parse_core(&b, &tag) {
            Ok(c) => Ok(Hetatm { core: c }),
            Err(e) => Err(e),
        }
    }

    /// The canonical 80-column line of this record, exactly as
    /// `fmt_rec_spec` describes.
    pub fn to_line(&self) -> (r: String)
        ensures
            r@ == chars_of(fmt_rec_spec(self@)),
    {
        proof {
            use_type_invariant(&*self);
        }
        let b = fmt_core(&self.core);
        proof {
            lemma_fmt_ascii(self@);
        }
        ascii_to_string(&b)
    }

    /// The x coordinate, in thousandths.
    pub fn x(&self) -> (r: i64)
        ensures
            r == self@.x,
    {
        self.core.x
    }

    /// The y coordinate, in thousandths.
    pub fn y(&self) -> (r: i64)
        ensures
            r == self@.y,
    {
        self.core.y
    }

    /// The z coordinate, in thousandths.
    pub fn z(&self) -> (r: i64)
        ensures
            r == self@.z,
    {
        self.core.z
    }
}

impl core::str::FromStr for Hetatm {
    type Err = ParseError;

    fn from_str(line: &str) -> Result<Hetatm, ParseError> {
        Hetatm::from(line)
    }
}

impl AtomData for Hetatm {
    open spec fn record_name_spec(&self) -> Seq<char> {
        chars_of(self@.record)
    }

    open spec fn atom_number_spec(&self) -> i32 {
        self@.serial
    }

    open spec fn atom_name_spec(&self) -> Seq<char> {
        chars_of(self@.name)
    }

    open spec fn alternate_location_spec(&self) -> char {
        self@.altloc as char
    }

    open spec fn residue_name_spec(&self) -> Seq<char> {
        chars_of(self@.resname)
    }

    open spec fn chain_id_spec(&self) -> char {
        self@.chainid as char
    }

    open spec fn residue_number_spec(&self) -> i32 {
        self@.resseq
    }

    open spec fn insertion_code_spec(&self) -> char {
        self@.icode as char
    }

    open spec fn occupancy_spec(&self) -> i64 {
        self@.occupancy
    }

    open spec fn temperature_factor_spec(&self) -> i64 {
        self@.tempfactor
    }

    open spec fn element_symbol_spec(&self) -> Seq<char> {
        chars_of(self@.element)
    }

    open spec fn charge_spec(&self) -> Seq<char> {
        chars_of(self@.charge)
    }

    fn record_name(&self) -> String {
        proof {
            use_type_invariant(&*self);
        }
        ascii_to_string(&self.core.record)
    }

    fn atom_number(&self) -> i32 {
        self.core.serial
    }

    fn atom_name(&self) -> String {
        proof {
            use_type_invariant(&*self);
        }
        ascii_to_string(&self.core.name)
    }

    fn alternate_location(&self) -> char {
        self.core.altloc as char
    }

    fn residue_name(&self) -> String {
        proof {
            use_type_invariant(&*self);
        }
        ascii_to_string(&self.core.resname)
    }

    fn chain_id(&self) -> char {
        self.core.chainid as char
    }

    fn residue_number(&self) -> i32 {
        self.core.resseq
    }

    fn insertion_code(&self) -> char {
        self.core.icode as char
    }

    fn occupancy(&self) -> i64 {
        self.core.occupancy
    }

    fn temperature_factor(&self) -> i64 {
        self.core.tempfactor
    }

    fn element_symbol(&self) -> String {
        proof {
            use_type_invariant(&*self);
        }
        ascii_to_string(&self.core.element)
    }

    fn charge(&self) -> String {
        proof {
            use_type_invariant(&*self);
        }
        ascii_to_string(&self.core.charge)
    }
}

/// Staged, chainable construction of a heteroatom record from the
/// shared defaults.
pub struct HetatmBuilder {
    core: RecCore,
}

impl View for HetatmBuilder {
    type V = RecV;

    closed spec fn view(&self) -> RecV {
        self.core@
    }
}

impl HetatmBuilder {
    #[verifier::type_invariant]
    spec fn inv(&self) -> bool {
        wf_rec(self@)
    }

    /// A builder with every field at its default.
    pub fn new() -> (r: HetatmBuilder)
        ensures
            r@ == default_rec(hetatm_tag()),
    {
        HetatmBuilder { core: default_core(hetatm_tag_vec()) }
    }

    /// Sets the atom serial number.
    pub fn atom_number(&mut self, an: i32) -> (r: &mut HetatmBuilder)
        ensures
            (*r)@ == (RecV { serial: an, ..old(self)@ }),
            *final(self) == *final(r),
    {
        proof {
            use_type_invariant(&*self);
        }
        self.core.serial = an;
        self
    }

    /// Sets the residue sequence number.
    pub fn residue_number(&mut self, rn: i32) -> (r: &mut HetatmBuilder)
        ensures
            (*r)@ == (RecV { resseq: rn, ..old(self)@ }),
            *final(self) == *final(r),
    {
        proof {
            use_type_invariant(&*self);
        }
        self.core.resseq = rn;
        self
    }

    /// Sets the chain identifier; the character must be ASCII.
    pub fn chain_id(&mut self, ch: char) -> (r: &mut HetatmBuilder)
        requires
            ch <= '\u{7f}',
        ensures
            (*r)@ == (RecV { chainid: ch as u8, ..old(self)@ }),
            *final(self) == *final(r),
    {
        proof {
            use_type_invariant(&*self);
        }
        self.core.chainid = ch as u8;
        self
    }

    /// Sets the x coordinate, in thousandths.
    pub fn x(&mut self, crd: i64) -> (r: &mut HetatmBuilder)
        ensures
            (*r)@ == (RecV { x: crd, ..old(self)@ }),
            *final(self) == *final(r),
    {
        proof {
            use_type_invariant(&*self);
        }
        self.core.x = crd;
        self
    }

    /// Sets the y coordinate, in thousandths.
    pub fn y(&mut self, crd: i64) -> (r: &mut HetatmBuilder)
        ensures
            (*r)@ == (RecV { y: crd, ..old(self)@ }),
            *final(self) == *final(r),
    {
        proof {
            use_type_invariant(&*self);
        }
        self.core.y = crd;
        self
    }

    /// Sets the z coordinate, in thousandths.
    pub fn z(&mut self, crd: i64) -> (r: &mut HetatmBuilder)
        ensures
            (*r)@ == (RecV { z: crd, ..old(self)@ }),
            *final(self) == *final(r),
    {
        proof {
            use_type_invariant(&*self);
        }
        self.core.z = crd;
        self
    }

    /// Sets the three coordinates, in thousandths.
    pub fn pos(&mut self, px: i64, py: i64, pz: i64) -> (r: &mut HetatmBuilder)
        ensures
            (*r)@ == (RecV { x: px, y: py, z: pz, ..old(self)@ }),
            *final(self) == *final(r),
    {
        proof {
            use_type_invariant(&*self);
        }
        self.core.x = px;
        self.core.y = py;
        self.core.z = pz;
        self
    }

    /// Sets the atom name; at most four ASCII characters.
    pub fn atom_name(&mut self, atm: &str) -> (r: &mut HetatmBuilder)
        requires
            atm.is_ascii(),
            atm@.len() <= 4,
        ensures
            (*r)@ == (RecV { name: bytes_of(atm@), ..old(self)@ }),
            *final(self) == *final(r),
    {
        proof {
            use_type_invariant(&*self);
        }
        self.core.name = str_to_bytes(atm);
        self
    }

    /// Sets the residue name; at most three ASCII characters.
    pub fn residue_name(&mut self, res: &str) -> (r: &mut HetatmBuilder)
        requires
            res.is_ascii(),
            res@.len() <= 3,
        ensures
            (*r)@ == (RecV { resname: bytes_of(res@), ..old(self)@ }),
            *final(self) == *final(r),
    {
        proof {
            use_type_invariant(&*self);
        }
        self.core.resname = str_to_bytes(res);
        self
    }

    /// Sets the atom name, residue name and chain identifier together.
    pub fn atom_residue_chain(&mut self, atm: &str, res: &str, chn: char) -> (r:
        &mut HetatmBuilder)
        requires
            atm.is_ascii(),
            atm@.len() <= 4,
            res.is_ascii(),
            res@.len() <= 3,
            chn <= '\u{7f}',
        ensures
            (*r)@ == (RecV {
                name: bytes_of(atm@),
                resname: bytes_of(res@),
                chainid: chn as u8,
                ..old(self)@
            }),
            *final(self) == *final(r),
    {
        proof {
            use_type_invariant(&*self);
        }
        self.core.name = str_to_bytes(atm);
        self.core.resname = str_to_bytes(res);
        self.core.chainid = chn as u8;
        self
    }

    /// Sets the occupancy, in hundredths.
    pub fn occupancy(&mut self, occ: i64) -> (r: &mut HetatmBuilder)
        ensures
            (*r)@ == (RecV { occupancy: occ, ..old(self)@ }),
            *final(self) == *final(r),
    {
        proof {
            use_type_invariant(&*self);
        }
        self.core.occupancy = occ;
        self
    }

    /// Sets the temperature factor, in hundredths.
    pub fn temperature_factor(&mut self, tfc: i64) -> (r: &mut HetatmBuilder)
        ensures
            (*r)@ == (RecV { tempfactor: tfc, ..old(self)@ }),
            *final(self) == *final(r),
    {
        proof {
            use_type_invariant(&*self);
        }
        self.core.tempfactor = tfc;
        self
    }

    /// Sets the element symbol; at most two ASCII characters.
    pub fn element(&mut self, elm: &str) -> (r: &mut HetatmBuilder)
        requires
            elm.is_ascii(),
            elm@.len() <= 2,
        ensures
            (*r)@ == (RecV { element: bytes_of(elm@), ..old(self)@ }),
            *final(self) == *final(r),
    {
        proof {
            use_type_invariant(&*self);
        }
        self.core.element = str_to_bytes(elm);
        self
    }

    /// Sets the formal charge; at most two ASCII characters.
    pub fn charge(&mut self, chg: &str) -> (r: &mut HetatmBuilder)
        requires
            chg.is_ascii(),
            chg@.len() <= 2,
        ensures
            (*r)@ == (RecV { charge: bytes_of(chg@), ..old(self)@ }),
            *final(self) == *final(r),
    {
        proof {
            use_type_invariant(&*self);
        }
        self.core.charge = str_to_bytes(chg);
        self
    }

    /// Sets the insertion code; the character must be ASCII.
    pub fn insertion_code(&mut self, icd: char) -> (r: &mut HetatmBuilder)
        requires
            icd <= '\u{7f}',
        ensures
            (*r)@ == (RecV { icode: icd as u8, ..old(self)@ }),
            *final(self) == *final(r),
    {
        proof {
            use_type_invariant(&*self);
        }
        self.core.icode = icd as u8;
        self
    }

    /// Sets the alternate location indicator; the character must be
    /// ASCII.
    pub fn alternate_location(&mut self, alt: char) -> (r: &mut HetatmBuilder)
        requires
            alt <= '\u{7f}',
        ensures
            (*r)@ == (RecV { altloc: alt as u8, ..old(self)@ }),
            *final(self) == *final(r),
    {
        proof {
            use_type_invariant(&*self);
        }
        self.core.altloc = alt as u8;
        self
    }

    /// An immutable record holding the builder's current fields.
    pub fn finalize(&self) -> (r: Hetatm)
        ensures
            r@ == self@,
    {
        proof {
            use_type_invariant(&*self);
        }
        Hetatm {
            core: RecCore {
                record: crate::text::copy_range(&self.core.record, 0, self.core.record.len()),
                serial: self.core.serial,
                name: crate::text::copy_range(&self.core.name, 0, self.core.name.len()),
                altloc: self.core.altloc,
                resname: crate::text::copy_range(&self.core.resname, 0, self.core.resname.len()),
                chainid: self.core.chainid,
                resseq: self.core.resseq,
                icode: self.core.icode,
                x: self.core.x,
                y: self.core.y,
                z: self.core.z,
                occupancy: self.core.occupancy,
                tempfactor: self.core.tempfactor,
                element: crate::text::copy_range(&self.core.element, 0, self.core.element.len()),
                charge: crate::text::copy_range(&self.core.charge, 0, self.core.charge.len()),
            },
        }
    }
}

} // verus!
