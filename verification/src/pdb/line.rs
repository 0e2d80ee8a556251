//! The fixed-column line model shared by the atom and heteroatom record
//! kinds: the record view, the exact parse and format specifications over
//! byte sequences, and the verified line parser and formatter.
use vstd::prelude::*;
use crate::text::{
    SP, ascii7, chars_of, copy_range, no_edge_ws, pad_left, pad_right, push_pad_left,
    push_pad_right, push_spaces, spaces, trim_of, trim_range, lemma_trim_of_props,
    lemma_ascii7_concat, lemma_trim_edges,
};
use crate::num::{
    fixed_repr, fmt_fixed, fmt_i64, int_repr, lemma_fixed_repr_clean, lemma_int_repr_clean,
    parse_fixed_bytes, parse_fixed_val, parse_i32_bytes, parse_i32_val, FIXED_CAP,
};

verus! {

/// Default temperature factor, in hundredths, for lines that end before
/// its column.
pub const TEMP_DEFAULT: i64 = 99999;

/// The numeric column a malformed field was read from.
#[derive(Clone, Copy, PartialEq, Eq, Structural, Debug)]
pub enum FieldKind {
    Serial,
    ResidueNumber,
    CoordX,
    CoordY,
    CoordZ,
    Occupancy,
    TemperatureFactor,
}

/// Why a line was rejected: not ASCII, too short for the mandatory
/// columns, of another record kind, or with a numeric column that does
/// not read as a number.
#[derive(Debug)]
pub enum ParseError {
    InvalidEncoding,
    TooShort,
    WrongRecordKind,
    MalformedField { field: FieldKind, raw: Vec<u8>, line: Vec<u8> },
}

/// Specification form of a parse error; the diagnostic copy of the whole
/// line is not part of it.
pub enum ErrV {
    InvalidEncoding,
    TooShort,
    WrongRecordKind,
    Malformed { field: FieldKind, raw: Seq<u8> },
}

impl View for ParseError {
    type V = ErrV;

    open spec fn view(&self) -> ErrV {
        match self {
            ParseError::InvalidEncoding => ErrV::InvalidEncoding,
            ParseError::TooShort => ErrV::TooShort,
            ParseError::WrongRecordKind => ErrV::WrongRecordKind,
            ParseError::MalformedField { field, raw, line } => ErrV::Malformed {
                field: *field,
                raw: raw@,
            },
        }
    }
}

/// Specification form of one atom-like record. Text fields are byte
/// sequences; coordinates are in thousandths, occupancy and temperature
/// factor in hundredths.
#[verifier::ext_equal]
pub struct RecV {
    pub record: Seq<u8>,
    pub serial: i32,
    pub name: Seq<u8>,
    pub altloc: u8,
    pub resname: Seq<u8>,
    pub chainid: u8,
    pub resseq: i32,
    pub icode: u8,
    pub x: i64,
    pub y: i64,
    pub z: i64,
    pub occupancy: i64,
    pub tempfactor: i64,
    pub element: Seq<u8>,
    pub charge: Seq<u8>,
}

/// Capacity and encoding invariant of a record: every text field is
/// ASCII and within its column capacity, and the single-character fields
/// are ASCII.
pub open spec fn wf_rec(a: RecV) -> bool {
    &&& a.record.len() <= 6 && ascii7(a.record)
    &&& a.name.len() <= 4 && ascii7(a.name)
    &&& a.resname.len() <= 3 && ascii7(a.resname)
    &&& a.element.len() <= 2 && ascii7(a.element)
    &&& a.charge.len() <= 2 && ascii7(a.charge)
    &&& a.altloc < 128
    &&& a.chainid < 128
    &&& a.icode < 128
}

/// True when every text field carries no surrounding whitespace, as the
/// parser leaves them.
pub open spec fn trimmed_rec(a: RecV) -> bool {
    &&& no_edge_ws(a.record)
    &&& no_edge_ws(a.name)
    &&& no_edge_ws(a.resname)
    &&& no_edge_ws(a.element)
    &&& no_edge_ws(a.charge)
}

/// The record kind tag of atom records, `"ATOM  "`.
pub open spec fn atom_tag() -> Seq<u8> {
    seq![65u8, 84u8, 79u8, 77u8, 32u8, 32u8]
}

/// The record kind tag of heteroatom records, `"HETATM"`.
pub open spec fn hetatm_tag() -> Seq<u8> {
    seq![72u8, 69u8, 84u8, 65u8, 84u8, 77u8]
}

/// The atom name block, columns 11 to 16: a one-character element symbol
/// (or none) starts the name one column later than a two-character one.
pub open spec fn name_block(element: Seq<u8>, name: Seq<u8>) -> Seq<u8> {
    if element.len() <= 1 {
        spaces(2) + pad_right(name, 3)
    } else {
        seq![SP] + pad_right(name, 4)
    }
}

/// The canonical line of a record: the exact 80-column layout, each
/// field padded to its column range. An oversized field widens its
/// column, as the formatter never fails.
pub open spec fn fmt_rec_spec(a: RecV) -> Seq<u8> {
    pad_right(a.record, 6) + pad_left(int_repr(a.serial as int), 5) + name_block(
        a.element,
        a.name,
    ) + seq![a.altloc] + pad_right(a.resname, 3) + seq![SP] + seq![a.chainid] + pad_left(
        int_repr(a.resseq as int),
        4,
    ) + seq![a.icode] + spaces(3) + pad_left(fixed_repr(a.x as int, 3), 8) + pad_left(
        fixed_repr(a.y as int, 3),
        8,
    ) + pad_left(fixed_repr(a.z as int, 3), 8) + pad_left(fixed_repr(a.occupancy as int, 2), 6)
        + pad_left(fixed_repr(a.tempfactor as int, 2), 6) + spaces(10) + pad_left(a.element, 2)
        + pad_left(a.charge, 2)
}

/// The element symbol of a line that ends before the element columns,
/// inferred from the alignment of the name field.
pub open spec fn inferred_element(bs: Seq<u8>) -> Seq<u8> {
    if bs[12] == SP {
        trim_of(bs.subrange(13, 14))
    } else {
        trim_of(bs.subrange(12, 14))
    }
}

/// The exact parse of one atom-like line with record tag `tag`: the
/// mandatory columns through the coordinates must be present and well
/// formed; the trailing columns default when the line ends before them.
/// The numeric columns follow the fixed-point grammar of
/// `parse_fixed_val`, not general floating-point syntax: a column such
/// as `1e5` or `12.3456` is a malformed field here.
pub open spec fn parse_rec_spec(bs: Seq<u8>, tag: Seq<u8>) -> Result<RecV, ErrV> {
    if bs.len() < 54 {
        Err(ErrV::TooShort)
    } else if bs.subrange(0, 6) != tag {
        Err(ErrV::WrongRecordKind)
    } else {
        match parse_i32_val(trim_of(bs.subrange(6, 11))) {
            None => Err(
                ErrV::Malformed { field: FieldKind::Serial, raw: trim_of(bs.subrange(6, 11)) },
            ),
            Some(serial) => match parse_i32_val(trim_of(bs.subrange(22, 26))) {
                None => Err(
                    ErrV::Malformed {
                        field: FieldKind::ResidueNumber,
                        raw: trim_of(bs.subrange(22, 26)),
                    },
                ),
                Some(resseq) => match parse_fixed_val(trim_of(bs.subrange(30, 38)), 3) {
                    None => Err(
                        ErrV::Malformed {
                            field: FieldKind::CoordX,
                            raw: trim_of(bs.subrange(30, 38)),
                        },
                    ),
                    Some(x) => match parse_fixed_val(trim_of(bs.subrange(38, 46)), 3) {
                        None => Err(
                            ErrV::Malformed {
                                field: FieldKind::CoordY,
                                raw: trim_of(bs.subrange(38, 46)),
                            },
                        ),
                        Some(y) => match parse_fixed_val(trim_of(bs.subrange(46, 54)), 3) {
                            None => Err(
                                ErrV::Malformed {
                                    field: FieldKind::CoordZ,
                                    raw: trim_of(bs.subrange(46, 54)),
                                },
                            ),
                            Some(z) => parse_rec_tail(bs, tag, serial, resseq, x, y, z),
                        },
                    },
                },
            },
        }
    }
}

/// The optional trailing columns of an atom-like line: occupancy,
/// temperature factor, element and charge, each defaulted when the line
/// ends before its columns.
pub open spec fn parse_rec_tail(
    bs: Seq<u8>,
    tag: Seq<u8>,
    serial: int,
    resseq: int,
    x: int,
    y: int,
    z: int,
) -> Result<RecV, ErrV> {
    let occ = if bs.len() < 60 {
        Some(0int)
    } else {
        parse_fixed_val(trim_of(bs.subrange(54, 60)), 2)
    };
    let tmp = if bs.len() < 66 {
        Some(TEMP_DEFAULT as int)
    } else {
        parse_fixed_val(trim_of(bs.subrange(60, 66)), 2)
    };
    match occ {
        None => Err(
            ErrV::Malformed { field: FieldKind::Occupancy, raw: trim_of(bs.subrange(54, 60)) },
        ),
        Some(occv) => match tmp {
            None => Err(
                ErrV::Malformed {
                    field: FieldKind::TemperatureFactor,
                    raw: trim_of(bs.subrange(60, 66)),
                },
            ),
            Some(tmpv) => Ok(
                RecV {
                    record: trim_of(bs.subrange(0, 6)),
                    serial: serial as i32,
                    name: trim_of(bs.subrange(12, 16)),
                    altloc: bs[16],
                    resname: trim_of(bs.subrange(17, 20)),
                    chainid: bs[21],
                    resseq: resseq as i32,
                    icode: bs[26],
                    x: x as i64,
                    y: y as i64,
                    z: z as i64,
                    occupancy: occv as i64,
                    tempfactor: tmpv as i64,
                    element: if bs.len() >= 78 {
                        trim_of(bs.subrange(76, 78))
                    } else {
                        inferred_element(bs)
                    },
                    charge: if bs.len() >= 80 {
                        trim_of(bs.subrange(78, 80))
                    } else {
                        Seq::empty()
                    },
                },
            ),
        },
    }
}

/// One atom-like record in executable form, with the field layout the
/// view describes; the shared core of the atom and heteroatom kinds.
#[derive(Debug)]
pub struct RecCore {
    pub record: Vec<u8>,
    pub serial: i32,
    pub name: Vec<u8>,
    pub altloc: u8,
    pub resname: Vec<u8>,
    pub chainid: u8,
    pub resseq: i32,
    pub icode: u8,
    pub x: i64,
    pub y: i64,
    pub z: i64,
    pub occupancy: i64,
    pub tempfactor: i64,
    pub element: Vec<u8>,
    pub charge: Vec<u8>,
}

impl View for RecCore {
    type V = RecV;

    open spec fn view(&self) -> RecV {
        RecV {
            record: self.record@,
            serial: self.serial,
            name: self.name@,
            altloc: self.altloc,
            resname: self.resname@,
            chainid: self.chainid,
            resseq: self.resseq,
            icode: self.icode,
            x: self.x,
            y: self.y,
            z: self.z,
            occupancy: self.occupancy,
            tempfactor: self.tempfactor,
            element: self.element@,
            charge: self.charge@,
        }
    }
}

/// True when the first `tag` bytes of `bs` are exactly `tag`.
pub(crate) fn eq_prefix(bs: &Vec<u8>, tag: &Vec<u8>) -> (r: bool)
    requires
        tag@.len() <= bs@.len(),
    ensures
        r == (bs@.subrange(0, tag@.len() as int) == tag@),
{
    let mut i: usize = 0;
    while i < tag.len()
        invariant
            i <= tag@.len() <= bs@.len(),
            forall|j: int| 0 <= j < i ==> bs@[j] == #[trigger] tag@[j],
        decreases tag@.len() - i,
    {
        if bs[i] != tag[i] {
            proof {
                assert(bs@.subrange(0, tag@.len() as int)[i as int] != tag@[i as int]);
            }
            return false;
        }
        i = i + 1;
    }
    proof {
        assert(bs@.subrange(0, tag@.len() as int) =~= tag@);
    }
    true
}

/// Reads a 32-bit integer column, trimmed; a column that does not read
/// as an integer is a malformed field carrying the column's text and the
/// line.
fn get_i32_field(bs: &Vec<u8>, lo: usize, hi: usize, f: FieldKind) -> (r: Result<
    i32,
    ParseError,
>)
    requires
        lo <= hi <= bs@.len(),
    ensures
        match r {
            Ok(v) => parse_i32_val(trim_of(bs@.subrange(lo as int, hi as int))) == Some(
                v as int,
            ),
            Err(e) => parse_i32_val(trim_of(bs@.subrange(lo as int, hi as int))) is None && e@
                == (ErrV::Malformed { field: f, raw: trim_of(bs@.subrange(lo as int, hi as int)) })
                && (e matches ParseError::MalformedField { line, .. } && line@ == bs@),
        },
{
    let t = trim_range(bs, lo, hi);
    match parse_i32_bytes(&t) {
        Some(v) => Ok(v),
        None => Err(
            ParseError::MalformedField { field: f, raw: t, line: copy_range(bs, 0, bs.len()) },
        ),
    }
}

/// Reads a fixed-point column in units of `10^-scale`, trimmed; a column
/// that does not read as a number is a malformed field.
fn get_fixed_field(bs: &Vec<u8>, lo: usize, hi: usize, scale: usize, f: FieldKind) -> (r: Result<
    i64,
    ParseError,
>)
    requires
        lo <= hi <= bs@.len(),
        1 <= scale <= 6,
    ensures
        match r {
            Ok(v) => parse_fixed_val(trim_of(bs@.subrange(lo as int, hi as int)), scale as nat)
                == Some(v as int),
            Err(e) => parse_fixed_val(
                trim_of(bs@.subrange(lo as int, hi as int)),
                scale as nat,
            ) is None && e@ == (ErrV::Malformed {
                field: f,
                raw: trim_of(bs@.subrange(lo as int, hi as int)),
            }) && (e matches ParseError::MalformedField { line, .. } && line@ == bs@),
        },
{
    let t = trim_range(bs, lo, hi);
    match parse_fixed_bytes(&t, scale) {
        Some(v) => Ok(v),
        None => Err(
            ParseError::MalformedField { field: f, raw: t, line: copy_range(bs, 0, bs.len()) },
        ),
    }
}

/// Parses one atom-like line against the given record tag, exactly as
/// `parse_rec_spec` describes; a parsed record satisfies the capacity
/// invariant and carries trimmed text fields.
#[verifier::loop_isolation(false)]
pub fn parse_core(bs: &Vec<u8>, tag: &Vec<u8>) -> (r: Result<RecCore, ParseError>)
    requires
        tag@.len() == 6,
        ascii7(bs@),
    ensures
        match r {
            Ok(c) => parse_rec_spec(bs@, tag@) == Ok::<RecV, ErrV>(c@) && wf_rec(c@)
                && trimmed_rec(c@),
            Err(e) => parse_rec_spec(bs@, tag@) == Err::<RecV, ErrV>(e@),
        },
{
    let n = bs.len();
    if n < 54 {
        return Err(ParseError::TooShort);
    }
    if !eq_prefix(bs, tag) {
        return Err(ParseError::WrongRecordKind);
    }
    let serial = match get_i32_field(bs, 6, 11, FieldKind::Serial) {
        Ok(v) => v,
        Err(e) => {
            return Err(e);
        },
    };
    let resseq = match get_i32_field(bs, 22, 26, FieldKind::ResidueNumber) {
        Ok(v) => v,
        Err(e) => {
            return Err(e);
        },
    };
    let x = match get_fixed_field(bs, 30, 38, 3, FieldKind::CoordX) {
        Ok(v) => v,
        Err(e) => {
            return Err(e);
        },
    };
    let y = match get_fixed_field(bs, 38, 46, 3, FieldKind::CoordY) {
        Ok(v) => v,
        Err(e) => {
            return Err(e);
        },
    };
    let z = match get_fixed_field(bs, 46, 54, 3, FieldKind::CoordZ) {
        Ok(v) => v,
        Err(e) => {
            return Err(e);
        },
    };
    let occupancy = if n < 60 {
        0i64
    } else {
        match get_fixed_field(bs, 54, 60, 2, FieldKind::Occupancy) {
            Ok(v) => v,
            Err(e) => {
                return Err(e);
            },
        }
    };
    let tempfactor = if n < 66 {
        TEMP_DEFAULT
    } else {
        match get_fixed_field(bs, 60, 66, 2, FieldKind::TemperatureFactor) {
            Ok(v) => v,
            Err(e) => {
                return Err(e);
            },
        }
    };
    let element = if n >= 78 {
        trim_range(bs, 76, 78)
    } else if bs[12] == SP {
        trim_range(bs, 13, 14)
    } else {
        trim_range(bs, 12, 14)
    };
    let charge = if n >= 80 {
        trim_range(bs, 78, 80)
    } else {
        Vec::new()
    };
    let c = RecCore {
        record: trim_range(bs, 0, 6),
        serial,
        name: trim_range(bs, 12, 16),
        altloc: bs[16],
        resname: trim_range(bs, 17, 20),
        chainid: bs[21],
        resseq,
        icode: bs[26],
        x,
        y,
        z,
        occupancy,
        tempfactor,
        element,
        charge,
    };
    proof {
        lemma_trim_of_props(bs@.subrange(0, 6));
        lemma_trim_of_props(bs@.subrange(12, 16));
        lemma_trim_of_props(bs@.subrange(17, 20));
        lemma_trim_of_props(bs@.subrange(76, 78));
        lemma_trim_of_props(bs@.subrange(13, 14));
        lemma_trim_of_props(bs@.subrange(12, 14));
        lemma_trim_of_props(bs@.subrange(78, 80));
        assert(parse_rec_spec(bs@, tag@) == Ok::<RecV, ErrV>(c@));
        assert(no_edge_ws(Seq::<u8>::empty()));
        assert(ascii7(Seq::<u8>::empty()));
    }
    Ok(c)
}

/// Formats one atom-like record as its canonical line, exactly as
/// `fmt_rec_spec` describes.
pub fn fmt_core(c: &RecCore) -> (r: Vec<u8>)
    ensures
        r@ == fmt_rec_spec(c@),
{
    let ghost a = c@;
    let ghost p1 = pad_right(a.record, 6);
    let ghost p2 = p1 + pad_left(int_repr(a.serial as int), 5);
    let ghost p3 = p2 + name_block(a.element, a.name);
    let ghost p4 = p3 + seq![a.altloc];
    let ghost p5 = p4 + pad_right(a.resname, 3);
    let ghost p6 = p5 + seq![SP];
    let ghost p7 = p6 + seq![a.chainid];
    let ghost p8 = p7 + pad_left(int_repr(a.resseq as int), 4);
    let ghost p9 = p8 + seq![a.icode];
    let ghost p10 = p9 + spaces(3);
    let ghost p11 = p10 + pad_left(fixed_repr(a.x as int, 3), 8);
    let ghost p12 = p11 + pad_left(fixed_repr(a.y as int, 3), 8);
    let ghost p13 = p12 + pad_left(fixed_repr(a.z as int, 3), 8);
    let ghost p14 = p13 + pad_left(fixed_repr(a.occupancy as int, 2), 6);
    let ghost p15 = p14 + pad_left(fixed_repr(a.tempfactor as int, 2), 6);
    let ghost p16 = p15 + spaces(10);
    let ghost p17 = p16 + pad_left(a.element, 2);
    let ghost p18 = p17 + pad_left(a.charge, 2);
    let mut out: Vec<u8> = Vec::new();
    push_pad_right(&mut out, &c.record, 6);
    proof {
        assert(out@ =~= p1);
    }
    let serial_text = fmt_i64(c.serial as i64);
    push_pad_left(&mut out, &serial_text, 5);
    proof {
        assert(out@ == p2);
    }
    if c.element.len() <= 1 {
        push_spaces(&mut out, 2);
        push_pad_right(&mut out, &c.name, 3);
    } else {
        push_spaces(&mut out, 1);
        push_pad_right(&mut out, &c.name, 4);
        proof {
            assert(spaces(1) =~= seq![SP]);
        }
    }
    proof {
        assert(out@ =~= p3);
    }
    out.push(c.altloc);
    proof {
        assert(out@ =~= p4);
    }
    push_pad_right(&mut out, &c.resname, 3);
    proof {
        assert(out@ == p5);
    }
    out.push(SP);
    proof {
        assert(out@ =~= p6);
    }
    out.push(c.chainid);
    proof {
        assert(out@ =~= p7);
    }
    let resseq_text = fmt_i64(c.resseq as i64);
    push_pad_left(&mut out, &resseq_text, 4);
    proof {
        assert(out@ == p8);
    }
    out.push(c.icode);
    proof {
        assert(out@ =~= p9);
    }
    push_spaces(&mut out, 3);
    proof {
        assert(out@ == p10);
    }
    let x_text = fmt_fixed(c.x, 3);
    push_pad_left(&mut out, &x_text, 8);
    proof {
        assert(out@ == p11);
    }
    let y_text = fmt_fixed(c.y, 3);
    push_pad_left(&mut out, &y_text, 8);
    proof {
        assert(out@ == p12);
    }
    let z_text = fmt_fixed(c.z, 3);
    push_pad_left(&mut out, &z_text, 8);
    proof {
        assert(out@ == p13);
    }
    let occ_text = fmt_fixed(c.occupancy, 2);
    push_pad_left(&mut out, &occ_text, 6);
    proof {
        assert(out@ == p14);
    }
    let tmp_text = fmt_fixed(c.tempfactor, 2);
    push_pad_left(&mut out, &tmp_text, 6);
    proof {
        assert(out@ == p15);
    }
    push_spaces(&mut out, 10);
    proof {
        assert(out@ == p16);
    }
    push_pad_left(&mut out, &c.element, 2);
    proof {
        assert(out@ == p17);
    }
    push_pad_left(&mut out, &c.charge, 2);
    proof {
        assert(out@ == p18);
        assert(fmt_rec_spec(a) == p18);
    }
    out
}

/// The bare record name of atom records, `"ATOM"`.
pub open spec fn atom_word() -> Seq<u8> {
    seq![65u8, 84u8, 79u8, 77u8]
}

/// The record defaults shared by fresh records and builders: serial 1,
/// chain `'A'`, residue number 1, single-character fields blank, origin
/// coordinates, occupancy zero and temperature factor 99.90.
pub open spec fn default_rec(record: Seq<u8>) -> RecV {
    RecV {
        record,
        serial: 1,
        name: Seq::empty(),
        altloc: SP,
        resname: Seq::empty(),
        chainid: 65,
        resseq: 1,
        icode: SP,
        x: 0,
        y: 0,
        z: 0,
        occupancy: 0,
        tempfactor: 9990,
        element: Seq::empty(),
        charge: Seq::empty(),
    }
}

/// The parse of a whole text line: a non-ASCII line is rejected before
/// any column is read.
pub open spec fn parse_line_spec(cs: Seq<char>, tag: Seq<u8>) -> Result<RecV, ErrV> {
    if !vstd::utf8::is_ascii_chars(cs) {
        Err(ErrV::InvalidEncoding)
    } else {
        parse_rec_spec(crate::text::bytes_of(cs), tag)
    }
}

/// The atom record tag in executable form.
pub fn atom_tag_vec() -> (r: Vec<u8>)
    ensures
        r@ == atom_tag(),
{
    let v: Vec<u8> = vec![65u8, 84u8, 79u8, 77u8, 32u8, 32u8];
    proof {
        assert(v@ =~= atom_tag());
    }
    v
}

/// The bare atom record name in executable form.
pub fn atom_word_vec() -> (r: Vec<u8>)
    ensures
        r@ == atom_word(),
{
    let v: Vec<u8> = vec![65u8, 84u8, 79u8, 77u8];
    proof {
        assert(v@ =~= atom_word());
    }
    v
}

/// The heteroatom record tag in executable form.
pub fn hetatm_tag_vec() -> (r: Vec<u8>)
    ensures
        r@ == hetatm_tag(),
{
    let v: Vec<u8> = vec![72u8, 69u8, 84u8, 65u8, 84u8, 77u8];
    proof {
        assert(v@ =~= hetatm_tag());
    }
    v
}

/// A fresh record with the given record name and the shared defaults.
pub fn default_core(record: Vec<u8>) -> (r: RecCore)
    ensures
        r@ == default_rec(record@),
{
    RecCore {
        record,
        serial: 1,
        name: Vec::new(),
        altloc: SP,
        resname: Vec::new(),
        chainid: 65,
        resseq: 1,
        icode: SP,
        x: 0,
        y: 0,
        z: 0,
        occupancy: 0,
        tempfactor: 9990,
        element: Vec::new(),
        charge: Vec::new(),
    }
}

/// Every byte of a canonical line is ASCII when the record meets the
/// capacity invariant.
pub proof fn lemma_fmt_ascii(a: RecV)
    requires
        wf_rec(a),
    ensures
        ascii7(fmt_rec_spec(a)),
{
    lemma_int_repr_clean(a.serial as int);
    lemma_int_repr_clean(a.resseq as int);
    lemma_fixed_repr_clean(a.x as int, 3);
    lemma_fixed_repr_clean(a.y as int, 3);
    lemma_fixed_repr_clean(a.z as int, 3);
    lemma_fixed_repr_clean(a.occupancy as int, 2);
    lemma_fixed_repr_clean(a.tempfactor as int, 2);
    assert forall|i: int| 0 <= i < fmt_rec_spec(a).len() implies #[trigger] fmt_rec_spec(a)[i]
        < 128 by {
        lemma_piece_ascii(a);
    }
}

/// All the pieces a canonical line concatenates are ASCII.
proof fn lemma_piece_ascii(a: RecV)
    requires
        wf_rec(a),
        ascii7(int_repr(a.serial as int)),
        ascii7(int_repr(a.resseq as int)),
        ascii7(fixed_repr(a.x as int, 3)),
        ascii7(fixed_repr(a.y as int, 3)),
        ascii7(fixed_repr(a.z as int, 3)),
        ascii7(fixed_repr(a.occupancy as int, 2)),
        ascii7(fixed_repr(a.tempfactor as int, 2)),
    ensures
        ascii7(fmt_rec_spec(a)),
{
    lemma_ascii7_pad(a.record, 6);
    lemma_ascii7_pad(int_repr(a.serial as int), 5);
    lemma_ascii7_pad(a.name, 3);
    lemma_ascii7_pad(a.name, 4);
    lemma_ascii7_pad(a.resname, 3);
    lemma_ascii7_pad(int_repr(a.resseq as int), 4);
    lemma_ascii7_pad(fixed_repr(a.x as int, 3), 8);
    lemma_ascii7_pad(fixed_repr(a.y as int, 3), 8);
    lemma_ascii7_pad(fixed_repr(a.z as int, 3), 8);
    lemma_ascii7_pad(fixed_repr(a.occupancy as int, 2), 6);
    lemma_ascii7_pad(fixed_repr(a.tempfactor as int, 2), 6);
    lemma_ascii7_pad(a.element, 2);
    lemma_ascii7_pad(a.charge, 2);
    assert(ascii7(spaces(1)));
    assert(ascii7(spaces(2)));
    assert(ascii7(spaces(3)));
    assert(ascii7(spaces(10)));
    assert(ascii7(seq![a.altloc]));
    assert(ascii7(seq![SP]));
    assert(ascii7(seq![a.chainid]));
    assert(ascii7(seq![a.icode]));
    assert(ascii7(name_block(a.element, a.name))) by {
        if a.element.len() <= 1 {
            lemma_ascii7_concat(spaces(2), pad_right(a.name, 3));
        } else {
            lemma_ascii7_concat(seq![SP], pad_right(a.name, 4));
        }
    }
    let p1 = pad_right(a.record, 6);
    let p2 = p1 + pad_left(int_repr(a.serial as int), 5);
    let p3 = p2 + name_block(a.element, a.name);
    let p4 = p3 + seq![a.altloc];
    let p5 = p4 + pad_right(a.resname, 3);
    let p6 = p5 + seq![SP];
    let p7 = p6 + seq![a.chainid];
    let p8 = p7 + pad_left(int_repr(a.resseq as int), 4);
    let p9 = p8 + seq![a.icode];
    let p10 = p9 + spaces(3);
    let p11 = p10 + pad_left(fixed_repr(a.x as int, 3), 8);
    let p12 = p11 + pad_left(fixed_repr(a.y as int, 3), 8);
    let p13 = p12 + pad_left(fixed_repr(a.z as int, 3), 8);
    let p14 = p13 + pad_left(fixed_repr(a.occupancy as int, 2), 6);
    let p15 = p14 + pad_left(fixed_repr(a.tempfactor as int, 2), 6);
    let p16 = p15 + spaces(10);
    let p17 = p16 + pad_left(a.element, 2);
    lemma_ascii7_concat(p1, pad_left(int_repr(a.serial as int), 5));
    lemma_ascii7_concat(p2, name_block(a.element, a.name));
    lemma_ascii7_concat(p3, seq![a.altloc]);
    lemma_ascii7_concat(p4, pad_right(a.resname, 3));
    lemma_ascii7_concat(p5, seq![SP]);
    lemma_ascii7_concat(p6, seq![a.chainid]);
    lemma_ascii7_concat(p7, pad_left(int_repr(a.resseq as int), 4));
    lemma_ascii7_concat(p8, seq![a.icode]);
    lemma_ascii7_concat(p9, spaces(3));
    lemma_ascii7_concat(p10, pad_left(fixed_repr(a.x as int, 3), 8));
    lemma_ascii7_concat(p11, pad_left(fixed_repr(a.y as int, 3), 8));
    lemma_ascii7_concat(p12, pad_left(fixed_repr(a.z as int, 3), 8));
    lemma_ascii7_concat(p13, pad_left(fixed_repr(a.occupancy as int, 2), 6));
    lemma_ascii7_concat(p14, pad_left(fixed_repr(a.tempfactor as int, 2), 6));
    lemma_ascii7_concat(p15, spaces(10));
    lemma_ascii7_concat(p16, pad_left(a.element, 2));
    lemma_ascii7_concat(p17, pad_left(a.charge, 2));
    assert(fmt_rec_spec(a) == p17 + pad_left(a.charge, 2));
}

/// Padding keeps a sequence ASCII.
proof fn lemma_ascii7_pad(s: Seq<u8>, w: nat)
    requires
        ascii7(s),
    ensures
        ascii7(pad_left(s, w)),
        ascii7(pad_right(s, w)),
{
    if s.len() < w {
        lemma_ascii7_concat(spaces((w - s.len()) as nat), s);
        lemma_ascii7_concat(s, spaces((w - s.len()) as nat));
    }
}

/// True when every numeric text of the record fits its column, so that
/// formatting pads rather than widens.
pub open spec fn fits_rec(a: RecV) -> bool {
    &&& int_repr(a.serial as int).len() <= 5
    &&& int_repr(a.resseq as int).len() <= 4
    &&& fixed_repr(a.x as int, 3).len() <= 8
    &&& fixed_repr(a.y as int, 3).len() <= 8
    &&& fixed_repr(a.z as int, 3).len() <= 8
    &&& fixed_repr(a.occupancy as int, 2).len() <= 6
    &&& fixed_repr(a.tempfactor as int, 2).len() <= 6
    &&& -(FIXED_CAP as int) <= a.x as int <= FIXED_CAP as int
    &&& -(FIXED_CAP as int) <= a.y as int <= FIXED_CAP as int
    &&& -(FIXED_CAP as int) <= a.z as int <= FIXED_CAP as int
    &&& -(FIXED_CAP as int) <= a.occupancy as int <= FIXED_CAP as int
    &&& -(FIXED_CAP as int) <= a.tempfactor as int <= FIXED_CAP as int
    &&& (a.element.len() <= 1 ==> a.name.len() <= 3)
}

/// The column ranges of a canonical line, as subranges of the formatted
/// text: each field stands exactly at its place in the column table.
#[verifier::rlimit(100)]
pub proof fn lemma_fmt_regions(a: RecV)
    requires
        wf_rec(a),
        fits_rec(a),
    ensures
        fmt_rec_spec(a).len() == 80,
        fmt_rec_spec(a).subrange(0, 6) == pad_right(a.record, 6),
        fmt_rec_spec(a).subrange(6, 11) == pad_left(int_repr(a.serial as int), 5),
        fmt_rec_spec(a).subrange(11, 16) == name_block(a.element, a.name),
        fmt_rec_spec(a)[16] == a.altloc,
        fmt_rec_spec(a).subrange(17, 20) == pad_right(a.resname, 3),
        fmt_rec_spec(a)[20] == SP,
        fmt_rec_spec(a)[21] == a.chainid,
        fmt_rec_spec(a).subrange(22, 26) == pad_left(int_repr(a.resseq as int), 4),
        fmt_rec_spec(a)[26] == a.icode,
        fmt_rec_spec(a).subrange(27, 30) == spaces(3),
        fmt_rec_spec(a).subrange(30, 38) == pad_left(fixed_repr(a.x as int, 3), 8),
        fmt_rec_spec(a).subrange(38, 46) == pad_left(fixed_repr(a.y as int, 3), 8),
        fmt_rec_spec(a).subrange(46, 54) == pad_left(fixed_repr(a.z as int, 3), 8),
        fmt_rec_spec(a).subrange(54, 60) == pad_left(fixed_repr(a.occupancy as int, 2), 6),
        fmt_rec_spec(a).subrange(60, 66) == pad_left(fixed_repr(a.tempfactor as int, 2), 6),
        fmt_rec_spec(a).subrange(66, 76) == spaces(10),
        fmt_rec_spec(a).subrange(76, 78) == pad_left(a.element, 2),
        fmt_rec_spec(a).subrange(78, 80) == pad_left(a.charge, 2),
{
    let bs = fmt_rec_spec(a);
    let q1 = pad_right(a.record, 6);
    let q2 = pad_left(int_repr(a.serial as int), 5);
    let q3 = name_block(a.element, a.name);
    let q5 = pad_right(a.resname, 3);
    let q8 = pad_left(int_repr(a.resseq as int), 4);
    let q11 = pad_left(fixed_repr(a.x as int, 3), 8);
    let q12 = pad_left(fixed_repr(a.y as int, 3), 8);
    let q13 = pad_left(fixed_repr(a.z as int, 3), 8);
    let q14 = pad_left(fixed_repr(a.occupancy as int, 2), 6);
    let q15 = pad_left(fixed_repr(a.tempfactor as int, 2), 6);
    let q17 = pad_left(a.element, 2);
    let q18 = pad_left(a.charge, 2);
    assert(q1.len() == 6);
    assert(q2.len() == 5);
    assert(q3.len() == 5);
    assert(q5.len() == 3);
    assert(q8.len() == 4);
    assert(q11.len() == 8);
    assert(q12.len() == 8);
    assert(q13.len() == 8);
    assert(q14.len() == 6);
    assert(q15.len() == 6);
    assert(q17.len() == 2);
    assert(q18.len() == 2);
    assert(bs.len() == 80);
    assert(bs.subrange(0, 6) =~= q1);
    assert(bs.subrange(6, 11) =~= q2);
    assert(bs.subrange(11, 16) =~= q3);
    assert(bs[16] == a.altloc);
    assert(bs.subrange(17, 20) =~= q5);
    assert(bs[20] == SP);
    assert(bs[21] == a.chainid);
    assert(bs.subrange(22, 26) =~= q8);
    assert(bs[26] == a.icode);
    assert(bs.subrange(30, 38) =~= q11);
    assert(bs.subrange(38, 46) =~= q12);
    assert(bs.subrange(46, 54) =~= q13);
    assert(bs.subrange(54, 60) =~= q14);
    assert(bs.subrange(60, 66) =~= q15);
    assert(bs.subrange(27, 30) =~= spaces(3));
    assert(bs.subrange(66, 76) =~= spaces(10));
    assert(bs.subrange(76, 78) =~= q17);
    assert(bs.subrange(78, 80) =~= q18);
}

/// Parsing the canonical line of a record recovers the record: the
/// round trip from a trimmed, fitting record through its text and back
/// is the identity.
#[verifier::rlimit(100)]
pub proof fn lemma_parse_of_fmt(a: RecV, tag: Seq<u8>)
    requires
        wf_rec(a),
        trimmed_rec(a),
        fits_rec(a),
        tag.len() == 6,
        pad_right(a.record, 6) == tag,
    ensures
        parse_rec_spec(fmt_rec_spec(a), tag) == Ok::<RecV, ErrV>(a),
{
    let bs = fmt_rec_spec(a);
    lemma_fmt_regions(a);
    // Record kind.
    assert(bs.subrange(0, 6) == tag);
    // Serial and residue number columns.
    crate::num::lemma_int_repr_clean(a.serial as int);
    crate::text::lemma_trim_of_pad_left(int_repr(a.serial as int), 5);
    crate::num::lemma_parse_int_repr(a.serial as int);
    crate::num::lemma_int_repr_clean(a.resseq as int);
    crate::text::lemma_trim_of_pad_left(int_repr(a.resseq as int), 4);
    crate::num::lemma_parse_int_repr(a.resseq as int);
    // Coordinate and factor columns.
    crate::num::lemma_fixed_repr_clean(a.x as int, 3);
    crate::text::lemma_trim_of_pad_left(fixed_repr(a.x as int, 3), 8);
    crate::num::lemma_parse_fixed_repr(a.x as int, 3);
    crate::num::lemma_fixed_repr_clean(a.y as int, 3);
    crate::text::lemma_trim_of_pad_left(fixed_repr(a.y as int, 3), 8);
    crate::num::lemma_parse_fixed_repr(a.y as int, 3);
    crate::num::lemma_fixed_repr_clean(a.z as int, 3);
    crate::text::lemma_trim_of_pad_left(fixed_repr(a.z as int, 3), 8);
    crate::num::lemma_parse_fixed_repr(a.z as int, 3);
    crate::num::lemma_fixed_repr_clean(a.occupancy as int, 2);
    crate::text::lemma_trim_of_pad_left(fixed_repr(a.occupancy as int, 2), 6);
    crate::num::lemma_parse_fixed_repr(a.occupancy as int, 2);
    crate::num::lemma_fixed_repr_clean(a.tempfactor as int, 2);
    crate::text::lemma_trim_of_pad_left(fixed_repr(a.tempfactor as int, 2), 6);
    crate::num::lemma_parse_fixed_repr(a.tempfactor as int, 2);
    // Text columns.
    crate::text::lemma_trim_of_pad_right(a.record, 6);
    crate::text::lemma_trim_of_pad_right(a.resname, 3);
    crate::text::lemma_trim_of_pad_left(a.element, 2);
    crate::text::lemma_trim_of_pad_left(a.charge, 2);
    // The name columns, under either alignment of the name block.
    assert(trim_of(bs.subrange(12, 16)) == a.name) by {
        let blk = name_block(a.element, a.name);
        assert(bs.subrange(12, 16) =~= blk.subrange(1, 5)) by {
            assert(bs.subrange(11, 16) == blk);
            assert(forall|i: int|
                0 <= i < 4 ==> #[trigger] bs.subrange(12, 16)[i] == bs.subrange(11, 16)[i + 1]);
        }
        if a.element.len() <= 1 {
            assert(blk.subrange(1, 5) =~= spaces(1) + a.name + spaces(
                (3 - a.name.len()) as nat,
            ));
            crate::text::lemma_trim_of_surrounded(a.name, 1, (3 - a.name.len()) as nat);
        } else {
            assert(blk.subrange(1, 5) =~= spaces(0) + a.name + spaces(
                (4 - a.name.len()) as nat,
            ));
            crate::text::lemma_trim_of_surrounded(a.name, 0, (4 - a.name.len()) as nat);
        }
    }
    let r = parse_rec_spec(bs, tag);
    assert(r is Ok);
    assert(r->Ok_0 =~= a);
}

/// A record parsed from a line meets the capacity invariant and carries
/// trimmed text fields.
pub proof fn lemma_parse_rec_wf(bs: Seq<u8>, tag: Seq<u8>)
    requires
        ascii7(bs),
        parse_rec_spec(bs, tag) is Ok,
    ensures
        wf_rec(parse_rec_spec(bs, tag)->Ok_0),
        trimmed_rec(parse_rec_spec(bs, tag)->Ok_0),
{
    lemma_trim_of_props(bs.subrange(0, 6));
    lemma_trim_of_props(bs.subrange(12, 16));
    lemma_trim_of_props(bs.subrange(17, 20));
    lemma_trim_of_props(bs.subrange(76, 78));
    lemma_trim_of_props(bs.subrange(13, 14));
    lemma_trim_of_props(bs.subrange(12, 14));
    lemma_trim_of_props(bs.subrange(78, 80));
    lemma_trim_edges(bs.subrange(0, 6));
    lemma_trim_edges(bs.subrange(12, 16));
    lemma_trim_edges(bs.subrange(17, 20));
    lemma_trim_edges(bs.subrange(76, 78));
    lemma_trim_edges(bs.subrange(13, 14));
    lemma_trim_edges(bs.subrange(12, 14));
    lemma_trim_edges(bs.subrange(78, 80));
    assert(no_edge_ws(Seq::<u8>::empty()));
    assert(ascii7(Seq::<u8>::empty()));
}

/// A right-aligned integer column: an in-range value's canonical text,
/// left-padded with spaces to the column width.
pub open spec fn ra_int_field(f: Seq<u8>, w: nat) -> bool {
    exists|n: int|
        #![auto]
        -2147483648 <= n <= 2147483647 && int_repr(n).len() <= w && f == pad_left(int_repr(n), w)
}

/// A right-aligned fixed-point column: an in-range value's canonical
/// text, left-padded with spaces to the column width.
pub open spec fn ra_fixed_field(f: Seq<u8>, w: nat, scale: nat) -> bool {
    exists|m: int|
        #![auto]
        -(FIXED_CAP as int) <= m <= FIXED_CAP as int && fixed_repr(m, scale).len() <= w && f
            == pad_left(fixed_repr(m, scale), w)
}

/// A left-aligned text column: a trimmed value padded on the right.
pub open spec fn la_text_field(f: Seq<u8>, w: nat) -> bool {
    exists|v: Seq<u8>| #![auto] no_edge_ws(v) && v.len() <= w && f == pad_right(v, w)
}

/// A right-aligned text column: a trimmed value padded on the left.
pub open spec fn ra_text_field(f: Seq<u8>, w: nat) -> bool {
    exists|v: Seq<u8>| #![auto] no_edge_ws(v) && v.len() <= w && f == pad_left(v, w)
}

/// A well-formed 80-column atom-like line: exactly the lines the column
/// table admits, every field canonical at its place, and the name
/// aligned as its element symbol directs.
pub open spec fn wf_line(bs: Seq<u8>, tag: Seq<u8>) -> bool {
    &&& bs.len() == 80
    &&& ascii7(bs)
    &&& bs.subrange(0, 6) == tag
    &&& ra_int_field(bs.subrange(6, 11), 5)
    &&& ra_text_field(bs.subrange(76, 78), 2)
    &&& bs[11] == SP
    &&& (trim_of(bs.subrange(76, 78)).len() <= 1 ==> bs[12] == SP && la_text_field(
        bs.subrange(13, 16),
        3,
    ))
    &&& (trim_of(bs.subrange(76, 78)).len() >= 2 ==> la_text_field(bs.subrange(12, 16), 4))
    &&& la_text_field(bs.subrange(17, 20), 3)
    &&& bs[20] == SP
    &&& ra_int_field(bs.subrange(22, 26), 4)
    &&& bs.subrange(27, 30) == spaces(3)
    &&& ra_fixed_field(bs.subrange(30, 38), 8, 3)
    &&& ra_fixed_field(bs.subrange(38, 46), 8, 3)
    &&& ra_fixed_field(bs.subrange(46, 54), 8, 3)
    &&& ra_fixed_field(bs.subrange(54, 60), 6, 2)
    &&& ra_fixed_field(bs.subrange(60, 66), 6, 2)
    &&& bs.subrange(66, 76) == spaces(10)
    &&& ra_text_field(bs.subrange(78, 80), 2)
}

/// The two atom-like record tags trim to their bare record names and
/// pad back to themselves.
pub proof fn lemma_tag_trim(tag: Seq<u8>)
    requires
        tag == atom_tag() || tag == hetatm_tag(),
    ensures
        no_edge_ws(trim_of(tag)),
        trim_of(tag).len() <= 6,
        ascii7(trim_of(tag)),
        pad_right(trim_of(tag), 6) == tag,
{
    if tag == atom_tag() {
        crate::text::lemma_trim_of_indexes(tag, 0, 4);
        assert(trim_of(tag) =~= atom_word());
        assert(pad_right(atom_word(), 6) =~= atom_tag());
    } else {
        crate::text::lemma_trim_of_clean(tag);
        assert(pad_right(trim_of(tag), 6) == tag);
    }
}

/// Two 80-column lines whose fields agree region by region are equal.
proof fn lemma_eq_by_regions(x: Seq<u8>, y: Seq<u8>)
    requires
        x.len() == 80,
        y.len() == 80,
        x.subrange(0, 6) == y.subrange(0, 6),
        x.subrange(6, 11) == y.subrange(6, 11),
        x.subrange(11, 16) == y.subrange(11, 16),
        x[16] == y[16],
        x.subrange(17, 20) == y.subrange(17, 20),
        x[20] == y[20],
        x[21] == y[21],
        x.subrange(22, 26) == y.subrange(22, 26),
        x[26] == y[26],
        x.subrange(27, 30) == y.subrange(27, 30),
        x.subrange(30, 38) == y.subrange(30, 38),
        x.subrange(38, 46) == y.subrange(38, 46),
        x.subrange(46, 54) == y.subrange(46, 54),
        x.subrange(54, 60) == y.subrange(54, 60),
        x.subrange(60, 66) == y.subrange(60, 66),
        x.subrange(66, 76) == y.subrange(66, 76),
        x.subrange(76, 78) == y.subrange(76, 78),
        x.subrange(78, 80) == y.subrange(78, 80),
    ensures
        x == y,
{
    assert forall|i: int| 0 <= i < 80 implies x[i] == y[i] by {
        if i < 6 {
            assert(x[i] == x.subrange(0, 6)[i - 0]);
            assert(y[i] == y.subrange(0, 6)[i - 0]);
        } else if i < 11 {
            assert(x[i] == x.subrange(6, 11)[i - 6]);
            assert(y[i] == y.subrange(6, 11)[i - 6]);
        } else if i < 16 {
            assert(x[i] == x.subrange(11, 16)[i - 11]);
            assert(y[i] == y.subrange(11, 16)[i - 11]);
        } else if i < 17 {
            assert(x[i] == y[i]);
        } else if i < 20 {
            assert(x[i] == x.subrange(17, 20)[i - 17]);
            assert(y[i] == y.subrange(17, 20)[i - 17]);
        } else if i < 22 {
            assert(x[i] == y[i]);
        } else if i < 26 {
            assert(x[i] == x.subrange(22, 26)[i - 22]);
            assert(y[i] == y.subrange(22, 26)[i - 22]);
        } else if i < 27 {
            assert(x[i] == y[i]);
        } else if i < 30 {
            assert(x[i] == x.subrange(27, 30)[i - 27]);
            assert(y[i] == y.subrange(27, 30)[i - 27]);
        } else if i < 38 {
            assert(x[i] == x.subrange(30, 38)[i - 30]);
            assert(y[i] == y.subrange(30, 38)[i - 30]);
        } else if i < 46 {
            assert(x[i] == x.subrange(38, 46)[i - 38]);
            assert(y[i] == y.subrange(38, 46)[i - 38]);
        } else if i < 54 {
            assert(x[i] == x.subrange(46, 54)[i - 46]);
            assert(y[i] == y.subrange(46, 54)[i - 46]);
        } else if i < 60 {
            assert(x[i] == x.subrange(54, 60)[i - 54]);
            assert(y[i] == y.subrange(54, 60)[i - 54]);
        } else if i < 66 {
            assert(x[i] == x.subrange(60, 66)[i - 60]);
            assert(y[i] == y.subrange(60, 66)[i - 60]);
        } else if i < 76 {
            assert(x[i] == x.subrange(66, 76)[i - 66]);
            assert(y[i] == y.subrange(66, 76)[i - 66]);
        } else if i < 78 {
            assert(x[i] == x.subrange(76, 78)[i - 76]);
            assert(y[i] == y.subrange(76, 78)[i - 76]);
        } else if i < 80 {
            assert(x[i] == x.subrange(78, 80)[i - 78]);
            assert(y[i] == y.subrange(78, 80)[i - 78]);
        }
    }
    assert(x =~= y);
}

/// Round trip: parsing a well-formed 80-column line succeeds, and
/// formatting the parsed record reproduces the line exactly.
#[verifier::rlimit(100)]
pub proof fn lemma_line_round_trip(bs: Seq<u8>, tag: Seq<u8>)
    requires
        wf_line(bs, tag),
        tag == atom_tag() || tag == hetatm_tag(),
    ensures
        parse_rec_spec(bs, tag) is Ok,
        fmt_rec_spec(parse_rec_spec(bs, tag)->Ok_0) == bs,
{
    lemma_tag_trim(tag);
    // Witnesses for every canonical column.
    let srl = choose|n: int|
        #![auto]
        -2147483648 <= n <= 2147483647 && int_repr(n).len() <= 5 && bs.subrange(6, 11)
            == pad_left(int_repr(n), 5);
    let rsq = choose|n: int|
        #![auto]
        -2147483648 <= n <= 2147483647 && int_repr(n).len() <= 4 && bs.subrange(22, 26)
            == pad_left(int_repr(n), 4);
    let mx = choose|m: int|
        #![auto]
        -(FIXED_CAP as int) <= m <= FIXED_CAP as int && fixed_repr(m, 3).len() <= 8
            && bs.subrange(30, 38) == pad_left(fixed_repr(m, 3), 8);
    let my = choose|m: int|
        #![auto]
        -(FIXED_CAP as int) <= m <= FIXED_CAP as int && fixed_repr(m, 3).len() <= 8
            && bs.subrange(38, 46) == pad_left(fixed_repr(m, 3), 8);
    let mz = choose|m: int|
        #![auto]
        -(FIXED_CAP as int) <= m <= FIXED_CAP as int && fixed_repr(m, 3).len() <= 8
            && bs.subrange(46, 54) == pad_left(fixed_repr(m, 3), 8);
    let mo = choose|m: int|
        #![auto]
        -(FIXED_CAP as int) <= m <= FIXED_CAP as int && fixed_repr(m, 2).len() <= 6
            && bs.subrange(54, 60) == pad_left(fixed_repr(m, 2), 6);
    let mt = choose|m: int|
        #![auto]
        -(FIXED_CAP as int) <= m <= FIXED_CAP as int && fixed_repr(m, 2).len() <= 6
            && bs.subrange(60, 66) == pad_left(fixed_repr(m, 2), 6);
    let ve = choose|v: Seq<u8>|
        #![auto]
        no_edge_ws(v) && v.len() <= 2 && bs.subrange(76, 78) == pad_left(v, 2);
    let vc = choose|v: Seq<u8>|
        #![auto]
        no_edge_ws(v) && v.len() <= 2 && bs.subrange(78, 80) == pad_left(v, 2);
    let vr = choose|v: Seq<u8>|
        #![auto]
        no_edge_ws(v) && v.len() <= 3 && bs.subrange(17, 20) == pad_right(v, 3);
    crate::text::lemma_trim_of_pad_left(ve, 2);
    let vn = if ve.len() <= 1 {
        choose|v: Seq<u8>|
            #![auto]
            no_edge_ws(v) && v.len() <= 3 && bs.subrange(13, 16) == pad_right(v, 3)
    } else {
        choose|v: Seq<u8>|
            #![auto]
            no_edge_ws(v) && v.len() <= 4 && bs.subrange(12, 16) == pad_right(v, 4)
    };
    // Each column's trimmed text reads back as its witness.
    crate::num::lemma_int_repr_clean(srl);
    crate::text::lemma_trim_of_pad_left(int_repr(srl), 5);
    crate::num::lemma_parse_int_repr(srl);
    crate::num::lemma_int_repr_clean(rsq);
    crate::text::lemma_trim_of_pad_left(int_repr(rsq), 4);
    crate::num::lemma_parse_int_repr(rsq);
    crate::num::lemma_fixed_repr_clean(mx, 3);
    crate::text::lemma_trim_of_pad_left(fixed_repr(mx, 3), 8);
    crate::num::lemma_parse_fixed_repr(mx, 3);
    crate::num::lemma_fixed_repr_clean(my, 3);
    crate::text::lemma_trim_of_pad_left(fixed_repr(my, 3), 8);
    crate::num::lemma_parse_fixed_repr(my, 3);
    crate::num::lemma_fixed_repr_clean(mz, 3);
    crate::text::lemma_trim_of_pad_left(fixed_repr(mz, 3), 8);
    crate::num::lemma_parse_fixed_repr(mz, 3);
    crate::num::lemma_fixed_repr_clean(mo, 2);
    crate::text::lemma_trim_of_pad_left(fixed_repr(mo, 2), 6);
    crate::num::lemma_parse_fixed_repr(mo, 2);
    crate::num::lemma_fixed_repr_clean(mt, 2);
    crate::text::lemma_trim_of_pad_left(fixed_repr(mt, 2), 6);
    crate::num::lemma_parse_fixed_repr(mt, 2);
    crate::text::lemma_trim_of_pad_right(vr, 3);
    crate::text::lemma_trim_of_pad_left(vc, 2);
    // The name columns under either alignment.
    assert(trim_of(bs.subrange(12, 16)) == vn) by {
        if ve.len() <= 1 {
            assert(bs.subrange(12, 16) =~= spaces(1) + pad_right(vn, 3)) by {
                assert(bs.subrange(12, 16)[0] == bs[12]);
                assert forall|j: int| 1 <= j < 4 implies #[trigger] bs.subrange(12, 16)[j]
                    == pad_right(vn, 3)[j - 1] by {
                    assert(bs.subrange(12, 16)[j] == bs[12 + j]);
                    assert(bs.subrange(13, 16)[j - 1] == bs[12 + j]);
                }
            }
            crate::text::lemma_trim_of_sp_pad(vn, 1, 3);
        } else {
            assert(bs.subrange(12, 16) =~= spaces(0) + pad_right(vn, 4));
            crate::text::lemma_trim_of_sp_pad(vn, 0, 4);
        }
    }
    let a = RecV {
        record: trim_of(tag),
        serial: srl as i32,
        name: vn,
        altloc: bs[16],
        resname: vr,
        chainid: bs[21],
        resseq: rsq as i32,
        icode: bs[26],
        x: mx as i64,
        y: my as i64,
        z: mz as i64,
        occupancy: mo as i64,
        tempfactor: mt as i64,
        element: ve,
        charge: vc,
    };
    assert(parse_rec_spec(bs, tag) == Ok::<RecV, ErrV>(a)) by {
        assert(trim_of(bs.subrange(0, 6)) == trim_of(tag));
        assert(parse_rec_spec(bs, tag) is Ok);
        assert(parse_rec_spec(bs, tag)->Ok_0 =~= a);
    }
    // The witnesses are ASCII because the line is.
    assert(ascii7(vn) && ascii7(vr) && ascii7(ve) && ascii7(vc)) by {
        lemma_trim_of_props(bs.subrange(12, 16));
        lemma_trim_of_props(bs.subrange(17, 20));
        lemma_trim_of_props(bs.subrange(76, 78));
        lemma_trim_of_props(bs.subrange(78, 80));
        crate::text::lemma_trim_of_pad_right(vr, 3);
        crate::text::lemma_trim_of_pad_left(ve, 2);
        crate::text::lemma_trim_of_pad_left(vc, 2);
    }
    assert(wf_rec(a));
    assert(trimmed_rec(a));
    assert(fits_rec(a));
    // Formatting the parsed record rebuilds every region of the line.
    lemma_fmt_regions(a);
    let out = fmt_rec_spec(a);
    assert(out.subrange(11, 16) == bs.subrange(11, 16)) by {
        let blk = name_block(a.element, a.name);
        if ve.len() <= 1 {
            assert(blk =~= bs.subrange(11, 16)) by {
                assert(bs.subrange(11, 16)[0] == bs[11]);
                assert(bs.subrange(11, 16)[1] == bs[12]);
                assert forall|j: int| 2 <= j < 5 implies #[trigger] bs.subrange(11, 16)[j]
                    == pad_right(vn, 3)[j - 2] by {
                    assert(bs.subrange(11, 16)[j] == bs[11 + j]);
                    assert(bs.subrange(13, 16)[j - 2] == bs[11 + j]);
                }
            }
        } else {
            assert(blk =~= bs.subrange(11, 16)) by {
                assert(bs.subrange(11, 16)[0] == bs[11]);
                assert forall|j: int| 1 <= j < 5 implies #[trigger] bs.subrange(11, 16)[j]
                    == pad_right(vn, 4)[j - 1] by {
                    assert(bs.subrange(11, 16)[j] == bs[11 + j]);
                    assert(bs.subrange(12, 16)[j - 1] == bs[11 + j]);
                }
            }
        }
    }
    lemma_eq_by_regions(out, bs);
}

/// Round trip at the text level: an ASCII line whose bytes are well
/// formed parses, and formatting the parsed record gives back exactly
/// the same characters.
pub proof fn lemma_text_round_trip(cs: Seq<char>, tag: Seq<u8>)
    requires
        vstd::utf8::is_ascii_chars(cs),
        wf_line(crate::text::bytes_of(cs), tag),
        tag == atom_tag() || tag == hetatm_tag(),
    ensures
        parse_line_spec(cs, tag) is Ok,
        chars_of(fmt_rec_spec(parse_line_spec(cs, tag)->Ok_0)) == cs,
{
    lemma_line_round_trip(crate::text::bytes_of(cs), tag);
    crate::text::lemma_chars_of_bytes_of(cs);
}

/// Formatting then parsing is the identity on parsed records whose
/// numeric texts fit their columns, so formatting a parsed record twice
/// gives the line that formatting it once gives.
pub proof fn lemma_format_parse_idempotent(bs: Seq<u8>, tag: Seq<u8>)
    requires
        tag == atom_tag() || tag == hetatm_tag(),
        ascii7(bs),
        parse_rec_spec(bs, tag) is Ok,
        fits_rec(parse_rec_spec(bs, tag)->Ok_0),
    ensures
        parse_rec_spec(fmt_rec_spec(parse_rec_spec(bs, tag)->Ok_0), tag) == Ok::<RecV, ErrV>(
            parse_rec_spec(bs, tag)->Ok_0,
        ),
        fmt_rec_spec(
            parse_rec_spec(fmt_rec_spec(parse_rec_spec(bs, tag)->Ok_0), tag)->Ok_0,
        ) == fmt_rec_spec(parse_rec_spec(bs, tag)->Ok_0),
{
    let a = parse_rec_spec(bs, tag)->Ok_0;
    lemma_parse_rec_wf(bs, tag);
    lemma_tag_trim(tag);
    assert(a.record == trim_of(bs.subrange(0, 6)));
    assert(bs.subrange(0, 6) == tag);
    lemma_parse_of_fmt(a, tag);
}

/// The name-alignment rule of the formatter: a one-character element
/// symbol (or none) puts two spaces after the serial column and a
/// three-column name; a two-character symbol puts one space and a
/// four-column name.
pub proof fn lemma_name_alignment(a: RecV)
    requires
        wf_rec(a),
        fits_rec(a),
    ensures
        a.element.len() <= 1 ==> fmt_rec_spec(a)[11] == SP && fmt_rec_spec(a)[12] == SP
            && fmt_rec_spec(a).subrange(13, 16) == pad_right(a.name, 3),
        a.element.len() >= 2 ==> fmt_rec_spec(a)[11] == SP && fmt_rec_spec(a).subrange(12, 16)
            == pad_right(a.name, 4),
{
    lemma_fmt_regions(a);
    let bs = fmt_rec_spec(a);
    let blk = name_block(a.element, a.name);
    assert(bs.subrange(11, 16) == blk);
    assert(bs[11] == bs.subrange(11, 16)[0]);
    if a.element.len() <= 1 {
        assert(bs[12] == bs.subrange(11, 16)[1]);
        assert(bs.subrange(13, 16) =~= pad_right(a.name, 3)) by {
            assert(forall|i: int|
                0 <= i < 3 ==> #[trigger] bs.subrange(13, 16)[i] == bs.subrange(11, 16)[i + 2]);
        }
    } else {
        assert(bs.subrange(12, 16) =~= pad_right(a.name, 4)) by {
            assert(forall|i: int|
                0 <= i < 4 ==> #[trigger] bs.subrange(12, 16)[i] == bs.subrange(11, 16)[i + 1]);
        }
    }
}

/// The defaulting rule for truncated lines: a line that ends before the
/// occupancy column parses with occupancy zero and the default
/// temperature factor; one that ends before the element columns takes
/// its element from the name field's alignment; one that ends before
/// the charge columns has no charge.
pub proof fn lemma_truncation_defaults(bs: Seq<u8>, tag: Seq<u8>)
    requires
        parse_rec_spec(bs, tag) is Ok,
    ensures
        bs.len() < 60 ==> parse_rec_spec(bs, tag)->Ok_0.occupancy == 0,
        bs.len() < 66 ==> parse_rec_spec(bs, tag)->Ok_0.tempfactor == TEMP_DEFAULT,
        bs.len() < 78 ==> parse_rec_spec(bs, tag)->Ok_0.element == inferred_element(bs),
        bs.len() < 80 ==> parse_rec_spec(bs, tag)->Ok_0.charge == Seq::<u8>::empty(),
{
}

} // verus!
