//! The chain terminator record: the narrow column set after the `TER`
//! tag, every field optional with a documented default, and the
//! canonical 80-column line.
use vstd::prelude::*;
use crate::text::{
    SP, ascii7, ascii_to_string, bytes_of, chars_of, no_edge_ws, pad_left, pad_right,
    push_pad_left, push_pad_right, push_spaces, spaces, str_to_bytes, trim_of, trim_range,
    lemma_trim_of_props, lemma_ascii7_concat,
};
use crate::num::{
    fmt_i64, int_repr, lemma_int_repr_clean, parse_i32_bytes, parse_i32_val,
};
use crate::pdb::line::{eq_prefix, ErrV, FieldKind, ParseError};
use crate::pdb::AtomData;

verus! {

/// Specification form of a terminator record.
#[verifier::ext_equal]
pub struct TerV {
    pub serial: i32,
    pub resname: Seq<u8>,
    pub chainid: u8,
    pub resseq: i32,
    pub icode: u8,
}

/// Capacity and encoding invariant of a terminator record.
pub open spec fn wf_ter(t: TerV) -> bool {
    &&& t.resname.len() <= 3 && ascii7(t.resname)
    &&& t.chainid < 128
    &&& t.icode < 128
}

/// The record kind tag of terminator records, `"TER"`.
pub open spec fn ter_tag() -> Seq<u8> {
    seq![84u8, 69u8, 82u8]
}

/// The exact parse of one terminator line: only the three tag bytes are
/// mandatory; every later column defaults when the line ends before it.
pub open spec fn parse_ter_spec(bs: Seq<u8>) -> Result<TerV, ErrV> {
    if bs.len() < 3 || bs.subrange(0, 3) != ter_tag() {
        Err(ErrV::WrongRecordKind)
    } else {
        let serial = if bs.len() >= 11 {
            parse_i32_val(trim_of(bs.subrange(6, 11)))
        } else {
            Some(1int)
        };
        let resseq = if bs.len() >= 26 {
            parse_i32_val(trim_of(bs.subrange(22, 26)))
        } else {
            Some(1int)
        };
        match serial {
            None => Err(
                ErrV::Malformed { field: FieldKind::Serial, raw: trim_of(bs.subrange(6, 11)) },
            ),
            Some(srl) => match resseq {
                None => Err(
                    ErrV::Malformed {
                        field: FieldKind::ResidueNumber,
                        raw: trim_of(bs.subrange(22, 26)),
                    },
                ),
                Some(rsq) => Ok(
                    TerV {
                        serial: srl as i32,
                        resname: if bs.len() >= 20 {
                            trim_of(bs.subrange(17, 20))
                        } else {
                            Seq::empty()
                        },
                        chainid: if bs.len() >= 22 {
                            bs[21]
                        } else {
                            65
                        },
                        resseq: rsq as i32,
                        icode: if bs.len() >= 27 {
                            bs[26]
                        } else {
                            SP
                        },
                    },
                ),
            },
        }
    }
}

/// The parse of a whole terminator text line: a non-ASCII line is
/// rejected before any column is read.
pub open spec fn parse_ter_line_spec(cs: Seq<char>) -> Result<TerV, ErrV> {
    if !vstd::utf8::is_ascii_chars(cs) {
        Err(ErrV::InvalidEncoding)
    } else {
        parse_ter_spec(bytes_of(cs))
    }
}

/// The canonical 80-column terminator line.
pub open spec fn fmt_ter_spec(t: TerV) -> Seq<u8> {
    pad_right(ter_tag(), 6) + pad_left(int_repr(t.serial as int), 5) + spaces(6) + pad_right(
        t.resname,
        3,
    ) + seq![SP] + seq![t.chainid] + pad_left(int_repr(t.resseq as int), 4) + seq![t.icode]
        + spaces(53)
}

/// One chain terminator record.
#[derive(Debug)]
pub struct Ter {
    serial: i32,
    resname: Vec<u8>,
    chainid: u8,
    resseq: i32,
    icode: u8,
}

impl View for Ter {
    type V = TerV;

    closed spec fn view(&self) -> TerV {
        TerV {
            serial: self.serial,
            resname: self.resname@,
            chainid: self.chainid,
            resseq: self.resseq,
            icode: self.icode,
        }
    }
}

impl Ter {
    #[verifier::type_invariant]
    spec fn inv(&self) -> bool {
        wf_ter(self@)
    }

    /// The record kind of a terminator, always `"TER"`.
    pub fn record_name(&self) -> (r: String)
        ensures
            r@ == chars_of(ter_tag()),
    {
        let v: Vec<u8> = vec![84u8, 69u8, 82u8];
        proof {
            assert(v@ =~= ter_tag());
        }
        ascii_to_string(&v)
    }

    /// The serial number of the terminator.
    pub fn atom_number(&self) -> (r: i32)
        ensures
            r == self@.serial,
    {
        self.serial
    }

    /// The residue name of the terminated chain's last residue.
    pub fn residue_name(&self) -> (r: String)
        ensures
            r@ == chars_of(self@.resname),
    {
        proof {
            use_type_invariant(&*self);
        }
        ascii_to_string(&self.resname)
    }

    /// The chain identifier.
    pub fn chain_id(&self) -> (r: char)
        ensures
            r == self@.chainid as char,
    {
        self.chainid as char
    }

    /// The residue sequence number.
    pub fn residue_number(&self) -> (r: i32)
        ensures
            r == self@.resseq,
    {
        self.resseq
    }

    /// The insertion code; a space means none.
    pub fn insertion_code(&self) -> (r: char)
        ensures
            r == self@.icode as char,
    {
        self.icode as char
    }

    /// A terminator copying its identity from the last record of a
    /// chain. The copied fields must fit the terminator's columns.
    pub fn new<T: AtomData>(last: &T) -> (r: Ter)
        requires
            vstd::utf8::is_ascii_chars(last.residue_name_spec()),
            last.residue_name_spec().len() <= 3,
            last.chain_id_spec() <= '\u{7f}',
            last.insertion_code_spec() <= '\u{7f}',
        ensures
            r@ == (TerV {
                serial: last.atom_number_spec(),
                resname: bytes_of(last.residue_name_spec()),
                chainid: last.chain_id_spec() as u8,
                resseq: last.residue_number_spec(),
                icode: last.insertion_code_spec() as u8,
            }),
    {
        let rn = last.residue_name();
        let rb = str_to_bytes(rn.as_str());
        let ch = last.chain_id();
        let ic = last.insertion_code();
        proof {
            crate::text::lemma_ascii_char_byte(ch);
            crate::text::lemma_ascii_char_byte(ic);
        }
        Ter {
            serial: last.atom_number(),
            resname: rb,
            chainid: ch as u8,
            resseq: last.residue_number(),
            icode: ic as u8,
        }
    }

    /// Parses one `TER` line, exactly as `parse_ter_line_spec`
    /// describes.
    pub fn from(line: &str) -> (r: Result<Ter, ParseError>)
        ensures
            match r {
                Ok(t) => parse_ter_line_spec(line@) == Ok::<TerV, ErrV>(t@) && no_edge_ws(
                    t@.resname,
                ),
                Err(e) => parse_ter_line_spec(line@) == Err::<TerV, ErrV>(e@),
            },
    {
        if !line.is_ascii() {
            return Err(ParseError::InvalidEncoding);
        }
        let bs = str_to_bytes(line);
        let n = bs.len();
        let tag: Vec<u8> = vec![84u8, 69u8, 82u8];
        proof {
            assert(tag@ =~= ter_tag());
        }
        if n < 3 {
            return Err(ParseError::WrongRecordKind);
        }
        if !eq_prefix(&bs, &tag) {
            return Err(ParseError::WrongRecordKind);
        }
        let serial: i32 = if n >= 11 {
            let t = trim_range(&bs, 6, 11);
            match parse_i32_bytes(&t) {
                Some(v) => v,
                None => {
                    return Err(
                        ParseError::MalformedField {
                            field: FieldKind::Serial,
                            raw: t,
                            line: crate::text::copy_range(&bs, 0, n),
                        },
                    );
                },
            }
        } else {
            1
        };
        let resseq: i32 = if n >= 26 {
            let t = trim_range(&bs, 22, 26);
            match parse_i32_bytes(&t) {
                Some(v) => v,
                None => {
                    return Err(
                        ParseError::MalformedField {
                            field: FieldKind::ResidueNumber,
                            raw: t,
                            line: crate::text::copy_range(&bs, 0, n),
                        },
                    );
                },
            }
        } else {
            1
        };
        let resname: Vec<u8> = if n >= 20 {
            trim_range(&bs, 17, 20)
        } else {
            Vec::new()
        };
        let chainid: u8 = if n >= 22 {
            bs[21]
        } else {
            65
        };
        let icode: u8 = if n >= 27 {
            bs[26]
        } else {
            SP
        };
        proof {
            lemma_trim_of_props(bs@.subrange(17, 20));
            assert(no_edge_ws(Seq::<u8>::empty()));
            assert(ascii7(Seq::<u8>::empty()));
        }
        Ok(Ter { serial, resname, chainid, resseq, icode })
    }

    /// The canonical 80-column line of this terminator, exactly as
    /// `fmt_ter_spec` describes.
    pub fn to_line(&self) -> (r: String)
        ensures
            r@ == chars_of(fmt_ter_spec(self@)),
    {
        proof {
            use_type_invariant(&*self);
        }
        let ghost t = self@;
        let ghost p1 = pad_right(ter_tag(), 6);
        let ghost p2 = p1 + pad_left(int_repr(t.serial as int), 5);
        let ghost p3 = p2 + spaces(6);
        let ghost p4 = p3 + pad_right(t.resname, 3);
        let ghost p5 = p4 + seq![SP];
        let ghost p6 = p5 + seq![t.chainid];
        let ghost p7 = p6 + pad_left(int_repr(t.resseq as int), 4);
        let ghost p8 = p7 + seq![t.icode];
        let ghost p9 = p8 + spaces(53);
        let mut out: Vec<u8> = Vec::new();
        let tag: Vec<u8> = vec![84u8, 69u8, 82u8];
        proof {
            assert(tag@ =~= ter_tag());
        }
        push_pad_right(&mut out, &tag, 6);
        proof {
            assert(out@ =~= p1);
        }
        let serial_text = fmt_i64(self.serial as i64);
        push_pad_left(&mut out, &serial_text, 5);
        proof {
            assert(out@ == p2);
        }
        push_spaces(&mut out, 6);
        proof {
            assert(out@ == p3);
        }
        push_pad_right(&mut out, &self.resname, 3);
        proof {
            assert(out@ == p4);
        }
        out.push(SP);
        proof {
            assert(out@ =~= p5);
        }
        out.push(self.chainid);
        proof {
            assert(out@ =~= p6);
        }
        let resseq_text = fmt_i64(self.resseq as i64);
        push_pad_left(&mut out, &resseq_text, 4);
        proof {
            assert(out@ == p7);
        }
        out.push(self.icode);
        proof {
            assert(out@ =~= p8);
        }
        push_spaces(&mut out, 53);
        proof {
            assert(out@ == p9);
            assert(fmt_ter_spec(t) == p9);
            lemma_fmt_ter_ascii(t);
        }
        ascii_to_string(&out)
    }
}

impl core::str::FromStr for Ter {
    type Err = ParseError;

    fn from_str(line: &str) -> Result<Ter, ParseError> {
        Ter::from(line)
    }
}

/// Every byte of a canonical terminator line is ASCII when the record
/// meets the capacity invariant.
pub proof fn lemma_fmt_ter_ascii(t: TerV)
    requires
        wf_ter(t),
    ensures
        ascii7(fmt_ter_spec(t)),
{
    lemma_int_repr_clean(t.serial as int);
    lemma_int_repr_clean(t.resseq as int);
    lemma_ter_pad_ascii(ter_tag(), 6);
    lemma_ter_pad_ascii(int_repr(t.serial as int), 5);
    lemma_ter_pad_ascii(t.resname, 3);
    lemma_ter_pad_ascii(int_repr(t.resseq as int), 4);
    let p1 = pad_right(ter_tag(), 6);
    let p2 = p1 + pad_left(int_repr(t.serial as int), 5);
    let p3 = p2 + spaces(6);
    let p4 = p3 + pad_right(t.resname, 3);
    let p5 = p4 + seq![SP];
    let p6 = p5 + seq![t.chainid];
    let p7 = p6 + pad_left(int_repr(t.resseq as int), 4);
    let p8 = p7 + seq![t.icode];
    lemma_ascii7_concat(p1, pad_left(int_repr(t.serial as int), 5));
    lemma_ascii7_concat(p2, spaces(6));
    lemma_ascii7_concat(p3, pad_right(t.resname, 3));
    lemma_ascii7_concat(p4, seq![SP]);
    lemma_ascii7_concat(p5, seq![t.chainid]);
    lemma_ascii7_concat(p6, pad_left(int_repr(t.resseq as int), 4));
    lemma_ascii7_concat(p7, seq![t.icode]);
    lemma_ascii7_concat(p8, spaces(53));
    assert(fmt_ter_spec(t) == p8 + spaces(53));
}

/// Padding keeps a terminator field ASCII.
proof fn lemma_ter_pad_ascii(s: Seq<u8>, w: nat)
    requires
        ascii7(s),
    ensures
        ascii7(pad_left(s, w)),
        ascii7(pad_right(s, w)),
{
    if s.len() < w {
        lemma_ascii7_concat(spaces((w - s.len()) as nat), s);
        lemma_ascii7_concat(s, spaces((w - s.len()) as nat));
    }
}

/// True when the numeric texts of a terminator fit their columns.
pub open spec fn fits_ter(t: TerV) -> bool {
    &&& int_repr(t.serial as int).len() <= 5
    &&& int_repr(t.resseq as int).len() <= 4
}

/// The column ranges of a canonical terminator line.
#[verifier::rlimit(100)]
pub proof fn lemma_ter_fmt_regions(t: TerV)
    requires
        wf_ter(t),
        fits_ter(t),
    ensures
        fmt_ter_spec(t).len() == 80,
        fmt_ter_spec(t).subrange(0, 6) == pad_right(ter_tag(), 6),
        fmt_ter_spec(t).subrange(6, 11) == pad_left(int_repr(t.serial as int), 5),
        fmt_ter_spec(t).subrange(11, 17) == spaces(6),
        fmt_ter_spec(t).subrange(17, 20) == pad_right(t.resname, 3),
        fmt_ter_spec(t)[20] == SP,
        fmt_ter_spec(t)[21] == t.chainid,
        fmt_ter_spec(t).subrange(22, 26) == pad_left(int_repr(t.resseq as int), 4),
        fmt_ter_spec(t)[26] == t.icode,
        fmt_ter_spec(t).subrange(27, 80) == spaces(53),
{
    let bs = fmt_ter_spec(t);
    let q1 = pad_right(ter_tag(), 6);
    let q2 = pad_left(int_repr(t.serial as int), 5);
    let q4 = pad_right(t.resname, 3);
    let q7 = pad_left(int_repr(t.resseq as int), 4);
    assert(q1.len() == 6);
    assert(q2.len() == 5);
    assert(q4.len() == 3);
    assert(q7.len() == 4);
    assert(bs.len() == 80);
    assert(bs.subrange(0, 6) =~= q1);
    assert(bs.subrange(6, 11) =~= q2);
    assert(bs.subrange(11, 17) =~= spaces(6));
    assert(bs.subrange(17, 20) =~= q4);
    assert(bs[20] == SP);
    assert(bs[21] == t.chainid);
    assert(bs.subrange(22, 26) =~= q7);
    assert(bs[26] == t.icode);
    assert(bs.subrange(27, 80) =~= spaces(53));
}

/// A well-formed 80-column terminator line: exactly the lines the
/// column table admits for the terminator record kind.
pub open spec fn wf_ter_line(bs: Seq<u8>) -> bool {
    &&& bs.len() == 80
    &&& ascii7(bs)
    &&& bs.subrange(0, 6) == pad_right(ter_tag(), 6)
    &&& crate::pdb::line::ra_int_field(bs.subrange(6, 11), 5)
    &&& bs.subrange(11, 17) == spaces(6)
    &&& crate::pdb::line::la_text_field(bs.subrange(17, 20), 3)
    &&& bs[20] == SP
    &&& crate::pdb::line::ra_int_field(bs.subrange(22, 26), 4)
    &&& bs.subrange(27, 80) == spaces(53)
}

/// Two 80-column terminator lines whose fields agree region by region
/// are equal.
proof fn lemma_eq_by_ter_regions(x: Seq<u8>, y: Seq<u8>)
    requires
        x.len() == 80,
        y.len() == 80,
        x.subrange(0, 6) == y.subrange(0, 6),
        x.subrange(6, 11) == y.subrange(6, 11),
        x.subrange(11, 17) == y.subrange(11, 17),
        x.subrange(17, 20) == y.subrange(17, 20),
        x[20] == y[20],
        x[21] == y[21],
        x.subrange(22, 26) == y.subrange(22, 26),
        x[26] == y[26],
        x.subrange(27, 80) == y.subrange(27, 80),
    ensures
        x == y,
{
    assert forall|i: int| 0 <= i < 80 implies x[i] == y[i] by {
        if i < 6 {
            assert(x[i] == x.subrange(0, 6)[i]);
            assert(y[i] == y.subrange(0, 6)[i]);
        } else if i < 11 {
            assert(x[i] == x.subrange(6, 11)[i - 6]);
            assert(y[i] == y.subrange(6, 11)[i - 6]);
        } else if i < 17 {
            assert(x[i] == x.subrange(11, 17)[i - 11]);
            assert(y[i] == y.subrange(11, 17)[i - 11]);
        } else if i < 20 {
            assert(x[i] == x.subrange(17, 20)[i - 17]);
            assert(y[i] == y.subrange(17, 20)[i - 17]);
        } else if i < 22 {
            assert(x[i] == y[i]);
        } else if i < 26 {
            assert(x[i] == x.subrange(22, 26)[i - 22]);
            assert(y[i] == y.subrange(22, 26)[i - 22]);
        } else if i < 27 {
            assert(x[i] == y[i]);
        } else {
            assert(x[i] == x.subrange(27, 80)[i - 27]);
            assert(y[i] == y.subrange(27, 80)[i - 27]);
        }
    }
    assert(x =~= y);
}

/// Round trip: parsing a well-formed 80-column terminator line
/// succeeds, and formatting the parsed record reproduces the line.
#[verifier::rlimit(100)]
pub proof fn lemma_ter_round_trip(bs: Seq<u8>)
    requires
        wf_ter_line(bs),
    ensures
        parse_ter_spec(bs) is Ok,
        fmt_ter_spec(parse_ter_spec(bs)->Ok_0) == bs,
{
    let srl = choose|n: int|
        #![auto]
        -2147483648 <= n <= 2147483647 && int_repr(n).len() <= 5 && bs.subrange(6, 11)
            == pad_left(int_repr(n), 5);
    let rsq = choose|n: int|
        #![auto]
        -2147483648 <= n <= 2147483647 && int_repr(n).len() <= 4 && bs.subrange(22, 26)
            == pad_left(int_repr(n), 4);
    let vr = choose|v: Seq<u8>|
        #![auto]
        no_edge_ws(v) && v.len() <= 3 && bs.subrange(17, 20) == pad_right(v, 3);
    lemma_int_repr_clean(srl);
    crate::text::lemma_trim_of_pad_left(int_repr(srl), 5);
    crate::num::lemma_parse_int_repr(srl);
    lemma_int_repr_clean(rsq);
    crate::text::lemma_trim_of_pad_left(int_repr(rsq), 4);
    crate::num::lemma_parse_int_repr(rsq);
    crate::text::lemma_trim_of_pad_right(vr, 3);
    assert(bs.subrange(0, 3) =~= ter_tag()) by {
        assert(bs[0] == bs.subrange(0, 6)[0]);
        assert(bs[1] == bs.subrange(0, 6)[1]);
        assert(bs[2] == bs.subrange(0, 6)[2]);
        assert(bs.subrange(0, 3)[0] == bs[0]);
        assert(bs.subrange(0, 3)[1] == bs[1]);
        assert(bs.subrange(0, 3)[2] == bs[2]);
    }
    let t = TerV { serial: srl as i32, resname: vr, chainid: bs[21], resseq: rsq as i32, icode: bs[26] };
    assert(parse_ter_spec(bs) == Ok::<TerV, ErrV>(t)) by {
        assert(parse_ter_spec(bs) is Ok);
        assert(parse_ter_spec(bs)->Ok_0 =~= t);
    }
    assert(ascii7(vr)) by {
        lemma_trim_of_props(bs.subrange(17, 20));
        crate::text::lemma_trim_of_pad_right(vr, 3);
    }
    assert(wf_ter(t));
    assert(fits_ter(t));
    lemma_ter_fmt_regions(t);
    lemma_eq_by_ter_regions(fmt_ter_spec(t), bs);
}

/// Formatting then parsing is the identity on every parsed terminator,
/// so formatting a parsed terminator twice gives the line that
/// formatting it once gives.
#[verifier::rlimit(100)]
pub proof fn lemma_ter_format_parse_idempotent(bs: Seq<u8>)
    requires
        ascii7(bs),
        parse_ter_spec(bs) is Ok,
    ensures
        parse_ter_spec(fmt_ter_spec(parse_ter_spec(bs)->Ok_0)) == Ok::<TerV, ErrV>(
            parse_ter_spec(bs)->Ok_0,
        ),
        fmt_ter_spec(parse_ter_spec(fmt_ter_spec(parse_ter_spec(bs)->Ok_0))->Ok_0)
            == fmt_ter_spec(parse_ter_spec(bs)->Ok_0),
{
    let t = parse_ter_spec(bs)->Ok_0;
    // The parsed record satisfies the invariant, carries a trimmed
    // name, and its numeric texts fit their columns.
    assert(wf_ter(t) && no_edge_ws(t.resname) && fits_ter(t)) by {
        lemma_trim_of_props(bs.subrange(17, 20));
        crate::text::lemma_trim_edges(bs.subrange(17, 20));
        assert(no_edge_ws(Seq::<u8>::empty()));
        assert(ascii7(Seq::<u8>::empty()));
        if bs.len() >= 11 {
            lemma_trim_of_props(bs.subrange(6, 11));
            crate::num::lemma_parse_repr_len(
                trim_of(bs.subrange(6, 11)),
                5,
                t.serial as int,
            );
        } else {
            crate::num::lemma_pow10_vals();
            crate::num::lemma_dec_digits_len(1, 5);
        }
        if bs.len() >= 26 {
            lemma_trim_of_props(bs.subrange(22, 26));
            crate::num::lemma_parse_repr_len(
                trim_of(bs.subrange(22, 26)),
                4,
                t.resseq as int,
            );
        } else {
            crate::num::lemma_pow10_vals();
            crate::num::lemma_dec_digits_len(1, 4);
        }
    }
    lemma_ter_parse_of_fmt(t);
}

/// Parsing the canonical line of a terminator recovers the terminator.
#[verifier::rlimit(100)]
pub proof fn lemma_ter_parse_of_fmt(t: TerV)
    requires
        wf_ter(t),
        no_edge_ws(t.resname),
        fits_ter(t),
    ensures
        parse_ter_spec(fmt_ter_spec(t)) == Ok::<TerV, ErrV>(t),
{
    let bs = fmt_ter_spec(t);
    lemma_ter_fmt_regions(t);
    assert(bs.subrange(0, 3) =~= ter_tag()) by {
        assert(bs[0] == bs.subrange(0, 6)[0]);
        assert(bs[1] == bs.subrange(0, 6)[1]);
        assert(bs[2] == bs.subrange(0, 6)[2]);
        assert(bs.subrange(0, 3)[0] == bs[0]);
        assert(bs.subrange(0, 3)[1] == bs[1]);
        assert(bs.subrange(0, 3)[2] == bs[2]);
    }
    lemma_int_repr_clean(t.serial as int);
    crate::text::lemma_trim_of_pad_left(int_repr(t.serial as int), 5);
    crate::num::lemma_parse_int_repr(t.serial as int);
    lemma_int_repr_clean(t.resseq as int);
    crate::text::lemma_trim_of_pad_left(int_repr(t.resseq as int), 4);
    crate::num::lemma_parse_int_repr(t.resseq as int);
    crate::text::lemma_trim_of_pad_right(t.resname, 3);
    assert(parse_ter_spec(bs) is Ok);
    assert(parse_ter_spec(bs)->Ok_0 =~= t);
}

} // verus!
