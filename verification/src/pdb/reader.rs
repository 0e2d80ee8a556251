//! Classification of one text line into a record: the atom, heteroatom
//! and terminator parses are attempted in turn, then the model
//! delimiter prefixes are recognised, and anything else is kept as an
//! opaque line.
use vstd::prelude::*;
use vstd::string::StrSliceExecFns;
use crate::text::{bytes_of, str_to_bytes};
use crate::num::parse_i32_val;
use crate::pdb::atom::Atom;
use crate::pdb::hetatm::Hetatm;
use crate::pdb::ter::{parse_ter_line_spec, Ter, TerV};
use crate::pdb::line::{atom_tag, hetatm_tag, parse_line_spec, RecV};

verus! {

/// One classified line of a structure file.
#[allow(non_camel_case_types)]
pub enum Record {
    MODEL { serial: i32 },
    ATOM(Atom),
    HETATM(Hetatm),
    TER(Ter),
    ENDMDL,
    Other(String),
}

/// Specification form of a classified line.
pub enum RecordV {
    Model { serial: int },
    Atom(RecV),
    Hetatm(RecV),
    Ter(TerV),
    EndMdl,
    Other(Seq<char>),
}

impl View for Record {
    type V = RecordV;

    open spec fn view(&self) -> RecordV {
        match self {
            Record::MODEL { serial } => RecordV::Model { serial: *serial as int },
            Record::ATOM(a) => RecordV::Atom(a@),
            Record::HETATM(h) => RecordV::Hetatm(h@),
            Record::TER(t) => RecordV::Ter(t@),
            Record::ENDMDL => RecordV::EndMdl,
            Record::Other(s) => RecordV::Other(s@),
        }
    }
}

/// The model delimiter prefix, `"MODEL"`.
pub open spec fn model_word() -> Seq<char> {
    seq!['M', 'O', 'D', 'E', 'L']
}

/// The model end delimiter, `"ENDMDL"`.
pub open spec fn endmdl_word() -> Seq<char> {
    seq!['E', 'N', 'D', 'M', 'D', 'L']
}

/// The serial of a model delimiter line: the four characters after the
/// prefix's column, read as an integer without trimming, or zero when
/// they are missing or unreadable.
pub open spec fn model_serial_spec(cs: Seq<char>) -> int {
    if cs.len() >= 14 && vstd::utf8::is_ascii_chars(cs.subrange(10, 14)) {
        match parse_i32_val(bytes_of(cs.subrange(10, 14))) {
            Some(v) => v,
            None => 0,
        }
    } else {
        0
    }
}

/// The ordered classification of one line: the atom parse, then the
/// heteroatom parse, then the terminator parse, then the model
/// delimiter prefixes, else an unrecognised line.
pub open spec fn classify_spec(cs: Seq<char>) -> RecordV {
    if parse_line_spec(cs, atom_tag()) is Ok {
        RecordV::Atom(parse_line_spec(cs, atom_tag())->Ok_0)
    } else if parse_line_spec(cs, hetatm_tag()) is Ok {
        RecordV::Hetatm(parse_line_spec(cs, hetatm_tag())->Ok_0)
    } else if parse_ter_line_spec(cs) is Ok {
        RecordV::Ter(parse_ter_line_spec(cs)->Ok_0)
    } else if cs.len() >= 5 && cs.subrange(0, 5) == model_word() {
        RecordV::Model { serial: model_serial_spec(cs) }
    } else if cs.len() >= 6 && cs.subrange(0, 6) == endmdl_word() {
        RecordV::EndMdl
    } else {
        RecordV::Other(cs)
    }
}

impl Record {
    /// Classifies one line, exactly as `classify_spec` describes.
    pub fn new(line: String) -> (r: Record)
        ensures
            r@ == classify_spec(line@),
    {
        match Atom::from(line.as_str()) {
            Ok(a) => {
                return Record::ATOM(a);
            },
            Err(_) => {},
        }
        match Hetatm::from(line.as_str()) {
            Ok(h) => {
                return Record::HETATM(h);
            },
            Err(_) => {},
        }
        match Ter::from(line.as_str()) {
            Ok(t) => {
                return Record::TER(t);
            },
            Err(_) => {},
        }
        let n = line.as_str().unicode_len();
        if n >= 5 && is_prefix_model(line.as_str()) {
            proof {
                assert(line@.subrange(0, 5) =~= model_word());
            }
            let serial = model_serial(line.as_str());
            return Record::MODEL { serial };
        }
        if n >= 6 && is_prefix_endmdl(line.as_str()) {
            proof {
                assert(line@.subrange(0, 6) =~= endmdl_word());
            }
            return Record::ENDMDL;
        }
        proof {
            if line@.len() >= 5 && line@.subrange(0, 5) == model_word() {
                assert(line@[0] == model_word()[0]);
                assert(line@[1] == model_word()[1]);
                assert(line@[2] == model_word()[2]);
                assert(line@[3] == model_word()[3]);
                assert(line@[4] == model_word()[4]);
            }
            if line@.len() >= 6 && line@.subrange(0, 6) == endmdl_word() {
                assert(line@[0] == endmdl_word()[0]);
                assert(line@[1] == endmdl_word()[1]);
                assert(line@[2] == endmdl_word()[2]);
                assert(line@[3] == endmdl_word()[3]);
                assert(line@[4] == endmdl_word()[4]);
                assert(line@[5] == endmdl_word()[5]);
            }
        }
        Record::Other(line)
    }
}

/// True when the line starts with the model delimiter prefix.
fn is_prefix_model(s: &str) -> (r: bool)
    requires
        s@.len() >= 5,
    ensures
        r == (forall|i: int| 0 <= i < 5 ==> s@[i] == #[trigger] model_word()[i]),
{
    let r = s.get_char(0) == 'M' && s.get_char(1) == 'O' && s.get_char(2) == 'D' && s.get_char(3)
        == 'E' && s.get_char(4) == 'L';
    proof {
        if r {
            assert(forall|i: int| 0 <= i < 5 ==> s@[i] == #[trigger] model_word()[i]) by {
                assert(s@[0] == model_word()[0]);
                assert(s@[1] == model_word()[1]);
                assert(s@[2] == model_word()[2]);
                assert(s@[3] == model_word()[3]);
                assert(s@[4] == model_word()[4]);
            }
        } else {
            assert(!(s@[0] == model_word()[0] && s@[1] == model_word()[1] && s@[2]
                == model_word()[2] && s@[3] == model_word()[3] && s@[4] == model_word()[4]));
        }
    }
    r
}

/// True when the line starts with the model end delimiter.
fn is_prefix_endmdl(s: &str) -> (r: bool)
    requires
        s@.len() >= 6,
    ensures
        r == (forall|i: int| 0 <= i < 6 ==> s@[i] == #[trigger] endmdl_word()[i]),
{
    let r = s.get_char(0) == 'E' && s.get_char(1) == 'N' && s.get_char(2) == 'D' && s.get_char(3)
        == 'M' && s.get_char(4) == 'D' && s.get_char(5) == 'L';
    proof {
        if r {
            assert(forall|i: int| 0 <= i < 6 ==> s@[i] == #[trigger] endmdl_word()[i]) by {
                assert(s@[0] == endmdl_word()[0]);
                assert(s@[1] == endmdl_word()[1]);
                assert(s@[2] == endmdl_word()[2]);
                assert(s@[3] == endmdl_word()[3]);
                assert(s@[4] == endmdl_word()[4]);
                assert(s@[5] == endmdl_word()[5]);
            }
        } else {
            assert(!(s@[0] == endmdl_word()[0] && s@[1] == endmdl_word()[1] && s@[2]
                == endmdl_word()[2] && s@[3] == endmdl_word()[3] && s@[4] == endmdl_word()[4]
                && s@[5] == endmdl_word()[5]));
        }
    }
    r
}

/// The model serial columns of a delimiter line, read without trimming.
fn model_serial(s: &str) -> (r: i32)
    ensures
        r as int == model_serial_spec(s@),
{
    let n = s.unicode_len();
    if n < 14 {
        return 0;
    }
    let sub = s.substring_char(10, 14);
    if !sub.is_ascii() {
        return 0;
    }
    let b = str_to_bytes(sub);
    match crate::num::parse_i32_bytes(&b) {
        Some(v) => v,
        None => 0,
    }
}

} // verus!
