use rustymill::pdb::Atom;
use rustymill::pdb::AtomBuilder;
use rustymill::pdb::FieldKind;
use rustymill::pdb::ParseError;
use rustymill::pdb::Record;
use rustymill::pdb::Residue;
use rustymill::pdb::ResidueData;
use rustymill::pdb::ResidueIterator;
use rustymill::pdb::Ter;

fn arg_gly_atoms() -> Vec<Atom> {
    // (ARG,2,A) x4 then (GLY,3,A) x4.
    let lines = vec![
        "ATOM      1  N   ARG A   2      11.281  86.699  94.383  0.50 35.88           N  ",
        "ATOM      2  CA  ARG A   2      12.353  85.696  94.456  0.50 36.67           C  ",
        "ATOM      3  C   ARG A   2      13.559  86.257  95.222  0.50 37.37           C  ",
        "ATOM      4  O   ARG A   2      13.753  87.471  95.270  0.50 37.74           O  ",
        "ATOM      5  N   GLY A   3      11.281  86.699  94.383  0.50 35.88           N  ",
        "ATOM      6  CA  GLY A   3      12.353  85.696  94.456  0.50 36.67           C  ",
        "ATOM      7  C   GLY A   3      13.559  86.257  95.222  0.50 37.37           C  ",
        "ATOM      8  O   GLY A   3      13.753  87.471  95.270  0.50 37.74           O  ",
    ];
    lines.iter().map(|l| l.parse().unwrap()).collect()
}

#[test]
fn grouping_boundary_two_groups_of_four() {
    let atoms = arg_gly_atoms();
    let mut it = ResidueIterator::new(&atoms).unwrap();
    let mut sizes = Vec::<usize>::new();
    let mut total = 0usize;
    while let Some(res) = it.next() {
        sizes.push(res.atoms.len());
        total += res.atoms.len();
    }
    assert_eq!(sizes, vec![4, 4]);
    assert_eq!(total, atoms.len());
}

#[test]
fn grouping_completeness_concatenation() {
    let atoms = arg_gly_atoms();
    let mut it = ResidueIterator::new(&atoms).unwrap();
    let mut joined = Vec::<i32>::new();
    while let Some(res) = it.next() {
        for a in res.atoms {
            joined.push(a.atom_number());
        }
    }
    let original: Vec<i32> = atoms.iter().map(|a| a.atom_number()).collect();
    assert_eq!(joined, original);
}

#[test]
fn grouping_key_ignores_residue_number() {
    // Two adjacent residues share name and chain but differ in residue
    // number: the iterator coalesces them into one group, while the
    // one-shot constructor keeps only the first residue's records.
    let lines = vec![
        "ATOM      1  N   ALA A   1       1.000   2.000   3.000  1.00 10.00           N  ",
        "ATOM      2  CA  ALA A   1       1.000   2.000   3.000  1.00 10.00           C  ",
        "ATOM      3  N   ALA A   2       1.000   2.000   3.000  1.00 10.00           N  ",
        "ATOM      4  CA  ALA A   2       1.000   2.000   3.000  1.00 10.00           C  ",
    ];
    let atoms: Vec<Atom> = lines.iter().map(|l| l.parse().unwrap()).collect();

    let mut it = ResidueIterator::new(&atoms).unwrap();
    let group = it.next().unwrap();
    assert_eq!(group.atoms.len(), 4);
    assert_eq!(group.residue_name(), "ALA");
    assert_eq!(group.residue_number(), 1);
    assert!(it.next().is_none());

    let res = Residue::from(atoms).unwrap();
    assert_eq!(res.atoms.len(), 2);
    assert_eq!(res.atoms[0].atom_number(), 1);
    assert_eq!(res.atoms[1].atom_number(), 2);
}

#[test]
fn grouping_iterator_ends_after_last_group() {
    let lines = vec![
        "ATOM      1  N   ALA A   1       1.000   2.000   3.000  1.00 10.00           N  ",
    ];
    let atoms: Vec<Atom> = lines.iter().map(|l| l.parse().unwrap()).collect();
    let mut it = ResidueIterator::new(&atoms).unwrap();
    assert_eq!(it.next().unwrap().atoms.len(), 1);
    assert!(it.next().is_none());
    assert!(it.next().is_none());

    let empty = Vec::<Atom>::new();
    assert!(ResidueIterator::new(&empty).is_none());
}

#[test]
fn residue_from_filters_anywhere_in_sequence() {
    // The one-shot constructor filters the whole vector by the first
    // record's triple, not only a contiguous prefix.
    let lines = vec![
        "ATOM      1  N   ALA A   1       1.000   2.000   3.000  1.00 10.00           N  ",
        "ATOM      2  N   GLY A   2       1.000   2.000   3.000  1.00 10.00           N  ",
        "ATOM      3  CA  ALA A   1       1.000   2.000   3.000  1.00 10.00           C  ",
    ];
    let atoms: Vec<Atom> = lines.iter().map(|l| l.parse().unwrap()).collect();
    let res = Residue::from(atoms).unwrap();
    assert_eq!(res.atoms.len(), 2);
    assert_eq!(res.atoms[0].atom_number(), 1);
    assert_eq!(res.atoms[1].atom_number(), 3);
    assert!(Residue::from(Vec::<Atom>::new()).is_none());
}

#[test]
fn residue_from_iter_and_extend() {
    let atoms = arg_gly_atoms();
    let res = Residue::from_iter(atoms);
    assert_eq!(res.atoms.len(), 8);
    assert_eq!(res.residue_name(), "ARG");
    assert_eq!(res.residue_number(), 2);
    assert_eq!(res.chain_id(), 'A');

    let empty = Residue::from_iter(Vec::<Atom>::new());
    assert_eq!(empty.residue_name(), "");
    assert_eq!(empty.residue_number(), 1);
    assert_eq!(empty.chain_id(), 'A');

    // extend keeps only records matching the stored name and chain,
    // except that an empty residue takes in the first record as it is.
    let mut res2 = Residue::<Atom>::new();
    res2.extend(arg_gly_atoms());
    // The first record enters because the residue is empty; afterwards
    // the stored (default, empty) name matches nothing.
    assert_eq!(res2.atoms.len(), 1);
    assert_eq!(res2.atoms[0].atom_number(), 1);
}

#[test]
fn defaulting_of_truncated_lines() {
    // Truncated before column 60: occupancy and temperature factor
    // take their documented defaults.
    let atom = Atom::from("ATOM     45  N  BARG A   3      11.281  86.699  94.383").unwrap();
    assert_eq!(atom.occupancy(), 0);
    assert_eq!(atom.temperature_factor(), 99999);
    // Truncated before column 78: the element comes from the name
    // field's alignment; a name starting in column 13 has a
    // one-character element.
    assert_eq!(atom.element_symbol(), "N");
    assert_eq!(atom.charge(), "");

    // A name starting in column 12 infers a two-character element.
    let atom = Atom::from("ATOM     45 FE  BHEM A   3      11.281  86.699  94.383").unwrap();
    assert_eq!(atom.element_symbol(), "FE");

    // Truncated before column 66: only the temperature factor defaults.
    let atom = Atom::from("ATOM     45  N  BARG A   3      11.281  86.699  94.383  0.75").unwrap();
    assert_eq!(atom.occupancy(), 75);
    assert_eq!(atom.temperature_factor(), 99999);
}

#[test]
fn parse_error_kinds() {
    // Not ASCII.
    let e = Atom::from("ATOM  \u{e9}").unwrap_err();
    assert!(matches!(e, ParseError::InvalidEncoding));
    // Too short for the mandatory columns.
    let e = Atom::from("ATOM     45  N  BARG A   3").unwrap_err();
    assert!(matches!(e, ParseError::TooShort));
    // Another record kind.
    let e = Atom::from(
        "HETATM12345  O   HOH B 101      72.565  60.018  -6.320  1.00 21.96           O  ",
    )
    .unwrap_err();
    assert!(matches!(e, ParseError::WrongRecordKind));
    // A numeric column that does not read as a number names its field
    // and carries the offending text and the line.
    let e = Atom::from(
        "ATOM     45  N  BARG A   3      ABCDEF  86.699  94.383  1.00 39.29           N N",
    )
    .unwrap_err();
    match e {
        ParseError::MalformedField { field, raw, line } => {
            assert_eq!(field, FieldKind::CoordX);
            assert_eq!(raw, b"ABCDEF".to_vec());
            assert_eq!(line.len(), 80);
        }
        _ => panic!("expected a malformed field"),
    }
    // An empty serial column is malformed.
    let e = Atom::from(
        "ATOM         N  BARG A   3      11.281  86.699  94.383  1.00 39.29           N N",
    )
    .unwrap_err();
    assert!(matches!(
        e,
        ParseError::MalformedField { field: FieldKind::Serial, .. }
    ));
}

#[test]
fn end_to_end_example() {
    let input = "ATOM     45  N  BARG A   3      11.281  86.699  94.383  1.00 39.29           N N";
    let atom = Atom::from(input).unwrap();
    assert_eq!(atom.atom_number(), 45);
    assert_eq!(atom.atom_name(), "N");
    assert_eq!(atom.alternate_location(), 'B');
    assert_eq!(atom.residue_name(), "ARG");
    assert_eq!(atom.chain_id(), 'A');
    assert_eq!(atom.residue_number(), 3);
    assert_eq!(atom.x(), 11281);
    assert_eq!(atom.y(), 86699);
    assert_eq!(atom.z(), 94383);
    assert_eq!(atom.occupancy(), 100);
    assert_eq!(atom.temperature_factor(), 3929);
    assert_eq!(atom.element_symbol(), "N");
    assert_eq!(atom.charge(), "N");
    assert_eq!(atom.to_line(), input);
}

#[test]
fn format_parse_format_is_stable() {
    // A line with non-canonical spacing inside its numeric columns
    // still parses; formatting, reparsing and formatting again changes
    // nothing after the first formatting.
    let input = "ATOM    045  N  BARG A  +3      11.281  86.699  94.383   1.0  39.2           N N";
    let once = Atom::from(input).unwrap().to_line();
    let twice = Atom::from(once.as_str()).unwrap().to_line();
    assert_eq!(once, twice);
    assert_eq!(
        once,
        "ATOM     45  N  BARG A   3      11.281  86.699  94.383  1.00 39.20           N N"
    );
}

#[test]
fn name_alignment_of_two_letter_elements() {
    // A two-character element symbol starts the name one column
    // earlier than a one-character symbol.
    let one = AtomBuilder::new().atom_name("CA").element("C").finalize();
    let two = AtomBuilder::new().atom_name("FE").element("FE").finalize();
    let one_line = one.to_line();
    let two_line = two.to_line();
    assert_eq!(&one_line[11..16], "  CA ");
    assert_eq!(&two_line[11..16], " FE  ");
}

#[test]
fn classify_lines() {
    let model = Record::new("MODEL     1234".to_string());
    assert!(matches!(model, Record::MODEL { serial: 1234 }));
    // The serial columns are read without trimming, so a shifted
    // number is unreadable and falls back to zero.
    let model = Record::new("MODEL       12".to_string());
    assert!(matches!(model, Record::MODEL { serial: 0 }));
    let model = Record::new("MODEL".to_string());
    assert!(matches!(model, Record::MODEL { serial: 0 }));
    assert!(matches!(
        Record::new("ENDMDL".to_string()),
        Record::ENDMDL
    ));
    assert!(matches!(
        Record::new("TER   12345      ALA A   2".to_string()),
        Record::TER(_)
    ));
    assert!(matches!(
        Record::new("REMARK something".to_string()),
        Record::Other(_)
    ));
    let atom_line =
        "ATOM     45  N  BARG A   3      11.281  86.699  94.383  1.00 39.29           N N";
    assert!(matches!(
        Record::new(atom_line.to_string()),
        Record::ATOM(_)
    ));
    let het_line =
        "HETATM12345  O   HOH B 101      72.565  60.018  -6.320  1.00 21.96           O  ";
    assert!(matches!(
        Record::new(het_line.to_string()),
        Record::HETATM(_)
    ));
}

#[test]
fn terminator_round_trip_and_defaults() {
    let ter = Ter::from("TER   ").unwrap();
    assert_eq!(ter.atom_number(), 1);
    assert_eq!(ter.residue_name(), "");
    assert_eq!(ter.chain_id(), 'A');
    assert_eq!(ter.residue_number(), 1);
    assert_eq!(ter.insertion_code(), ' ');
    let line = ter.to_line();
    assert_eq!(line.len(), 80);
    assert_eq!(&line[0..11], "TER       1");

    // A negative coordinate and a zero coordinate format canonically.
    let atom = AtomBuilder::new().pos(-500, 0, -29864).finalize();
    let line = atom.to_line();
    assert_eq!(&line[30..38], "  -0.500");
    assert_eq!(&line[38..46], "   0.000");
    assert_eq!(&line[46..54], " -29.864");
}

#[test]
fn more_error_and_sign_cases() {
    // Each coordinate column reports its own field.
    let bad_y = "ATOM     45  N  BARG A   3      11.281  8x.699  94.383  1.00 39.29           N N";
    match Atom::from(bad_y).unwrap_err() {
        ParseError::MalformedField { field, .. } => assert_eq!(field, FieldKind::CoordY),
        _ => panic!("expected a malformed field"),
    }
    let bad_occ = "ATOM     45  N  BARG A   3      11.281  86.699  94.383  1.x0 39.29           N N";
    match Atom::from(bad_occ).unwrap_err() {
        ParseError::MalformedField { field, .. } => assert_eq!(field, FieldKind::Occupancy),
        _ => panic!("expected a malformed field"),
    }
    let bad_tmp = "ATOM     45  N  BARG A   3      11.281  86.699  94.383  1.00 3x.29           N N";
    match Atom::from(bad_tmp).unwrap_err() {
        ParseError::MalformedField { field, .. } => {
            assert_eq!(field, FieldKind::TemperatureFactor)
        }
        _ => panic!("expected a malformed field"),
    }
    // Terminator numeric columns can be malformed too.
    let e = Ter::from("TER   abcde      ALA A   2").unwrap_err();
    assert!(matches!(
        e,
        ParseError::MalformedField { field: FieldKind::Serial, .. }
    ));
    let e = Ter::from("TER   12345      ALA A   x").unwrap_err();
    assert!(matches!(
        e,
        ParseError::MalformedField { field: FieldKind::ResidueNumber, .. }
    ));
    assert!(matches!(
        Ter::from("TE").unwrap_err(),
        ParseError::WrongRecordKind
    ));
    // A negative serial and residue number format right-aligned.
    let atom = AtomBuilder::new().atom_number(-45).residue_number(-3).finalize();
    let line = atom.to_line();
    assert_eq!(&line[6..11], "  -45");
    assert_eq!(&line[22..26], "  -3");
    assert_eq!(atom.atom_number(), -45);
}

#[test]
fn exact_line_of_a_built_record() {
    // A record assembled from scratch formats to the exact canonical
    // 80-column line.
    let atom = AtomBuilder::new()
        .atom_number(45)
        .residue_number(3)
        .atom_name("N")
        .residue_name("ARG")
        .alternate_location('B')
        .pos(11281, 86699, 94383)
        .occupancy(100)
        .temperature_factor(3929)
        .element("N")
        .charge("N")
        .finalize();
    assert_eq!(
        atom.to_line(),
        "ATOM     45  N  BARG A   3      11.281  86.699  94.383  1.00 39.29           N N"
    );
}

#[test]
fn first_run_goes_by_name_alone() {
    // The first run's extent consults only the trimmed residue name:
    // two same-named residues on different chains open one group.
    let lines = vec![
        "ATOM      1  N   ALA A   1       1.000   2.000   3.000  1.00 10.00           N  ",
        "ATOM      2  N   ALA B   1       1.000   2.000   3.000  1.00 10.00           N  ",
        "ATOM      3  N   GLY B   2       1.000   2.000   3.000  1.00 10.00           N  ",
    ];
    let atoms: Vec<Atom> = lines.iter().map(|l| l.parse().unwrap()).collect();
    let mut it = ResidueIterator::new(&atoms).unwrap();
    let first = it.next().unwrap();
    assert_eq!(first.atoms.len(), 2);
    assert_eq!(first.residue_name(), "ALA");
    let second = it.next().unwrap();
    assert_eq!(second.atoms.len(), 1);
    assert_eq!(second.residue_name(), "GLY");
    assert!(it.next().is_none());
}

#[test]
fn later_runs_split_on_chain() {
    // After the first run, the key is the pair of residue name and
    // chain identifier: a chain change ends a later run even when the
    // name continues.
    let lines = vec![
        "ATOM      1  N   ALA A   1       1.000   2.000   3.000  1.00 10.00           N  ",
        "ATOM      2  N   GLY A   2       1.000   2.000   3.000  1.00 10.00           N  ",
        "ATOM      3  N   GLY B   3       1.000   2.000   3.000  1.00 10.00           N  ",
    ];
    let atoms: Vec<Atom> = lines.iter().map(|l| l.parse().unwrap()).collect();
    let mut it = ResidueIterator::new(&atoms).unwrap();
    let mut sizes = Vec::<usize>::new();
    let mut chains = Vec::<char>::new();
    while let Some(res) = it.next() {
        sizes.push(res.atoms.len());
        chains.push(res.chain_id());
    }
    assert_eq!(sizes, vec![1, 1, 1]);
    assert_eq!(chains, vec!['A', 'A', 'B']);
}
