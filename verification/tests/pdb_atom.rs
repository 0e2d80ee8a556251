use rustymill::pdb::Atom;
use rustymill::pdb::AtomBuilder;

#[test]
fn pdb_atom_read_pdb_line() {
    let atom = Atom::from(
        "ATOM     45  N  BARG A   3      11.281  86.699  94.383  1.00 39.29           N N",
    )
    .unwrap();
    assert_eq!(atom.record_name(), "ATOM");
    assert_eq!(atom.atom_number(), 45);
    assert_eq!(atom.atom_name(), "N");
    assert_eq!(atom.alternate_location(), 'B');
    assert_eq!(atom.residue_name(), "ARG");
    assert_eq!(atom.chain_id(), 'A');
    assert_eq!(atom.residue_number(), 3);
    assert_eq!(atom.insertion_code(), ' ');
    assert_eq!(atom.x(), 11281);
    assert_eq!(atom.y(), 86699);
    assert_eq!(atom.z(), 94383);
    assert_eq!(atom.occupancy(), 100);
    assert_eq!(atom.temperature_factor(), 3929);
    assert_eq!(atom.element_symbol(), "N");
    assert_eq!(atom.charge(), "N");
}

#[test]
fn fail_to_read_pdb_line() {
    {
        let atom = Atom::from(
            "ATOM     45  N  BARG A   3      ABCDEF  86.699  94.383  1.00 39.29           N N",
        );
        assert!(atom.is_err());
    }

    {
        let atom = Atom::from(
            "ATOM     45  N  BARG A   C      11.281  86.699  94.383  1.00 39.29           N N",
        );
        assert!(atom.is_err());
    }
    {
        let atom = Atom::from(
            "ATOM    ABC  N  BARG A   3      11.281  86.699  94.383  1.00 39.29           N N",
        );
        assert!(atom.is_err());
    }
}

#[test]
fn pdb_atom_write_pdb_line() {
    {
        let atom = Atom::from(
            "ATOM     45  N  BARG A   3      11.281  86.699  94.383  1.00 39.29           N N",
        )
        .unwrap();
        let line = atom.to_line();
        assert_eq!(
            line,
            "ATOM     45  N  BARG A   3      11.281  86.699  94.383  1.00 39.29           N N"
        );
    }

    {
        let atom = Atom::from(
            "ATOM   6025  CA  ALA A   1     106.912 133.801 -29.864  1.00 92.36           C  ",
        )
        .unwrap();
        let line = atom.to_line();
        assert_eq!(
            line,
            "ATOM   6025  CA  ALA A   1     106.912 133.801 -29.864  1.00 92.36           C  "
        );
    }
}

#[test]
fn build_pdb_atom() {
    let atom = AtomBuilder::new().finalize();
    assert_eq!(atom.record_name(), "ATOM");
    assert_eq!(atom.atom_number(), 1);
    assert_eq!(atom.atom_name(), "");
    assert_eq!(atom.alternate_location(), ' ');
    assert_eq!(atom.residue_name(), "");
    assert_eq!(atom.chain_id(), 'A');
    assert_eq!(atom.residue_number(), 1);
    assert_eq!(atom.insertion_code(), ' ');
    assert_eq!(atom.x(), 0);
    assert_eq!(atom.y(), 0);
    assert_eq!(atom.z(), 0);
    assert_eq!(atom.occupancy(), 0);
    assert_eq!(atom.temperature_factor(), 9990);
    assert_eq!(atom.element_symbol(), "");
    assert_eq!(atom.charge(), "");

    let atom = AtomBuilder::new()
        .pos(1000, 2000, 3000)
        .atom_number(42)
        .residue_number(69)
        .record_name("ATOM")
        .atom_name("CA")
        .residue_name("GLY")
        .occupancy(314)
        .temperature_factor(271)
        .element("N")
        .charge("N")
        .finalize();
    assert_eq!(atom.record_name(), "ATOM");
    assert_eq!(atom.atom_number(), 42);
    assert_eq!(atom.atom_name(), "CA");
    assert_eq!(atom.alternate_location(), ' ');
    assert_eq!(atom.residue_name(), "GLY");
    assert_eq!(atom.chain_id(), 'A');
    assert_eq!(atom.residue_number(), 69);
    assert_eq!(atom.insertion_code(), ' ');
    assert_eq!(atom.x(), 1000);
    assert_eq!(atom.y(), 2000);
    assert_eq!(atom.z(), 3000);
    assert_eq!(atom.occupancy(), 314);
    assert_eq!(atom.temperature_factor(), 271);
    assert_eq!(atom.element_symbol(), "N");
    assert_eq!(atom.charge(), "N");

    let atom = AtomBuilder::new()
        .pos(1000, 2000, 3000)
        .atom_number(42)
        .residue_number(69)
        .atom_residue_chain("CA", "GLY", 'A')
        .finalize();
    assert_eq!(atom.record_name(), "ATOM");
    assert_eq!(atom.atom_number(), 42);
    assert_eq!(atom.atom_name(), "CA");
    assert_eq!(atom.alternate_location(), ' ');
    assert_eq!(atom.residue_name(), "GLY");
    assert_eq!(atom.chain_id(), 'A');
    assert_eq!(atom.residue_number(), 69);
    assert_eq!(atom.insertion_code(), ' ');
    assert_eq!(atom.x(), 1000);
    assert_eq!(atom.y(), 2000);
    assert_eq!(atom.z(), 3000);
    assert_eq!(atom.occupancy(), 0);
    assert_eq!(atom.temperature_factor(), 9990);
    assert_eq!(atom.element_symbol(), "");
    assert_eq!(atom.charge(), "");
}
