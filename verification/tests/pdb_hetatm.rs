use rustymill::pdb::AtomData;
use rustymill::pdb::Hetatm;
use rustymill::pdb::HetatmBuilder;

#[test]
fn read_pdb_hetatm() {
    {
        let het: Hetatm =
            "HETATM12345  O   HOH B 101      72.565  60.018  -6.320  1.00 21.96           O  "
                .parse()
                .unwrap();
        assert_eq!(het.record_name(), "HETATM");
        assert_eq!(het.atom_number(), 12345);
        assert_eq!(het.atom_name(), "O");
        assert_eq!(het.alternate_location(), ' ');
        assert_eq!(het.residue_name(), "HOH");
        assert_eq!(het.chain_id(), 'B');
        assert_eq!(het.residue_number(), 101);
        assert_eq!(het.insertion_code(), ' ');
        assert_eq!(het.x(), 72565);
        assert_eq!(het.y(), 60018);
        assert_eq!(het.z(), -6320);
        assert_eq!(het.occupancy(), 100);
        assert_eq!(het.temperature_factor(), 2196);
        assert_eq!(het.element_symbol(), "O");
        assert_eq!(het.charge(), "");
    }

    {
        let het: Hetatm = "HETATM12345  O   HOH B 101      72.565  60.018  -6.320"
            .parse()
            .unwrap();
        assert_eq!(het.record_name(), "HETATM");
        assert_eq!(het.atom_number(), 12345);
        assert_eq!(het.atom_name(), "O");
        assert_eq!(het.alternate_location(), ' ');
        assert_eq!(het.residue_name(), "HOH");
        assert_eq!(het.chain_id(), 'B');
        assert_eq!(het.residue_number(), 101);
        assert_eq!(het.insertion_code(), ' ');
        assert_eq!(het.x(), 72565);
        assert_eq!(het.y(), 60018);
        assert_eq!(het.z(), -6320);
        assert_eq!(het.occupancy(), 0);
        assert_eq!(het.temperature_factor(), 99999);
        assert_eq!(het.element_symbol(), "O");
        assert_eq!(het.charge(), "");
    }
}

#[test]
fn write_pdb_hetatm() {
    let het: Hetatm =
        "HETATM12345  O   HOH B 101      72.565  60.018  -6.320  1.00 21.96           O  "
            .parse()
            .unwrap();
    let line = het.to_line();
    assert_eq!(
        line,
        "HETATM12345  O   HOH B 101      72.565  60.018  -6.320  1.00 21.96           O  "
    );
}

#[test]
fn build_pdb_hetatm() {
    {
        let atom = HetatmBuilder::new().finalize();
        assert_eq!(atom.record_name(), "HETATM");
        assert_eq!(atom.atom_number(), 1);
        assert_eq!(atom.atom_name(), "");
        assert_eq!(atom.alternate_location(), ' ');
        assert_eq!(atom.residue_name(), "");
        assert_eq!(atom.chain_id(), 'A');
        assert_eq!(atom.residue_number(), 1);
        assert_eq!(atom.insertion_code(), ' ');
        assert_eq!(atom.x(), 0);
        assert_eq!(atom.y(), 0);
        assert_eq!(atom.z(), 0);
        assert_eq!(atom.occupancy(), 0);
        assert_eq!(atom.temperature_factor(), 9990);
        assert_eq!(atom.element_symbol(), "");
        assert_eq!(atom.charge(), "");
    }

    {
        let atom = HetatmBuilder::new()
            .pos(1000, 2000, 3000)
            .atom_number(42)
            .residue_number(69)
            .atom_residue_chain("O", "HOH", 'A')
            .occupancy(314)
            .temperature_factor(271)
            .element("O")
            .finalize();
        assert_eq!(atom.record_name(), "HETATM");
        assert_eq!(atom.atom_number(), 42);
        assert_eq!(atom.atom_name(), "O");
        assert_eq!(atom.alternate_location(), ' ');
        assert_eq!(atom.residue_name(), "HOH");
        assert_eq!(atom.chain_id(), 'A');
        assert_eq!(atom.residue_number(), 69);
        assert_eq!(atom.insertion_code(), ' ');
        assert_eq!(atom.x(), 1000);
        assert_eq!(atom.y(), 2000);
        assert_eq!(atom.z(), 3000);
        assert_eq!(atom.occupancy(), 314);
        assert_eq!(atom.temperature_factor(), 271);
        assert_eq!(atom.element_symbol(), "O");
        assert_eq!(atom.charge(), "");
    }
}
