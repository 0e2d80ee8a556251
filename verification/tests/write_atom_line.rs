use rustymill::pdb::Atom;

#[test]
fn write_atom_line_write_pdb_line() {
    let atom = Atom::from(
        "ATOM     45  N  BARG A   3      11.281  86.699  94.383  1.00 39.29           N N",
    )
    .unwrap();
    let line = atom.to_line();
    assert_eq!(
        line,
        "ATOM     45  N  BARG A   3      11.281  86.699  94.383  1.00 39.29           N N"
    );
}
