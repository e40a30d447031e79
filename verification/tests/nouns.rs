use zkvm_jetpack::field::PRIME;
use zkvm_jetpack::jets::{hot_path, Accelerator, JetError};
use zkvm_jetpack::noun::{bytes_equal, create_safe_atom_from_bytes, safe_list, slot, Noun};
use zkvm_jetpack::proof_jets::{
    first_found, generate_proof_for_nonce, proof_to_noun, prove_block_parallel_jet, FoundProof,
};
use zkvm_jetpack::table_jets::{
    build_compute_table, build_memory_table, build_table_dats_jet, create_compute_header,
    create_memory_header, create_operation_row, create_padding_row, create_table_dat, make_atom,
    process_compute_queue, rows_to_list, safe_d, table_hot_path, ultra_safe_atom, vec_to_list,
    MAX_ROWS,
};

fn atom(v: u64) -> Noun {
    Noun::Atom(v)
}

fn cell(a: Noun, b: Noun) -> Noun {
    Noun::cell(a, b)
}

fn list(items: Vec<Noun>) -> Noun {
    safe_list(items)
}

fn atoms(values: &[u64]) -> Noun {
    list(values.iter().map(|&v| atom(v)).collect())
}

fn show(n: &Noun) -> String {
    format!("{:?}", n)
}

#[test]
fn nouns_compare_by_structure() {
    assert!(atom(5).same(&atom(5)));
    assert!(!atom(5).same(&atom(6)));
    assert!(!atom(5).same(&cell(atom(5), atom(0))));
    assert!(cell(atom(1), atom(2)).same(&cell(atom(1), atom(2))));
    assert!(!cell(atom(1), atom(2)).same(&cell(atom(2), atom(1))));
    assert!(Noun::BigAtom(vec![1; 9]).same(&Noun::BigAtom(vec![1; 9])));
    assert!(!Noun::BigAtom(vec![1; 9]).same(&Noun::BigAtom(vec![1; 10])));
    assert!(!Noun::BigAtom(vec![1; 9]).same(&atom(1)));
    assert!(bytes_equal(b"abc", b"abc"));
    assert!(!bytes_equal(b"abc", b"abd"));
    assert!(!bytes_equal(b"abc", b"ab"));
}

#[test]
fn null_and_words() {
    assert!(atom(0).is_null());
    assert!(!atom(1).is_null());
    assert!(!cell(atom(0), atom(0)).is_null());
    assert!(!Noun::BigAtom(vec![0; 9]).is_null());
    assert_eq!(atom(7).as_u64(), Some(7));
    assert_eq!(Noun::BigAtom(vec![1; 9]).as_u64(), None);
    assert_eq!(cell(atom(1), atom(2)).as_u64(), None);
}

#[test]
fn parts_by_axis() {
    // [[1 2] [3 [4 5]]]
    let n = cell(cell(atom(1), atom(2)), cell(atom(3), cell(atom(4), atom(5))));
    assert!(slot(&n, 0).is_none());
    assert!(slot(&n, 1).unwrap().same(&n));
    assert!(slot(&n, 2).unwrap().same(&cell(atom(1), atom(2))));
    assert!(slot(&n, 3).unwrap().same(&cell(atom(3), cell(atom(4), atom(5)))));
    assert!(slot(&n, 4).unwrap().same(&atom(1)));
    assert!(slot(&n, 5).unwrap().same(&atom(2)));
    assert!(slot(&n, 6).unwrap().same(&atom(3)));
    assert!(slot(&n, 7).unwrap().same(&cell(atom(4), atom(5))));
    assert!(slot(&n, 14).unwrap().same(&atom(4)));
    assert!(slot(&n, 15).unwrap().same(&atom(5)));
    assert!(slot(&n, 8).is_none());
    assert!(slot(&n, 30).is_none());
    assert!(slot(&atom(3), 2).is_none());
}

#[test]
fn lists_end_with_zero() {
    assert!(list(vec![]).same(&atom(0)));
    assert!(list(vec![atom(1)]).same(&cell(atom(1), atom(0))));
    assert!(atoms(&[1, 2, 3]).same(&cell(atom(1), cell(atom(2), cell(atom(3), atom(0))))));
    assert!(vec_to_list(vec![atom(1), atom(2)]).same(&atoms(&[1, 2])));
    assert!(rows_to_list(vec![atom(1), atom(2)]).same(&atoms(&[1, 2])));
}

#[test]
fn atoms_from_bytes() {
    assert!(create_safe_atom_from_bytes(&[]).same(&atom(0)));
    assert!(create_safe_atom_from_bytes(&[5]).same(&atom(5)));
    assert!(create_safe_atom_from_bytes(&[0x34, 0x12]).same(&atom(0x1234)));
    assert!(create_safe_atom_from_bytes(&[0xff; 8]).same(&atom(u64::MAX)));
    assert!(create_safe_atom_from_bytes(&[1, 2, 3, 4, 5, 6, 7, 8])
        .same(&atom(0x0807060504030201)));
    assert!(create_safe_atom_from_bytes(&[1; 9]).same(&Noun::BigAtom(vec![1; 9])));
    assert!(proof_to_noun(&[7; 40]).same(&Noun::BigAtom(vec![7; 40])));
    assert!(proof_to_noun(&[7]).same(&atom(7)));
}

#[test]
fn atoms_of_any_value() {
    for v in [0u64, 1, 0x7FFF_FFFF_FFFF_FFFF, 0x8000_0000_0000_0000, u64::MAX] {
        assert!(ultra_safe_atom(v).same(&atom(v)));
        assert!(make_atom(v).same(&atom(v)));
        assert!(safe_d(v).same(&atom(v)));
    }
}

#[test]
fn table_headers() {
    assert!(create_compute_header()
        .same(&atoms(&[0x636f6d70757465, 0xffffffff00000001, 11, 57, 6, 74, 1])));
    assert!(create_memory_header()
        .same(&atoms(&[0x6d656d6f7279, 0xffffffff00000001, 8, 0, 5, 13, 1])));
    assert_eq!(PRIME, 0xffffffff00000001);
    assert_eq!(&0x636f6d70757465u64.to_le_bytes()[..7], b"etupmoc");
}

#[test]
fn table_rows() {
    assert!(create_operation_row(0).same(&atoms(&[0, 1, 0, 0, 0, 0, 0, 0, 0, 0, 0])));
    assert!(create_operation_row(3).same(&atoms(&[0, 0, 0, 0, 1, 0, 0, 0, 0, 0, 0])));
    assert!(create_operation_row(9).same(&atoms(&[0, 0, 0, 0, 0, 0, 0, 0, 0, 0, 1])));
    assert!(create_operation_row(10).same(&atoms(&[0; 11])));
    assert!(create_padding_row().same(&atoms(&[1, 1, 0, 0, 0, 0, 0, 0, 0, 0, 0])));
}

fn row(op: u8) -> Noun {
    create_operation_row(op)
}

#[test]
fn rows_of_a_queue() {
    // operation 1 takes three entries, operation 6 six, operation 3 four
    let queue = atoms(&[1, 100, 101, 6, 1, 2, 3, 4, 5, 13, 7, 8, 9]);
    let rows = process_compute_queue(&queue);
    assert!(
        rows.same(&list(vec![row(1), row(6), row(3), create_padding_row()])),
        "{}",
        show(&rows)
    );
}

#[test]
fn rows_of_a_queue_of_cells() {
    // a formula that is a cell counts by its head; a head that is a cell is operation 9
    let queue = list(vec![
        cell(atom(2), atom(77)),
        atom(0),
        atom(0),
        atom(0),
        atom(0),
        cell(cell(atom(1), atom(1)), atom(5)),
        atom(1),
        atom(2),
        atom(3),
        atom(4),
        cell(Noun::BigAtom(vec![1; 9]), atom(0)),
    ]);
    let rows = process_compute_queue(&queue);
    assert!(
        rows.same(&list(vec![row(2), row(9), row(9), create_padding_row()])),
        "{}",
        show(&rows)
    );
}

#[test]
fn a_queue_ends_at_zero_or_where_it_is_no_cell() {
    assert!(process_compute_queue(&atom(0)).same(&atom(0)));
    assert!(process_compute_queue(&atom(5)).same(&atom(0)));
    assert!(process_compute_queue(&atoms(&[0, 1, 2])).same(&atom(0)));
    // the queue ends in the middle of the entries of an operation
    let rows = process_compute_queue(&atoms(&[4, 1]));
    assert!(rows.same(&list(vec![row(4), create_padding_row()])));
    // a zero after the entries of an operation ends the queue
    let rows = process_compute_queue(&atoms(&[1, 9, 9, 0, 5, 5]));
    assert!(rows.same(&list(vec![row(1), create_padding_row()])));
    // an atom too large for a word counts as operation zero
    let rows =
        process_compute_queue(&list(vec![Noun::BigAtom(vec![1; 9]), atom(1), atom(1)]));
    assert!(rows.same(&list(vec![row(0), create_padding_row()])));
}

#[test]
fn at_most_ten_thousand_rows_are_read() {
    assert_eq!(MAX_ROWS, 10000);
    // 10005 operations of three entries each
    let queue = atoms(&vec![1u64; 3 * 10005]);
    let rows = process_compute_queue(&queue);
    let mut count = 0;
    let mut current = &rows;
    while let Noun::Cell(_, tail) = current {
        count += 1;
        current = tail;
    }
    assert_eq!(count, 10001);
}

#[test]
fn tables() {
    let memory = build_memory_table();
    assert!(memory.same(&cell(create_memory_header(), atom(0))));
    let trace = cell(atoms(&[1, 100, 101]), atom(42));
    let compute = build_compute_table(&trace).unwrap();
    assert!(compute.same(&cell(
        create_compute_header(),
        list(vec![row(1), create_padding_row()])
    )));
    assert_eq!(build_compute_table(&atom(3)).unwrap_err(), JetError::BadArguments);
    assert!(create_table_dat(atom(9), "compute").same(&cell(atom(9), cell(atom(0), atom(0)))));
}

fn subject(sample: Noun) -> Noun {
    // the sample sits at axis six: [battery [sample context]]
    cell(atom(0), cell(sample, atom(0)))
}

#[test]
fn table_operation() {
    let trace = cell(atoms(&[1, 100, 101]), atom(42));
    let built = build_table_dats_jet(&subject(cell(trace, atom(0)))).unwrap();
    let compute = cell(create_compute_header(), list(vec![row(1), create_padding_row()]));
    let expected = list(vec![
        cell(compute, cell(atom(0), atom(0))),
        cell(build_memory_table(), cell(atom(0), atom(0))),
    ]);
    assert!(built.same(&expected), "{}", show(&built));
}

#[test]
fn table_operation_failures() {
    let trace = cell(atoms(&[1, 100, 101]), atom(42));
    // a list of names is left to the interpreter
    let named = subject(cell(trace, atoms(&[5])));
    assert_eq!(build_table_dats_jet(&named).unwrap_err(), JetError::Punt);
    let one = subject(cell(cell(atoms(&[1]), atom(0)), atom(1)));
    assert_eq!(build_table_dats_jet(&one).unwrap_err(), JetError::Punt);
    // no sample, a sample that is no cell, a trace without a queue
    assert_eq!(build_table_dats_jet(&atom(0)).unwrap_err(), JetError::BadArguments);
    assert_eq!(build_table_dats_jet(&subject(atom(7))).unwrap_err(), JetError::BadArguments);
    assert_eq!(
        build_table_dats_jet(&subject(cell(atom(7), atom(0)))).unwrap_err(),
        JetError::BadArguments
    );
}

fn digest(b: u8) -> Noun {
    Noun::BigAtom(vec![b; 32])
}

fn search(length: Noun, commitment: Noun, nonces: Noun) -> Noun {
    // length at axis 2, commitment at axis 6, nonces at axis 7 of the sample
    subject(cell(length, cell(commitment, nonces)))
}

#[test]
fn search_without_prover_finds_nothing() {
    let s = search(atom(64), digest(1), list(vec![digest(2), digest(3), digest(4)]));
    assert!(prove_block_parallel_jet(&s).unwrap().same(&atom(0)));
    let s = search(atom(64), digest(1), atom(0));
    assert!(prove_block_parallel_jet(&s).unwrap().same(&atom(0)));
    assert!(generate_proof_for_nonce(64, &[1; 32], &[2; 32]).is_none());
}

#[test]
fn search_refuses_bad_arguments() {
    let good = list(vec![digest(2)]);
    for s in [
        atom(0),
        subject(atom(1)),
        search(digest(9), digest(1), list(vec![digest(2)])),
        search(cell(atom(1), atom(2)), digest(1), list(vec![digest(2)])),
        search(atom(64), atom(1), list(vec![digest(2)])),
        search(atom(64), Noun::BigAtom(vec![1; 31]), list(vec![digest(2)])),
        search(atom(64), Noun::BigAtom(vec![1; 40]), list(vec![digest(2)])),
        search(atom(64), digest(1), atom(5)),
        search(atom(64), digest(1), list(vec![atom(7)])),
        search(atom(64), digest(1), list(vec![digest(2), Noun::BigAtom(vec![1; 33])])),
        search(atom(64), digest(1), cell(digest(2), atom(9))),
        search(atom(64), digest(1), list(vec![cell(atom(1), atom(1))])),
    ] {
        assert_eq!(prove_block_parallel_jet(&s).unwrap_err(), JetError::BadArguments);
    }
    assert!(prove_block_parallel_jet(&search(atom(64), digest(1), good)).is_ok());
}

#[test]
fn first_proof_in_the_order_of_the_nonces() {
    let found = |b: u8| Some(FoundProof { proof: vec![b], hash: vec![b; 32] });
    assert_eq!(first_found(&vec![]), None);
    assert_eq!(first_found(&vec![None, None]), None);
    assert_eq!(first_found(&vec![None, found(1), found(2)]), Some(1));
    assert_eq!(first_found(&vec![found(3)]), Some(0));
}

#[test]
fn registry_paths() {
    assert_eq!(
        hot_path(Accelerator::BpFft),
        vec!["one", "two", "tri", "qua", "pen", "zeke", "bp-fft"]
    );
    assert_eq!(
        hot_path(Accelerator::BpHadamard),
        vec!["one", "two", "tri", "qua", "pen", "zeke", "bp-hadamard"]
    );
    assert_eq!(
        table_hot_path(),
        vec![
            "one",
            "two",
            "tri",
            "qua",
            "pen",
            "zeke",
            "ext-field",
            "misc-lib",
            "proof-lib",
            "utils",
            "fri",
            "table-lib",
            "stark-core",
            "fock-core",
            "pow",
            "stark-engine",
            "stark-prover",
            "build-table-dats"
        ]
    );
}
