use dna::Nuc;
use dna::PackedDna;

#[test]
fn from_string_test_len10_positive() {
    let dna_from_string = PackedDna::from_str("ACGTTGCACT").unwrap();
    let vec = [27, 228, 7];
    assert_eq!(*dna_from_string.storage_units(), vec);
    assert_eq!(dna_from_string.tail_count(), 2);
}

#[test]
fn from_string_test_len8_positive() {
    let dna_from_string = PackedDna::from_str("ACGTTGCA").unwrap();
    let vec = [27, 228];
    assert_eq!(*dna_from_string.storage_units(), vec);
    assert_eq!(dna_from_string.tail_count(), 0);
}

#[test]
fn from_string_test_lowercase_positive() {
    let dna_from_string = PackedDna::from_str("acgttgca").unwrap();
    let vec = [27, 228];
    assert_eq!(*dna_from_string.storage_units(), vec);
    assert_eq!(dna_from_string.tail_count(), 0);
}

#[test]
fn from_string_invalid_nuc() {
    let packed_dna = PackedDna::from_str("acgtx");
    match packed_dna {
        Ok(ref _x) => {}
        Err(e) => {
            assert_eq!("failed to parse nucleotide from ACGTX", e.message());
        }
    }
}

#[test]
fn from_iter_test_len8_positive() {
    let dna_from_string = PackedDna::from_iter(vec![
        Nuc::A,
        Nuc::C,
        Nuc::G,
        Nuc::T,
        Nuc::A,
        Nuc::C,
        Nuc::G,
        Nuc::T,
    ]);
    let vec = [27, 27];
    assert_eq!(*dna_from_string.storage_units(), vec);
    assert_eq!(dna_from_string.tail_count(), 0);
}

#[test]
fn from_iter_test_len11_positive() {
    let dna_from_string = PackedDna::from_iter(vec![
        Nuc::A,
        Nuc::C,
        Nuc::G,
        Nuc::T,
        Nuc::A,
        Nuc::C,
        Nuc::G,
        Nuc::T,
        Nuc::T,
        Nuc::T,
        Nuc::T,
    ]);
    let vec = [27, 27, 63];
    assert_eq!(*dna_from_string.storage_units(), vec);
    assert_eq!(dna_from_string.tail_count(), 3);
}

#[test]
fn get_nuc_test_positive_a() {
    let dna_from_string = PackedDna::from_str("ACGTTGCACT").unwrap();
    match dna_from_string.get(1) {
        Ok(x) => assert_eq!(x, Nuc::A),
        Err(e) => println!("Oops! You ran into an error: {e:?}"),
    }
}

#[test]
fn get_nuc_test_positive_c() {
    let dna_from_string = PackedDna::from_str("ACGTTGCACT").unwrap();
    match dna_from_string.get(7) {
        Ok(x) => assert_eq!(x, Nuc::C),
        Err(e) => println!("Oops! You ran into an error: {e:?}"),
    }
}

#[test]
fn get_nuc_test_positive_g() {
    let dna_from_string = PackedDna::from_str("ACGTTGCACT").unwrap();
    match dna_from_string.get(3) {
        Ok(x) => assert_eq!(x, Nuc::G),
        Err(e) => println!("Oops! You ran into an error: {e:?}"),
    }
}

#[test]
fn get_nuc_test_positive_t() {
    let dna_from_string = PackedDna::from_str("ACGTTGCACT").unwrap();
    match dna_from_string.get(10) {
        Ok(x) => assert_eq!(x, Nuc::T),
        Err(e) => println!("Oops! You ran into an error: {e:?}"),
    }
}

#[test]
fn get_nuc_test_negative() {
    let dna_from_string = PackedDna::from_str("ACGTTGCACT").unwrap();
    let get11 = dna_from_string.get(11);
    match get11 {
        Ok(_x) => {}
        Err(e) => assert_eq!("Index 11 is greater than the given DNA Length", e),
    }
}

#[test]
fn get_nuc_count_test() {
    let dna_from_string = PackedDna::from_str("ACGTTGCACT").unwrap();
    let counts = dna_from_string.get_counts();
    assert_eq!(counts, vec![('A', 2), ('C', 3), ('G', 2), ('T', 3)]);
}
