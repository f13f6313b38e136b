use dna::Nuc;
use dna::PackedDna;

fn letter(n: Nuc) -> char {
    match n {
        Nuc::A => 'A',
        Nuc::C => 'C',
        Nuc::G => 'G',
        Nuc::T => 'T',
    }
}

#[test]
fn round_trip_mixed_case() {
    let input = "aCgTtGca";
    let d = PackedDna::from_str(input).unwrap();
    let mut rebuilt = String::new();
    for idx in 1..=input.len() {
        rebuilt.push(letter(d.get(idx).unwrap()));
    }
    assert_eq!(rebuilt, "ACGTTGCA");
}

#[test]
fn counts_sum_matches_length() {
    let input = "ACGTTGCACT";
    let d = PackedDna::from_str(input).unwrap();
    let counts = d.get_counts();
    let total: usize = counts.iter().map(|p| p.1).sum();
    assert_eq!(total, input.len());
    for (c, k) in counts {
        let occurrences = input.chars().filter(|&x| x == c).count();
        assert_eq!(k, occurrences);
    }
}

#[test]
fn case_insensitive_representations() {
    let lower = PackedDna::from_str("acgt").unwrap();
    let upper = PackedDna::from_str("ACGT").unwrap();
    assert_eq!(*lower.storage_units(), *upper.storage_units());
    assert_eq!(lower.tail_count(), upper.tail_count());
    assert_eq!(lower.get_counts(), upper.get_counts());
}

#[test]
fn rejection_on_any_invalid_character() {
    assert!(PackedDna::from_str("ACGTX").is_err());
    assert!(PackedDna::from_str("XACGT").is_err());
    assert!(PackedDna::from_str("ACG-T").is_err());
    assert!(PackedDna::from_str("acgu").is_err());
}

#[test]
fn rejection_carries_uppercased_input() {
    let e = PackedDna::from_str("aCgTx").unwrap_err();
    assert_eq!(e.message(), "failed to parse nucleotide from ACGTX");
}

#[test]
fn boundary_len4_single_full_unit() {
    let d = PackedDna::from_str("ACGT").unwrap();
    assert_eq!(d.storage_units().len(), 1);
    assert_eq!(d.tail_count(), 0);
    assert_eq!(d.get(1).unwrap(), Nuc::A);
    assert_eq!(d.get(2).unwrap(), Nuc::C);
    assert_eq!(d.get(3).unwrap(), Nuc::G);
    assert_eq!(d.get(4).unwrap(), Nuc::T);
    assert!(d.get(5).is_err());
}

#[test]
fn boundary_len11_three_units() {
    let d = PackedDna::from_str("ACGTACGTTTT").unwrap();
    assert_eq!(d.storage_units().len(), 3);
    assert_eq!(d.tail_count(), 3);
    assert_eq!(d.get(11).unwrap(), Nuc::T);
    assert!(d.get(12).is_err());
}

#[test]
fn scenario_len10() {
    let d = PackedDna::from_str("ACGTTGCACT").unwrap();
    assert_eq!(d.storage_units().len(), 3);
    assert_eq!(d.tail_count(), 2);
    assert_eq!(d.get(1).unwrap(), Nuc::A);
    assert_eq!(d.get(3).unwrap(), Nuc::G);
    assert_eq!(d.get(7).unwrap(), Nuc::C);
    assert_eq!(d.get(10).unwrap(), Nuc::T);
    assert!(d.get(11).is_err());
    assert_eq!(d.get_counts(), vec![('A', 2), ('C', 3), ('G', 2), ('T', 3)]);
}

#[test]
fn stream_matches_parsed_text() {
    let from_stream = PackedDna::from_iter(vec![
        Nuc::A,
        Nuc::C,
        Nuc::G,
        Nuc::T,
        Nuc::A,
        Nuc::C,
        Nuc::G,
        Nuc::T,
        Nuc::T,
        Nuc::T,
        Nuc::T,
    ]);
    let from_text = PackedDna::from_str("ACGTACGTTTT").unwrap();
    assert_eq!(*from_stream.storage_units(), *from_text.storage_units());
    assert_eq!(from_stream.tail_count(), from_text.tail_count());
    assert_eq!(from_stream.get_counts(), from_text.get_counts());
}

#[test]
fn empty_sequence_has_no_storage() {
    let d = PackedDna::from_str("").unwrap();
    assert_eq!(d.storage_units().len(), 0);
    assert_eq!(d.tail_count(), 0);
    assert!(d.get(0).is_err());
    assert!(d.get(1).is_err());
    assert_eq!(d.get_counts(), vec![('A', 0), ('C', 0), ('G', 0), ('T', 0)]);
}

#[test]
fn empty_stream_has_no_storage() {
    let d = PackedDna::from_iter(vec![]);
    assert_eq!(d.storage_units().len(), 0);
    assert_eq!(d.tail_count(), 0);
    assert!(d.get(1).is_err());
}

#[test]
fn index_error_names_the_index() {
    let d = PackedDna::from_str("ACGT").unwrap();
    assert_eq!(
        d.get(0).unwrap_err(),
        "Index 0 is greater than the given DNA Length"
    );
    assert_eq!(
        d.get(123).unwrap_err(),
        "Index 123 is greater than the given DNA Length"
    );
}

#[test]
fn char_error_carries_original_character() {
    let e = Nuc::try_from('x').unwrap_err();
    assert_eq!(e.message(), "failed to parse nucleotide from x");
}

#[test]
fn str_error_carries_uppercased_string() {
    let e = Nuc::from_str("ab").unwrap_err();
    assert_eq!(e.message(), "failed to parse nucleotide from AB");
    let e = Nuc::from_str("").unwrap_err();
    assert_eq!(e.message(), "failed to parse nucleotide from ");
}
