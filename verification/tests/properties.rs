use variantplaner_rs::{encode, encode_variant, partition, partition_of, BitBudget, CodecError};

const MAX_POS: u64 = 326512443305;

fn one_row(pos: u64, refs: &str, alts: &str, max_pos: u64) -> Option<u64> {
    let id = encode(
        &vec![Some(pos)],
        &vec![Some(refs.as_bytes().to_vec())],
        &vec![Some(alts.as_bytes().to_vec())],
        max_pos,
    )
    .unwrap();
    id[0]
}

#[test]
fn budget_fields() {
    let budget = BitBudget::new(MAX_POS).unwrap();
    assert_eq!(budget.max_pos, MAX_POS);
    assert_eq!(budget.pos_bits, 39);
    assert_eq!(budget.pos_mov, 24);
    assert_eq!(budget.sep_len, 4);
    assert_eq!(budget.sep_mov, 20);
    assert_eq!(budget.nuc_len_max, 10);
}

#[test]
fn invalid_max_position_rejected() {
    assert!(matches!(
        BitBudget::new(u64::MAX),
        Err(CodecError::InvalidMaxPosition)
    ));
    assert!(matches!(
        BitBudget::new(1u64 << 60),
        Err(CodecError::InvalidMaxPosition)
    ));
    assert!(BitBudget::new(1000).is_ok());
    assert!(matches!(
        encode(&vec![Some(1)], &vec![Some(vec![b'A'])], &vec![Some(vec![b'C'])], u64::MAX),
        Err(CodecError::InvalidMaxPosition)
    ));
}

#[test]
fn encode_is_deterministic() {
    let long_alt = "CATGAGCGGACTGACC";
    for (p, r, a) in [
        (10u64, "A", "G"),
        (224, "AC", long_alt),
        (MAX_POS, "GA", ""),
    ] {
        let first = one_row(p, r, a, MAX_POS);
        let second = one_row(p, r, a, MAX_POS);
        assert!(first.is_some());
        assert_eq!(first, second);
    }
}

#[test]
fn top_bit_tracks_allele_length() {
    let budget = BitBudget::new(MAX_POS).unwrap();
    // Ten characters in all still pack: the top bit stays clear.
    let fits = encode_variant(110, b"ACGTA", b"CGTAC", &budget);
    assert_eq!(fits >> 63, 0);
    // Eleven characters no longer fit: the top bit is set.
    let overflow = encode_variant(110, b"ACGTA", b"CGTACA", &budget);
    assert_eq!(overflow >> 63, 1);
    assert_eq!(partition_of(overflow), 255);
}

#[test]
fn null_input_gives_null_output() {
    let ids = encode(
        &vec![Some(10), None, Some(10), Some(10), None],
        &vec![
            Some(vec![b'A']),
            Some(vec![b'A']),
            None,
            Some(vec![b'A']),
            None,
        ],
        &vec![
            Some(vec![b'G']),
            Some(vec![b'G']),
            Some(vec![b'G']),
            None,
            None,
        ],
        MAX_POS,
    )
    .unwrap();
    assert_eq!(ids[0], Some(168820739));
    assert_eq!(&ids[1..], &[None, None, None, None]);

    let parts = partition(&ids);
    assert_eq!(parts, vec![Some(0), None, None, None, None]);
}

#[test]
fn concrete_scenario() {
    assert_eq!(one_row(10, "A", "G", MAX_POS), Some(168820739));
    assert_eq!(partition(&vec![Some(168820739)]), vec![Some(0)]);

    let first = one_row(MAX_POS, "G", "", MAX_POS).unwrap();
    let second = one_row(MAX_POS, "G", "", MAX_POS).unwrap();
    assert_eq!(first, second);
    assert!(first != 0);
    assert_eq!(first >> 63, 0);
    assert_eq!(partition_of(first), 152);
}

#[test]
fn overflow_hash_reflects_content() {
    let budget = BitBudget::new(MAX_POS).unwrap();
    let a = encode_variant(110, b"ACGTACGTACGT", b"TTTTTTTTTTTT", &budget);
    let b = encode_variant(110, b"ACGTACGTACGT", b"TTTTTTTTTTTA", &budget);
    let c = encode_variant(111, b"ACGTACGTACGT", b"TTTTTTTTTTTT", &budget);
    assert_eq!(a >> 63, 1);
    assert_eq!(b >> 63, 1);
    assert_eq!(c >> 63, 1);
    assert!(a != b);
    assert!(a != c);
}

#[test]
fn partition_follows_position_order() {
    let budget = BitBudget::new(MAX_POS).unwrap();
    let positions: [u64; 6] = [0, 10, 1 << 31, 1 << 35, 1 << 38, MAX_POS];
    let mut last: u8 = 0;
    for p in positions {
        let part = partition_of(encode_variant(p, b"A", b"G", &budget));
        assert!(part >= last);
        last = part;
    }
    assert_eq!(last, 152);
}

#[test]
fn packed_fields_distinguish_variants() {
    let budget = BitBudget::new(MAX_POS).unwrap();
    // Same position: reference length, reference content and alternate
    // content each separate identifiers.
    let base = encode_variant(110, b"AC", b"GT", &budget);
    assert!(base != encode_variant(110, b"ACA", b"GT", &budget));
    assert!(base != encode_variant(110, b"CC", b"GT", &budget));
    assert!(base != encode_variant(110, b"AC", b"GG", &budget));
}
