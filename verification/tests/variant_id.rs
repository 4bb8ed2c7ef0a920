use variantplaner_rs::{encode, nuc2bit, partition, seq2bit};

fn seq_column(cells: &[Option<&str>]) -> Vec<Option<Vec<u8>>> {
    let mut out: Vec<Option<Vec<u8>>> = Vec::new();
    for cell in cells {
        out.push(cell.map(|s| s.as_bytes().to_vec()));
    }
    out
}

#[test]
fn nuc2bit_() {
    assert_eq!(nuc2bit(b'A'), 0b00);
    assert_eq!(nuc2bit(b'C'), 0b01);
    assert_eq!(nuc2bit(b'T'), 0b10);
    assert_eq!(nuc2bit(b'G'), 0b11);
    assert_eq!(nuc2bit(b'N'), 0b11);

    assert_eq!(nuc2bit(b'a'), 0b00);
    assert_eq!(nuc2bit(b'c'), 0b01);
    assert_eq!(nuc2bit(b't'), 0b10);
    assert_eq!(nuc2bit(b'g'), 0b11);
    assert_eq!(nuc2bit(b'n'), 0b11);
}

#[test]
fn seq2bit_() {
    assert_eq!(seq2bit(b"ACTGN"), 0b0001101111);
}

#[test]
fn compute_id() {
    let real_pos: Vec<Option<u64>> = vec![
        Some(10),
        Some(50),
        Some(110),
        Some(326512443305),
        Some(326512443305),
        Some(224),
        None,
    ];
    let ref_seq = seq_column(&[
        Some("A"),
        Some("C"),
        Some("T"),
        Some("G"),
        Some("GA"),
        Some("AC"),
        None,
    ]);
    let alt_seq = seq_column(&[
        Some("G"),
        Some("T"),
        Some("C"),
        Some("A"),
        Some(""),
        Some("CATGAGCGGACTG"),
        None,
    ]);

    let id = encode(&real_pos, &ref_seq, &alt_seq, 326512443305).unwrap();

    assert_eq!(
        id,
        vec![
            Some(168820739),
            Some(839909382),
            Some(1846542345),
            Some(5477969788016787468),
            Some(5477969788017836044),
            Some(15149852326290402176),
            None,
        ]
    );
}

#[test]
fn homopolymer_colision() {
    let real_pos: Vec<Option<u64>> = vec![Some(110); 24];

    let mut refs: Vec<Option<&str>> = vec![Some("A"); 4];
    refs.extend(vec![Some("AA"); 20]);
    let ref_seq = seq_column(&refs);

    let alts: Vec<Option<&str>> = vec![
        Some("A"),
        Some("C"),
        Some("G"),
        Some("T"),
        Some("AA"),
        Some("AC"),
        Some("AG"),
        Some("AT"),
        Some("CA"),
        Some("CC"),
        Some("CG"),
        Some("CT"),
        Some("GA"),
        Some("GC"),
        Some("GG"),
        Some("GT"),
        Some("TA"),
        Some("TC"),
        Some("TG"),
        Some("TT"),
        Some("A"),
        Some("C"),
        Some("G"),
        Some("T"),
    ];
    let alt_seq = seq_column(&alts);

    let mut ids: Vec<u64> = encode(&real_pos, &ref_seq, &alt_seq, 326512443305)
        .unwrap()
        .into_iter()
        .flatten()
        .collect();

    ids.sort_unstable();
    ids.dedup();

    // An all-`A` reference packs to zero content, so an alternate made
    // longer only by leading `A`s reuses an identifier: four of the pairs
    // repeat one of the other twenty.
    assert_eq!(ids.len(), 20);
}

#[test]
fn compute_part() {
    let real_pos: Vec<Option<u64>> = vec![
        Some(10),
        Some(50),
        Some(110),
        Some(326512443305),
        Some(326512443305),
        Some(224),
        None,
    ];
    let ref_seq = seq_column(&[
        Some("A"),
        Some("C"),
        Some("T"),
        Some("G"),
        Some("GA"),
        Some("AC"),
        None,
    ]);
    let alt_seq = seq_column(&[
        Some("G"),
        Some("T"),
        Some("C"),
        Some("A"),
        Some(""),
        Some("CATGAGCGGACTGACC"),
        None,
    ]);

    let id = encode(&real_pos, &ref_seq, &alt_seq, 326512443305).unwrap();
    let part = partition(&id);

    assert_eq!(
        part,
        vec![
            Some(0),
            Some(0),
            Some(0),
            Some(152),
            Some(152),
            Some(255),
            None,
        ]
    );
}
