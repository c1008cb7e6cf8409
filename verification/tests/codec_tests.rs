use codech::codec::{decode, encode, CodecError};
use codech::matrix::{get_matrix, get_reverse_matrix, Matrix, ReverseMatrix};

const TABLE: [u8; 16] = [
    126, 146, 164, 54, 199, 85, 99, 241, 143, 29, 43, 185, 72, 218, 236, 0,
];

fn table_pair() -> (Matrix, ReverseMatrix) {
    let m = Matrix::from_entries(TABLE.to_vec()).unwrap();
    let rev = get_reverse_matrix(&m);
    (m, rev)
}

#[test]
fn encode_single_byte_substitutes_both_nibbles() {
    let (m, _) = table_pair();
    // 0xAB: high nibble 10, low nibble 11
    assert_eq!(encode(&m, &[0xAB]), vec![43, 185]);
}

#[test]
fn decode_single_pair_restores_byte() {
    let (_, rev) = table_pair();
    assert_eq!(decode(&rev, &[43, 185]), Ok(vec![0xAB]));
}

#[test]
fn empty_buffer_encodes_and_decodes_to_empty() {
    let (m, rev) = table_pair();
    assert_eq!(encode(&m, &[]), Vec::<u8>::new());
    assert_eq!(decode(&rev, &[]), Ok(Vec::new()));
}

#[test]
fn encode_doubles_the_length() {
    let (m, _) = table_pair();
    for n in 0..40usize {
        let buf: Vec<u8> = (0..n).map(|i| (i * 37 % 256) as u8).collect();
        assert_eq!(encode(&m, &buf).len(), 2 * n);
    }
}

#[test]
fn round_trip_restores_arbitrary_bytes() {
    let (m, rev) = table_pair();
    let buf: Vec<u8> = (0..=255u8).collect();
    let encoded = encode(&m, &buf);
    assert_eq!(decode(&rev, &encoded), Ok(buf));
}

#[test]
fn decode_rejects_odd_length() {
    let (_, rev) = table_pair();
    assert_eq!(decode(&rev, &[43]), Err(CodecError::OddLength));
    assert_eq!(decode(&rev, &[43, 185, 126]), Err(CodecError::OddLength));
}

#[test]
fn decode_rejects_unmapped_byte() {
    let (_, rev) = table_pair();
    // 1 is not among the table's entries
    assert_eq!(decode(&rev, &[1, 126]), Err(CodecError::UnmappedByte));
}

#[test]
fn reverse_matrix_inverts_every_nibble() {
    let (m, rev) = table_pair();
    for n in 0..16u8 {
        assert_eq!(rev.lookup(m.entry(n as usize)), Some(n));
    }
}

#[test]
fn reverse_matrix_rejects_bytes_outside_image() {
    let (_, rev) = table_pair();
    for b in 0..=255u8 {
        let in_table = TABLE.contains(&b);
        assert_eq!(rev.lookup(b).is_some(), in_table);
    }
}

#[test]
fn from_entries_rejects_duplicates_and_bad_lengths() {
    assert!(Matrix::from_entries(vec![0; 16]).is_none());
    assert!(Matrix::from_entries((0..15u8).collect()).is_none());
    assert!(Matrix::from_entries((0..17u8).collect()).is_none());
    assert!(Matrix::from_entries((0..16u8).collect()).is_some());
}

#[test]
fn derived_tables_are_deterministic_and_bijective() {
    let key = b"G4C key material, longer than sixteen bytes".to_vec();
    let (m1, r1) = get_matrix(&key);
    let (m2, _) = get_matrix(&key);
    for n in 0..16usize {
        assert_eq!(m1.entry(n), m2.entry(n));
        assert_eq!(r1.lookup(m1.entry(n)), Some(n as u8));
    }
    // all 16 entries distinct
    for i in 0..16usize {
        for j in 0..16usize {
            if i != j {
                assert_ne!(m1.entry(i), m1.entry(j));
            }
        }
    }
}

#[test]
fn derived_tables_round_trip_with_short_and_empty_keys() {
    for key in [&b""[..], &b"k"[..], &b"tiny"[..]] {
        let (m, rev) = get_matrix(key);
        let buf: Vec<u8> = (0..=255u8).rev().collect();
        let encoded = encode(&m, &buf);
        assert_eq!(encoded.len(), 512);
        assert_eq!(decode(&rev, &encoded), Ok(buf));
    }
}
