use codech::codec::{decode, encode, CodecError};
use codech::matrix::{get_reverse_matrix, Matrix};
use codech::pipeline::{chunk_size, parallel_decode, parallel_encode};

const TABLE: [u8; 16] = [
    126, 146, 164, 54, 199, 85, 99, 241, 143, 29, 43, 185, 72, 218, 236, 0,
];

fn matrix() -> Matrix {
    Matrix::from_entries(TABLE.to_vec()).unwrap()
}

fn pseudo_random(n: usize) -> Vec<u8> {
    let mut state: u64 = 0x1234_5678_9abc_def0;
    let mut v = Vec::with_capacity(n);
    for _ in 0..n {
        state = state
            .wrapping_mul(6364136223846793005)
            .wrapping_add(1442695040888963407);
        v.push((state >> 33) as u8);
    }
    v
}

#[test]
fn should_test_parallelization() {
    let original = pseudo_random(59577);
    assert_eq!(original.len(), 59577);
    let m = matrix();
    let rev = get_reverse_matrix(&m);
    for workers in 1..=64usize {
        let encoded = parallel_encode(&m, &original, workers);
        assert_eq!(encoded.len(), 119154);
        assert!(encoded.len() % 2 == 0);
        let decoded = parallel_decode(&rev, &encoded, workers).unwrap();
        assert_eq!(original, decoded);
    }
}

#[test]
fn worker_count_does_not_change_the_output() {
    let m = matrix();
    let rev = get_reverse_matrix(&m);
    let buf = pseudo_random(1003);
    let sequential = encode(&m, &buf);
    for workers in 1..=17usize {
        assert_eq!(parallel_encode(&m, &buf, workers), sequential);
    }
    let sequential_decoded = decode(&rev, &sequential).unwrap();
    assert_eq!(sequential_decoded, buf);
    for workers in 1..=17usize {
        assert_eq!(
            parallel_decode(&rev, &sequential, workers).unwrap(),
            sequential_decoded
        );
    }
}

#[test]
fn parallel_decode_rejects_what_decode_rejects() {
    let m = matrix();
    let rev = get_reverse_matrix(&m);
    assert_eq!(
        parallel_decode(&rev, &[43], 4),
        Err(CodecError::OddLength)
    );
    assert_eq!(
        parallel_decode(&rev, &[1, 126], 4),
        Err(CodecError::UnmappedByte)
    );
    assert_eq!(parallel_decode(&rev, &[], 4), Ok(Vec::new()));
    assert_eq!(parallel_encode(&m, &[], 4), Vec::<u8>::new());
}

#[test]
fn chunk_size_is_even_or_whole() {
    for len in 1..200usize {
        for workers in 1..20usize {
            let c = chunk_size(len, workers);
            assert!(c == len || c % 2 == 0);
            assert!(1 <= c && c <= len);
        }
    }
}

#[test]
fn chunk_size_concrete_values() {
    assert_eq!(chunk_size(10, 3), 2); // quotient 3, low bit cleared
    assert_eq!(chunk_size(59577, 4), 14894);
    assert_eq!(chunk_size(5, 10), 5); // quotient 0: whole buffer
    assert_eq!(chunk_size(3, 1), 2);
    assert_eq!(chunk_size(8, 2), 4);
    assert_eq!(chunk_size(0, 4), 0);
}

#[test]
fn odd_chunk_sizes_are_never_used_on_uneven_splits() {
    // decoding with worker counts that would give odd quotients still round-trips
    let m = matrix();
    let rev = get_reverse_matrix(&m);
    for n in [1usize, 2, 3, 15, 16, 17, 31, 255, 256, 1001] {
        let buf = pseudo_random(n);
        let encoded = parallel_encode(&m, &buf, 7);
        for workers in 1..=9usize {
            assert_eq!(parallel_decode(&rev, &encoded, workers).unwrap(), buf);
        }
    }
}
