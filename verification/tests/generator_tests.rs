use combin_gen::{combinations, SCALE_UNIT};

#[test]
fn cardinality_one_position() {
    let vals: Vec<u128> = vec![0, SCALE_UNIT];
    let matrix = combinations(1, &vals);
    assert_eq!(matrix.len(), 2);
    assert_eq!(matrix[0], vec![0]);
    assert_eq!(matrix[1], vec![SCALE_UNIT]);
}

#[test]
fn cardinality_k6_two_values() {
    let vals: Vec<u128> = vec![0, SCALE_UNIT];
    let matrix = combinations(6, &vals);
    assert_eq!(matrix.len(), 64);
}

#[test]
fn cardinality_k6_three_values() {
    let vals: Vec<u128> = vec![0, SCALE_UNIT, 2 * SCALE_UNIT];
    let matrix = combinations(6, &vals);
    assert_eq!(matrix.len(), 729);
}

#[test]
fn deterministic_repeat() {
    let vals: Vec<u128> = vec![0, SCALE_UNIT, 2 * SCALE_UNIT];
    let first = combinations(4, &vals);
    let second = combinations(4, &vals);
    assert_eq!(first, second);
}

#[test]
fn order_last_position_fastest() {
    let vals: Vec<u128> = vec![0, 1];
    let matrix = combinations(2, &vals);
    assert_eq!(
        matrix,
        vec![vec![0, 0], vec![0, 1], vec![1, 0], vec![1, 1]]
    );
}

#[test]
fn order_three_values() {
    let vals: Vec<u128> = vec![5, 7, 9];
    let matrix = combinations(2, &vals);
    assert_eq!(
        matrix,
        vec![
            vec![5, 5],
            vec![5, 7],
            vec![5, 9],
            vec![7, 5],
            vec![7, 7],
            vec![7, 9],
            vec![9, 5],
            vec![9, 7],
            vec![9, 9],
        ]
    );
}

#[test]
fn no_duplicates_full_coverage() {
    let vals: Vec<u128> = vec![0, 1];
    let matrix = combinations(3, &vals);
    assert_eq!(matrix.len(), 8);
    for i in 0..matrix.len() {
        for j in (i + 1)..matrix.len() {
            assert_ne!(matrix[i], matrix[j]);
        }
    }
    for a in [0u128, 1] {
        for b in [0u128, 1] {
            for c in [0u128, 1] {
                let expected = vec![a, b, c];
                assert!(matrix.contains(&expected));
            }
        }
    }
}

#[test]
fn every_tuple_has_arity_length() {
    let vals: Vec<u128> = vec![0, SCALE_UNIT];
    let matrix = combinations(6, &vals);
    for tuple in &matrix {
        assert_eq!(tuple.len(), 6);
    }
}
