use matrix_multiplication::cpu::{
    assemble_rows, check_operands_fit, check_products_fit, compute_row, fill_row,
    rayon_implementation, sequential_implementation, validate_operands, validate_shape,
    MultiplicationMethod,
    OperandError,
};
use matrix_multiplication::generate::generate_matrices;
use matrix_multiplication::layout::{
    flatten_matrix, round_up_to_multiple, trim_padding, unflatten_matrix, TILE_SIZE,
};

fn reference_product(a: &Vec<Vec<i32>>, b: &Vec<Vec<i32>>) -> Vec<Vec<i32>> {
    let n = a[0].len();
    let cols = b[0].len();
    let mut c = vec![vec![0i64; cols]; a.len()];
    for i in 0..a.len() {
        for j in 0..cols {
            for k in 0..n {
                c[i][j] += a[i][k] as i64 * b[k][j] as i64;
            }
        }
    }
    c.into_iter().map(|r| r.into_iter().map(|x| x as i32).collect()).collect()
}

fn dims(a: &Vec<Vec<i32>>, b: &Vec<Vec<i32>>) -> (usize, usize, usize) {
    let d = validate_operands(a, b).expect("operands are valid");
    (d.rows_a, d.columns_a, d.columns_b)
}

#[test]
fn sequential_two_by_two() {
    let a = vec![vec![1, 2], vec![3, 4]];
    let b = vec![vec![5, 6], vec![7, 8]];
    let (rows, n, cols) = dims(&a, &b);
    let c = sequential_implementation(&a, &b, rows, n, cols);
    assert_eq!(c, vec![vec![19, 22], vec![43, 50]]);
}

#[test]
fn sequential_rectangular() {
    // (2 x 3) * (3 x 1)
    let a = vec![vec![1, 0, -2], vec![4, 5, 6]];
    let b = vec![vec![3], vec![-1], vec![2]];
    let (rows, n, cols) = dims(&a, &b);
    assert_eq!((rows, n, cols), (2, 3, 1));
    let c = sequential_implementation(&a, &b, rows, n, cols);
    assert_eq!(c, vec![vec![-1], vec![19]]);
}

#[test]
fn sequential_identity_keeps_matrix() {
    let a = vec![vec![2, -3, 4], vec![0, 7, 1], vec![9, 9, -9]];
    let id = vec![vec![1, 0, 0], vec![0, 1, 0], vec![0, 0, 1]];
    let c = sequential_implementation(&a, &id, 3, 3, 3);
    assert_eq!(c, a);
}

#[test]
fn sequential_ignores_longer_rows() {
    // Rows longer than the first row are read only up to its length.
    let a = vec![vec![1, 2], vec![3, 4, 100]];
    let b = vec![vec![1, 1], vec![1, 1]];
    let (rows, n, cols) = dims(&a, &b);
    let c = sequential_implementation(&a, &b, rows, n, cols);
    assert_eq!(c, vec![vec![3, 3], vec![7, 7]]);
}

#[test]
fn rayon_matches_sequential_on_concrete_values() {
    let a = vec![vec![1, 2, 3], vec![4, 5, 6]];
    let b = vec![vec![7, 8], vec![9, 10], vec![11, 12]];
    let (rows, n, cols) = dims(&a, &b);
    let seq = sequential_implementation(&a, &b, rows, n, cols);
    let par = rayon_implementation(&a, &b, rows, n, cols);
    assert_eq!(seq, vec![vec![58, 64], vec![139, 154]]);
    assert_eq!(par, seq);
}

#[test]
fn all_cpu_kernels_agree_on_random_matrices() {
    let (a, b) = generate_matrices(24, 1, 10);
    let (rows, n, cols) = dims(&a, &b);
    let expected = reference_product(&a, &b);
    let seq = sequential_implementation(&a, &b, rows, n, cols);
    let par = rayon_implementation(&a, &b, rows, n, cols);
    let pieces: Vec<(usize, Vec<i32>)> =
        (0..rows).map(|i| (i, compute_row(&a[i], &b, n, cols))).collect();
    let tasks = assemble_rows(rows, cols, pieces);
    assert_eq!(seq, expected);
    assert_eq!(par, expected);
    assert_eq!(tasks, expected);
}

#[test]
fn compute_row_is_row_times_matrix() {
    let b = vec![vec![1, 2, 3], vec![4, 5, 6]];
    assert_eq!(compute_row(&vec![2, -1], &b, 2, 3), vec![-2, -1, 0]);
    assert_eq!(compute_row(&vec![2, -1], &b, 0, 3), vec![0, 0, 0]);
}

#[test]
fn fill_row_fills_the_named_row() {
    let a = vec![vec![1, 1], vec![0, 3]];
    let b = vec![vec![2, 4], vec![6, 8]];
    let mut row = vec![0; 2];
    fill_row(&mut row, &a, &b, 1, 2, 2);
    assert_eq!(row, vec![18, 24]);
}

#[test]
fn assemble_rows_places_rows_by_index() {
    let pieces = vec![(2, vec![5, 6]), (0, vec![1, 2])];
    let m = assemble_rows(3, 2, pieces);
    assert_eq!(m, vec![vec![1, 2], vec![0, 0], vec![5, 6]]);
}

#[test]
fn assemble_rows_later_piece_wins() {
    let pieces = vec![(1, vec![1]), (1, vec![9])];
    assert_eq!(assemble_rows(2, 1, pieces), vec![vec![0], vec![9]]);
}

#[test]
fn assemble_rows_in_order_gives_product() {
    let a = vec![vec![1, 2], vec![3, 4]];
    let b = vec![vec![5, 6], vec![7, 8]];
    let pieces: Vec<(usize, Vec<i32>)> =
        (0..2).map(|i| (i, compute_row(&a[i], &b, 2, 2))).collect();
    assert_eq!(assemble_rows(2, 2, pieces), vec![vec![19, 22], vec![43, 50]]);
}

#[test]
fn validate_reports_empty_operands() {
    let empty: Vec<Vec<i32>> = vec![];
    assert_eq!(validate_operands(&empty, &vec![vec![1]]).unwrap_err(), OperandError::EmptyMatrix);
    assert_eq!(validate_operands(&vec![vec![1]], &empty).unwrap_err(), OperandError::EmptyMatrix);
}

#[test]
fn validate_reports_dimension_mismatch() {
    let a = vec![vec![1, 2, 3]];
    let b = vec![vec![1], vec![2]];
    assert_eq!(validate_operands(&a, &b).unwrap_err(), OperandError::DimensionMismatch);
}

#[test]
fn validate_reports_short_rows() {
    let a = vec![vec![1, 2], vec![3]];
    let b = vec![vec![1], vec![2]];
    assert_eq!(validate_operands(&a, &b).unwrap_err(), OperandError::ShortRow);
    let a = vec![vec![1, 2]];
    let b = vec![vec![1, 2], vec![3]];
    assert_eq!(validate_operands(&a, &b).unwrap_err(), OperandError::ShortRow);
}

#[test]
fn validate_reports_overflow() {
    // A single product out of range.
    let a = vec![vec![70000]];
    let b = vec![vec![70000]];
    assert_eq!(validate_operands(&a, &b).unwrap_err(), OperandError::Overflow);
    // Products in range whose sum is not.
    let a = vec![vec![i32::MAX, 1]];
    let b = vec![vec![1], vec![1]];
    assert_eq!(validate_operands(&a, &b).unwrap_err(), OperandError::Overflow);
    // A partial sum that leaves the range and comes back still overflows.
    let a = vec![vec![i32::MAX, 1, -1]];
    let b = vec![vec![1], vec![1], vec![1]];
    assert_eq!(validate_operands(&a, &b).unwrap_err(), OperandError::Overflow);
}

#[test]
fn validate_accepts_extreme_but_fitting_values() {
    let a = vec![vec![i32::MIN, 1]];
    let b = vec![vec![1], vec![-1]];
    assert!(validate_operands(&a, &b).is_err());
    let a = vec![vec![i32::MAX, -1]];
    let b = vec![vec![1], vec![1]];
    let d = validate_operands(&a, &b).unwrap();
    assert_eq!((d.rows_a, d.columns_a, d.rows_b, d.columns_b), (1, 2, 2, 1));
    assert_eq!(sequential_implementation(&a, &b, 1, 2, 1), vec![vec![i32::MAX - 1]]);
}

#[test]
fn operand_checks_on_their_own() {
    let a = vec![vec![1, 2], vec![3, 4]];
    let b = vec![vec![1, 2], vec![3, 4]];
    assert!(check_operands_fit(&a, &b, 2, 2, 2));
    assert!(!check_operands_fit(&a, &b, 3, 2, 2));
    assert!(!check_operands_fit(&a, &b, 2, 2, 3));
    assert!(check_products_fit(&a, &b, 2, 2, 2));
    let big = vec![vec![1 << 20, 1 << 20], vec![1 << 20, 1 << 20]];
    assert!(!check_products_fit(&big, &big, 2, 2, 2));
}

#[test]
fn round_up_examples() {
    assert_eq!(round_up_to_multiple(0, 16), 0);
    assert_eq!(round_up_to_multiple(1, 16), 16);
    assert_eq!(round_up_to_multiple(16, 16), 16);
    assert_eq!(round_up_to_multiple(17, 16), 32);
    assert_eq!(round_up_to_multiple(1000, TILE_SIZE), 1008);
    assert_eq!(round_up_to_multiple(7, 1), 7);
}

#[test]
fn round_up_is_smallest_multiple_not_below() {
    for value in 0..200usize {
        for multiple in 1..20usize {
            let r = round_up_to_multiple(value, multiple);
            assert_eq!(r % multiple, 0);
            assert!(value <= r && r < value + multiple);
        }
    }
}

#[test]
fn flatten_is_row_major() {
    let m = vec![vec![1, 2, 3], vec![4, 5, 6]];
    assert_eq!(flatten_matrix(&m), vec![1, 2, 3, 4, 5, 6]);
    let ragged = vec![vec![1, 2], vec![3, 4, 5]];
    assert_eq!(flatten_matrix(&ragged), vec![1, 2, 3, 4]);
}

#[test]
fn unflatten_reads_row_major() {
    let flat = vec![1, 2, 3, 4, 5, 6, 7];
    assert_eq!(unflatten_matrix(&flat, 2, 3), vec![vec![1, 2, 3], vec![4, 5, 6]]);
    assert_eq!(unflatten_matrix(&flat, 3, 2), vec![vec![1, 2], vec![3, 4], vec![5, 6]]);
    assert_eq!(unflatten_matrix(&flat, 0, 3), Vec::<Vec<i32>>::new());
}

#[test]
fn flatten_then_unflatten_round_trip() {
    let (m, _) = generate_matrices(9, -50, 50);
    let flat = flatten_matrix(&m);
    assert_eq!(flat.len(), 81);
    assert_eq!(unflatten_matrix(&flat, 9, 9), m);
    let back = vec![vec![7, 8], vec![9, 10], vec![11, 12]];
    assert_eq!(flatten_matrix(&unflatten_matrix(&flatten_matrix(&back), 3, 2)), flatten_matrix(&back));
}

#[test]
fn trim_padding_cuts_the_block() {
    // A 2 x 3 result inside rows padded to 4, with a padding row below.
    let padded = vec![1, 2, 3, 0, 4, 5, 6, 0, 0, 0, 0, 0];
    assert_eq!(trim_padding(&padded, 2, 3, 4), vec![1, 2, 3, 4, 5, 6]);
    assert_eq!(trim_padding(&padded, 0, 3, 4), Vec::<i32>::new());
}

#[test]
fn trim_without_padding_keeps_prefix() {
    let buf = vec![1, 2, 3, 4, 5, 6, 7, 8];
    assert_eq!(trim_padding(&buf, 2, 3, 3), vec![1, 2, 3, 4, 5, 6]);
}

#[test]
fn generated_matrices_have_size_and_range() {
    let (a, b) = generate_matrices(32, 1, 10);
    for m in [&a, &b] {
        assert_eq!(m.len(), 32);
        for row in m.iter() {
            assert_eq!(row.len(), 32);
            assert!(row.iter().all(|&x| (1..10).contains(&x)));
        }
    }
    // The values are drawn, not the lower bound handed back.
    assert!(a.iter().flatten().any(|&x| x != 1));
    assert!(b.iter().flatten().any(|&x| x != 1));
}

#[test]
fn generated_matrices_empty_for_nonpositive_size() {
    let (a, b) = generate_matrices(0, 1, 10);
    assert!(a.is_empty() && b.is_empty());
    let (a, b) = generate_matrices(-3, 5, 5);
    assert!(a.is_empty() && b.is_empty());
}

#[test]
fn generated_single_value_range() {
    let (a, _) = generate_matrices(4, 7, 8);
    assert!(a.iter().flatten().all(|&x| x == 7));
}

#[test]
fn methods_are_distinct() {
    let methods = [
        MultiplicationMethod::Sequential,
        MultiplicationMethod::Rayon,
        MultiplicationMethod::Tokio,
        MultiplicationMethod::StdThread,
        MultiplicationMethod::XpuOpenCL,
    ];
    let names: Vec<String> = methods.iter().map(|m| format!("{:?}", m)).collect();
    assert_eq!(names, vec!["Sequential", "Rayon", "Tokio", "StdThread", "XpuOpenCL"]);
}

fn transpose(m: &Vec<Vec<i32>>) -> Vec<Vec<i32>> {
    (0..m[0].len()).map(|j| m.iter().map(|row| row[j]).collect()).collect()
}

fn identity(n: usize) -> Vec<Vec<i32>> {
    (0..n).map(|i| (0..n).map(|j| if i == j { 1 } else { 0 }).collect()).collect()
}

#[test]
fn identity_on_either_side_keeps_matrix() {
    let a = vec![vec![3, -1, 4, 1], vec![5, 9, -2, 6]];
    let right = sequential_implementation(&a, &identity(4), 2, 4, 4);
    let left = rayon_implementation(&identity(2), &a, 2, 2, 4);
    assert_eq!(right, a);
    assert_eq!(left, a);
    let (rows, n, cols) = dims(&identity(2), &a);
    let pieces: Vec<(usize, Vec<i32>)> =
        (0..rows).map(|i| (i, compute_row(&identity(2)[i], &a, n, cols))).collect();
    assert_eq!(assemble_rows(rows, cols, pieces), a);
}

#[test]
fn transpose_of_product_is_reversed_product_of_transposes() {
    let a = vec![vec![1, 2, 3], vec![4, 5, 6]];
    let b = vec![vec![7, -8], vec![9, 10], vec![-11, 12]];
    let ab = sequential_implementation(&a, &b, 2, 3, 2);
    let bt_at = sequential_implementation(&transpose(&b), &transpose(&a), 2, 3, 2);
    assert_eq!(bt_at, transpose(&ab));
    let bt_at_par = rayon_implementation(&transpose(&b), &transpose(&a), 2, 3, 2);
    assert_eq!(bt_at_par, transpose(&ab));
}

#[test]
fn assemble_rows_in_any_order_gives_product() {
    let (a, b) = generate_matrices(6, -9, 10);
    let (rows, n, cols) = dims(&a, &b);
    let expected = sequential_implementation(&a, &b, rows, n, cols);
    // Results arriving in reverse, with one row delivered twice.
    let mut pieces: Vec<(usize, Vec<i32>)> =
        (0..rows).rev().map(|i| (i, compute_row(&a[i], &b, n, cols))).collect();
    pieces.push((2, compute_row(&a[2], &b, n, cols)));
    assert_eq!(assemble_rows(rows, cols, pieces), expected);
}

#[test]
fn validate_shape_ignores_overflow() {
    let a = vec![vec![70000]];
    let b = vec![vec![70000]];
    let d = validate_shape(&a, &b).unwrap();
    assert_eq!((d.rows_a, d.columns_a, d.rows_b, d.columns_b), (1, 1, 1, 1));
    assert_eq!(validate_operands(&a, &b).unwrap_err(), OperandError::Overflow);
    let empty: Vec<Vec<i32>> = vec![];
    assert_eq!(validate_shape(&empty, &b).unwrap_err(), OperandError::EmptyMatrix);
    assert_eq!(
        validate_shape(&vec![vec![1, 2]], &b).unwrap_err(),
        OperandError::DimensionMismatch
    );
    assert_eq!(
        validate_shape(&vec![vec![1, 2], vec![1]], &vec![vec![1], vec![1]]).unwrap_err(),
        OperandError::ShortRow
    );
}
