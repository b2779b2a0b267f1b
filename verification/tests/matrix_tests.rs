use concurrency::Matrix;
use concurrency::MatrixError;
use concurrency::MsgInput;
use concurrency::MsgOutput;
use concurrency::Vector;
use concurrency::display::i64_string;
use concurrency::display::u64_string;
use concurrency::dot_product;
use concurrency::matrix::NUM_THREADS;
use concurrency::matrix::apply_reply;
use concurrency::matrix::col_vector;
use concurrency::matrix::row_vector;
use concurrency::matrix::run_task;
use concurrency::matrix::worker_index;
use concurrency::multiply;

#[test]
fn test_matrix_multiply() {
    let a = Matrix::new(vec![1, 2, 3, 4, 5, 6], 2, 3);
    let b = Matrix::new(vec![1, 2, 3, 4, 5, 6], 3, 2);
    let c = multiply(&a, &b).unwrap();
    assert_eq!(c.col(), 2);
    assert_eq!(c.row(), 2);
    assert_eq!(c.data(), &vec![22, 28, 49, 64]);
    assert_eq!(c.debug_string(), "Matrix(row=2, col=2, {22 28, 49 64})");
}

#[test]
fn test_matrix_display() {
    let a = Matrix::new(vec![1, 2, 3, 4], 2, 2);
    let b = Matrix::new(vec![1, 2, 3, 4], 2, 2);
    let c = multiply(&a, &b).unwrap();
    assert_eq!(c.data(), &vec![7, 10, 15, 22]);
    assert_eq!(c.display_string(), "{7 10, 15 22}");
}

#[test]
fn test_a_can_not_multiply_b() {
    let a = Matrix::new(vec![1, 2, 3, 4, 5, 6], 2, 3);
    let b = Matrix::new(vec![1, 2, 3, 4], 2, 2);
    let c = multiply(&a, &b);
    assert!(c.is_err());
}

#[test]
fn mismatch_gives_dimension_error() {
    let a = Matrix::new(vec![1, 2, 3, 4, 5, 6], 2, 3);
    let b = Matrix::new(vec![1, 2, 3, 4], 2, 2);
    match multiply(&a, &b) {
        Err(e) => assert_eq!(e, MatrixError::DimensionMismatch),
        Ok(_) => panic!("a 2x3 by 2x2 multiplication must fail"),
    }
}

#[test]
fn rectangular_product_display() {
    let a = Matrix::new(vec![1, 2, 3, 4, 5, 6], 2, 3);
    let b = Matrix::new(vec![1, 2, 3, 4, 5, 6], 3, 2);
    let c = multiply(&a, &b).unwrap();
    assert_eq!(c.display_string(), "{22 28, 49 64}");
}

#[test]
fn multiply_by_identity_keeps_matrix() {
    let a = Matrix::new(vec![5, -3, 7, 11], 2, 2);
    let id = Matrix::new(vec![1, 0, 0, 1], 2, 2);
    let c = multiply(&a, &id).unwrap();
    assert_eq!(c.data(), a.data());
    assert_eq!(c.row(), 2);
    assert_eq!(c.col(), 2);

    let m = Matrix::new(vec![2, 4, 6, 8, 10, 12, 14, 16, 18], 3, 3);
    let id3 = Matrix::new(vec![1, 0, 0, 0, 1, 0, 0, 0, 1], 3, 3);
    let p = multiply(&m, &id3).unwrap();
    assert_eq!(p.data(), m.data());

    let q = multiply(&id3, &m).unwrap();
    assert_eq!(q.data(), m.data());
}

#[test]
fn multiply_is_deterministic() {
    let a = Matrix::new(vec![9, -2, 0, 4, 5, 1], 3, 2);
    let b = Matrix::new(vec![7, -1, 2, 3], 2, 2);
    let c1 = multiply(&a, &b).unwrap();
    let c2 = multiply(&a, &b).unwrap();
    assert_eq!(c1.data(), c2.data());
    assert_eq!(c1.row(), c2.row());
    assert_eq!(c1.col(), c2.col());
}

#[test]
fn single_cell_product() {
    let a = Matrix::new(vec![3], 1, 1);
    let b = Matrix::new(vec![5], 1, 1);
    let c = multiply(&a, &b).unwrap();
    assert_eq!(c.data(), &vec![15]);
    assert_eq!(c.display_string(), "{15}");
}

#[test]
fn dot_product_values() {
    let a = Vector::new(vec![1, 2, 3]);
    let b = Vector::new(vec![1, 3, 5]);
    assert_eq!(dot_product(a, b), Ok(22));
}

#[test]
fn dot_product_negative_values() {
    let a = Vector::new(vec![-1, 2]);
    let b = Vector::new(vec![3, 4]);
    assert_eq!(dot_product(a, b), Ok(5));
}

#[test]
fn dot_product_length_mismatch() {
    let a = Vector::new(vec![1, 2, 3]);
    let b = Vector::new(vec![1, 2]);
    assert_eq!(dot_product(a, b), Err(MatrixError::DimensionMismatch));
}

#[test]
fn row_and_column_views() {
    let m = Matrix::new(vec![1, 2, 3, 4, 5, 6], 2, 3);
    let r = row_vector(&m, 1);
    assert_eq!(r.len(), 3);
    assert_eq!(r.get(0), 4);
    assert_eq!(r.get(1), 5);
    assert_eq!(r.get(2), 6);
    let c = col_vector(&m, 1);
    assert_eq!(c.len(), 2);
    assert_eq!(c.get(0), 2);
    assert_eq!(c.get(1), 5);
}

#[test]
fn run_task_carries_index() {
    let input = MsgInput::new(7, Vector::new(vec![2, 3]), Vector::new(vec![4, 5]));
    let out = run_task(input).unwrap();
    assert_eq!(out.idx, 7);
    assert_eq!(out.value, 23);
}

#[test]
fn run_task_reports_mismatch() {
    let input = MsgInput::new(0, Vector::new(vec![2, 3]), Vector::new(vec![4]));
    assert!(run_task(input).is_err());
}

#[test]
fn apply_reply_writes_slot() {
    let mut data = vec![0, 0, 0];
    apply_reply(&mut data, &MsgOutput { idx: 1, value: 9 });
    assert_eq!(data, vec![0, 9, 0]);
}

#[test]
fn worker_routing_is_round_robin() {
    assert_eq!(NUM_THREADS, 4);
    assert_eq!(worker_index(0), 0);
    assert_eq!(worker_index(5), 1);
    assert_eq!(worker_index(4), 0);
    assert_eq!(worker_index(11), 3);
}

#[test]
fn number_rendering() {
    assert_eq!(u64_string(0), "0");
    assert_eq!(u64_string(10), "10");
    assert_eq!(u64_string(90210), "90210");
    assert_eq!(i64_string(-123), "-123");
    assert_eq!(i64_string(7), "7");
    assert_eq!(i64_string(i64::MIN), "-9223372036854775808");
    assert_eq!(i64_string(i64::MAX), "9223372036854775807");
}

#[test]
fn display_negative_entries() {
    let m = Matrix::new(vec![-5, 0], 1, 2);
    assert_eq!(m.display_string(), "{-5 0}");
    assert_eq!(m.debug_string(), "Matrix(row=1, col=2, {-5 0})");
}
