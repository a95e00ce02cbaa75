use lang::arrays::{append_flat, array_len, cons_flat, gather, head_flat, row_at, row_size, tail_flat, take_rows};

#[test]
fn rows_of_a_matrix() {
    let data: Vec<i64> = (0..12).collect();
    let shape = vec![3, 4];
    assert_eq!(row_size(&shape), Some(4));
    assert_eq!(row_at(&data, &shape, 1), Some((vec![4, 5, 6, 7], vec![4])));
    assert_eq!(take_rows(&data, &shape, 1, 3), Some(((4..12).collect(), vec![2, 4])));
    assert_eq!(take_rows(&data, &shape, 2, 1), None);
    assert_eq!(take_rows(&data, &shape, 0, 4), None);
    assert_eq!(row_at(&data, &shape, 3), None);
}

#[test]
fn row_of_a_vector_is_one_element() {
    let data = vec![1.5f64, 2.5, 3.5];
    assert_eq!(row_at(&data, &vec![3], 2), Some((vec![3.5], vec![])));
}

#[test]
fn zero_dimension_rows_are_empty() {
    let data: Vec<i64> = vec![];
    let shape = vec![2, 0, usize::MAX];
    assert_eq!(row_size(&shape), Some(0));
    assert_eq!(row_at(&data, &shape, 1), Some((vec![], vec![0, usize::MAX])));
    assert_eq!(row_size(&vec![1, usize::MAX, 2]), None);
}

#[test]
fn gather_picks_positions() {
    let data = vec![10i64, 20, 30];
    assert_eq!(gather(&data, &vec![2, 0, 2]), Some(vec![30, 10, 30]));
    assert_eq!(gather(&data, &vec![3]), None);
    assert_eq!(gather(&data, &vec![-1]), None);
}

#[test]
fn list_builtins_on_flat_data() {
    let a = vec![1i64, 2];
    let b = vec![3i64];
    assert_eq!(cons_flat(0, &a), (vec![0, 1, 2], 3));
    assert_eq!(append_flat(&a, &b), (vec![1, 2, 3], 3));
    assert_eq!(head_flat(&a), Some(1));
    assert_eq!(head_flat(&Vec::<i64>::new()), None);
    assert_eq!(tail_flat(&a), Some((vec![2], 1)));
    assert_eq!(tail_flat(&Vec::<i64>::new()), None);
    assert_eq!(array_len(&vec![4, 2]), Some(4));
    assert_eq!(array_len(&vec![]), None);
}
