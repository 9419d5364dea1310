use fan_in::squares::{checked_expensive_sum, expensive_sum};

#[test]
fn even_squares_of_the_six_numbers_sum_to_twenty() {
    assert_eq!(expensive_sum(vec![2, 5, 1, 0, 4, 3]), 20);
    assert_eq!(checked_expensive_sum(&vec![2, 5, 1, 0, 4, 3]), Some(20));
}

#[test]
fn empty_sequence_sums_to_zero() {
    assert_eq!(expensive_sum(Vec::new()), 0);
    assert_eq!(checked_expensive_sum(&Vec::new()), Some(0));
}

#[test]
fn odd_numbers_add_nothing() {
    assert_eq!(expensive_sum(vec![1, 3, 5, 7, -9]), 0);
    assert_eq!(expensive_sum(vec![46341, i32::MAX]), 0);
}

#[test]
fn negative_even_numbers_are_squared_too() {
    assert_eq!(expensive_sum(vec![-4, 3]), 16);
    assert_eq!(expensive_sum(vec![-2, -2, -1, 6]), 44);
    assert_eq!(checked_expensive_sum(&vec![-4, -3, -6]), Some(52));
}

#[test]
fn a_number_counts_as_often_as_it_occurs() {
    assert_eq!(expensive_sum(vec![2, 2, 2]), 12);
}

#[test]
fn largest_square_that_fits() {
    assert_eq!(expensive_sum(vec![46340]), 2_147_395_600);
    assert_eq!(checked_expensive_sum(&vec![46340]), Some(2_147_395_600));
    assert_eq!(checked_expensive_sum(&vec![46340, 296]), Some(2_147_483_216));
}

#[test]
fn checked_sum_is_none_where_a_square_is_too_large() {
    assert_eq!(checked_expensive_sum(&vec![46342]), None);
    assert_eq!(checked_expensive_sum(&vec![i32::MIN]), None);
    assert_eq!(checked_expensive_sum(&vec![1, 2, 65536, 4]), None);
}

#[test]
fn checked_sum_is_none_where_the_sum_is_too_large() {
    assert_eq!(checked_expensive_sum(&vec![46340, 298]), None);
    assert_eq!(checked_expensive_sum(&vec![32768, 32768, 2]), None);
    assert_eq!(checked_expensive_sum(&vec![32768, 32767, 32768]), None);
}

#[test]
fn checked_sum_agrees_with_the_plain_sum() {
    let samples: Vec<Vec<i32>> = vec![
        vec![],
        vec![0],
        vec![1],
        vec![2, 4, 6, 8],
        vec![-10, 10, -11, 11],
        vec![100, 200, 300, 301],
    ];
    for sample in samples {
        let mut expected: i64 = 0;
        for x in sample.iter() {
            if x % 2 == 0 {
                expected += (*x as i64) * (*x as i64);
            }
        }
        assert_eq!(checked_expensive_sum(&sample), Some(expected as i32));
        assert_eq!(expensive_sum(sample) as i64, expected);
    }
}
