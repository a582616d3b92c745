use dpos_oracle::median::get_median;
use dpos_oracle::median::Median;

#[test]
fn simple() {
    let array: Vec<u128> = (0..=10).collect();
    let median = array[5];
    assert_eq!(get_median(array), Some(Median::Value(median)));
}

#[test]
fn median_of_short_samples_is_absent() {
    assert_eq!(get_median(vec![]), None);
    assert_eq!(get_median(vec![42]), None);
}

#[test]
fn median_of_two_is_the_pair() {
    assert_eq!(get_median(vec![1, 2]), Some(Median::Pair(1, 2)));
    assert_eq!(get_median(vec![2, 1]), Some(Median::Pair(1, 2)));
}

#[test]
fn median_even_takes_the_two_middle_elements() {
    let sample: Vec<u128> = vec![100, 101, 102, 103];
    assert_eq!(get_median(sample), Some(Median::Pair(101, 102)));
}

#[test]
fn median_ignores_input_order() {
    let a: Vec<u128> = vec![5, 1, 9, 3, 7];
    let b: Vec<u128> = vec![9, 7, 5, 3, 1];
    let c: Vec<u128> = vec![1, 3, 5, 7, 9];
    assert_eq!(get_median(a), Some(Median::Value(5)));
    assert_eq!(get_median(b), Some(Median::Value(5)));
    assert_eq!(get_median(c), Some(Median::Value(5)));
}

#[test]
fn median_with_repeated_values() {
    let sample: Vec<u128> = vec![4, 4, 4, 1, 9];
    assert_eq!(get_median(sample), Some(Median::Value(4)));
}
