use relay::problem1::{dedup, filter, sum};
use relay::problem3::sieve;
use relay::problem4::{hanoi, Peg};

#[test]
fn test_hanoi_3_disks() {
    let result = hanoi(3, Peg::A, Peg::B, Peg::C);
    let expected = vec![
        (Peg::A, Peg::C),
        (Peg::A, Peg::B),
        (Peg::C, Peg::B),
        (Peg::A, Peg::C),
        (Peg::B, Peg::A),
        (Peg::B, Peg::C),
        (Peg::A, Peg::C),
    ];
    assert_eq!(expected, result);
    assert_eq!(expected.len(), result.len());
}

#[test]
fn hanoi_without_discs_is_empty() {
    assert!(hanoi(0, Peg::A, Peg::B, Peg::C).is_empty());
}

#[test]
fn hanoi_one_disc_moves_straight() {
    assert_eq!(hanoi(1, Peg::B, Peg::A, Peg::C), vec![(Peg::B, Peg::C)]);
}

#[test]
fn hanoi_count_is_two_to_the_n_minus_one() {
    assert_eq!(hanoi(10, Peg::A, Peg::B, Peg::C).len(), 1023);
}

#[test]
fn sum_of_values() {
    assert_eq!(sum(&[1, 2, 3]), 6);
    assert_eq!(sum(&[-4, 10, -6]), 0);
}

#[test]
fn sum_of_empty_slice_is_zero() {
    assert_eq!(sum(&[]), 0);
}

#[test]
fn sum_reaching_the_largest_i32() {
    assert_eq!(sum(&[i32::MAX - 1, 1]), i32::MAX);
}

#[test]
fn dedup_keeps_first_occurrences_in_order() {
    assert_eq!(dedup(&vec![1, 2, 1, 3, 2, 3]), vec![1, 2, 3]);
    assert_eq!(dedup(&vec![5, 5, 5]), vec![5]);
}

#[test]
fn dedup_of_empty_is_empty() {
    assert_eq!(dedup(&vec![]), Vec::<i32>::new());
}

#[test]
fn filter_keeps_matching_in_order() {
    assert_eq!(filter(&vec![1, 2, 3, 4, 5, 6], &|x: i32| x % 2 == 0), vec![2, 4, 6]);
    assert_eq!(filter(&vec![3, -1, 7], &|x: i32| x > 2), vec![3, 7]);
}

#[test]
fn filter_with_nothing_matching() {
    assert_eq!(filter(&vec![1, 3], &|x: i32| x > 10), Vec::<i32>::new());
}

#[test]
fn sieve_of_seven() {
    assert_eq!(sieve(7), vec![2, 3, 5]);
}

#[test]
fn sieve_small_bounds_are_empty() {
    assert_eq!(sieve(0), Vec::<u32>::new());
    assert_eq!(sieve(2), Vec::<u32>::new());
    assert_eq!(sieve(3), vec![2]);
}

#[test]
fn sieve_of_thirty() {
    assert_eq!(sieve(30), vec![2, 3, 5, 7, 11, 13, 17, 19, 23, 29]);
}
