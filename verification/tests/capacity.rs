use typed_arena::capacity::{
    checked_grown_capacity, checked_next_power_of_two, INITIAL_SIZE, MIN_CAPACITY,
};

#[test]
fn next_power_of_two_of_small_numbers() {
    assert_eq!(checked_next_power_of_two(0), Some(1));
    assert_eq!(checked_next_power_of_two(1), Some(1));
    assert_eq!(checked_next_power_of_two(2), Some(2));
    assert_eq!(checked_next_power_of_two(3), Some(4));
    assert_eq!(checked_next_power_of_two(4), Some(4));
    assert_eq!(checked_next_power_of_two(5), Some(8));
    assert_eq!(checked_next_power_of_two(1000), Some(1024));
    assert_eq!(checked_next_power_of_two(1024), Some(1024));
    assert_eq!(checked_next_power_of_two(1025), Some(2048));
}

#[test]
fn next_power_of_two_agrees_with_std() {
    for n in 0..5000usize {
        assert_eq!(checked_next_power_of_two(n), n.checked_next_power_of_two());
    }
    for shift in 0..usize::BITS {
        let power = 1usize << shift;
        for n in [power - 1, power, power.wrapping_add(1)] {
            assert_eq!(checked_next_power_of_two(n), n.checked_next_power_of_two());
        }
    }
}

#[test]
fn next_power_of_two_overflow() {
    let top = 1usize << (usize::BITS - 1);
    assert_eq!(checked_next_power_of_two(top), Some(top));
    assert_eq!(checked_next_power_of_two(top - 1), Some(top));
    assert_eq!(checked_next_power_of_two(top + 1), None);
    assert_eq!(checked_next_power_of_two(usize::MAX), None);
}

#[test]
fn grown_capacity_is_the_larger_of_double_and_power() {
    assert_eq!(checked_grown_capacity(1, 1), Some(2));
    assert_eq!(checked_grown_capacity(2, 1), Some(4));
    assert_eq!(checked_grown_capacity(3, 0), Some(6));
    assert_eq!(checked_grown_capacity(4, 100), Some(128));
    assert_eq!(checked_grown_capacity(100, 100), Some(200));
    assert_eq!(checked_grown_capacity(64, 128), Some(128));
    assert_eq!(checked_grown_capacity(64, 129), Some(256));
}

#[test]
fn grown_capacity_overflow() {
    let top = 1usize << (usize::BITS - 1);
    assert_eq!(checked_grown_capacity(top, 1), None);
    assert_eq!(checked_grown_capacity(top - 1, 1), Some(usize::MAX - 1));
    assert_eq!(checked_grown_capacity(1, top + 1), None);
    assert_eq!(checked_grown_capacity(1, top), Some(top));
    assert_eq!(checked_grown_capacity(usize::MAX, usize::MAX), None);
}

#[test]
fn constants() {
    assert_eq!(INITIAL_SIZE, 1024);
    assert_eq!(MIN_CAPACITY, 1);
}
