use arena::align::{is_power_of_two, padding_for};

#[test]
fn powers_of_two_are_recognised() {
    let mut n: usize = 1;
    for _ in 0..usize::BITS {
        assert!(is_power_of_two(n));
        n = n.wrapping_mul(2);
    }
    for n in [1usize, 2, 4, 8, 16, 1024, 4096, 1 << 20] {
        assert!(is_power_of_two(n));
    }
}

#[test]
fn other_numbers_are_not_powers_of_two() {
    for n in [0usize, 3, 5, 6, 7, 9, 12, 1023, 1025, 4095, usize::MAX, usize::MAX - 1] {
        assert!(!is_power_of_two(n));
    }
}

#[test]
fn padding_reaches_the_next_multiple() {
    assert_eq!(padding_for(13, 8), Some(3));
    assert_eq!(padding_for(16, 8), Some(0));
    assert_eq!(padding_for(17, 8), Some(7));
    assert_eq!(padding_for(0, 1024), Some(0));
    assert_eq!(padding_for(1, 1024), Some(1023));
    assert_eq!(padding_for(0x1003, 0x1000), Some(0xffd));
    assert_eq!(padding_for(12345, 1), Some(0));
    assert_eq!(padding_for(usize::MAX, 2), Some(1));
    assert_eq!(padding_for(usize::MAX, 1), Some(0));
}

#[test]
fn padding_is_refused_for_other_alignments() {
    assert_eq!(padding_for(13, 0), None);
    assert_eq!(padding_for(13, 3), None);
    assert_eq!(padding_for(0, 24), None);
}

#[test]
fn padding_is_below_the_alignment() {
    for alignment in [1usize, 2, 4, 8, 16, 1024] {
        for address in 0..3000usize {
            let p = padding_for(address, alignment).unwrap();
            assert!(p < alignment);
            assert_eq!((address + p) % alignment, 0);
            if address % alignment == 0 {
                assert_eq!(p, 0);
            }
        }
    }
}
