use timer_future::bitwise::{get_bit, get_bit_flag, get_bits, get_total_bits, set_bit, set_bits};

#[test]
fn test_set_bit() {
    let attr = set_bit(0, 0, true);
    assert_eq!(0u64, attr);

    let attr = set_bit(0, 1, true);
    assert_eq!(1u64, attr);

    let mut attr = 143u64;
    attr = set_bit(attr, 3, false);
    assert_eq!(139u64, attr);

    let mut attr = 143u64;
    attr = set_bit(attr, 3, true);
    attr = set_bit(attr, 12, true);
    attr = set_bit(attr, 15, true);
    attr = set_bit(attr, 16, true);
    assert_eq!(51343u64, attr);

    let mut attr = 143u64;
    attr = set_bit(attr, 3, false);
    attr = set_bit(attr, 8, false);
    assert_eq!(11u64, attr);
}

#[test]
fn test_set_bits() {
    let mut attr_a = 0u64;
    attr_a = set_bit(attr_a, 2, true);
    attr_a = set_bit(attr_a, 3, true);
    attr_a = set_bit(attr_a, 4, true);
    attr_a = set_bit(attr_a, 5, true);
    attr_a = set_bit(attr_a, 6, true);
    attr_a = set_bit(attr_a, 7, true);

    let positions = vec![2, 3, 4, 5, 6, 7];
    let attr_b = set_bits(0, &positions, true);

    assert_eq!(attr_a, attr_b);
}

#[test]
fn test_get_bit() {
    let tests = vec![
        (0u64, 1i32, 0i8),
        (1u64, 1i32, 1i8),
        (139u64, 3i32, 0i8),
        (51343u64, 3i32, 1i8),
        (11u64, 2i32, 1i8),
    ];
    for (attr, position, want) in tests {
        let get = get_bit(attr, position);
        assert_eq!(get, want);
    }
}

#[test]
fn test_get_bit_flag() {
    let tests = vec![
        (0u64, 1i32, false),
        (1u64, 1i32, true),
        (139u64, 3i32, false),
        (51343u64, 3i32, true),
        (11u64, 2i32, true),
    ];
    for (attr, position, want) in tests {
        let get = get_bit_flag(attr, position);
        assert_eq!(get, want);
    }
}

#[test]
fn test_get_total_bits() {
    let flags: Vec<i8> = vec![0, 1, 0, 1];
    let attr = get_total_bits(&flags);
    assert_eq!(10u64, attr);
}

#[test]
fn test_get_bits() {
    let attr = 1109u64;
    let length: usize = 15;
    let want: Vec<i8> = vec![1, 0, 1, 0, 1, 0, 1, 0, 0, 0, 1, 0, 0, 0, 0];
    let get = get_bits(attr, length);
    assert_eq!(get, want);
}

#[test]
fn set_bit_reaches_the_highest_position() {
    assert_eq!(set_bit(0, 64, true), 1u64 << 63);
    assert_eq!(set_bit(u64::MAX, 64, false), u64::MAX >> 1);
    assert_eq!(get_bit(1u64 << 63, 64), 1);
    assert!(get_bit_flag(1u64 << 63, 64));
    assert!(!get_bit_flag(1u64 << 63, 63));
}

#[test]
fn set_bit_leaves_other_positions_alone() {
    let attr = 0b1010_0101u64;
    for written in 1..=64 {
        for flag in [false, true] {
            let out = set_bit(attr, written, flag);
            for read in 1..=64 {
                let want = if read == written { flag } else { get_bit_flag(attr, read) };
                assert_eq!(get_bit_flag(out, read), want);
            }
        }
    }
}

#[test]
fn set_bit_ignores_positions_that_are_not_positive() {
    assert_eq!(set_bit(143, 0, false), 143);
    assert_eq!(set_bit(143, -7, true), 143);
    assert_eq!(set_bit(143, i32::MIN, false), 143);
}

#[test]
fn set_bits_skips_positions_that_are_not_positive() {
    assert_eq!(set_bits(0, &vec![0, -1, 2, -64], true), 2);
    assert_eq!(set_bits(0b111, &vec![1, 0, 3], false), 0b010);
    assert_eq!(set_bits(77, &vec![], true), 77);
    assert_eq!(set_bits(0, &vec![3, 3, 3], true), 4);
}

#[test]
fn get_total_bits_of_nothing_is_zero() {
    assert_eq!(get_total_bits(&vec![]), 0);
}

#[test]
fn get_total_bits_counts_any_nonzero_flag_as_set() {
    assert_eq!(get_total_bits(&vec![-1, 0, 7]), 0b101);
    assert_eq!(get_total_bits(&vec![1; 64]), u64::MAX);
}

#[test]
fn get_bits_of_length_zero_is_empty() {
    assert_eq!(get_bits(1109, 0), Vec::<i8>::new());
}

#[test]
fn get_bits_and_get_total_bits_are_inverse() {
    let attr = 0xDEAD_BEEF_0BAD_F00Du64;
    let bits = get_bits(attr, 64);
    assert_eq!(bits.len(), 64);
    assert_eq!(get_total_bits(&bits), attr);
    let flags: Vec<i8> = vec![1, 1, 0, 1, 0, 0, 1];
    assert_eq!(get_bits(get_total_bits(&flags), 7), flags);
    assert_eq!(get_bits(get_total_bits(&flags), 9), vec![1, 1, 0, 1, 0, 0, 1, 0, 0]);
}
