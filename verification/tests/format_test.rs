use mini_db::fmt_bytes;
use mini_db::format::fmt_ns;

/// Sizes as the formatting of floats gives them.
fn expected_bytes(bytes: usize) -> String {
    if bytes >= 1_073_741_824 {
        format!("{:.3} GB", bytes as f64 / 1_073_741_824.0)
    } else if bytes >= 1_048_576 {
        format!("{:.3} MB", bytes as f64 / 1_048_576.0)
    } else if bytes >= 1024 {
        format!("{:.3} KB", bytes as f64 / 1024.0)
    } else {
        format!("{} B", bytes)
    }
}

/// Times as the formatting of floats gives them.
fn expected_ns(ns: u128) -> String {
    if ns >= 1_000_000_000 {
        format!("{:.3} s", ns as f64 / 1_000_000_000.0)
    } else if ns >= 1_000_000 {
        format!("{:.3} ms", ns as f64 / 1_000_000.0)
    } else if ns >= 1_000 {
        format!("{:.3} us", ns as f64 / 1_000.0)
    } else {
        format!("{} ns", ns)
    }
}

/// Numbers that are spread over all magnitudes.
fn spread() -> Vec<u64> {
    let mut numbers: Vec<u64> = vec![0, 1, u64::MAX, u64::MAX - 1];
    let mut state: u64 = 0x9E37_79B9_7F4A_7C15;
    for shift in 0..64u32 {
        let power = 1u64 << shift;
        for near in [power - 1, power, power + 1, power | (power >> 1), power | (power >> 11)] {
            numbers.push(near);
        }
        for _ in 0..200 {
            state = state.wrapping_mul(6364136223846793005).wrapping_add(1442695040888963407);
            numbers.push(state >> shift);
        }
    }
    numbers
}

#[test]
fn sizes_below_a_kilobyte_are_whole() {
    assert_eq!(fmt_bytes(0), "0 B");
    assert_eq!(fmt_bytes(7), "7 B");
    assert_eq!(fmt_bytes(1023), "1023 B");
}

#[test]
fn sizes_have_three_digits_behind_the_point() {
    assert_eq!(fmt_bytes(1024), "1.000 KB");
    assert_eq!(fmt_bytes(1536), "1.500 KB");
    assert_eq!(fmt_bytes(1_048_576), "1.000 MB");
    assert_eq!(fmt_bytes(1_048_575), "1023.999 KB");
    assert_eq!(fmt_bytes(1_073_741_824), "1.000 GB");
    assert_eq!(fmt_bytes(1_610_612_736), "1.500 GB");
    assert_eq!(fmt_bytes(usize::MAX), "17179869184.000 GB");
}

#[test]
fn halves_go_to_the_even_neighbour() {
    // 1.0625, 1.1875 and 1.3125 lie in the middle of two thousandths
    assert_eq!(fmt_bytes(1088), "1.062 KB");
    assert_eq!(fmt_bytes(1216), "1.188 KB");
    assert_eq!(fmt_bytes(1344), "1.312 KB");
}

#[test]
fn sizes_are_those_of_floats() {
    for n in spread() {
        assert_eq!(fmt_bytes(n as usize), expected_bytes(n as usize));
    }
    for n in 0..70_000usize {
        assert_eq!(fmt_bytes(n), expected_bytes(n));
    }
    // above the whole numbers that floats hold exactly
    for n in 0..2_000usize {
        let bytes = (1usize << 53) + 3 * n + 1;
        assert_eq!(fmt_bytes(bytes), expected_bytes(bytes));
    }
}

#[test]
fn times_are_those_of_floats() {
    assert_eq!(fmt_ns(0), "0 ns");
    assert_eq!(fmt_ns(999), "999 ns");
    assert_eq!(fmt_ns(18_400), "18.400 us");
    assert_eq!(fmt_ns(1_083_000), "1.083 ms");
    assert_eq!(fmt_ns(3_677_000_000), "3.677 s");
    for n in spread() {
        assert_eq!(fmt_ns(u128::from(n)), expected_ns(u128::from(n)));
    }
    // the middles of two thousandths, which floats meet only from one side
    for n in 0..20_000u128 {
        let ms = 1_000_000 + 1000 * n + 500;
        assert_eq!(fmt_ns(ms), expected_ns(ms));
        let s = 1_000_000_000 + 1_000_000 * n + 500_000;
        assert_eq!(fmt_ns(s), expected_ns(s));
    }
}

#[test]
fn times_of_more_than_64_bits_are_those_of_floats() {
    assert_eq!(fmt_ns(u128::MAX), expected_ns(u128::MAX));
    for shift in 0..64u32 {
        for n in spread() {
            let ns = (u128::from(n) << 64 | u128::from(n.rotate_left(shift))) >> shift;
            assert_eq!(fmt_ns(ns), expected_ns(ns));
        }
        let power = 1u128 << (64 + shift);
        for ns in [power - 1, power, power + 1, power | power >> 53, power | power >> 54] {
            assert_eq!(fmt_ns(ns), expected_ns(ns));
        }
    }
    for below in 0..80u32 {
        let ns = u128::MAX - (1u128 << below);
        assert_eq!(fmt_ns(ns), expected_ns(ns));
    }
}
