use fourad::narrow::{add16, mul16};

#[test]
fn sums_within_sixteen_bits_are_exact() {
    assert_eq!(add16(0, 0), 0);
    assert_eq!(add16(3, 4), 7);
    assert_eq!(add16(3, -7), -4);
    assert_eq!(add16(32766, 1), 32767);
    assert_eq!(add16(-32767, -1), -32768);
}

#[test]
fn sums_beyond_sixteen_bits_wrap() {
    assert_eq!(add16(32767, 1), -32768);
    assert_eq!(add16(-32768, -1), 32767);
    assert_eq!(add16(32767, 32767), -2);
    assert_eq!(add16(-32768, -32768), 0);
}

#[test]
fn products_within_sixteen_bits_are_exact() {
    assert_eq!(mul16(3, 6), 18);
    assert_eq!(mul16(-3, 6), -18);
    assert_eq!(mul16(181, 181), 32761);
    assert_eq!(mul16(-128, 256), -32768);
    assert_eq!(mul16(0, -32768), 0);
}

#[test]
fn products_beyond_sixteen_bits_wrap() {
    assert_eq!(mul16(256, 256), 0);
    assert_eq!(mul16(200, 200), -25536);
    assert_eq!(mul16(181, 182), -32594);
    assert_eq!(mul16(-32768, -32768), 0);
    assert_eq!(mul16(-32768, -1), -32768);
    assert_eq!(mul16(32767, 32767), 1);
    assert_eq!(mul16(-32768, 32767), -32768);
}

#[test]
fn narrowing_agrees_with_the_wrapping_arithmetic_of_the_machine() {
    let samples: [i16; 11] = [-32768, -32767, -12345, -256, -1, 0, 1, 255, 256, 12345, 32767];
    for a in samples {
        for b in samples {
            assert_eq!(add16(a, b), a.wrapping_add(b));
            assert_eq!(mul16(a, b), a.wrapping_mul(b));
        }
    }
}
