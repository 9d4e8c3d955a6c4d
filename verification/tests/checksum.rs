use box_game::checksum::fletcher16;

fn flip(data: &[u8], index: usize, bit: u8) -> Vec<u8> {
    let mut changed = data.to_vec();
    changed[index] ^= 1 << bit;
    changed
}

#[test]
fn checksum_of_nothing_is_zero() {
    assert_eq!(fletcher16(&[]), 0);
}

#[test]
fn checksum_of_one_byte_repeats_it_in_both_halves() {
    assert_eq!(fletcher16(&[1]), 0x0101);
    assert_eq!(fletcher16(&[7]), 0x0707);
    assert_eq!(fletcher16(&[254]), 0xFEFE);
}

#[test]
fn checksum_of_255_is_zero() {
    // 255 is congruent to 0 modulo 255: the one byte the sums cannot see.
    assert_eq!(fletcher16(&[255]), 0);
    assert_eq!(fletcher16(&[0]), 0);
}

#[test]
fn checksum_matches_known_vectors() {
    assert_eq!(fletcher16(b"abcde"), 0xC8F0);
    assert_eq!(fletcher16(b"abcdef"), 0x2057);
    assert_eq!(fletcher16(b"abcdefgh"), 0x0627);
}

#[test]
fn checksum_of_two_bytes() {
    // sum1 = 1 + 2, sum2 = 1 + (1 + 2)
    assert_eq!(fletcher16(&[1, 2]), (4 << 8) | 3);
}

#[test]
fn checksum_wraps_modulo_255() {
    // sum1 = (200 + 100) % 255 = 45, sum2 = (200 + 45) % 255 = 245
    assert_eq!(fletcher16(&[200, 100]), (245 << 8) | 45);
}

#[test]
fn checksum_is_the_same_for_equal_buffers() {
    let first: Vec<u8> = (0..=255u8).cycle().take(1000).collect();
    let second = first.clone();
    assert_eq!(fletcher16(&first), fletcher16(&second));
    assert_eq!(fletcher16(&first), fletcher16(&first));
}

#[test]
fn checksum_depends_on_the_order_of_bytes() {
    assert_ne!(fletcher16(&[1, 2]), fletcher16(&[2, 1]));
}

#[test]
fn checksum_changes_with_every_single_bit_flip() {
    let data: Vec<u8> = vec![0, 255, 1, 128, 77, 200, 13, 254];
    let before = fletcher16(&data);
    for index in 0..data.len() {
        for bit in 0..8u8 {
            assert_ne!(fletcher16(&flip(&data, index, bit)), before);
        }
    }
}

#[test]
fn checksum_handles_long_buffers_without_overflow() {
    let data = vec![255u8; 100_000];
    assert_eq!(fletcher16(&data), 0);
    let data = vec![254u8; 1000];
    // 254 counts as -1: sum1 = -1000 mod 255 = 20, sum2 = -500500 mod 255 = 65
    assert_eq!(fletcher16(&data), (65 << 8) | 20);
}
