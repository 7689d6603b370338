use fletcher::{
    calc_fletcher16, calc_fletcher32, calc_fletcher64, checkvalues_fletcher16,
    checkvalues_fletcher32, checkvalues_fletcher64, Fletcher16, Fletcher32, Fletcher64,
};

/// A small generator of repeatable words, with many of the extreme values.
struct Words(u64);

impl Words {
    fn next(&mut self) -> u64 {
        self.0 = self
            .0
            .wrapping_mul(6364136223846793005)
            .wrapping_add(1442695040888963407);
        self.0 >> 29
    }

    fn word(&mut self, max: u64) -> u64 {
        match self.next() % 4 {
            0 => 0,
            1 => max,
            _ => self.next() & max,
        }
    }
}

fn words8(seed: u64, len: usize) -> Vec<u8> {
    let mut g = Words(seed);
    (0..len).map(|_| g.word(0xff) as u8).collect()
}

fn words16(seed: u64, len: usize) -> Vec<u16> {
    let mut g = Words(seed);
    (0..len).map(|_| g.word(0xffff) as u16).collect()
}

fn words32(seed: u64, len: usize) -> Vec<u32> {
    let mut g = Words(seed);
    (0..len).map(|_| g.word(0xffff_ffff) as u32).collect()
}

/// One fold of a register of `2 * bits` bits, every value of the mask taken
/// as zero.
fn fold(v: u128, bits: u32) -> u128 {
    let mask = (1u128 << bits) - 1;
    let r = (v & mask) + (v >> bits);
    if r == mask {
        0
    } else {
        r
    }
}

/// The checksum computed one word at a time, with a fold after every
/// addition.
fn word_at_a_time(words: &[u64], bits: u32, a0: u64, b0: u64) -> u64 {
    let mut a = a0 as u128;
    let mut b = b0 as u128;
    for w in words {
        a = fold(a + *w as u128, bits);
        b = fold(b + a, bits);
    }
    (a | (b << bits)) as u64
}

#[test]
fn chunked_equals_word_at_a_time_16() {
    for len in [1usize, 2, 3, 20, 21, 22, 23, 41, 42, 43, 63, 64, 255, 256, 1000, 5000] {
        for seed in 0..8u64 {
            let data = words8(seed * 1000 + len as u64, len);
            let wide: Vec<u64> = data.iter().map(|w| *w as u64).collect();
            assert_eq!(
                calc_fletcher16(&data) as u64,
                word_at_a_time(&wide, 8, 0xff, 0xff),
                "len {len} seed {seed}"
            );
        }
    }
}

#[test]
fn chunked_equals_word_at_a_time_32() {
    for len in [1usize, 2, 359, 360, 361, 719, 720, 721, 1081, 4000] {
        for seed in 0..8u64 {
            let data = words16(seed * 1000 + len as u64, len);
            let wide: Vec<u64> = data.iter().map(|w| *w as u64).collect();
            assert_eq!(
                calc_fletcher32(&data) as u64,
                word_at_a_time(&wide, 16, 0xffff, 0xffff),
                "len {len} seed {seed}"
            );
        }
    }
}

#[test]
fn chunked_equals_word_at_a_time_64() {
    for len in [1usize, 2, 1000, 92679, 92680, 92681, 185361, 200001] {
        let data = words32(len as u64, len);
        let wide: Vec<u64> = data.iter().map(|w| *w as u64).collect();
        assert_eq!(
            calc_fletcher64(&data),
            word_at_a_time(&wide, 32, 0xffff_ffff, 0xffff_ffff),
            "len {len}"
        );
    }
}

#[test]
fn chunked_equals_word_at_a_time_from_initial_values() {
    for (a0, b0) in [(0u8, 0u8), (1, 2), (0x12, 0x34), (0xfe, 0xfe), (0xff, 0xff), (0, 0xff)] {
        for len in [1usize, 21, 22, 100] {
            let data = words8(len as u64 + a0 as u64, len);
            let wide: Vec<u64> = data.iter().map(|w| *w as u64).collect();
            let mut checksum = Fletcher16::with_initial_values(a0, b0);
            checksum.update(&data);
            assert_eq!(
                checksum.value() as u64,
                word_at_a_time(&wide, 8, a0 as u64, b0 as u64)
            );
        }
    }
}

#[test]
fn largest_words_never_overflow() {
    // Overflow checks are on in test builds: a chunk that is too long would
    // panic here.
    let mut c16 = Fletcher16::with_initial_values(0xff, 0xff);
    c16.update(&vec![0xff; 21 * 50 + 7]);
    assert_eq!(c16.value(), 0);
    let mut c32 = Fletcher32::with_initial_values(0xffff, 0xffff);
    c32.update(&vec![0xffff; 360 * 20 + 7]);
    assert_eq!(c32.value(), 0);
    let mut c64 = Fletcher64::with_initial_values(0xffff_ffff, 0xffff_ffff);
    c64.update(&vec![0xffff_ffff; 92680 * 3 + 7]);
    assert_eq!(c64.value(), 0);
}

#[test]
fn a_fold_that_leaves_more_than_a_word() {
    // From `a = 20`, a chunk of 21 words of 0xff brings `a` to 0x14ff, which
    // one fold takes to 0x113: the next chunk starts above 0xff.
    let mut data = vec![0xffu8; 42];
    data.extend_from_slice(&[0x01, 0x80, 0xff]);
    let wide: Vec<u64> = data.iter().map(|w| *w as u64).collect();
    let mut checksum = Fletcher16::with_initial_values(20, 0xff);
    checksum.update(&data);
    assert_eq!(checksum.value() as u64, word_at_a_time(&wide, 8, 20, 0xff));
    assert_eq!(checksum.value(), 0x8b95);
}

#[test]
fn new_starts_from_the_largest_word() {
    assert_eq!(Fletcher16::new().value(), 0xffff);
    assert_eq!(Fletcher32::new().value(), 0xffff_ffff);
    assert_eq!(Fletcher64::new().value(), 0xffff_ffff_ffff_ffff);
    assert_eq!(Fletcher16::default().value(), 0xffff);
    assert_eq!(Fletcher32::default().value(), 0xffff_ffff);
    assert_eq!(Fletcher64::default().value(), 0xffff_ffff_ffff_ffff);
}

#[test]
fn with_initial_values_packs_both_words() {
    assert_eq!(Fletcher16::with_initial_values(0x12, 0x34).value(), 0x3412);
    assert_eq!(Fletcher16::with_initial_values(0xff, 0x10).value(), 0x10ff);
    assert_eq!(Fletcher32::with_initial_values(0x1234, 0xabcd).value(), 0xabcd_1234);
    assert_eq!(
        Fletcher64::with_initial_values(0x1234_5678, 0x9abc_def0).value(),
        0x9abc_def0_1234_5678
    );
}

#[test]
fn value_of_short_inputs() {
    assert_eq!(calc_fletcher16(&[]), 0);
    assert_eq!(calc_fletcher16(&[1, 2]), 0x0403);
    assert_eq!(calc_fletcher32(&[0x1234]), 0x1234_1234);
    assert_eq!(calc_fletcher64(&[7]), 0x0000_0007_0000_0007);
    let mut checksum = Fletcher16::with_initial_values(0x12, 0x34);
    checksum.update(&[1, 2, 3]);
    assert_eq!(checksum.value(), 0x7418);
}

#[test]
fn value_does_not_change_the_state() {
    let mut checksum = Fletcher16::new();
    checksum.update(&[1, 2, 3]);
    let first = checksum.value();
    assert_eq!(checksum.value(), first);
    let _ = checksum.check_values();
    assert_eq!(checksum.value(), first);
    checksum.update(&[4]);
    let mut other = Fletcher16::new();
    other.update(&[1, 2, 3, 4]);
    assert_eq!(checksum.value(), other.value());
}

#[test]
fn empty_update_keeps_reduced_sums() {
    let mut c16 = Fletcher16::new();
    c16.update(&[0xC1, 0x77, 0xE9]);
    let before = c16.value();
    c16.update(&[]);
    assert_eq!(c16.value(), before);
    c16.update(&[]);
    assert_eq!(c16.value(), before);

    let mut c32 = Fletcher32::with_initial_values(0x1234, 0xfffe);
    c32.update(&[]);
    assert_eq!(c32.value(), 0xfffe_1234);

    let mut c64 = Fletcher64::new();
    c64.update(&[1, 2, 3]);
    let before = c64.value();
    c64.update(&[]);
    assert_eq!(c64.value(), before);
}

#[test]
fn empty_update_takes_the_largest_word_to_zero() {
    let mut fresh = Fletcher16::new();
    fresh.update(&[]);
    assert_eq!(fresh.value(), 0);

    let mut half = Fletcher16::with_initial_values(0xff, 0x10);
    half.update(&[]);
    assert_eq!(half.value(), 0x1000);

    let mut wide = Fletcher64::with_initial_values(7, 0xffff_ffff);
    wide.update(&[]);
    assert_eq!(wide.value(), 7);
}

#[test]
fn update_in_two_parts_equals_one_update() {
    let data = words8(42, 100);
    let whole = calc_fletcher16(&data);
    for split in 0..=data.len() {
        let mut checksum = Fletcher16::new();
        checksum.update(&data[..split]);
        checksum.update(&data[split..]);
        assert_eq!(checksum.value(), whole, "split at {split}");
    }

    let data = words16(43, 800);
    let whole = calc_fletcher32(&data);
    for split in [0usize, 1, 359, 360, 361, 400, 720, 799, 800] {
        let mut checksum = Fletcher32::new();
        checksum.update(&data[..split]);
        checksum.update(&data[split..]);
        assert_eq!(checksum.value(), whole, "split at {split}");
    }

    let data = words32(44, 100_000);
    let whole = calc_fletcher64(&data);
    for split in [0usize, 1, 50_000, 92_680, 92_681, 100_000] {
        let mut checksum = Fletcher64::new();
        checksum.update(&data[..split]);
        checksum.update(&data[split..]);
        assert_eq!(checksum.value(), whole, "split at {split}");
    }
}

#[test]
fn update_word_by_word_equals_one_update() {
    let data = words8(7, 64);
    let mut checksum = Fletcher16::with_initial_values(3, 9);
    for w in &data {
        checksum.update(&[*w]);
    }
    let mut whole = Fletcher16::with_initial_values(3, 9);
    whole.update(&data);
    assert_eq!(checksum.value(), whole.value());
}

#[test]
fn check_values_of_known_inputs() {
    assert_eq!(checkvalues_fletcher16(&[1, 2]), [248, 4]);
    assert_eq!(checkvalues_fletcher16(&[5]), [245, 5]);
    assert_eq!(
        checkvalues_fletcher16(&[0xC1, 0x77, 0xE9, 0xC0, 0xAB, 0x1E]),
        [0x13, 0x3f]
    );
    assert_eq!(
        checkvalues_fletcher32(&[0xF02A, 0xCB0D, 0x5639, 0x6501, 0x2384, 0x75BB]),
        [0x1359, 0xdcf3]
    );
    assert_eq!(
        checkvalues_fletcher64(&[
            0xA0F15604, 0x82856B93, 0xC4395038, 0xF3CAC9CB, 0x39B7C44B, 0xEB0F23DA
        ]),
        [0x62b6d387, 0x9d0768b5]
    );
}

#[test]
fn check_values_of_the_empty_input() {
    assert_eq!(checkvalues_fletcher16(&[]), [0xff, 0xff]);
    assert_eq!(checkvalues_fletcher32(&[]), [0xffff, 0xffff]);
    assert_eq!(checkvalues_fletcher64(&[]), [0xffff_ffff, 0xffff_ffff]);
    assert_eq!(Fletcher16::new().check_values(), [0xff, 0xff]);
    assert_eq!(calc_fletcher16(&[0xff, 0xff]), 0);
    assert_eq!(calc_fletcher32(&[0xffff, 0xffff]), 0);
    assert_eq!(calc_fletcher64(&[0xffff_ffff, 0xffff_ffff]), 0);
}

#[test]
fn check_values_of_a_state_are_those_of_its_input() {
    let data = words8(11, 50);
    let mut checksum = Fletcher16::new();
    checksum.update(&data);
    assert_eq!(checksum.check_values(), checkvalues_fletcher16(&data));
}

#[test]
fn check_values_force_zero_16() {
    for len in [0usize, 1, 2, 20, 21, 22, 42, 43, 300] {
        for seed in 0..16u64 {
            let mut data = words8(seed + 31 * len as u64, len);
            let check = checkvalues_fletcher16(&data);
            assert!(check[0] != 0 && check[1] != 0);
            data.extend_from_slice(&check);
            assert_eq!(calc_fletcher16(&data), 0, "len {len} seed {seed}");
        }
    }
}

#[test]
fn check_values_force_zero_32() {
    for len in [0usize, 1, 2, 359, 360, 361, 720, 721, 2000] {
        for seed in 0..8u64 {
            let mut data = words16(seed + 31 * len as u64, len);
            let check = checkvalues_fletcher32(&data);
            data.extend_from_slice(&check);
            assert_eq!(calc_fletcher32(&data), 0, "len {len} seed {seed}");
        }
    }
}

#[test]
fn check_values_force_zero_64() {
    for len in [0usize, 1, 2, 1000, 92679, 92680, 92681] {
        let mut data = words32(len as u64, len);
        let check = checkvalues_fletcher64(&data);
        data.extend_from_slice(&check);
        assert_eq!(calc_fletcher64(&data), 0, "len {len}");
    }
}

#[test]
fn check_values_force_zero_from_initial_values() {
    for a0 in [0u8, 1, 0x7f, 0xfe, 0xff] {
        for b0 in [0u8, 1, 0x80, 0xfe, 0xff] {
            let mut checksum = Fletcher16::with_initial_values(a0, b0);
            let check = checksum.check_values();
            checksum.update(&check);
            assert_eq!(checksum.value(), 0, "from {a0:#x}, {b0:#x}");
        }
    }
}

#[test]
fn zeros_and_largest_words_give_the_zero_checksum() {
    for n in [0usize, 1, 21, 22, 23, 43, 1000] {
        assert_eq!(calc_fletcher16(&vec![0; n]), 0);
        assert_eq!(calc_fletcher16(&vec![0xff; n]), 0);
    }
    for n in [0usize, 1, 360, 361, 722, 5000] {
        assert_eq!(calc_fletcher32(&vec![0; n]), 0);
        assert_eq!(calc_fletcher32(&vec![0xffff; n]), 0);
    }
    for n in [0usize, 1, 92680, 92681, 185362] {
        assert_eq!(calc_fletcher64(&vec![0; n]), 0);
        assert_eq!(calc_fletcher64(&vec![0xffff_ffff; n]), 0);
    }
}

#[test]
fn zero_and_the_largest_word_are_not_told_apart() {
    let data = words8(5, 200);
    let swapped: Vec<u8> = data
        .iter()
        .map(|w| match *w {
            0 => 0xff,
            0xff => 0,
            other => other,
        })
        .collect();
    assert_eq!(calc_fletcher16(&data), calc_fletcher16(&swapped));
}

#[test]
fn resuming_from_the_halves_of_a_checksum() {
    let first = words16(1, 500);
    let second = words16(2, 700);
    let mut whole = first.clone();
    whole.extend_from_slice(&second);

    let earlier = calc_fletcher32(&first);
    let mut resumed =
        Fletcher32::with_initial_values((earlier & 0xffff) as u16, (earlier >> 16) as u16);
    assert_eq!(resumed.value(), earlier);
    resumed.update(&second);
    assert_eq!(resumed.value(), calc_fletcher32(&whole));

    // Other initial values go elsewhere.
    let mut other =
        Fletcher32::with_initial_values((earlier >> 16) as u16, (earlier & 0xffff) as u16);
    other.update(&second);
    assert_ne!(other.value(), calc_fletcher32(&whole));
}

#[test]
fn copies_go_their_own_way() {
    let mut checksum = Fletcher16::new();
    checksum.update(&[1, 2, 3]);
    let copy = checksum;
    let mut clone = checksum.clone();
    checksum.update(&[4]);
    assert_eq!(copy.value(), calc_fletcher16(&[1, 2, 3]));
    clone.update(&[5]);
    assert_eq!(clone.value(), calc_fletcher16(&[1, 2, 3, 5]));
    assert_eq!(checksum.value(), calc_fletcher16(&[1, 2, 3, 4]));
    assert_eq!(format!("{:?}", copy), format!("{:?}", copy.clone()));
}
