use fft_wasm::{FFTProcessor, FftError, SizeConstraint, MAX_FFT_SIZE};
use num_complex::Complex;

fn unit_root(k: usize, n: usize) -> Complex<f32> {
    let angle = -2.0 * std::f32::consts::PI * (k as f32) / (n as f32);
    Complex::new(angle.cos(), angle.sin())
}

fn hann(i: usize, n: usize) -> f32 {
    0.5 * (1.0 - (2.0 * std::f32::consts::PI * i as f32 / n as f32).cos())
}

fn engine(size: usize) -> FFTProcessor<f32> {
    match FFTProcessor::new(size, unit_root, hann) {
        Ok(engine) => engine,
        Err(e) => panic!("size {} was refused: {:?}", size, e),
    }
}

fn size_error(size: usize) -> Option<FftError> {
    FFTProcessor::<f32>::new(size, unit_root, hann).err()
}

#[test]
fn sizes_that_are_not_powers_of_two_are_refused() {
    for size in [0usize, 3, 5, 6, 7, 1000, 1023, 1025] {
        assert_eq!(
            size_error(size),
            Some(FftError::InvalidSize { constraint: SizeConstraint::PowerOfTwo, size })
        );
    }
}

#[test]
fn powers_of_two_up_to_the_bound_are_accepted() {
    for k in 0..20u32 {
        let size = 1usize << k;
        assert!(size <= MAX_FFT_SIZE);
        assert_eq!(engine(size).get_size(), size);
    }
}

#[test]
fn first_power_of_two_above_the_bound_is_refused() {
    let size = 1usize << 20;
    assert_eq!(
        size_error(size),
        Some(FftError::InvalidSize { constraint: SizeConstraint::UpperBound, size })
    );
    let larger = 1usize << 30;
    assert_eq!(
        size_error(larger),
        Some(FftError::InvalidSize { constraint: SizeConstraint::UpperBound, size: larger })
    );
}

#[test]
fn size_above_the_bound_is_refused() {
    assert!(size_error(1_000_001).is_some());
    assert!(size_error(usize::MAX).is_some());
}

#[test]
fn bound_itself_fails_the_power_of_two_check() {
    assert_eq!(MAX_FFT_SIZE, 1_000_000);
    assert_eq!(
        size_error(1_000_000),
        Some(FftError::InvalidSize { constraint: SizeConstraint::PowerOfTwo, size: 1_000_000 })
    );
    assert_eq!(
        size_error(1_000_001),
        Some(FftError::InvalidSize { constraint: SizeConstraint::PowerOfTwo, size: 1_000_001 })
    );
}

#[test]
fn refused_size_computes_no_table_entry() {
    let r = FFTProcessor::<f32>::new(
        12,
        |_k, _n| -> Complex<f32> { panic!("rotation factor requested") },
        |_k, _n| -> f32 { panic!("window coefficient requested") },
    );
    assert!(r.is_err());
}

#[test]
fn tables_are_filled_once_for_each_index() {
    let calls = std::cell::Cell::new(0usize);
    let r = FFTProcessor::<f32>::new(
        8,
        |k, n| {
            assert_eq!(n, 8);
            assert_eq!(k, calls.get());
            calls.set(calls.get() + 1);
            unit_root(k, n)
        },
        hann,
    );
    assert!(r.is_ok());
    assert_eq!(calls.get(), 8);
}

#[test]
fn get_size_returns_the_size() {
    assert_eq!(engine(1).get_size(), 1);
    assert_eq!(engine(64).get_size(), 64);
}

#[test]
fn wrong_length_is_refused_and_leaves_the_buffer() {
    let e = engine(4);
    for len in [0usize, 1, 4, 7, 9, 16] {
        let untouched: Vec<f32> = (0..len).map(|i| i as f32 + 0.5).collect();
        let expected = Err(FftError::BufferLengthMismatch { expected: 8, actual: len });

        let mut buffer = untouched.clone();
        assert_eq!(e.apply_fft(&mut buffer), expected);
        assert_eq!(buffer, untouched);

        let mut buffer = untouched.clone();
        assert_eq!(e.apply_window(&mut buffer), expected);
        assert_eq!(buffer, untouched);

        let mut buffer = untouched.clone();
        assert_eq!(e.bit_reverse_permute(&mut buffer), expected);
        assert_eq!(buffer, untouched);

        assert_eq!(
            e.process_buffer(&untouched).err(),
            Some(FftError::BufferLengthMismatch { expected: 8, actual: len })
        );
    }
}

#[test]
fn right_length_is_accepted() {
    let e = engine(4);
    let mut buffer = vec![0.0f32; 8];
    assert_eq!(e.apply_fft(&mut buffer), Ok(()));
    assert_eq!(e.apply_window(&mut buffer), Ok(()));
    assert_eq!(e.bit_reverse_permute(&mut buffer), Ok(()));
    assert!(e.process_buffer(&buffer).is_ok());
}

#[test]
fn impulse_transforms_to_a_flat_spectrum() {
    let e = engine(4);
    let mut buffer = vec![1.0f32, 0.0, 0.0, 0.0, 0.0, 0.0, 0.0, 0.0];
    assert_eq!(e.apply_fft(&mut buffer), Ok(()));
    for k in 0..4 {
        assert!((buffer[2 * k] - 1.0).abs() < 1e-5);
        assert!(buffer[2 * k + 1].abs() < 1e-5);
    }
}

#[test]
fn single_sample_is_its_own_transform() {
    let e = engine(1);
    let mut buffer = vec![3.25f32, -1.5];
    assert_eq!(e.apply_fft(&mut buffer), Ok(()));
    assert_eq!(buffer, vec![3.25f32, -1.5]);
}

#[test]
fn two_samples_give_sum_and_difference() {
    let e = engine(2);
    let mut buffer = vec![1.0f32, 2.0, 3.0, 5.0];
    assert_eq!(e.apply_fft(&mut buffer), Ok(()));
    assert_eq!(buffer, vec![4.0f32, 7.0, -2.0, -3.0]);
}

#[test]
fn delayed_impulse_of_four_samples() {
    let e = engine(4);
    let mut buffer = vec![0.0f32, 0.0, 1.0, 0.0, 0.0, 0.0, 0.0, 0.0];
    assert_eq!(e.apply_fft(&mut buffer), Ok(()));
    assert_eq!(buffer, vec![1.0f32, 0.0, 1.0, 0.0, -1.0, 0.0, -1.0, 0.0]);
}

fn int_table(n: usize) -> Vec<Complex<i64>> {
    (0..n).map(|k| Complex::new((k as i64 * 7 + 3) % 5 - 2, (k as i64 * 11 + 1) % 5 - 2)).collect()
}

fn int_engine(n: usize) -> FFTProcessor<i64> {
    let table = int_table(n);
    match FFTProcessor::new(n, |k, _n| table[k], |i, _n| i as i64 - 3) {
        Ok(engine) => engine,
        Err(e) => panic!("size {} was refused: {:?}", n, e),
    }
}

fn int_samples(n: usize) -> Vec<i64> {
    (0..2 * n).map(|p| (p as i64 * 13 + 5) % 9 - 4).collect()
}

// The transform by splitting into even and odd samples: the two halves are
// transformed on their own and then combined, sample by sample.
fn split_and_combine(x: &[i64], table: &[Complex<i64>]) -> Vec<i64> {
    let m = x.len() / 2;
    if m <= 1 {
        return x.to_vec();
    }
    let mut evens = Vec::new();
    let mut odds = Vec::new();
    for s in 0..m / 2 {
        evens.extend_from_slice(&x[4 * s..4 * s + 2]);
        odds.extend_from_slice(&x[4 * s + 2..4 * s + 4]);
    }
    let e = split_and_combine(&evens, table);
    let o = split_and_combine(&odds, table);
    let stride = table.len() / (2 * m);
    let mut out = vec![0i64; 2 * m];
    for k in 0..m / 2 {
        let w = table[k * stride];
        let t_re = o[2 * k] * w.re - o[2 * k + 1] * w.im;
        let t_im = o[2 * k] * w.im + o[2 * k + 1] * w.re;
        out[2 * k] = e[2 * k] + t_re;
        out[2 * k + 1] = e[2 * k + 1] + t_im;
        out[2 * k + m] = e[2 * k] - t_re;
        out[2 * k + m + 1] = e[2 * k + 1] - t_im;
    }
    out
}

#[test]
fn transform_agrees_with_splitting_into_even_and_odd_samples() {
    for n in [1usize, 2, 4, 8, 16, 32] {
        let e = int_engine(n);
        let input = int_samples(n);
        let mut buffer = input.clone();
        assert_eq!(e.apply_fft(&mut buffer), Ok(()));
        assert_eq!(buffer, split_and_combine(&input, &int_table(n)));
    }
}

#[test]
fn eight_samples_with_an_integer_table() {
    let table: Vec<Complex<i64>> = vec![
        Complex::new(1, 0),
        Complex::new(0, -1),
        Complex::new(2, 1),
        Complex::new(0, 0),
        Complex::new(0, 0),
        Complex::new(0, 0),
        Complex::new(0, 0),
        Complex::new(0, 0),
    ];
    let e = match FFTProcessor::new(8, |k, _n| table[k], |_i, _n| 1i64) {
        Ok(engine) => engine,
        Err(e) => panic!("{:?}", e),
    };
    // Samples 1, 2, ..., 8, all real; in bit-reversed order 1 5 3 7 2 6 4 8.
    // Groups of two: 6 -4 | 10 -4 | 8 -4 | 12 -4.
    // Groups of four, with entries 0 and 1 of the table:
    //   16, -4+4i, -4, -4-4i | 20, -4+4i, -4, -4-4i.
    // The last group, with entry 0 throughout: sums, then differences.
    let mut buffer: Vec<i64> = vec![1, 0, 2, 0, 3, 0, 4, 0, 5, 0, 6, 0, 7, 0, 8, 0];
    assert_eq!(e.apply_fft(&mut buffer), Ok(()));
    assert_eq!(
        buffer,
        vec![36, 0, -8, 8, -8, 0, -8, -8, -4, 0, 0, 0, 0, 0, 0, 0]
    );
}

#[test]
fn transform_is_linear() {
    let n = 16;
    let e = engine(n);
    let x: Vec<f32> = (0..2 * n).map(|p| ((p * 7 + 3) % 11) as f32 - 5.0).collect();
    let y: Vec<f32> = (0..2 * n).map(|p| ((p * 5 + 1) % 13) as f32 - 6.0).collect();
    let (a, b) = (2.0f32, -3.0f32);
    let mut mixed: Vec<f32> = x.iter().zip(&y).map(|(x, y)| a * x + b * y).collect();
    let mut fx = x.clone();
    let mut fy = y.clone();
    assert_eq!(e.apply_fft(&mut mixed), Ok(()));
    assert_eq!(e.apply_fft(&mut fx), Ok(()));
    assert_eq!(e.apply_fft(&mut fy), Ok(()));
    for p in 0..2 * n {
        let expected = a * fx[p] + b * fy[p];
        assert!((mixed[p] - expected).abs() < 1e-3, "entry {}: {} and {}", p, mixed[p], expected);
    }
}

fn energy(buffer: &[f32]) -> f64 {
    buffer.iter().map(|v| (*v as f64) * (*v as f64)).sum()
}

fn noise(len: usize, seed: u32) -> Vec<f32> {
    let mut state = seed;
    (0..len)
        .map(|_| {
            state = state.wrapping_mul(1_664_525).wrapping_add(1_013_904_223);
            ((state >> 8) as f32 / (1u32 << 24) as f32) * 2.0 - 1.0
        })
        .collect()
}

#[test]
fn transform_multiplies_the_energy_by_the_size() {
    for (n, seed) in [(8usize, 1u32), (16, 2), (64, 3)] {
        let e = engine(n);
        let input = noise(2 * n, seed);
        let mut buffer = input.clone();
        assert_eq!(e.apply_fft(&mut buffer), Ok(()));
        let before = energy(&input);
        let after = energy(&buffer);
        assert!(before > 0.0);
        assert!((after - n as f64 * before).abs() < 1e-4 * n as f64 * before);
    }
}

#[test]
fn window_of_all_ones_is_the_window_itself() {
    for n in [1usize, 2, 8, 64] {
        let e = engine(n);
        let mut buffer = vec![1.0f32; 2 * n];
        assert_eq!(e.apply_window(&mut buffer), Ok(()));
        for i in 0..n {
            let w = 0.5 * (1.0 - (2.0 * std::f32::consts::PI * i as f32 / n as f32).cos());
            assert_eq!(buffer[2 * i], w);
            assert_eq!(buffer[2 * i + 1], w);
        }
    }
}

#[test]
fn window_scales_both_parts_of_each_sample() {
    let e = int_engine(4);
    let mut buffer: Vec<i64> = vec![1, 2, 3, 4, 5, 6, 7, 8];
    assert_eq!(e.apply_window(&mut buffer), Ok(()));
    assert_eq!(buffer, vec![-3, -6, -6, -8, -5, -6, 0, 0]);
}

#[test]
fn window_applied_twice_windows_twice() {
    let e = int_engine(4);
    let mut buffer: Vec<i64> = vec![1, 2, 3, 4, 5, 6, 7, 8];
    assert_eq!(e.apply_window(&mut buffer), Ok(()));
    assert_eq!(e.apply_window(&mut buffer), Ok(()));
    assert_eq!(buffer, vec![9, 18, 12, 16, 5, 6, 0, 0]);
}

#[test]
fn window_is_zero_at_the_first_sample() {
    let e = engine(8);
    let mut buffer = vec![2.0f32; 16];
    assert_eq!(e.apply_window(&mut buffer), Ok(()));
    assert_eq!(buffer[0], 0.0);
    assert_eq!(buffer[1], 0.0);
    assert!((buffer[8] - 2.0).abs() < 1e-6);
}

#[test]
fn permutation_of_eight_tagged_samples() {
    let e = engine(8);
    let mut buffer: Vec<f32> = (0..8).flat_map(|k| [k as f32, 100.0 + k as f32]).collect();
    assert_eq!(e.bit_reverse_permute(&mut buffer), Ok(()));
    let order = [0usize, 4, 2, 6, 1, 5, 3, 7];
    for k in 0..8 {
        assert_eq!(buffer[2 * k], order[k] as f32);
        assert_eq!(buffer[2 * k + 1], 100.0 + order[k] as f32);
    }
}

#[test]
fn permutation_of_sixteen_tagged_samples() {
    let e = int_engine(16);
    let mut buffer: Vec<i64> = (0..16).flat_map(|k| [k, -k]).collect();
    assert_eq!(e.bit_reverse_permute(&mut buffer), Ok(()));
    let order = [0i64, 8, 4, 12, 2, 10, 6, 14, 1, 9, 5, 13, 3, 11, 7, 15];
    for k in 0..16 {
        assert_eq!(buffer[2 * k], order[k]);
        assert_eq!(buffer[2 * k + 1], -order[k]);
    }
}

#[test]
fn permutation_applied_twice_restores_the_buffer() {
    for n in [1usize, 2, 4, 32, 256] {
        let e = int_engine(n);
        let untouched = int_samples(n);
        let mut buffer = untouched.clone();
        assert_eq!(e.bit_reverse_permute(&mut buffer), Ok(()));
        if n >= 4 {
            assert_ne!(buffer, untouched);
        }
        assert_eq!(e.bit_reverse_permute(&mut buffer), Ok(()));
        assert_eq!(buffer, untouched);
    }
}

#[test]
fn process_buffer_windows_then_transforms() {
    let n = 16;
    let e = engine(n);
    let input = noise(2 * n, 7);
    let kept = input.clone();
    let output = match e.process_buffer(&input) {
        Ok(output) => output,
        Err(e) => panic!("{:?}", e),
    };
    assert_eq!(input, kept);
    let mut buffer = input.clone();
    assert_eq!(e.apply_window(&mut buffer), Ok(()));
    assert_eq!(e.apply_fft(&mut buffer), Ok(()));
    assert_eq!(output, buffer);
    assert_ne!(output, input);
}

#[test]
fn constant_signal_concentrates_in_the_first_bin() {
    let n = 8;
    let e = engine(n);
    let mut buffer: Vec<f32> = (0..n).flat_map(|_| [1.0f32, 0.0]).collect();
    assert_eq!(e.apply_fft(&mut buffer), Ok(()));
    assert!((buffer[0] - 8.0).abs() < 1e-5);
    assert!(buffer[1].abs() < 1e-5);
}

fn quarter_turns(n: usize) -> Vec<Complex<i64>> {
    let turns = [Complex::new(1i64, 0), Complex::new(0, -1), Complex::new(-1, 0), Complex::new(0, 1)];
    (0..n).map(|k| turns[(k * 3 + k / 2) % 4]).collect()
}

fn turning_engine(n: usize) -> FFTProcessor<i64> {
    let table = quarter_turns(n);
    match FFTProcessor::new(n, |k, _n| table[k], |_i, _n| 1i64) {
        Ok(engine) => engine,
        Err(e) => panic!("size {} was refused: {:?}", n, e),
    }
}

fn int_energy(buffer: &[i64]) -> i64 {
    buffer.iter().map(|v| v * v).sum()
}

#[test]
fn integer_transform_is_exactly_linear() {
    for n in [1usize, 2, 8, 32] {
        let e = int_engine(n);
        let x = int_samples(n);
        let y: Vec<i64> = (0..2 * n).map(|p| (p as i64 * 3 + 2) % 7 - 3).collect();
        let (a, b) = (3i64, -2i64);
        let mut mixed: Vec<i64> = x.iter().zip(&y).map(|(x, y)| a * x + b * y).collect();
        let mut fx = x.clone();
        let mut fy = y.clone();
        assert_eq!(e.apply_fft(&mut mixed), Ok(()));
        assert_eq!(e.apply_fft(&mut fx), Ok(()));
        assert_eq!(e.apply_fft(&mut fy), Ok(()));
        let expected: Vec<i64> = fx.iter().zip(&fy).map(|(x, y)| a * x + b * y).collect();
        assert_eq!(mixed, expected);
    }
}

#[test]
fn rotations_multiply_the_energy_by_the_size_exactly() {
    for n in [1usize, 2, 4, 8, 64] {
        let e = turning_engine(n);
        let input = int_samples(n);
        let mut buffer = input.clone();
        assert_eq!(e.apply_fft(&mut buffer), Ok(()));
        assert_eq!(int_energy(&buffer), n as i64 * int_energy(&input));
    }
}

#[test]
fn integer_window_of_all_ones_is_the_window_itself() {
    let e = int_engine(8);
    let mut buffer = vec![1i64; 16];
    assert_eq!(e.apply_window(&mut buffer), Ok(()));
    for i in 0..8 {
        assert_eq!(buffer[2 * i], i as i64 - 3);
        assert_eq!(buffer[2 * i + 1], i as i64 - 3);
    }
}
