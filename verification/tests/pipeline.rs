use ndarray_rand::rand::rngs::StdRng;
use ndarray_rand::rand::{Rng, SeedableRng};
use storir::levels::are_energies;
use storir::{ImpulseResponseImproved, ThinStep, WindowIndices};

fn decibels_to_gain(decibels: f32) -> f32 {
    10.0_f32.powf(decibels / 20.0)
}

fn to_microdecibels(decibels: f32) -> i64 {
    (decibels * 1.0e6).round() as i64
}

/// Noise shaped by the two slopes, as energies.
fn shaped_energy(rir: &ImpulseResponseImproved, sample_rate: u32, rng: &mut StdRng) -> Vec<f32> {
    let counts = rir.sample_counts(sample_rate);
    let len = rir.noise_len(sample_rate) as usize;
    let mut data: Vec<f32> = (0..len).map(|_| rng.gen_range(-5.0_f32..=5.0_f32)).collect();
    for (i, x) in data.iter_mut().enumerate() {
        *x -= counts.edt_offset(i as u64) as f32;
    }
    for x in data.iter_mut() {
        *x *= 10.0 / counts.edt as f32;
    }
    for (i, x) in data.iter_mut().enumerate() {
        *x -= counts.rt60_offset_numerator(i as u64) as f32 / counts.rt60 as f32;
    }
    let max_val = data.iter().cloned().fold(f32::NEG_INFINITY, f32::max);
    for x in data.iter_mut() {
        *x = decibels_to_gain(*x - max_val).powi(2);
    }
    data
}

fn measure(levels: &[u32], direct_sound_idx: usize) -> i64 {
    let direct: f32 = levels[..=direct_sound_idx].iter().map(|b| f32::from_bits(*b)).sum();
    let reverberant: f32 = levels[direct_sound_idx + 1..].iter().map(|b| f32::from_bits(*b)).sum();
    to_microdecibels(10.0 * (direct / reverberant).log10())
}

/// Runs the whole synthesis; gives the response, the windows and the rounds of thinning.
fn generate(
    rir: &ImpulseResponseImproved,
    sample_rate: u32,
    rng: &mut StdRng,
) -> (Vec<f32>, WindowIndices, usize) {
    let energy = shaped_energy(rir, sample_rate, rng);
    let mut levels: Vec<u32> = energy.iter().map(|x| x.to_bits()).collect();
    assert!(are_energies(&levels));
    let w = rir.window_indices(&levels, sample_rate);
    rir.create_initial_time_delay_gap(&mut levels, w.direct_sound_idx, sample_rate);
    let mut rounds = 0;
    let mut previous = None;
    loop {
        let measured = measure(&levels, w.direct_sound_idx);
        let current = ImpulseResponseImproved::read_ratio(&levels, w.direct_sound_idx, measured);
        let step = rir.randomize_reflections(
            &mut levels,
            w.direct_sound_idx,
            w.early_reflection_start_idx,
            w.early_reflection_end_idx,
            sample_rate,
            previous,
            measured,
            rng,
        );
        if step == ThinStep::Finished {
            break;
        }
        rounds += 1;
        previous = current;
    }
    let response = ImpulseResponseImproved::response_from(&levels, w.direct_sound_idx);
    (response.iter().map(|b| f32::from_bits(*b)).collect(), w, rounds)
}

#[test]
fn test_generation_process() {
    let rir = ImpulseResponseImproved::new(500_000, 50_000, 5_000, 50_000, to_microdecibels(-1.0)).unwrap();
    let mut rng = StdRng::seed_from_u64(1);
    let (impulse, _, _) = generate(&rir, 16000, &mut rng);
    // find non zero elements
    let mut non_zero_elements: u32 = 0;
    for sample in &impulse {
        if sample > &0.0 {
            non_zero_elements += 1;
        };
    }
    assert!(non_zero_elements > 0);
}

#[test]
fn response_runs_from_the_direct_sound_to_the_end() {
    let rir = ImpulseResponseImproved::new(500_000, 50_000, 5_000, 50_000, to_microdecibels(-1.0)).unwrap();
    let mut rng = StdRng::seed_from_u64(2);
    let (impulse, w, _) = generate(&rir, 16000, &mut rng);
    assert_eq!(impulse.len(), 8000 - w.direct_sound_idx);
    assert!(!impulse.is_empty());
    assert!(impulse.iter().any(|x| *x > 0.0));
    assert_eq!(impulse[0], 1.0);
}

#[test]
fn shaped_energy_is_never_negative() {
    let rir = ImpulseResponseImproved::new(300_000, 40_000, 5_000, 50_000, 0).unwrap();
    let mut rng = StdRng::seed_from_u64(3);
    let energy = shaped_energy(&rir, 8000, &mut rng);
    assert_eq!(energy.len(), 2400);
    assert!(energy.iter().all(|x| *x >= 0.0));
}

#[test]
fn direct_sound_is_the_first_greatest_energy() {
    let rir = ImpulseResponseImproved::new(300_000, 40_000, 5_000, 50_000, 0).unwrap();
    let mut rng = StdRng::seed_from_u64(4);
    let energy = shaped_energy(&rir, 8000, &mut rng);
    let levels: Vec<u32> = energy.iter().map(|x| x.to_bits()).collect();
    let w = rir.window_indices(&levels, 8000);
    let mut brute = 0;
    for i in 0..energy.len() {
        if energy[i] > energy[brute] {
            brute = i;
        }
    }
    assert_eq!(w.direct_sound_idx, brute);
}

#[test]
fn same_seed_gives_the_same_response() {
    let rir = ImpulseResponseImproved::new(500_000, 50_000, 5_000, 50_000, to_microdecibels(-1.0)).unwrap();
    let mut first = StdRng::seed_from_u64(99);
    let mut second = StdRng::seed_from_u64(99);
    let (a, wa, ra) = generate(&rir, 16000, &mut first);
    let (b, wb, rb) = generate(&rir, 16000, &mut second);
    assert_eq!(a, b);
    assert_eq!(wa, wb);
    assert_eq!(ra, rb);
}

#[test]
fn thinning_runs_when_the_ratio_is_far_below_the_target() {
    let rir = ImpulseResponseImproved::new(500_000, 50_000, 5_000, 50_000, to_microdecibels(20.0)).unwrap();
    let mut rng = StdRng::seed_from_u64(5);
    let (impulse, _, rounds) = generate(&rir, 16000, &mut rng);
    assert!(rounds >= 1);
    assert!(impulse.iter().filter(|x| **x == 0.0).count() > 80);
}

#[test]
fn ratio_above_the_band_leaves_only_the_gap() {
    let rir = ImpulseResponseImproved::new(500_000, 50_000, 5_000, 50_000, to_microdecibels(-60.0)).unwrap();
    let mut rng = StdRng::seed_from_u64(6);
    let mut reference = StdRng::seed_from_u64(6);
    let energy = shaped_energy(&rir, 16000, &mut reference);
    let (impulse, w, rounds) = generate(&rir, 16000, &mut rng);
    assert_eq!(rounds, 0);
    let d = w.direct_sound_idx;
    for (k, x) in impulse.iter().enumerate() {
        let i = d + k;
        if d < i && i <= (d + 1 + 80).min(7999) {
            assert_eq!(*x, 0.0);
        } else {
            assert_eq!(*x, energy[i]);
        }
    }
}

#[test]
fn fractional_milliseconds_count_in_the_length() {
    // 500.4 ms at 16 kHz is 8006.4 samples.
    let rir = ImpulseResponseImproved::new(500_400, 50_000, 5_000, 50_000, to_microdecibels(-1.0))
        .unwrap();
    assert_eq!(rir.noise_len(16000), 8006);
    assert_eq!(rir.sample_counts(16000).rt60, 8006);
    let mut rng = StdRng::seed_from_u64(8);
    let (impulse, w, _) = generate(&rir, 16000, &mut rng);
    assert_eq!(impulse.len(), 8006 - w.direct_sound_idx);
    // 50.4 ms outlasts 50 ms.
    assert!(ImpulseResponseImproved::new(50_400, 50_000, 0, 0, 0).is_ok());
}
