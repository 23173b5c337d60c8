use bg_core::dice::Dice;

const TEST_ROLLS: u32 = 1_000_000;

#[test]
fn test_dist_1() -> () {
    // The roll canonicalizes to (high, low), so face fairness is measured
    // over both dice together: each face should claim close to one sixth
    // of the two million observations.
    let mut face_counts: [u32; 6] = [0; 6];
    let mut sum_counts: [u32; 11] = [0; 11];

    for _ in 0..TEST_ROLLS {
        let r = Dice::roll();

        face_counts[usize::from(r.high() - 1)] += 1;
        face_counts[usize::from(r.low() - 1)] += 1;
        sum_counts[usize::from(r.high() + r.low()) - 2] += 1;
    }

    for i in 0..6 {
        let face_ratio = f64::from(face_counts[i]) / f64::from(2 * TEST_ROLLS);
        assert!(face_ratio >= 1.0 / 6.5 && face_ratio <= 1.0 / 5.5);
    }

    let expected_dist: [f64; 11] = [1.0, 2.0, 3.0, 4.0, 5.0, 6.0, 5.0, 4.0, 3.0, 2.0, 1.0];

    for i in 0..11 {
        let freq = 36.0 * f64::from(sum_counts[i]) / f64::from(TEST_ROLLS);
        assert!(f64::abs(freq - expected_dist[i]) < 0.1);
    }
}

#[test]
fn test_make_canonical_order() -> () {
    // Construction is symmetric in its two arguments.
    for a in 1..=6u8 {
        for b in 1..=6u8 {
            assert_eq!(Dice::make(a, b), Dice::make(b, a));
            let d = Dice::make(a, b);
            assert_eq!(d.high(), a.max(b));
            assert_eq!(d.low(), a.min(b));
            assert_eq!(d.is_double(), a == b);
        }
    }
}

#[test]
fn test_roll_in_range() -> () {
    for _ in 0..1000 {
        let d = Dice::roll();
        assert!(1 <= d.low() && d.low() <= d.high() && d.high() <= 6);
    }
}
