use sturm_engine::random::{rnd_n, sample_below};

#[test]
fn draws_stay_below_bound() {
    for n in 1..20u32 {
        for _ in 0..200 {
            assert!(rnd_n(n) < n);
        }
    }
    assert_eq!(rnd_n(1), 0);
}

#[test]
fn draws_cover_small_ranges() {
    let mut seen = [false; 4];
    for _ in 0..2000 {
        seen[rnd_n(4) as usize] = true;
    }
    assert!(seen.iter().all(|&s| s));
}

#[test]
fn sample_reduces_the_word() {
    assert_eq!(sample_below(0, 4), 0);
    assert_eq!(sample_below(7, 4), 3);
    assert_eq!(sample_below(u32::MAX, 4), 3);
    assert_eq!(sample_below(224, 15), 14);
    assert_eq!(sample_below(225, 15), 0);
    assert_eq!(sample_below(12345, 1), 0);
}
