use ams_sketch::exact::Tester;
use ams_sketch::hashing::{encode_item, hash_item};
use ams_sketch::median::median;
use ams_sketch::sketch::{AMSSketch, Estimate, SketchError};

fn value(e: &Estimate) -> f64 {
    (e.lower as f64 + e.upper as f64) / (2.0 * e.width as f64)
}

fn seed_grid(depth: u32, width: u32, offset: u32) -> Vec<Vec<u32>> {
    (0..depth)
        .map(|r| (0..width).map(|c| offset.wrapping_add(r * 1000 + c * 7919)).collect())
        .collect()
}

fn counters(s: &AMSSketch) -> Vec<Vec<i64>> {
    let (width, depth) = s.dimensions();
    (0..depth).map(|r| (0..width).map(|c| s.counter_at(r, c)).collect()).collect()
}

#[test]
fn fresh_sketch_estimates_zero() {
    let s = AMSSketch::new(2, 16, 5).unwrap();
    let e = s.estimate().unwrap();
    assert_eq!(e.lower, 0);
    assert_eq!(e.upper, 0);
    assert_eq!(value(&e), 0.0);
    let s3 = AMSSketch::with_seeds(3, seed_grid(4, 3, 11)).unwrap();
    assert_eq!(value(&s3.estimate().unwrap()), 0.0);
}

#[test]
fn median_of_even_and_odd_length() {
    let m = median(&vec![5, 1, 9, 3]);
    assert_eq!((m.lower, m.upper), (3, 5));
    assert_eq!((m.lower + m.upper) as f64 / 2.0, 4.0);
    let m = median(&vec![5, 1, 9]);
    assert_eq!((m.lower, m.upper), (5, 5));
    let m = median(&vec![-7]);
    assert_eq!((m.lower, m.upper), (-7, -7));
}

#[test]
fn dimensions_and_seeds_as_given() {
    let seeds = seed_grid(3, 4, 5);
    let s = AMSSketch::with_seeds(2, seeds.clone()).unwrap();
    assert_eq!(s.dimensions(), (4, 3));
    assert_eq!(s.moment_order(), 2);
    for r in 0..3 {
        for c in 0..4 {
            assert_eq!(s.seed_at(r, c), seeds[r][c]);
            assert_eq!(s.counter_at(r, c), 0);
        }
    }
    let s = AMSSketch::new(1, 7, 2).unwrap();
    assert_eq!(s.dimensions(), (7, 2));
}

#[test]
fn invalid_parameters_are_refused() {
    assert!(matches!(AMSSketch::new(0, 4, 4), Err(SketchError::InvalidParameter)));
    assert!(matches!(AMSSketch::new(2, 0, 4), Err(SketchError::InvalidParameter)));
    assert!(matches!(AMSSketch::new(2, 4, 0), Err(SketchError::InvalidParameter)));
    assert!(matches!(AMSSketch::with_seeds(2, vec![]), Err(SketchError::InvalidParameter)));
    assert!(matches!(AMSSketch::with_seeds(2, vec![vec![]]), Err(SketchError::InvalidParameter)));
    assert!(matches!(
        AMSSketch::with_seeds(2, vec![vec![1, 2], vec![3]]),
        Err(SketchError::InvalidParameter)
    ));
    assert!(matches!(AMSSketch::with_seeds(0, vec![vec![1]]), Err(SketchError::InvalidParameter)));
}

#[test]
fn item_encoding_and_hash() {
    assert_eq!(encode_item(0x04030201), [1, 2, 3, 4]);
    assert_eq!(encode_item(0x1_0000_0005), [5, 0, 0, 0]);
    assert_eq!(hash_item(0, 0), 0x2362f9de);
    assert_ne!(hash_item(1, 0), hash_item(0, 0));
    assert_eq!(hash_item(42, 12345), hash_item(42, 12345));
}

#[test]
fn update_adds_the_sign_of_the_hash() {
    let seeds = seed_grid(2, 3, 99);
    let mut s = AMSSketch::with_seeds(2, seeds.clone()).unwrap();
    s.update(7).unwrap();
    s.update(7).unwrap();
    s.update(8).unwrap();
    for r in 0..2 {
        for c in 0..3 {
            let sign = |item: usize| if hash_item(seeds[r][c], item) % 2 == 1 { 1 } else { -1 };
            assert_eq!(s.counter_at(r, c), 2 * sign(7) + sign(8));
        }
    }
}

#[test]
fn estimate_is_median_of_row_means() {
    let mut s = AMSSketch::with_seeds(2, seed_grid(4, 3, 1234)).unwrap();
    for item in 0..20usize {
        for _ in 0..(item % 4 + 1) {
            s.update(item).unwrap();
        }
    }
    let grid = counters(&s);
    let mut sums: Vec<i128> = grid
        .iter()
        .map(|row| row.iter().map(|&x| (x as i128) * (x as i128)).sum())
        .collect();
    sums.sort();
    let e = s.estimate().unwrap();
    assert_eq!(e.lower, sums[1]);
    assert_eq!(e.upper, sums[2]);
    assert_eq!(e.width, 3);
    let expected = (sums[1] + sums[2]) as f64 / 6.0;
    assert_eq!(value(&e), expected);
}

#[test]
fn estimate_overflow_is_reported() {
    let mut s = AMSSketch::with_seeds(200, vec![vec![1, 2]]).unwrap();
    s.update(3).unwrap();
    assert!(s.estimate().is_ok());
    s.update(3).unwrap();
    assert!(matches!(s.estimate(), Err(SketchError::AccumulatorOverflow)));
}

#[test]
fn merge_equals_interleaved_stream() {
    let seeds = seed_grid(3, 5, 77);
    let mut a = AMSSketch::with_seeds(2, seeds.clone()).unwrap();
    let mut b = AMSSketch::with_seeds(2, seeds.clone()).unwrap();
    let mut whole = AMSSketch::with_seeds(2, seeds.clone()).unwrap();
    for i in 0..30usize {
        a.update(i).unwrap();
    }
    for i in 30..50usize {
        b.update(i).unwrap();
        b.update(i).unwrap();
    }
    for i in 0..30usize {
        whole.update(49 - (i % 20)).unwrap();
        whole.update(i).unwrap();
    }
    for i in 30..40usize {
        whole.update(i).unwrap();
    }
    let before_a = counters(&a);
    let before_b = counters(&b);
    a.merge(&b).unwrap();
    let merged = counters(&a);
    assert_eq!(merged, counters(&whole));
    for r in 0..3 {
        for c in 0..5 {
            assert_eq!(merged[r][c], before_a[r][c] + before_b[r][c]);
        }
    }
    let (ea, ew) = (a.estimate().unwrap(), whole.estimate().unwrap());
    assert_eq!((ea.lower, ea.upper, ea.width), (ew.lower, ew.upper, ew.width));
}

#[test]
fn merge_refuses_other_seeds() {
    let mut a = AMSSketch::with_seeds(2, seed_grid(2, 2, 1)).unwrap();
    let b = AMSSketch::with_seeds(2, seed_grid(2, 2, 2)).unwrap();
    let c = AMSSketch::with_seeds(3, seed_grid(2, 2, 1)).unwrap();
    let d = AMSSketch::with_seeds(2, seed_grid(2, 3, 1)).unwrap();
    a.update(5).unwrap();
    let before = counters(&a);
    assert!(matches!(a.merge(&b), Err(SketchError::InvalidParameter)));
    assert!(matches!(a.merge(&c), Err(SketchError::InvalidParameter)));
    assert!(matches!(a.merge(&d), Err(SketchError::InvalidParameter)));
    assert_eq!(counters(&a), before);
}

#[test]
fn fixed_seeds_give_identical_state() {
    let seeds = seed_grid(5, 8, 4242);
    let mut s = AMSSketch::with_seeds(2, seeds.clone()).unwrap();
    let mut t = AMSSketch::with_seeds(2, seeds).unwrap();
    for i in 0..200usize {
        s.update(i % 37).unwrap();
        t.update(i % 37).unwrap();
    }
    assert_eq!(counters(&s), counters(&t));
    let (es, et) = (s.estimate().unwrap(), t.estimate().unwrap());
    assert_eq!((es.lower, es.upper, es.width), (et.lower, et.upper, et.width));
}

#[test]
fn exact_table_moments() {
    let mut t2 = Tester::new(2);
    let mut t3 = Tester::new(3);
    assert_eq!(t2.estimate(), Some(0));
    for i in 0..100usize {
        for _ in 0..10 {
            t2.update(i).unwrap();
            t3.update(i).unwrap();
        }
    }
    assert_eq!(t2.estimate(), Some(10000));
    assert_eq!(t3.estimate(), Some(100000));
    let mut t1 = Tester::new(1);
    t1.update(4).unwrap();
    t1.update(4).unwrap();
    t1.update(9).unwrap();
    assert_eq!(t1.estimate(), Some(3));
}

#[test]
fn statistical_accuracy() {
    // k = 2, n = 100, lambda = 0.5, epsilon = 0.1 give 640 counters per estimator and 5 estimators.
    let (width, depth, lambda) = (640usize, 5usize, 0.5f64);
    let trials = 6;
    let mut errors = Vec::new();
    for _ in 0..trials {
        let mut sketch = AMSSketch::new(2, width, depth).unwrap();
        let mut tester = Tester::new(2);
        for i in 0..100usize {
            for _ in 0..10 {
                sketch.update(i).unwrap();
                tester.update(i).unwrap();
            }
        }
        let actual = tester.estimate().unwrap() as f64;
        assert_eq!(actual, 10000.0);
        errors.push((value(&sketch.estimate().unwrap()) - actual).abs());
    }
    errors.sort_by(|a, b| a.partial_cmp(b).unwrap());
    assert!(errors[errors.len() / 2] < lambda * 10000.0);
    let far = errors.iter().filter(|&&e| e > lambda * 10000.0).count();
    assert!(far * 2 <= trials);
}
