use t15_fundraiser::ratelimit::RateLimiter;

const SECOND: u64 = 1_000_000_000;

#[test]
fn limits_per_key_and_recovers() {
    let mut rl = RateLimiter::new(2, 60 * SECOND);
    let t0: u64 = 1_000 * SECOND;
    assert!(rl.allow("a", t0) && rl.allow("a", t0));
    assert!(!rl.allow("a", t0));
    assert!(rl.allow("b", t0));
    assert!(rl.allow("a", t0 + 61 * SECOND));
}

#[test]
fn window_slides_hit_by_hit() {
    let mut rl = RateLimiter::new(2, 10 * SECOND);
    assert!(rl.allow("k", 0));
    assert!(rl.allow("k", 5 * SECOND));
    assert!(!rl.allow("k", 9 * SECOND));
    // The first hit is exactly a window old now; the second is not.
    assert!(rl.allow("k", 10 * SECOND));
    assert!(!rl.allow("k", 11 * SECOND));
    assert!(rl.allow("k", 15 * SECOND));
}

#[test]
fn refused_requests_are_not_counted() {
    let mut rl = RateLimiter::new(1, 10 * SECOND);
    assert!(rl.allow("k", 0));
    for t in 1..9 {
        assert!(!rl.allow("k", t * SECOND));
    }
    assert!(rl.allow("k", 10 * SECOND));
}

#[test]
fn zero_limit_refuses_everything() {
    let mut rl = RateLimiter::new(0, 10 * SECOND);
    assert!(!rl.allow("k", 0));
    assert!(!rl.allow("k", 100 * SECOND));
}

#[test]
fn clock_readings_from_the_past_count_as_now() {
    let mut rl = RateLimiter::new(1, 10 * SECOND);
    assert!(rl.allow("k", 100 * SECOND));
    assert!(!rl.allow("k", 50 * SECOND));
}

#[test]
fn other_keys_and_refusals_do_not_change_a_keys_answers() {
    // The same requests for "a", with and without requests for "b" and refused requests
    // for "a" in between, get the same answers.
    let mut alone = RateLimiter::new(2, 10 * SECOND);
    let mut mixed = RateLimiter::new(2, 10 * SECOND);
    let times = [0, 3 * SECOND, 6 * SECOND, 10 * SECOND, 12 * SECOND, 13 * SECOND, 25 * SECOND];
    let mut answers = Vec::new();
    for &t in times.iter() {
        let expected = alone.allow("a", t);
        mixed.allow("b", t);
        mixed.allow("b", t);
        let got = mixed.allow("a", t);
        assert_eq!(got, expected);
        if !got {
            assert!(!mixed.allow("a", t));
        }
        answers.push(got);
    }
    assert_eq!(answers, [true, true, false, true, false, true, true]);
}

#[test]
fn no_window_holds_more_than_max_allowed() {
    let mut rl = RateLimiter::new(3, 10 * SECOND);
    let mut allowed: Vec<u64> = Vec::new();
    for step in 0..60u64 {
        let t = step * SECOND / 2;
        if rl.allow("k", t) {
            allowed.push(t);
        }
        let recent = allowed.iter().filter(|&&a| t - a < 10 * SECOND).count();
        assert!(recent <= 3);
    }
    assert_eq!(allowed.len(), 9);
}
