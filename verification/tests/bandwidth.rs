use std::sync::Arc;
use wstunnel::jitter::{
    jittered_chunk, next_jitter_roll, request_size, scaled_chunk, JitterState, CHUNK,
};
use wstunnel::rate_limiter::{
    follow, plan_poll, poll_with, quota, PollPlan, Quota, RateLimiterPool, Verdict,
};

#[test]
fn quota_is_a_mebibyte_rate_with_a_fifth_more_at_once() {
    assert_eq!(quota(0), Quota { per_second: 1, burst: 1 });
    assert_eq!(quota(1), Quota { per_second: 1048576, burst: 1258291 });
    assert_eq!(quota(10), Quota { per_second: 10485760, burst: 12582912 });
    assert_eq!(quota(4095), Quota { per_second: 4293918720, burst: u32::MAX });
    assert_eq!(quota(4096), Quota { per_second: u32::MAX, burst: u32::MAX });
    assert_eq!(quota(u16::MAX), Quota { per_second: u32::MAX, burst: u32::MAX });
    for v in 0..=u16::MAX {
        let bytes_per_sec = u64::from(v) * 1024 * 1024;
        let bps = u32::try_from(bytes_per_sec).unwrap_or(u32::MAX).max(1);
        let burst = ((bytes_per_sec as f64 * 1.2) as u32).max(1);
        assert_eq!(quota(v), Quota { per_second: bps, burst });
    }
}

#[test]
fn rolls_follow_the_shift_register() {
    let mut state = JitterState::new();
    let mut cur = 0x9E37_79B9_7F4A_7C15u64;
    for _ in 0..1000 {
        cur ^= cur << 13;
        cur ^= cur >> 7;
        cur ^= cur << 17;
        assert_eq!(next_jitter_roll(&mut state), cur as u32);
        assert_eq!(state.cur, cur);
        assert_ne!(state.cur, 0);
    }
}

#[test]
fn chunks_stay_within_a_tenth_and_within_bounds() {
    assert_eq!(scaled_chunk(1000, 0), 900);
    assert_eq!(scaled_chunk(1000, 10), 1000);
    assert_eq!(scaled_chunk(1000, 20), 1100);
    assert_eq!(scaled_chunk(1000, 21), 900);
    assert_eq!(scaled_chunk(CHUNK, 20), CHUNK);
    assert_eq!(scaled_chunk(u32::MAX, 0), 14745);
    assert_eq!(scaled_chunk(0, 0), 1);
    assert_eq!(scaled_chunk(1, 5), 1);
    let mut state = JitterState::new();
    for base in 1..=CHUNK {
        let n = jittered_chunk(base, &mut state);
        assert!(n >= 1 && n <= CHUNK);
        assert!(n >= base * 90 / 100 && n <= base * 110 / 100);
    }
}

#[test]
fn requests_fit_the_room() {
    let mut state = JitterState::new();
    assert_eq!(request_size(0, &mut state), 0);
    for room in [1usize, 2, 10, 100, 16384, 16385, 1 << 20, u32::MAX as usize] {
        for _ in 0..100 {
            let n = request_size(room, &mut state);
            assert!(n >= 1 && n as usize <= room && n <= CHUNK);
        }
    }
}

#[test]
fn verdicts_are_followed() {
    assert_eq!(follow(Verdict::Pass, 7), PollPlan::Transfer { n: 7 });
    assert_eq!(follow(Verdict::NotBefore(5), 7), PollPlan::Wait { nanos: 5 });
    assert_eq!(follow(Verdict::TooLarge, 7), PollPlan::Wait { nanos: 10_000_000 });
}

#[test]
fn first_settings_of_a_tunnel_are_shared() {
    let mut pool = RateLimiterPool::new();
    let (r1, w1) = pool.wrap(1, Some(2), Some(3), "r", "w");
    let (r2, w2) = pool.wrap(1, None, Some(9), "r2", "w2");
    let (r3, w3) = pool.wrap(2, Some(1), None, (), ());
    assert_eq!((r1.inner, w1.inner), ("r", "w"));
    assert!(Arc::ptr_eq(r1.limiter.as_ref().unwrap(), r2.limiter.as_ref().unwrap()));
    assert!(Arc::ptr_eq(w1.limiter.as_ref().unwrap(), w2.limiter.as_ref().unwrap()));
    assert!(!Arc::ptr_eq(r1.limiter.as_ref().unwrap(), w1.limiter.as_ref().unwrap()));
    assert!(!Arc::ptr_eq(r1.limiter.as_ref().unwrap(), r3.limiter.as_ref().unwrap()));
    assert!(w3.limiter.is_none());
}

#[test]
fn reading_is_limited_by_the_upload_setting() {
    let mut pool = RateLimiterPool::new();
    let (r, w) = pool.wrap(1, Some(5), None, (), ());
    assert!(r.limiter.is_some() && w.limiter.is_none());
    let (r, w) = pool.wrap(2, None, Some(5), (), ());
    assert!(r.limiter.is_none() && w.limiter.is_some());
}

#[test]
fn every_verdict_is_followed_on_the_chunk_that_was_asked_for() {
    for verdict in [Verdict::Pass, Verdict::NotBefore(77), Verdict::TooLarge] {
        let asked = std::cell::Cell::new(None);
        let mut state = JitterState::new();
        let mut twin = state;
        let plan = poll_with(1000, &mut state, |n| {
            asked.set(Some(n));
            verdict
        });
        let n = request_size(1000, &mut twin);
        assert_eq!(asked.get(), Some(n));
        assert_eq!(plan, follow(verdict, n));
        assert_eq!(state, twin);
    }
}

#[test]
fn streams_sleep_pass_and_wait() {
    let mut state = JitterState::new();
    let before = state;
    assert_eq!(plan_poll(true, &None, 0, &mut state), PollPlan::Sleeping);
    assert_eq!(state, before);
    assert!(matches!(
        plan_poll(false, &None, 100, &mut state),
        PollPlan::Transfer { n } if (90..=100).contains(&n)
    ));
    assert_eq!(plan_poll(false, &None, 0, &mut state), PollPlan::Transfer { n: 0 });

    let mut pool = RateLimiterPool::new();
    let (r, _) = pool.wrap(1, Some(1), None, (), ());
    let mut moved: u64 = 0;
    let waited = loop {
        match plan_poll(false, &r.limiter, 1 << 20, &mut state) {
            PollPlan::Transfer { n } => moved += u64::from(n),
            PollPlan::Wait { nanos } => break nanos,
            PollPlan::Sleeping => unreachable!(),
        }
    };
    assert!(moved >= 1258291 - 16384);
    assert!(waited > 0 && waited < 1_000_000_000);
}

#[test]
fn zero_setting_puts_off_more_than_a_byte() {
    let mut state = JitterState::new();
    let mut pool = RateLimiterPool::new();
    let (_, w) = pool.wrap(1, None, Some(0), (), ());
    for _ in 0..10 {
        assert_eq!(
            plan_poll(false, &w.limiter, 100, &mut state),
            PollPlan::Wait { nanos: 10_000_000 }
        );
    }
    assert_eq!(plan_poll(false, &w.limiter, 1, &mut state), PollPlan::Transfer { n: 1 });
    assert!(matches!(
        plan_poll(false, &w.limiter, 1, &mut state),
        PollPlan::Wait { nanos } if nanos > 10_000_000
    ));
}

#[test]
fn different_states_roll_on_to_different_states() {
    let mut seen = Vec::new();
    for start in 1..200u64 {
        let mut state = JitterState { cur: start };
        next_jitter_roll(&mut state);
        assert_ne!(state.cur, 0);
        assert!(!seen.contains(&state.cur));
        seen.push(state.cur);
    }
}

#[test]
fn no_request_is_larger_than_a_burst() {
    let mut state = JitterState::new();
    for m in [1u16, 2, 10, 4095, 4096, 65535] {
        for room in [1usize, 16384, 1 << 24] {
            assert!(request_size(room, &mut state) <= quota(m).burst);
        }
    }
}

#[test]
fn higher_setting_never_gives_a_lower_rate() {
    for m in 1..=u16::MAX {
        let (less, more) = (quota(m - 1), quota(m));
        assert!(less.per_second <= more.per_second);
        assert!(less.burst <= more.burst);
        assert!(more.per_second <= more.burst);
    }
}

#[test]
fn calls_hand_out_the_steps_one_by_one() {
    let mut one = JitterState { cur: 7 };
    let mut results = Vec::new();
    for _ in 0..50 {
        results.push(next_jitter_roll(&mut one));
    }
    let mut cur = 7u64;
    for r in results {
        cur ^= cur << 13;
        cur ^= cur >> 7;
        cur ^= cur << 17;
        assert_eq!(r, cur as u32);
    }
    assert_eq!(one.cur, cur);
}

#[test]
fn directions_and_tunnels_have_budgets_of_their_own() {
    let mut state = JitterState::new();
    let mut pool = RateLimiterPool::new();
    let (r, w) = pool.wrap(1, Some(1), Some(1), (), ());
    let (other, _) = pool.wrap(2, Some(1), Some(1), (), ());
    assert!(!Arc::ptr_eq(r.limiter.as_ref().unwrap(), w.limiter.as_ref().unwrap()));
    while matches!(plan_poll(false, &r.limiter, 1 << 20, &mut state), PollPlan::Transfer { .. }) {}
    for free in [&w.limiter, &other.limiter] {
        let mut moved: u64 = 0;
        while let PollPlan::Transfer { n } = plan_poll(false, free, 1 << 20, &mut state) {
            moved += u64::from(n);
        }
        assert!(moved >= 1258291 - 16384);
    }
}
