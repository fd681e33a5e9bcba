use rust_web_scraper::utils::{get_random_user_agent, user_agents, RateLimiter};

#[test]
fn test_random_user_agent() {
    let agent = get_random_user_agent();
    assert!(!agent.is_empty());
    assert!(user_agents().contains(&agent));
}

#[test]
fn test_rate_limiter_creation() {
    let limiter = RateLimiter::new(5);
    assert_eq!(limiter.delay_ms, 200);

    let default_limiter = RateLimiter::default();
    assert_eq!(default_limiter.delay_ms, 500);
}

#[test]
fn rate_limiter_rounds_down_and_handles_zero() {
    assert_eq!(RateLimiter::new(3).delay(), 333);
    assert_eq!(RateLimiter::new(0).delay(), u64::MAX);
    assert_eq!(RateLimiter::new(2000).delay(), 0);
}
