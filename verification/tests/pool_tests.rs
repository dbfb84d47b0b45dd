use openmeet_core::errors::RepoError;
use openmeet_core::pool::CassandraConnectionManager;
use openmeet_core::pool::PoolConfig;
use openmeet_core::pool::SessionPool;

#[test]
fn test_pool_exclusivity() {
    // N acquire/release pairs against pool size K = 3: no two held leases
    // ever name the same session.
    let mut pool = SessionPool::new(3);
    let no_probes: Vec<bool> = Vec::new();
    let a = pool.acquire(&no_probes, true).unwrap();
    let b = pool.acquire(&no_probes, true).unwrap();
    let c = pool.acquire(&no_probes, true).unwrap();
    assert_ne!(a, b);
    assert_ne!(a, c);
    assert_ne!(b, c);

    // the ceiling is reached: the next wait can only time out
    let exhausted = pool.acquire(&no_probes, true);
    assert_eq!(exhausted.unwrap_err(), RepoError::PoolExhausted);

    pool.release(b);
    assert_eq!(pool.idle_sessions(), 1);
    let probes = vec![true; pool.idle_sessions()];
    let again = pool.acquire(&probes, true).unwrap();
    assert_eq!(again, b);
}

#[test]
fn test_pool_validation_gate() {
    // A session that fails its pre-lease probe is never returned.
    let mut pool = SessionPool::new(2);
    let no_probes: Vec<bool> = Vec::new();
    let first = pool.acquire(&no_probes, true).unwrap();
    pool.release(first);

    let failing = vec![false];
    let replacement = pool.acquire(&failing, true).unwrap();
    assert_ne!(replacement, first, "a failed session must not be granted");
    assert_eq!(pool.live_sessions(), 1, "the broken session is discarded");
}

#[test]
fn test_pool_reuse_after_release() {
    let mut pool = SessionPool::new(2);
    let no_probes: Vec<bool> = Vec::new();
    let a = pool.acquire(&no_probes, true).unwrap();
    pool.release(a);
    let probes = vec![true];
    let b = pool.acquire(&probes, true).unwrap();
    assert_eq!(a, b, "a validated idle session is reused");
}

#[test]
fn test_pool_connect_failed() {
    let mut pool = SessionPool::new(2);
    let no_probes: Vec<bool> = Vec::new();
    let result = pool.acquire(&no_probes, false);
    assert_eq!(result.unwrap_err(), RepoError::ConnectFailed);
    assert_eq!(pool.live_sessions(), 0);
}

#[test]
fn test_pool_lazy_replacement() {
    // Discarded sessions are replaced lazily, up to the ceiling.
    let mut pool = SessionPool::new(1);
    let no_probes: Vec<bool> = Vec::new();
    let a = pool.acquire(&no_probes, true).unwrap();
    pool.release(a);
    let failing = vec![false];
    let b = pool.acquire(&failing, true).unwrap();
    assert_ne!(a, b);
    pool.release(b);
    assert_eq!(pool.live_sessions(), 1);
}

#[test]
fn test_config_requires_contact_points() {
    let result = PoolConfig::from_settings(None, None, None, 4, 5000);
    assert!(result.is_err());
    assert_eq!(result.unwrap_err(), RepoError::ConnectFailed);
}

#[test]
fn test_config_credentials_pair() {
    let config = PoolConfig::from_settings(
        Some("cassandra.example.net".to_string()),
        Some("alice".to_string()),
        Some("sesame".to_string()),
        4,
        5000,
    )
    .unwrap();
    assert_eq!(config.contact_points, "cassandra.example.net");
    assert_eq!(config.pool_size, 4);
    assert_eq!(config.acquire_timeout_ms, 5000);
    let creds = config.credentials.expect("both halves present");
    assert_eq!(creds.username, "alice");
    assert_eq!(creds.password, "sesame");
}

#[test]
fn test_config_half_credentials_dropped() {
    let config = PoolConfig::from_settings(
        Some("127.0.0.1:9042".to_string()),
        Some("alice".to_string()),
        Some("".to_string()),
        2,
        1000,
    )
    .unwrap();
    assert!(config.credentials.is_none());

    let config = PoolConfig::from_settings(
        Some("127.0.0.1:9042".to_string()),
        None,
        Some("sesame".to_string()),
        2,
        1000,
    )
    .unwrap();
    assert!(config.credentials.is_none());
}

#[test]
fn test_manager_probe_verdict() {
    let manager = CassandraConnectionManager::new("cassandra.example.net");
    // exactly one row from the server-time read means healthy
    assert!(manager.is_valid_result(Some(1)));
    assert!(!manager.is_valid_result(Some(0)));
    assert!(!manager.is_valid_result(Some(2)));
    assert!(!manager.is_valid_result(None));
    assert!(!manager.has_broken());
}
