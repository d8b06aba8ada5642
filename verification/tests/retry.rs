use lorn::error::{KubeError, LornError};
use lorn::retry::{retry_with_backoff, Retry, RetryStep};

fn api(code: u16) -> LornError {
    LornError::Kube(KubeError::Api { code, text: "busy".to_string() })
}

fn delays(retries: u32, initial: u64, max: u64, error: &LornError) -> Vec<u64> {
    let mut retry = Retry::new(retries, initial, max);
    let mut delays = Vec::new();
    while let RetryStep::Wait { ms, next } = retry_with_backoff(retry, error) {
        delays.push(ms);
        retry = next;
    }
    delays
}

#[test]
fn only_server_errors_are_retryable() {
    assert!(!api(499).is_retryable());
    assert!(api(500).is_retryable());
    assert!(api(599).is_retryable());
    assert!(!api(600).is_retryable());
    assert!(!api(404).is_retryable());
    assert!(!LornError::Kube(KubeError::Other { text: "eof".to_string() }).is_retryable());
    assert!(!LornError::KubeConfig("missing".to_string()).is_retryable());
    assert!(!LornError::InferConfig("missing".to_string()).is_retryable());
}

#[test]
fn delays_double_up_to_the_maximum() {
    assert_eq!(delays(5, 250, 10_000, &api(503)), [250, 500, 1000, 2000, 4000]);
    assert_eq!(delays(7, 250, 3_000, &api(503)), [250, 500, 1000, 2000, 3000, 3000, 3000]);
    assert_eq!(delays(3, 5_000, 1_000, &api(503)), [1000, 1000, 1000]);
    assert_eq!(delays(2, 1_000, 1_000, &api(503)), [1000, 1000]);
    assert_eq!(delays(2, 250, 0, &api(503)), [0, 0]);
    assert_eq!(delays(2, u64::MAX, u64::MAX, &api(503)), [u64::MAX, u64::MAX]);
    assert_eq!(delays(2, 0, 10, &api(503)), [0, 0]);
}

#[test]
fn no_wait_exceeds_the_maximum_whatever_the_progress() {
    let retry = Retry { attempt: 1, retries: 3, backoff_ms: 9_000, max_backoff_ms: 2_000 };
    match retry_with_backoff(retry, &api(500)) {
        RetryStep::Wait { ms, next } => {
            assert_eq!(ms, 2_000);
            assert_eq!(next.backoff_ms, 2_000);
            assert_eq!(next.attempt, 2);
            assert_eq!(next.retries, 3);
            assert_eq!(next.max_backoff_ms, 2_000);
        }
        RetryStep::GiveUp => panic!("retries are left"),
    }
}

#[test]
fn other_failures_are_final() {
    assert!(delays(5, 250, 10_000, &api(401)).is_empty());
    assert!(delays(0, 250, 10_000, &api(500)).is_empty());
}

#[test]
fn failures_are_described() {
    assert_eq!(api(503).to_string(), "kube error: busy");
    let other = LornError::Kube(KubeError::Other { text: "eof".to_string() });
    assert_eq!(other.to_string(), "kube error: eof");
    assert_eq!(LornError::KubeConfig("a".to_string()).to_string(), "kube config error: a");
    assert_eq!(LornError::InferConfig("b".to_string()).to_string(), "infer config error: b");
}
