use world_tree::retry::{
    BackoffSeconds, ClientError, CustomRetryPolicy, JsonRpcError, RetryBudget, RetryDecision,
};

fn rpc(code: i64, message: &str) -> ClientError {
    ClientError::JsonRpc(JsonRpcError {
        code,
        message: message.to_string(),
        backoff: BackoffSeconds::Absent,
    })
}

#[test]
fn http_429_is_retried() {
    let p = CustomRetryPolicy::new();
    assert!(p.should_retry(&ClientError::Transport { status: Some(429), timed_out: false }));
    assert!(!p.should_retry(&ClientError::Transport { status: Some(500), timed_out: false }));
    assert!(!p.should_retry(&ClientError::Transport { status: None, timed_out: true }));
}

#[test]
fn rate_limit_codes_are_retried() {
    let p = CustomRetryPolicy::new();
    assert!(p.should_retry(&rpc(429, "")));
    assert!(p.should_retry(&rpc(-32603, "internal")));
    assert!(p.should_retry(&rpc(-32005, "limit exceeded")));
    assert!(p.should_retry(&rpc(-32016, "your rate limit was hit")));
    assert!(!p.should_retry(&rpc(-32016, "something else")));
    assert!(!p.should_retry(&rpc(-32000, "execution reverted")));
}

#[test]
fn known_messages_are_retried() {
    let p = CustomRetryPolicy::new();
    assert!(p.should_retry(&rpc(1, "header not found")));
    assert!(p.should_retry(&rpc(1, "daily request count exceeded, request rate limited")));
    assert!(!p.should_retry(&rpc(1, "header not found!")));
}

#[test]
fn malformed_response_is_classified_by_its_embedded_error() {
    let p = CustomRetryPolicy::new();
    let retry = ClientError::Malformed {
        text: "{\"jsonrpc\":\"2.0\",\"error\":{\"code\":-32005,\"message\":\"limit\"}}".to_string(),
    };
    assert!(p.should_retry(&retry));
    let by_message = ClientError::Malformed {
        text: "{\"error\":{\"code\":3,\"message\":\"header not found\"}}".to_string(),
    };
    assert!(p.should_retry(&by_message));
    let other = ClientError::Malformed {
        text: "{\"error\":{\"code\":3,\"message\":\"nope\"}}".to_string(),
    };
    assert!(!p.should_retry(&other));
    let garbage = ClientError::Malformed { text: "<html>".to_string() };
    assert!(!p.should_retry(&garbage));
}

#[test]
fn backoff_hint_honours_provider_value() {
    let p = CustomRetryPolicy::new();
    let whole = ClientError::JsonRpc(JsonRpcError {
        code: -32005,
        message: "daily request count exceeded, request rate limited".to_string(),
        backoff: BackoffSeconds::Whole(7),
    });
    assert_eq!(p.backoff_hint(&whole), Some(7));
    let frac = ClientError::JsonRpc(JsonRpcError {
        code: -32005,
        message: String::new(),
        backoff: BackoffSeconds::Fractional(2),
    });
    assert_eq!(p.backoff_hint(&frac), Some(3));
    assert_eq!(p.backoff_hint(&rpc(-32005, "x")), None);
    assert_eq!(p.backoff_hint(&ClientError::Transport { status: Some(429), timed_out: false }), None);
}

#[test]
fn three_429s_then_success_takes_four_attempts() {
    let policy = CustomRetryPolicy::new();
    let mut budget = RetryBudget::new(10, 3, 500);
    let mut failures_left = 3;
    let mut attempts = 0;
    let mut delays = Vec::new();
    loop {
        attempts += 1;
        if failures_left == 0 {
            break;
        }
        failures_left -= 1;
        let err = ClientError::Transport { status: Some(429), timed_out: false };
        match budget.on_error(&policy, &err) {
            RetryDecision::Retry(d) => delays.push(d),
            RetryDecision::GiveUp => panic!("gave up on a retryable error"),
        }
    }
    assert_eq!(attempts, 4);
    assert_eq!(delays, vec![500, 1000, 2000]);
}

#[test]
fn retry_budgets_are_counted_apart() {
    let policy = CustomRetryPolicy::new();
    let mut budget = RetryBudget::new(1, 2, 100);
    let limited = ClientError::Transport { status: Some(429), timed_out: false };
    let timeout = ClientError::Transport { status: None, timed_out: true };
    assert_eq!(budget.on_error(&policy, &limited), RetryDecision::Retry(100));
    assert_eq!(budget.on_error(&policy, &limited), RetryDecision::GiveUp);
    assert_eq!(budget.on_error(&policy, &timeout), RetryDecision::Retry(100));
    assert_eq!(budget.on_error(&policy, &timeout), RetryDecision::Retry(200));
    assert_eq!(budget.on_error(&policy, &timeout), RetryDecision::GiveUp);
    let fatal = ClientError::Transport { status: Some(400), timed_out: false };
    assert_eq!(RetryBudget::new(5, 5, 1).on_error(&policy, &fatal), RetryDecision::GiveUp);
}

#[test]
fn provider_hint_sets_the_retry_delay() {
    let policy = CustomRetryPolicy::new();
    let mut budget = RetryBudget::new(3, 0, 500);
    let err = ClientError::JsonRpc(JsonRpcError {
        code: 429,
        message: String::new(),
        backoff: BackoffSeconds::Fractional(1),
    });
    assert_eq!(budget.on_error(&policy, &err), RetryDecision::Retry(2000));
}
