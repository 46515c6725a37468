use slickcmd::attach::{AttachCount, should_retry_attach, ATTACH_RETRY_LIMIT};

#[test]
fn test_refcount_one_bind_one_unbind() {
    let n = 5;
    let mut count = AttachCount::new();
    let mut binds = 0;
    let mut unbinds = 0;
    for _ in 0..n {
        if count.acquire() {
            binds += 1;
        }
    }
    for _ in 0..n {
        if count.release() {
            unbinds += 1;
        }
    }
    assert_eq!(binds, 1);
    assert_eq!(unbinds, 1);
}

#[test]
fn test_bind_only_on_first_acquire() {
    let mut count = AttachCount::new();
    assert!(count.acquire());
    assert!(!count.acquire());
    assert!(!count.acquire());
    assert!(!count.release());
    assert!(!count.release());
    assert!(count.release());

    // a fresh cycle binds again
    assert!(count.acquire());
    assert!(count.release());
}

#[test]
fn test_retry_policy_is_bounded() {
    assert!(should_retry_attach(0, false));
    assert!(should_retry_attach(ATTACH_RETRY_LIMIT - 1, false));
    assert!(!should_retry_attach(ATTACH_RETRY_LIMIT, false));
    assert!(!should_retry_attach(0, true));
}
