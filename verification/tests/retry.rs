use novel::retry::{challenge_body, challenge_title, Attempts, CfAction, CfRetry, RetryStep};

#[test]
fn waits_grow_until_the_last_try() {
    let mut r = CfRetry::new(3, 5);
    assert!(r.should_open());
    assert!(matches!(r.on_page(true), CfAction::Wait(5)));
    assert!(r.should_open());
    assert!(matches!(r.on_page(true), CfAction::Wait(10)));
    assert!(r.should_open());
    assert!(matches!(r.on_page(true), CfAction::GiveUp));
}

#[test]
fn a_clear_page_is_done() {
    let mut r = CfRetry::new(3, 5);
    assert!(matches!(r.on_page(false), CfAction::Done));
    assert_eq!(r.attempt, 0);
}

#[test]
fn no_tries_allowed() {
    let r = CfRetry::new(0, 5);
    assert!(!r.should_open());
    assert!(r.wait_fits());
    assert!(!CfRetry::new(2, u64::MAX).wait_fits());
}

#[test]
fn challenge_page_signs() {
    assert!(challenge_body("Please wait. Verifying you are human. This may take a few seconds."));
    assert!(!challenge_body("chapter text"));
    assert!(challenge_title("  Just a moment...\n"));
    assert!(!challenge_title("Just a moment"));
}

#[test]
fn attempts_give_up_at_the_limit() {
    let mut a = Attempts::new(3);
    assert!(a.should_try());
    assert!(matches!(a.on_failure(), RetryStep::Again));
    assert!(a.should_try());
    assert!(matches!(a.on_failure(), RetryStep::Again));
    assert!(a.should_try());
    assert!(matches!(a.on_failure(), RetryStep::GiveUp));
    assert_eq!(a.made, 3);
    assert!(!a.should_try());
}

#[test]
fn no_attempt_when_none_allowed() {
    let a = Attempts::new(0);
    assert!(!a.should_try());
}
