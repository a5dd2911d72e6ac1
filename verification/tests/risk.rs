use login_demo::auth::{EMAIL_IP_LOCK_SECONDS, EMAIL_LOCK_SECONDS, IP_LOCK_SECONDS};
use login_demo::risk::{
    cleared_risk_state, email_ip_key, failure_targets, lock_lookups, lock_policy, lock_remaining,
    next_risk_state, retry_after, success_target, Dimension, Outcome, RiskEvent, RiskState,
};

fn fail(t: i64) -> RiskEvent {
    RiskEvent { outcome: Outcome::Failure, created_at: t }
}

fn ok(t: i64) -> RiskEvent {
    RiskEvent { outcome: Outcome::Success, created_at: t }
}

#[test]
fn names_and_policies_of_dimensions() {
    assert_eq!(Dimension::Email.as_str(), "email");
    assert_eq!(Dimension::Ip.as_str(), "ip");
    assert_eq!(Dimension::EmailIp.as_str(), "email_ip");
    assert_eq!(Outcome::Success.as_str(), "success");
    assert_eq!(Outcome::Failure.as_str(), "failure");
    assert_eq!(lock_policy(Dimension::EmailIp), (5, 900));
    assert_eq!(lock_policy(Dimension::Email), (10, 1_800));
    assert_eq!(lock_policy(Dimension::Ip), (30, 600));
}

#[test]
fn pair_key_joins_with_bar() {
    assert_eq!(email_ip_key("a@b.c", "1.2.3.4"), "a@b.c|1.2.3.4");
}

#[test]
fn failed_login_updates_address_email_and_pair() {
    let targets = failure_targets(Some("a@b.c"), Some("1.2.3.4"));
    let seen: Vec<(Dimension, String, bool)> =
        targets.into_iter().map(|t| (t.dimension, t.key, t.consecutive_failures_only)).collect();
    assert_eq!(
        seen,
        vec![
            (Dimension::Ip, "1.2.3.4".to_string(), false),
            (Dimension::Email, "a@b.c".to_string(), false),
            (Dimension::EmailIp, "a@b.c|1.2.3.4".to_string(), true),
        ]
    );
}

#[test]
fn failure_without_valid_email_counts_only_the_address() {
    let targets = failure_targets(None, Some("1.2.3.4"));
    assert_eq!(targets.len(), 1);
    assert_eq!(targets[0].dimension, Dimension::Ip);
    assert_eq!(targets[0].key, "1.2.3.4");
    assert_eq!(failure_targets(Some("a@b.c"), None).len(), 1);
    assert!(failure_targets(None, None).is_empty());
}

#[test]
fn success_resets_only_the_pair() {
    let t = success_target("a@b.c", Some("1.2.3.4")).unwrap();
    assert_eq!(t.dimension, Dimension::EmailIp);
    assert_eq!(t.key, "a@b.c|1.2.3.4");
    assert!(success_target("a@b.c", None).is_none());
    assert_eq!(cleared_risk_state(50), RiskState { fail_count: 0, window_start_at: 50, locked_until: None });
}

#[test]
fn lookups_cover_email_address_and_pair() {
    let l = lock_lookups(Some("a@b.c"), Some("1.2.3.4"));
    assert_eq!(
        l,
        vec![
            (Dimension::Email, "a@b.c".to_string()),
            (Dimension::Ip, "1.2.3.4".to_string()),
            (Dimension::EmailIp, "a@b.c|1.2.3.4".to_string()),
        ]
    );
    assert_eq!(lock_lookups(None, Some("1.2.3.4")), vec![(Dimension::Ip, "1.2.3.4".to_string())]);
}

#[test]
fn lock_remaining_counts_down_to_zero() {
    assert_eq!(lock_remaining(Some(1_000), 400), 600);
    assert_eq!(lock_remaining(Some(1_000), 999), 1);
    assert_eq!(lock_remaining(Some(1_000), 1_000), 0);
    assert_eq!(lock_remaining(Some(1_000), 5_000), 0);
    assert_eq!(lock_remaining(None, 5), 0);
}

#[test]
fn retry_after_is_the_longest_positive_wait() {
    assert_eq!(retry_after(&[0, 30, 12]), Some(30));
    assert_eq!(retry_after(&[0, 0, 0]), None);
    assert_eq!(retry_after(&[-5]), None);
    assert_eq!(retry_after(&[]), None);
}

#[test]
fn five_consecutive_pair_failures_lock_for_fifteen_minutes() {
    let now = 10_000;
    let events = vec![fail(9_600), fail(9_700), fail(9_800), fail(9_900), fail(10_000)];
    let st = next_risk_state(Dimension::EmailIp, &events, now, true);
    assert_eq!(st.fail_count, 5);
    assert_eq!(st.window_start_at, now - 600);
    assert_eq!(st.locked_until, Some(now + EMAIL_IP_LOCK_SECONDS));
    let four = &events[1..];
    assert_eq!(next_risk_state(Dimension::EmailIp, four, now, true).locked_until, None);
}

#[test]
fn success_breaks_the_consecutive_pair_count() {
    let now = 10_000;
    let events = vec![fail(9_500), fail(9_600), fail(9_700), ok(9_750), fail(9_800), fail(9_900)];
    let st = next_risk_state(Dimension::EmailIp, &events, now, true);
    assert_eq!(st.fail_count, 2);
    assert_eq!(st.locked_until, None);
    let after_success = vec![fail(9_500), fail(9_600), ok(9_700)];
    assert_eq!(next_risk_state(Dimension::EmailIp, &after_success, now, true).fail_count, 0);
}

#[test]
fn old_failures_leave_the_window() {
    let now = 10_000;
    let mut events: Vec<RiskEvent> = (0..9).map(|i| fail(9_401 + i)).collect();
    events.push(fail(9_399));
    let st = next_risk_state(Dimension::Email, &events, now, false);
    assert_eq!(st.fail_count, 9);
    assert_eq!(st.locked_until, None);
    events.push(fail(9_400));
    let st = next_risk_state(Dimension::Email, &events, now, false);
    assert_eq!(st.fail_count, 10);
    assert_eq!(st.locked_until, Some(now + EMAIL_LOCK_SECONDS));
}

#[test]
fn email_and_address_count_all_failures_despite_successes() {
    let now = 1_000;
    let mut events: Vec<RiskEvent> = (0..29).map(|i| fail(900 + i)).collect();
    events.push(ok(950));
    assert_eq!(next_risk_state(Dimension::Ip, &events, now, false).locked_until, None);
    events.push(fail(960));
    let st = next_risk_state(Dimension::Ip, &events, now, false);
    assert_eq!(st.fail_count, 30);
    assert_eq!(st.locked_until, Some(now + IP_LOCK_SECONDS));
}
