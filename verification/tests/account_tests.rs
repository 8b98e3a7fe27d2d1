use chrono::NaiveDateTime;
use reminder::account::{maybe_auto_refresh, AccountState};
use reminder::domain::{GitHubAccount, InboxSnapshot, NotificationItem};
use reminder::github::FetchError;
use reminder::scheduler::BatchRefreshScheduler;
use reminder::stats::{section_stats, SectionKind};

fn parse_ts(ts: &str) -> i64 {
    NaiveDateTime::parse_from_str(ts, "%Y-%m-%d %H:%M:%S")
        .unwrap()
        .and_utc()
        .timestamp()
}

fn notif(thread_id: &str, reason: &str, unread: bool, updated: &str) -> NotificationItem {
    NotificationItem {
        thread_id: thread_id.to_string(),
        repo: "acme/repo".to_string(),
        title: "Title".to_string(),
        url: None,
        reason: reason.to_string(),
        updated_at: parse_ts(updated),
        last_read_at: None,
        unread,
    }
}

fn inbox_with_notifications(notifications: Vec<NotificationItem>) -> InboxSnapshot {
    InboxSnapshot {
        notifications,
        fetched_at: chrono::Utc::now().timestamp(),
    }
}

fn dummy_profile() -> GitHubAccount {
    GitHubAccount {
        login: "user".to_string(),
        token: "token".to_string(),
    }
}

#[test]
fn highlight_clears_after_rendering_section() {
    let mut account = AccountState::new(dummy_profile());
    account.inbox = Some(inbox_with_notifications(vec![notif(
        "t1",
        "subscribed",
        true,
        "2024-01-01 00:00:00",
    )]));
    account.highlights.insert(SectionKind::Notifications);

    // The controller presents the section's contents, then clears the mark.
    account.clear_highlight(SectionKind::Notifications);

    assert!(
        !account.highlights.contains(SectionKind::Notifications),
        "Highlight should clear after section is rendered"
    );
}

#[test]
fn fresh_fetch_highlights_new_review_request() {
    let mut account = AccountState::new(dummy_profile());
    assert!(account.inbox.is_none());
    let empty = InboxSnapshot {
        notifications: Vec::new(),
        fetched_at: 0,
    };
    let zero = section_stats(&empty);
    assert_eq!((zero.review_requests.unseen, zero.review_requests.updated), (0, 0));
    assert_eq!((zero.mentions.unseen, zero.mentions.updated), (0, 0));
    assert_eq!((zero.notifications.unseen, zero.notifications.updated), (0, 0));
    assert!(account.needs_refresh_at(1000, 180));

    account.start_refresh();
    assert!(account.fetch_pending);

    let snap = inbox_with_notifications(vec![notif(
        "r1",
        "review_requested",
        true,
        "2024-01-01 00:00:00",
    )]);
    account.poll_job(Some(Ok(snap)));

    assert!(account.highlights.contains(SectionKind::ReviewRequests));
    assert!(account.last_error.is_none());
    assert!(!account.fetch_pending);
    assert_eq!(account.inbox.as_ref().unwrap().notifications.len(), 1);
}

#[test]
fn mark_done_success_applies_optimistic_edit() {
    let mut account = AccountState::new(dummy_profile());
    account.inbox = Some(inbox_with_notifications(vec![notif(
        "t1",
        "subscribed",
        true,
        "2024-01-01 00:00:00",
    )]));

    let ticket = account.request_mark_done("t1".to_string());
    assert!(ticket.is_some());
    assert_eq!(account.pending_actions.len(), 1);

    // A second request before the first completes is a no-op.
    let again = account.request_mark_done("t1".to_string());
    assert!(again.is_none());
    assert_eq!(account.pending_actions.len(), 1);

    account.poll_action("t1", Ok(()), 777);
    let item = &account.inbox.as_ref().unwrap().notifications[0];
    assert!(!item.unread);
    assert_eq!(item.last_read_at, Some(777));
    assert!(account.inflight_done.is_empty());
    assert!(account.pending_actions.is_empty());
}

#[test]
fn mark_read_success_uses_item_update_instant() {
    let updated = parse_ts("2024-02-01 00:00:00");
    let mut account = AccountState::new(dummy_profile());
    account.inbox = Some(inbox_with_notifications(vec![notif(
        "t2",
        "subscribed",
        true,
        "2024-02-01 00:00:00",
    )]));

    let ticket = account.request_mark_read("t2".to_string());
    assert!(ticket.is_some());
    account.poll_action("t2", Ok(()), 999_999_999);

    let item = &account.inbox.as_ref().unwrap().notifications[0];
    assert!(!item.unread);
    assert_eq!(item.last_read_at, Some(updated));
}

#[test]
fn action_failure_sets_error_and_allows_retry() {
    let mut account = AccountState::new(dummy_profile());
    account.inbox = Some(inbox_with_notifications(vec![notif(
        "t3",
        "subscribed",
        true,
        "2024-01-01 00:00:00",
    )]));

    assert!(account.request_mark_read("t3".to_string()).is_some());
    account.poll_action("t3", Err("boom".to_string()), 5);

    assert_eq!(account.last_error.as_deref(), Some("boom"));
    assert!(account.inflight_done.is_empty());
    let item = &account.inbox.as_ref().unwrap().notifications[0];
    assert!(item.unread);
    assert!(account.request_mark_read("t3".to_string()).is_some());
}

#[test]
fn mark_notification_seen_is_idempotent() {
    let mut account = AccountState::new(dummy_profile());
    account.inbox = Some(inbox_with_notifications(vec![
        notif("t4", "subscribed", true, "2024-01-01 00:00:00"),
        notif("t5", "mention", true, "2024-01-02 00:00:00"),
    ]));

    account.mark_notification_seen("t4");
    let once = format!("{:?}", account.inbox);
    account.mark_notification_seen("t4");
    assert_eq!(format!("{:?}", account.inbox), once);

    let item = &account.inbox.as_ref().unwrap().notifications[0];
    assert!(!item.unread);
    assert_eq!(item.last_read_at, Some(item.updated_at));
    assert!(account.inflight_done.is_empty());
}

#[test]
fn fetch_failure_keeps_stale_snapshot() {
    let mut account = AccountState::new(dummy_profile());
    account.inbox = Some(inbox_with_notifications(vec![notif(
        "t6",
        "subscribed",
        true,
        "2024-01-01 00:00:00",
    )]));

    account.start_refresh();
    account.poll_job(Some(Err(FetchError::Http("x".to_string()))));

    assert_eq!(account.last_error.as_deref(), Some("GitHub API request failed: x"));
    assert_eq!(account.inbox.as_ref().unwrap().notifications.len(), 1);
    assert!(!account.fetch_pending);
}

#[test]
fn error_messages_render_each_variant() {
    assert_eq!(
        FetchError::MissingToken.message(),
        "Account token is missing"
    );
    assert_eq!(
        FetchError::BackgroundWorkerGone.message(),
        "Background worker disconnected before returning a result"
    );
    assert_eq!(
        FetchError::Http("404".to_string()).message(),
        "GitHub API request failed: 404"
    );
}

#[test]
fn needs_refresh_threshold_boundary() {
    let mut account = AccountState::new(dummy_profile());
    assert!(account.needs_refresh_at(0, 180));
    account.inbox = Some(InboxSnapshot {
        notifications: Vec::new(),
        fetched_at: 100,
    });
    assert!(account.needs_refresh_at(280, 180));
    assert!(account.needs_refresh_at(281, 180));
    assert!(!account.needs_refresh_at(279, 180));
}

#[test]
fn auto_refresh_gates_on_pending_and_staleness() {
    let mut fresh = AccountState::new(dummy_profile());
    fresh.inbox = Some(InboxSnapshot {
        notifications: Vec::new(),
        fetched_at: 1030,
    });
    let mut stale = AccountState::new(dummy_profile());
    stale.inbox = Some(InboxSnapshot {
        notifications: Vec::new(),
        fetched_at: 100,
    });
    let mut busy = AccountState::new(dummy_profile());
    busy.start_refresh();

    let mut accounts = vec![fresh, stale, busy];
    let mut scheduler = BatchRefreshScheduler::new(60);

    let started = maybe_auto_refresh(&mut accounts, &mut scheduler, 1000);
    assert_eq!(started, vec![1usize]);
    assert!(accounts[1].fetch_pending);
    assert!(!accounts[0].fetch_pending);
    assert_eq!(scheduler.last_run, Some(1000));

    // Right after firing the window is closed.
    let none_started = maybe_auto_refresh(&mut accounts, &mut scheduler, 1001);
    assert!(none_started.is_empty());
    assert_eq!(scheduler.last_run, Some(1000));

    // A due pass with nothing to do must not reset the window.
    let idle = maybe_auto_refresh(&mut accounts, &mut scheduler, 1061);
    assert!(idle.is_empty());
    assert_eq!(scheduler.last_run, Some(1000));
}
