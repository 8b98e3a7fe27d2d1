use chrono::NaiveDateTime;
use reminder::domain::{InboxSnapshot, NotificationItem};
use reminder::stats::{
    classify_reason, filter_bucket, notification_state, section_stats, summarize_counts,
    SectionCounts, SectionKind,
};

fn parse_ts(ts: &str) -> i64 {
    NaiveDateTime::parse_from_str(ts, "%Y-%m-%d %H:%M:%S")
        .unwrap()
        .and_utc()
        .timestamp()
}

fn notif(thread_id: &str, reason: &str, unread: bool, updated: &str) -> NotificationItem {
    NotificationItem {
        thread_id: thread_id.to_string(),
        repo: "acme/repo".to_string(),
        title: "Title".to_string(),
        url: None,
        reason: reason.to_string(),
        updated_at: parse_ts(updated),
        last_read_at: None,
        unread,
    }
}

fn inbox_with_notifications(notifications: Vec<NotificationItem>) -> InboxSnapshot {
    InboxSnapshot {
        notifications,
        fetched_at: chrono::Utc::now().timestamp(),
    }
}

#[test]
fn section_stats_groups_by_reason() {
    let inbox = inbox_with_notifications(vec![
        notif("1", "review_requested", true, "2024-01-01 00:00:00"),
        notif("2", "mention", true, "2024-01-01 00:00:00"),
        notif("3", "subscribed", false, "2024-01-01 00:00:00"),
    ]);
    let stats = section_stats(&inbox);
    assert_eq!(stats.review_requests.unseen, 1);
    assert_eq!(stats.mentions.unseen, 1);
    assert_eq!(stats.notifications.unseen, 0);
}

#[test]
fn section_counts_bumped_on_unseen_increase() {
    let prev = SectionCounts::new(1, 0);
    let next = SectionCounts::new(2, 0);
    assert!(next.bumped_since(&prev));
}

#[test]
fn section_counts_not_bumped_when_same() {
    let prev = SectionCounts::new(1, 1);
    let next = SectionCounts::new(1, 1);
    assert!(!next.bumped_since(&prev));
}

#[test]
fn notification_state_detects_revisit() {
    let mut item = notif("1", "subscribed", false, "2024-01-02 00:00:00");
    item.last_read_at = Some(parse_ts("2024-01-01 00:00:00"));
    let visual = notification_state(&item);
    assert!(visual.needs_revisit);
    assert!(!visual.seen);
}

#[test]
fn mention_updated_after_read_flags_revisit() {
    let mut item = notif("m1", "mention", false, "2024-03-02 00:00:00");
    item.last_read_at = Some(parse_ts("2024-03-01 00:00:00"));
    let visual = notification_state(&item);
    assert!(visual.needs_revisit);
    assert!(!visual.seen);
    assert_eq!(classify_reason(&item.reason), SectionKind::Mentions);
}

#[test]
fn unknown_reason_falls_into_general_bucket() {
    assert_eq!(classify_reason("review_requested"), SectionKind::ReviewRequests);
    assert_eq!(classify_reason("mention"), SectionKind::Mentions);
    assert_eq!(classify_reason("team_mention"), SectionKind::Mentions);
    assert_eq!(classify_reason("ci_activity"), SectionKind::Notifications);
    assert_eq!(classify_reason(""), SectionKind::Notifications);
}

#[test]
fn section_stats_counts_updated_items() {
    let mut stale = notif("4", "subscribed", false, "2024-01-05 00:00:00");
    stale.last_read_at = Some(parse_ts("2024-01-04 00:00:00"));
    let inbox = inbox_with_notifications(vec![
        stale,
        notif("5", "subscribed", false, "2024-01-01 00:00:00"),
    ]);
    let stats = section_stats(&inbox);
    assert_eq!(stats.notifications.unseen, 0);
    assert_eq!(stats.notifications.updated, 1);
    assert_eq!(stats.review_requests.unseen, 0);
    assert_eq!(stats.review_requests.updated, 0);
}

#[test]
fn summarize_counts_tallies_unread_and_updated() {
    let mut revisit = notif("6", "subscribed", false, "2024-01-05 00:00:00");
    revisit.last_read_at = Some(parse_ts("2024-01-04 00:00:00"));
    let items = vec![
        notif("7", "subscribed", true, "2024-01-01 00:00:00"),
        revisit,
        notif("8", "subscribed", false, "2024-01-01 00:00:00"),
    ];
    let (unseen, updated) = summarize_counts(&items);
    assert_eq!(unseen, 1);
    assert_eq!(updated, 1);
}

#[test]
fn filter_bucket_keeps_only_matching_reason_in_order() {
    let items = vec![
        notif("a", "mention", true, "2024-01-01 00:00:00"),
        notif("b", "subscribed", true, "2024-01-01 00:00:00"),
        notif("c", "team_mention", false, "2024-01-01 00:00:00"),
    ];
    let mentions = filter_bucket(&items, SectionKind::Mentions);
    assert_eq!(mentions.len(), 2);
    assert_eq!(mentions[0].thread_id, "a");
    assert_eq!(mentions[1].thread_id, "c");
    let general = filter_bucket(&items, SectionKind::Notifications);
    assert_eq!(general.len(), 1);
    assert_eq!(general[0].thread_id, "b");
}
