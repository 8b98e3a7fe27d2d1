//! Domain data shared across the crate: account profiles, inbox snapshots
//! and the notification items they carry.
//!
//! Timestamps are carried as plain integers (seconds since the Unix epoch),
//! so that contracts can compare them directly.

use vstd::prelude::*;

verus! {

/// Login and personal-access-token pair for one tracked account.
/// Immutable once created; replaced wholesale on edit.
#[derive(Clone, Debug)]
pub struct GitHubAccount {
    pub login: String,
    pub token: String,
}

pub ghost struct GitHubAccountView {
    pub login: Seq<char>,
    pub token: Seq<char>,
}

impl View for GitHubAccount {
    type V = GitHubAccountView;

    open spec fn view(&self) -> GitHubAccountView {
        GitHubAccountView { login: self.login@, token: self.token@ }
    }
}

/// One notification thread as shown on the dashboard.
#[derive(Clone, Debug)]
pub struct NotificationItem {
    pub thread_id: String,
    pub repo: String,
    pub title: String,
    pub url: Option<String>,
    pub reason: String,
    pub updated_at: i64,
    pub last_read_at: Option<i64>,
    pub unread: bool,
}

pub ghost struct NotificationItemView {
    pub thread_id: Seq<char>,
    pub repo: Seq<char>,
    pub title: Seq<char>,
    pub url: Option<Seq<char>>,
    pub reason: Seq<char>,
    pub updated_at: int,
    pub last_read_at: Option<int>,
    pub unread: bool,
}

impl View for NotificationItem {
    type V = NotificationItemView;

    open spec fn view(&self) -> NotificationItemView {
        NotificationItemView {
            thread_id: self.thread_id@,
            repo: self.repo@,
            title: self.title@,
            url: match self.url {
                Some(u) => Some(u@),
                None => None,
            },
            reason: self.reason@,
            updated_at: self.updated_at as int,
            last_read_at: match self.last_read_at {
                Some(t) => Some(t as int),
                None => None,
            },
            unread: self.unread,
        }
    }
}

pub open spec fn items_view(items: Seq<NotificationItem>) -> Seq<NotificationItemView> {
    items.map_values(|item: NotificationItem| item@)
}

impl NotificationItem {
    /// A field-for-field copy with the same view.
    pub fn clone_item(&self) -> (r: NotificationItem)
        ensures
            r@ == self@,
    {
        NotificationItem {
            thread_id: self.thread_id.clone(),
            repo: self.repo.clone(),
            title: self.title.clone(),
            url: match &self.url {
                Some(u) => Some(u.clone()),
                None => None,
            },
            reason: self.reason.clone(),
            updated_at: self.updated_at,
            last_read_at: self.last_read_at,
            unread: self.unread,
        }
    }
}

/// One complete, atomically replacing result of a full inbox fetch.
#[derive(Clone, Debug)]
pub struct InboxSnapshot {
    pub notifications: Vec<NotificationItem>,
    pub fetched_at: i64,
}

pub ghost struct InboxSnapshotView {
    pub notifications: Seq<NotificationItemView>,
    pub fetched_at: int,
}

impl View for InboxSnapshot {
    type V = InboxSnapshotView;

    open spec fn view(&self) -> InboxSnapshotView {
        InboxSnapshotView {
            notifications: items_view(self.notifications@),
            fetched_at: self.fetched_at as int,
        }
    }
}

/// An open pull request on which this account's review was requested.
#[derive(Clone, Debug)]
pub struct ReviewRequest {
    pub _id: u64,
    pub repo: String,
    pub title: String,
    pub url: String,
    pub updated_at: i64,
    pub requested_by: Option<String>,
}

/// An open issue or pull request that mentions this account.
#[derive(Clone, Debug)]
pub struct MentionThread {
    pub _id: u64,
    pub repo: String,
    pub title: String,
    pub url: String,
    pub updated_at: i64,
    pub kind: MentionKind,
}

#[derive(Clone, Copy, Debug, PartialEq, Eq, Structural)]
pub enum MentionKind {
    Issue,
    PullRequest,
}

impl MentionKind {
    pub fn label(&self) -> (r: &'static str)
        ensures
            *self is Issue ==> r@ == "Issue"@,
            *self is PullRequest ==> r@ == "Pull request"@,
    {
        match self {
            MentionKind::Issue => "Issue",
            MentionKind::PullRequest => "Pull request",
        }
    }
}

/// A pull request this account recently reviewed.
#[derive(Clone, Debug)]
pub struct ReviewSummary {
    pub _id: u64,
    pub repo: String,
    pub title: String,
    pub url: String,
    pub updated_at: i64,
    pub state: String,
}

} // verus!
