//! The per-account state machine: it owns the profile, the last accepted
//! inbox snapshot, the pending fetch flag, the records of in-flight remote
//! actions, and the section highlights, and it applies fetch results and
//! action outcomes to local state.
//!
//! Background work happens outside the library: a caller spawns one worker
//! per fetch or action, polls its completion channel, and hands the
//! delivered outcome to `poll_job` or `poll_action` as plain values.

use vstd::prelude::*;
use crate::clock::now_epoch_seconds;
use crate::domain::{GitHubAccount, GitHubAccountView, InboxSnapshot, InboxSnapshotView,
    NotificationItem, NotificationItemView, items_view};
use crate::github::{error_text, FetchError};
use crate::scheduler::{due_at, BatchRefreshScheduler, BatchRefreshSchedulerView};
use crate::stats::{count_unseen, count_updated, section_stats, SectionCounts, SectionKind,
    SectionStats};
use crate::text::str_eq;

verus! {

/// The two remote actions a background job can perform on one thread.
#[derive(Clone, Copy, Debug, PartialEq, Eq, Structural)]
pub enum ActionKind {
    MarkRead,
    MarkDone,
}

/// The record of one spawned remote action that has not completed yet.
#[derive(Debug)]
pub struct ActionTicket {
    pub thread_id: String,
    pub kind: ActionKind,
}

pub ghost struct ActionTicketView {
    pub thread_id: Seq<char>,
    pub kind: ActionKind,
}

impl View for ActionTicket {
    type V = ActionTicketView;

    open spec fn view(&self) -> ActionTicketView {
        ActionTicketView { thread_id: self.thread_id@, kind: self.kind }
    }
}

pub open spec fn tickets_view(tickets: Seq<ActionTicket>) -> Seq<ActionTicketView> {
    tickets.map_values(|t: ActionTicket| t@)
}

pub open spec fn ids_view(ids: Seq<String>) -> Seq<Seq<char>> {
    ids.map_values(|s: String| s@)
}

/// Which dashboard sections are currently emphasized.
#[derive(Clone, Copy, Debug, PartialEq, Eq, Structural)]
pub struct SectionHighlights {
    pub review_requests: bool,
    pub mentions: bool,
    pub notifications: bool,
}

pub open spec fn highlight_contains(h: SectionHighlights, kind: SectionKind) -> bool {
    match kind {
        SectionKind::ReviewRequests => h.review_requests,
        SectionKind::Mentions => h.mentions,
        SectionKind::Notifications => h.notifications,
    }
}

pub open spec fn highlight_insert(h: SectionHighlights, kind: SectionKind) -> SectionHighlights {
    match kind {
        SectionKind::ReviewRequests => SectionHighlights { review_requests: true, ..h },
        SectionKind::Mentions => SectionHighlights { mentions: true, ..h },
        SectionKind::Notifications => SectionHighlights { notifications: true, ..h },
    }
}

pub open spec fn highlight_remove(h: SectionHighlights, kind: SectionKind) -> SectionHighlights {
    match kind {
        SectionKind::ReviewRequests => SectionHighlights { review_requests: false, ..h },
        SectionKind::Mentions => SectionHighlights { mentions: false, ..h },
        SectionKind::Notifications => SectionHighlights { notifications: false, ..h },
    }
}

impl SectionHighlights {
    pub fn empty() -> (r: SectionHighlights)
        ensures
            r == (SectionHighlights {
                review_requests: false,
                mentions: false,
                notifications: false,
            }),
    {
        SectionHighlights { review_requests: false, mentions: false, notifications: false }
    }

    pub fn contains(&self, kind: SectionKind) -> (r: bool)
        ensures
            r == highlight_contains(*self, kind),
    {
        match kind {
            SectionKind::ReviewRequests => self.review_requests,
            SectionKind::Mentions => self.mentions,
            SectionKind::Notifications => self.notifications,
        }
    }

    pub fn insert(&mut self, kind: SectionKind)
        ensures
            *final(self) == highlight_insert(*old(self), kind),
    {
        match kind {
            SectionKind::ReviewRequests => self.review_requests = true,
            SectionKind::Mentions => self.mentions = true,
            SectionKind::Notifications => self.notifications = true,
        }
    }

    pub fn remove(&mut self, kind: SectionKind)
        ensures
            *final(self) == highlight_remove(*old(self), kind),
    {
        match kind {
            SectionKind::ReviewRequests => self.review_requests = false,
            SectionKind::Mentions => self.mentions = false,
            SectionKind::Notifications => self.notifications = false,
        }
    }
}

/// One tracked account's runtime state.
pub struct AccountState {
    pub profile: GitHubAccount,
    pub inbox: Option<InboxSnapshot>,
    pub last_error: Option<String>,
    pub fetch_pending: bool,
    pub pending_actions: Vec<ActionTicket>,
    pub inflight_done: Vec<String>,
    pub highlights: SectionHighlights,
}

pub ghost struct AccountStateView {
    pub profile: GitHubAccountView,
    pub inbox: Option<InboxSnapshotView>,
    pub last_error: Option<Seq<char>>,
    pub fetch_pending: bool,
    pub pending_actions: Seq<ActionTicketView>,
    pub inflight_done: Seq<Seq<char>>,
    pub highlights: SectionHighlights,
}

impl View for AccountState {
    type V = AccountStateView;

    open spec fn view(&self) -> AccountStateView {
        AccountStateView {
            profile: self.profile@,
            inbox: match self.inbox {
                Some(ib) => Some(ib@),
                None => None,
            },
            last_error: match self.last_error {
                Some(e) => Some(e@),
                None => None,
            },
            fetch_pending: self.fetch_pending,
            pending_actions: tickets_view(self.pending_actions@),
            inflight_done: ids_view(self.inflight_done@),
            highlights: self.highlights,
        }
    }
}

/// A thread id is recorded as having a remote action in flight.
pub open spec fn inflight_contains(ids: Seq<Seq<char>>, id: Seq<char>) -> bool {
    exists|i: int| 0 <= i < ids.len() && ids[i] == id
}

/// The notifications of a snapshot that may be absent: an account without
/// an inbox counts as having none.
pub open spec fn snapshot_items(inbox: Option<InboxSnapshotView>) -> Seq<NotificationItemView> {
    match inbox {
        Some(ib) => ib.notifications,
        None => Seq::empty(),
    }
}

/// A bucket's unseen or updated tally is strictly greater in the new
/// snapshot than in the previous one.
pub open spec fn section_bumped(
    prev: Option<InboxSnapshotView>,
    snap: InboxSnapshotView,
    kind: SectionKind,
) -> bool {
    count_unseen(snap.notifications, kind) > count_unseen(snapshot_items(prev), kind)
        || count_updated(snap.notifications, kind) > count_updated(snapshot_items(prev), kind)
}

pub open spec fn bumped_highlights(
    h: SectionHighlights,
    prev: Option<InboxSnapshotView>,
    snap: InboxSnapshotView,
) -> SectionHighlights {
    SectionHighlights {
        review_requests: h.review_requests || section_bumped(
            prev,
            snap,
            SectionKind::ReviewRequests,
        ),
        mentions: h.mentions || section_bumped(prev, snap, SectionKind::Mentions),
        notifications: h.notifications || section_bumped(prev, snap, SectionKind::Notifications),
    }
}

/// The state after a fetch job delivered a fresh snapshot: the snapshot
/// replaces the inbox, the error clears, and every bucket whose unseen or
/// updated count grew joins the highlight set.
pub open spec fn after_fetch_success(
    s: AccountStateView,
    snap: InboxSnapshotView,
) -> AccountStateView {
    AccountStateView {
        inbox: Some(snap),
        last_error: None,
        fetch_pending: false,
        highlights: bumped_highlights(s.highlights, s.inbox, snap),
        ..s
    }
}

/// The state after a fetch job failed: the stale snapshot stays visible and
/// only the error text changes.
pub open spec fn after_fetch_error(s: AccountStateView, e: FetchError) -> AccountStateView {
    AccountStateView { last_error: Some(error_text(e)), fetch_pending: false, ..s }
}

impl AccountState {
    pub fn new(profile: GitHubAccount) -> (r: AccountState)
        ensures
            r@.profile == profile@,
            r@.inbox is None,
            r@.last_error is None,
            !r@.fetch_pending,
            r@.pending_actions == Seq::<ActionTicketView>::empty(),
            r@.inflight_done == Seq::<Seq<char>>::empty(),
            r@.highlights == (SectionHighlights {
                review_requests: false,
                mentions: false,
                notifications: false,
            }),
            account_wf(r@),
    {
        let r = AccountState {
            profile,
            inbox: None,
            last_error: None,
            fetch_pending: false,
            pending_actions: Vec::new(),
            inflight_done: Vec::new(),
            highlights: SectionHighlights::empty(),
        };
        proof {
            assert(tickets_view(r.pending_actions@) =~= Seq::<ActionTicketView>::empty());
            assert(ids_view(r.inflight_done@) =~= Seq::<Seq<char>>::empty());
            assert(ticket_ids(r@.pending_actions) =~= r@.inflight_done);
        }
        r
    }

    /// Discards interest in any previous fetch, clears the error, and
    /// marks a new full-inbox fetch as pending. The caller spawns the
    /// matching background worker.
    pub fn start_refresh(&mut self)
        ensures
            final(self)@ == (AccountStateView {
                last_error: None,
                fetch_pending: true,
                ..old(self)@
            }),
    {
        self.last_error = None;
        self.fetch_pending = true;
    }

    /// Whether a remote action for this thread is already in flight.
    pub fn is_inflight(&self, thread_id: &str) -> (r: bool)
        ensures
            r == inflight_contains(self@.inflight_done, thread_id@),
    {
        let n = self.inflight_done.len();
        let mut i: usize = 0;
        while i < n
            invariant
                n == self.inflight_done@.len(),
                0 <= i <= n,
                forall|k: int| 0 <= k < i ==> self@.inflight_done[k] != thread_id@,
            decreases n - i,
        {
            if str_eq(self.inflight_done[i].as_str(), thread_id) {
                proof {
                    assert(self@.inflight_done[i as int] == thread_id@);
                }
                return true;
            }
            i += 1;
        }
        false
    }

    /// No snapshot exists yet, or the one held is at least this stale.
    pub fn needs_refresh_at(&self, now: i64, threshold_secs: i64) -> (r: bool)
        ensures
            r == needs_refresh_spec(self@, now as int, threshold_secs as int),
    {
        match &self.inbox {
            None => true,
            Some(ib) => (now as i128) - (ib.fetched_at as i128) >= (threshold_secs as i128),
        }
    }

    /// `needs_refresh_at`, read against the wall clock.
    pub fn needs_refresh(&self, threshold_secs: i64) -> (r: bool)
        ensures
            self@.inbox is None ==> r,
    {
        let now = now_epoch_seconds();
        self.needs_refresh_at(now, threshold_secs)
    }

    /// Drops a section from the highlight set, to be called right after
    /// that section's contents were actually presented.
    pub fn clear_highlight(&mut self, kind: SectionKind)
        ensures
            final(self)@ == (AccountStateView {
                highlights: highlight_remove(old(self)@.highlights, kind),
                ..old(self)@
            }),
    {
        self.highlights.remove(kind);
    }
}

/// No snapshot exists yet, or it is at least `threshold` seconds old.
pub open spec fn needs_refresh_spec(s: AccountStateView, now: int, threshold: int) -> bool {
    match s.inbox {
        None => true,
        Some(ib) => now - ib.fetched_at >= threshold,
    }
}

/// One item after a read edit: marked read, with the read timestamp
/// advanced to the item's own update instant so the revisit badge clears
/// unless further activity arrives.
pub open spec fn item_marked_read(item: NotificationItemView) -> NotificationItemView {
    NotificationItemView { unread: false, last_read_at: Some(item.updated_at), ..item }
}

/// One item after a done edit: marked read as of the given instant.
pub open spec fn item_marked_done(item: NotificationItemView, now: int) -> NotificationItemView {
    NotificationItemView { unread: false, last_read_at: Some(now), ..item }
}

/// The optimistic edit a successful remote action applies to its item.
/// A read edit ignores the instant.
pub open spec fn edit_of(kind: ActionKind, item: NotificationItemView, now: int)
    -> NotificationItemView {
    match kind {
        ActionKind::MarkRead => item_marked_read(item),
        ActionKind::MarkDone => item_marked_done(item, now),
    }
}

/// The item listing with the first item of the given thread edited; a
/// listing without that thread is unchanged.
pub open spec fn mark_first_match(
    items: Seq<NotificationItemView>,
    id: Seq<char>,
    kind: ActionKind,
    now: int,
) -> Seq<NotificationItemView>
    decreases items.len(),
{
    if items.len() == 0 {
        Seq::empty()
    } else if items[0].thread_id == id {
        seq![edit_of(kind, items[0], now)] + items.drop_first()
    } else {
        seq![items[0]] + mark_first_match(items.drop_first(), id, kind, now)
    }
}

/// The inbox after the optimistic edit of one thread; an absent inbox, or
/// one that no longer holds the thread, is unchanged.
pub open spec fn inbox_after_edit(
    inbox: Option<InboxSnapshotView>,
    id: Seq<char>,
    kind: ActionKind,
    now: int,
) -> Option<InboxSnapshotView> {
    match inbox {
        Some(ib) => Some(
            InboxSnapshotView {
                notifications: mark_first_match(ib.notifications, id, kind, now),
                ..ib
            },
        ),
        None => None,
    }
}

pub proof fn lemma_mark_first_match_found(
    items: Seq<NotificationItemView>,
    id: Seq<char>,
    kind: ActionKind,
    now: int,
    j: int,
)
    requires
        0 <= j < items.len(),
        items[j].thread_id == id,
        forall|k: int| 0 <= k < j ==> items[k].thread_id != id,
    ensures
        mark_first_match(items, id, kind, now) == items.update(j, edit_of(kind, items[j], now)),
    decreases j,
{
    if j == 0 {
        assert(seq![edit_of(kind, items[0], now)] + items.drop_first() =~= items.update(
            0,
            edit_of(kind, items[0], now),
        ));
    } else {
        assert(items[0].thread_id != id);
        assert(items.drop_first()[j - 1] == items[j]);
        assert forall|k: int| 0 <= k < j - 1 implies items.drop_first()[k].thread_id != id by {
            assert(items.drop_first()[k] == items[k + 1]);
        }
        lemma_mark_first_match_found(items.drop_first(), id, kind, now, j - 1);
        assert(seq![items[0]] + items.drop_first().update(j - 1, edit_of(kind, items[j], now))
            =~= items.update(j, edit_of(kind, items[j], now)));
    }
}

pub proof fn lemma_mark_first_match_absent(
    items: Seq<NotificationItemView>,
    id: Seq<char>,
    kind: ActionKind,
    now: int,
)
    requires
        forall|k: int| 0 <= k < items.len() ==> items[k].thread_id != id,
    ensures
        mark_first_match(items, id, kind, now) == items,
    decreases items.len(),
{
    if items.len() == 0 {
        assert(mark_first_match(items, id, kind, now) =~= items);
    } else {
        assert forall|k: int|
            0 <= k < items.drop_first().len() implies items.drop_first()[k].thread_id != id by {
            assert(items.drop_first()[k] == items[k + 1]);
        }
        lemma_mark_first_match_absent(items.drop_first(), id, kind, now);
        assert(seq![items[0]] + items.drop_first() =~= items);
    }
}

/// The kind of the first pending action for the given thread, if any.
pub open spec fn find_ticket(tickets: Seq<ActionTicketView>, id: Seq<char>) -> Option<ActionKind>
    decreases tickets.len(),
{
    if tickets.len() == 0 {
        None
    } else if tickets[0].thread_id == id {
        Some(tickets[0].kind)
    } else {
        find_ticket(tickets.drop_first(), id)
    }
}

/// The pending actions with the first record of the given thread removed.
pub open spec fn remove_first_ticket(tickets: Seq<ActionTicketView>, id: Seq<char>) -> Seq<
    ActionTicketView,
>
    decreases tickets.len(),
{
    if tickets.len() == 0 {
        Seq::empty()
    } else if tickets[0].thread_id == id {
        tickets.drop_first()
    } else {
        seq![tickets[0]] + remove_first_ticket(tickets.drop_first(), id)
    }
}

/// The in-flight id list with the first copy of the given id removed.
pub open spec fn remove_first_id(ids: Seq<Seq<char>>, id: Seq<char>) -> Seq<Seq<char>>
    decreases ids.len(),
{
    if ids.len() == 0 {
        Seq::empty()
    } else if ids[0] == id {
        ids.drop_first()
    } else {
        seq![ids[0]] + remove_first_id(ids.drop_first(), id)
    }
}

pub proof fn lemma_remove_first_ticket_found(tickets: Seq<ActionTicketView>, id: Seq<char>, j: int)
    requires
        0 <= j < tickets.len(),
        tickets[j].thread_id == id,
        forall|k: int| 0 <= k < j ==> tickets[k].thread_id != id,
    ensures
        remove_first_ticket(tickets, id) == tickets.remove(j),
        find_ticket(tickets, id) == Some(tickets[j].kind),
    decreases j,
{
    if j == 0 {
        assert(tickets.drop_first() =~= tickets.remove(0));
    } else {
        assert(tickets[0].thread_id != id);
        assert(tickets.drop_first()[j - 1] == tickets[j]);
        assert forall|k: int| 0 <= k < j - 1 implies tickets.drop_first()[k].thread_id != id by {
            assert(tickets.drop_first()[k] == tickets[k + 1]);
        }
        lemma_remove_first_ticket_found(tickets.drop_first(), id, j - 1);
        assert(seq![tickets[0]] + tickets.drop_first().remove(j - 1) =~= tickets.remove(j));
    }
}

pub proof fn lemma_remove_first_ticket_absent(tickets: Seq<ActionTicketView>, id: Seq<char>)
    requires
        forall|k: int| 0 <= k < tickets.len() ==> tickets[k].thread_id != id,
    ensures
        remove_first_ticket(tickets, id) == tickets,
        find_ticket(tickets, id) is None,
    decreases tickets.len(),
{
    if tickets.len() == 0 {
        assert(remove_first_ticket(tickets, id) =~= tickets);
    } else {
        assert forall|k: int|
            0 <= k < tickets.drop_first().len() implies tickets.drop_first()[k].thread_id
            != id by {
            assert(tickets.drop_first()[k] == tickets[k + 1]);
        }
        lemma_remove_first_ticket_absent(tickets.drop_first(), id);
        assert(seq![tickets[0]] + tickets.drop_first() =~= tickets);
    }
}

pub proof fn lemma_remove_first_id_found(ids: Seq<Seq<char>>, id: Seq<char>, j: int)
    requires
        0 <= j < ids.len(),
        ids[j] == id,
        forall|k: int| 0 <= k < j ==> ids[k] != id,
    ensures
        remove_first_id(ids, id) == ids.remove(j),
    decreases j,
{
    if j == 0 {
        assert(ids.drop_first() =~= ids.remove(0));
    } else {
        assert(ids[0] != id);
        assert(ids.drop_first()[j - 1] == ids[j]);
        assert forall|k: int| 0 <= k < j - 1 implies ids.drop_first()[k] != id by {
            assert(ids.drop_first()[k] == ids[k + 1]);
        }
        lemma_remove_first_id_found(ids.drop_first(), id, j - 1);
        assert(seq![ids[0]] + ids.drop_first().remove(j - 1) =~= ids.remove(j));
    }
}

pub proof fn lemma_remove_first_id_absent(ids: Seq<Seq<char>>, id: Seq<char>)
    requires
        forall|k: int| 0 <= k < ids.len() ==> ids[k] != id,
    ensures
        remove_first_id(ids, id) == ids,
    decreases ids.len(),
{
    if ids.len() == 0 {
        assert(remove_first_id(ids, id) =~= ids);
    } else {
        assert forall|k: int| 0 <= k < ids.drop_first().len() implies ids.drop_first()[k] != id by {
            assert(ids.drop_first()[k] == ids[k + 1]);
        }
        lemma_remove_first_id_absent(ids.drop_first(), id);
        assert(seq![ids[0]] + ids.drop_first() =~= ids);
    }
}

/// The state after one action job succeeded: its record leaves the pending
/// set, its thread becomes retryable, and the targeted item (if the inbox
/// still holds it) gets the optimistic edit of the action's kind.
pub open spec fn after_action_success(s: AccountStateView, id: Seq<char>, now: int)
    -> AccountStateView {
    AccountStateView {
        pending_actions: remove_first_ticket(s.pending_actions, id),
        inflight_done: remove_first_id(s.inflight_done, id),
        inbox: match find_ticket(s.pending_actions, id) {
            Some(kind) => inbox_after_edit(s.inbox, id, kind, now),
            None => s.inbox,
        },
        ..s
    }
}

/// The state after one action job failed: its record leaves the pending
/// set, its thread becomes retryable, and the error text is shown.
pub open spec fn after_action_failure(s: AccountStateView, id: Seq<char>, msg: Seq<char>)
    -> AccountStateView {
    AccountStateView {
        pending_actions: remove_first_ticket(s.pending_actions, id),
        inflight_done: remove_first_id(s.inflight_done, id),
        last_error: Some(msg),
        ..s
    }
}

/// The state after the zero-latency local edit of one thread. A read edit
/// ignores the instant, so any value serves in its place.
pub open spec fn after_mark_seen(s: AccountStateView, id: Seq<char>) -> AccountStateView {
    AccountStateView { inbox: inbox_after_edit(s.inbox, id, ActionKind::MarkRead, 0), ..s }
}

/// The state after a remote action was requested for a thread that had
/// none in flight.
pub open spec fn after_request(s: AccountStateView, id: Seq<char>, kind: ActionKind)
    -> AccountStateView {
    AccountStateView {
        pending_actions: s.pending_actions.push(ActionTicketView { thread_id: id, kind }),
        inflight_done: s.inflight_done.push(id),
        ..s
    }
}

/// The thread ids of the pending action records, in order.
pub open spec fn ticket_ids(tickets: Seq<ActionTicketView>) -> Seq<Seq<char>> {
    tickets.map_values(|t: ActionTicketView| t.thread_id)
}

/// No thread id occurs twice.
pub open spec fn distinct_ids(ids: Seq<Seq<char>>) -> bool {
    forall|i: int, j: int| 0 <= i < j < ids.len() ==> ids[i] != ids[j]
}

/// Internal consistency of one account's bookkeeping: the in-flight id
/// list mirrors the pending action records one for one, and no thread has
/// two actions in flight.
pub open spec fn account_wf(s: AccountStateView) -> bool {
    &&& ticket_ids(s.pending_actions) == s.inflight_done
    &&& distinct_ids(s.inflight_done)
}

/// Editing a listing never changes its length.
pub proof fn lemma_mark_first_match_len(
    items: Seq<NotificationItemView>,
    id: Seq<char>,
    kind: ActionKind,
    now: int,
)
    ensures
        mark_first_match(items, id, kind, now).len() == items.len(),
    decreases items.len(),
{
    if items.len() > 0 && items[0].thread_id != id {
        lemma_mark_first_match_len(items.drop_first(), id, kind, now);
    }
}

/// Requesting an action for a thread with none in flight keeps the
/// bookkeeping consistent: the new record and the new in-flight id line
/// up, and no thread ends up in flight twice.
pub proof fn lemma_request_preserves_wf(s: AccountStateView, id: Seq<char>, kind: ActionKind)
    requires
        account_wf(s),
        !inflight_contains(s.inflight_done, id),
    ensures
        account_wf(after_request(s, id, kind)),
{
    let t = after_request(s, id, kind);
    assert(ticket_ids(t.pending_actions) =~= ticket_ids(s.pending_actions).push(id));
    assert forall|i: int, j: int|
        0 <= i < j < t.inflight_done.len() implies t.inflight_done[i] != t.inflight_done[j] by {
        if j == t.inflight_done.len() - 1 {
            assert(t.inflight_done[i] == s.inflight_done[i]);
            assert(s.inflight_done[i] != id);
        }
    }
}

/// Every id in the listing that removal gives already stood in the
/// listing before, and removal keeps distinct ids distinct.
pub proof fn lemma_remove_first_id_keeps_distinct(ids: Seq<Seq<char>>, id: Seq<char>)
    requires
        distinct_ids(ids),
    ensures
        distinct_ids(remove_first_id(ids, id)),
        forall|x: Seq<char>|
            #[trigger] remove_first_id(ids, id).contains(x) ==> ids.contains(x),
    decreases ids.len(),
{
    let r = remove_first_id(ids, id);
    if ids.len() == 0 {
    } else if ids[0] == id {
        assert forall|x: Seq<char>| #[trigger] r.contains(x) implies ids.contains(x) by {
            let k = choose|k: int| 0 <= k < r.len() && r[k] == x;
            assert(ids[k + 1] == x);
        }
        assert forall|i: int, j: int| 0 <= i < j < r.len() implies r[i] != r[j] by {
            assert(r[i] == ids[i + 1]);
            assert(r[j] == ids[j + 1]);
        }
    } else {
        assert forall|i: int, j: int|
            0 <= i < j < ids.drop_first().len() implies ids.drop_first()[i]
            != ids.drop_first()[j] by {
            assert(ids.drop_first()[i] == ids[i + 1]);
            assert(ids.drop_first()[j] == ids[j + 1]);
        }
        lemma_remove_first_id_keeps_distinct(ids.drop_first(), id);
        let rest = remove_first_id(ids.drop_first(), id);
        assert(r == seq![ids[0]] + rest);
        assert forall|x: Seq<char>| #[trigger] r.contains(x) implies ids.contains(x) by {
            let k = choose|k: int| 0 <= k < r.len() && r[k] == x;
            if k == 0 {
                assert(ids[0] == x);
            } else {
                assert(rest[k - 1] == x);
                assert(rest.contains(x));
                assert(ids.drop_first().contains(x));
                let m = choose|m: int|
                    0 <= m < ids.drop_first().len() && ids.drop_first()[m] == x;
                assert(ids[m + 1] == x);
            }
        }
        assert forall|i: int, j: int| 0 <= i < j < r.len() implies r[i] != r[j] by {
            if i == 0 {
                assert(r[j] == rest[j - 1]);
                assert(rest.contains(rest[j - 1]));
                assert(ids.drop_first().contains(rest[j - 1]));
                let m = choose|m: int|
                    0 <= m < ids.drop_first().len() && ids.drop_first()[m] == rest[j - 1];
                assert(ids[m + 1] == rest[j - 1]);
                assert(ids[0] != ids[m + 1]);
            } else {
                assert(r[i] == rest[i - 1]);
                assert(r[j] == rest[j - 1]);
            }
        }
    }
}

/// Removing the first record of one thread removes exactly that thread's
/// first in-flight id: the two listings stay mirrored.
pub proof fn lemma_ticket_ids_remove(tickets: Seq<ActionTicketView>, id: Seq<char>)
    ensures
        ticket_ids(remove_first_ticket(tickets, id)) == remove_first_id(ticket_ids(tickets), id),
    decreases tickets.len(),
{
    let ids = ticket_ids(tickets);
    if tickets.len() == 0 {
        assert(ticket_ids(remove_first_ticket(tickets, id)) =~= remove_first_id(ids, id));
    } else {
        assert(ids[0] == tickets[0].thread_id);
        assert(ids.drop_first() =~= ticket_ids(tickets.drop_first()));
        if tickets[0].thread_id == id {
            assert(ticket_ids(tickets.drop_first()) =~= ids.drop_first());
        } else {
            lemma_ticket_ids_remove(tickets.drop_first(), id);
            assert(ticket_ids(seq![tickets[0]] + remove_first_ticket(tickets.drop_first(), id))
                =~= seq![ids[0]] + ticket_ids(remove_first_ticket(tickets.drop_first(), id)));
        }
    }
}

/// Applying an action outcome — success or failure — keeps the
/// bookkeeping consistent.
pub proof fn lemma_action_outcome_preserves_wf(
    s: AccountStateView,
    id: Seq<char>,
    now: int,
    msg: Seq<char>,
)
    requires
        account_wf(s),
    ensures
        account_wf(after_action_success(s, id, now)),
        account_wf(after_action_failure(s, id, msg)),
{
    lemma_ticket_ids_remove(s.pending_actions, id);
    lemma_remove_first_id_keeps_distinct(s.inflight_done, id);
}

/// Edits the first item of the given thread in place; a listing without
/// that thread stays as it is.
fn apply_thread_edit(items: &mut Vec<NotificationItem>, thread_id: &str, kind: ActionKind, now: i64)
    ensures
        items_view(final(items)@) == mark_first_match(
            items_view(old(items)@),
            thread_id@,
            kind,
            now as int,
        ),
{
    let n = items.len();
    let mut i: usize = 0;
    while i < n
        invariant
            items@ == old(items)@,
            n == items@.len(),
            0 <= i <= n,
            forall|k: int| 0 <= k < i ==> items_view(items@)[k].thread_id != thread_id@,
        decreases n - i,
    {
        if str_eq(items[i].thread_id.as_str(), thread_id) {
            let stamp: i64 = match kind {
                ActionKind::MarkRead => items[i].updated_at,
                ActionKind::MarkDone => now,
            };
            let item = &mut items[i];
            item.unread = false;
            item.last_read_at = Some(stamp);
            proof {
                lemma_mark_first_match_found(
                    items_view(old(items)@),
                    thread_id@,
                    kind,
                    now as int,
                    i as int,
                );
                assert(items_view(items@) =~= items_view(old(items)@).update(
                    i as int,
                    edit_of(kind, items_view(old(items)@)[i as int], now as int),
                ));
            }
            return;
        }
        i += 1;
    }
    proof {
        lemma_mark_first_match_absent(items_view(items@), thread_id@, kind, now as int);
    }
}

impl AccountState {
    /// Removes the in-flight record of one thread, if present.
    fn remove_inflight(&mut self, thread_id: &str)
        ensures
            final(self)@ == (AccountStateView {
                inflight_done: remove_first_id(old(self)@.inflight_done, thread_id@),
                ..old(self)@
            }),
    {
        let n = self.inflight_done.len();
        let mut i: usize = 0;
        while i < n
            invariant
                *self == *old(self),
                n == self.inflight_done@.len(),
                0 <= i <= n,
                forall|k: int| 0 <= k < i ==> self@.inflight_done[k] != thread_id@,
            decreases n - i,
        {
            if str_eq(self.inflight_done[i].as_str(), thread_id) {
                proof {
                    lemma_remove_first_id_found(self@.inflight_done, thread_id@, i as int);
                }
                self.inflight_done.remove(i);
                proof {
                    assert(ids_view(self.inflight_done@) =~= ids_view(
                        old(self).inflight_done@,
                    ).remove(i as int));
                }
                return;
            }
            i += 1;
        }
        proof {
            lemma_remove_first_id_absent(self@.inflight_done, thread_id@);
        }
    }

    /// Applies the optimistic edit after a remote action succeeded: the
    /// item (if the inbox still holds it) is marked read — as of `now` for
    /// a done action, as of its own update instant for a read action — and
    /// the thread leaves the in-flight set.
    pub fn handle_action_success(&mut self, thread_id: &str, kind: ActionKind, now: i64)
        ensures
            final(self)@ == (AccountStateView {
                inbox: inbox_after_edit(old(self)@.inbox, thread_id@, kind, now as int),
                inflight_done: remove_first_id(old(self)@.inflight_done, thread_id@),
                ..old(self)@
            }),
    {
        match &mut self.inbox {
            Some(ib) => {
                apply_thread_edit(&mut ib.notifications, thread_id, kind, now);
            },
            None => {},
        }
        self.remove_inflight(thread_id);
    }

    /// Applies one completed action job's outcome: the job's record leaves
    /// the pending set, the thread becomes retryable, and on success the
    /// targeted item gets the optimistic edit of the job's kind; on
    /// failure the error text is recorded and the inbox stays untouched.
    pub fn poll_action(&mut self, thread_id: &str, outcome: Result<(), String>, now: i64)
        ensures
            outcome is Ok ==> final(self)@ == after_action_success(
                old(self)@,
                thread_id@,
                now as int,
            ),
            outcome matches Err(msg) ==> final(self)@ == after_action_failure(
                old(self)@,
                thread_id@,
                msg@,
            ),
            account_wf(old(self)@) ==> account_wf(final(self)@),
    {
        let found = self.take_pending_ticket(thread_id);
        match outcome {
            Ok(_) => {
                proof {
                    if account_wf(old(self)@) {
                        lemma_action_outcome_preserves_wf(
                            old(self)@,
                            thread_id@,
                            now as int,
                            Seq::<char>::empty(),
                        );
                    }
                }
                match found {
                    Some(kind) => self.handle_action_success(thread_id, kind, now),
                    None => self.remove_inflight(thread_id),
                }
            },
            Err(msg) => {
                proof {
                    if account_wf(old(self)@) {
                        lemma_action_outcome_preserves_wf(
                            old(self)@,
                            thread_id@,
                            now as int,
                            msg@,
                        );
                    }
                }
                self.last_error = Some(msg);
                self.remove_inflight(thread_id);
            },
        }
    }

    /// Removes the first pending record of one thread, handing back its
    /// kind; with no such record the pending set stays as it is.
    fn take_pending_ticket(&mut self, thread_id: &str) -> (r: Option<ActionKind>)
        ensures
            final(self)@ == (AccountStateView {
                pending_actions: remove_first_ticket(old(self)@.pending_actions, thread_id@),
                ..old(self)@
            }),
            r == find_ticket(old(self)@.pending_actions, thread_id@),
    {
        let n = self.pending_actions.len();
        let mut i: usize = 0;
        while i < n
            invariant
                *self == *old(self),
                n == self.pending_actions@.len(),
                0 <= i <= n,
                forall|k: int| 0 <= k < i ==> self@.pending_actions[k].thread_id != thread_id@,
            decreases n - i,
        {
            if str_eq(self.pending_actions[i].thread_id.as_str(), thread_id) {
                let kind = self.pending_actions[i].kind;
                proof {
                    lemma_remove_first_ticket_found(self@.pending_actions, thread_id@, i as int);
                }
                self.pending_actions.remove(i);
                proof {
                    assert(tickets_view(self.pending_actions@) =~= tickets_view(
                        old(self).pending_actions@,
                    ).remove(i as int));
                }
                return Some(kind);
            }
            i += 1;
        }
        proof {
            lemma_remove_first_ticket_absent(self@.pending_actions, thread_id@);
        }
        None
    }

    /// The zero-latency local edit applied the instant the user opens a
    /// thread: mark it read and advance its read timestamp to its own
    /// update instant. No network call, no in-flight bookkeeping; the next
    /// successful refresh overwrites it.
    pub fn mark_notification_seen(&mut self, thread_id: &str)
        ensures
            final(self)@ == after_mark_seen(old(self)@, thread_id@),
    {
        match &mut self.inbox {
            Some(ib) => {
                apply_thread_edit(&mut ib.notifications, thread_id, ActionKind::MarkRead, 0);
            },
            None => {},
        }
    }

    /// Requests a remote mark-read for one thread: a no-op while an action
    /// for that thread is in flight; otherwise records the job and returns
    /// the ticket the caller must spawn a worker for.
    pub fn request_mark_read(&mut self, thread_id: String) -> (ticket: Option<ActionTicket>)
        ensures
            inflight_contains(old(self)@.inflight_done, thread_id@) ==> final(self)@ == old(self)@
                && ticket is None,
            !inflight_contains(old(self)@.inflight_done, thread_id@) ==> final(self)@
                == after_request(old(self)@, thread_id@, ActionKind::MarkRead) && (
            ticket matches Some(t) && t@ == (ActionTicketView {
                thread_id: thread_id@,
                kind: ActionKind::MarkRead,
            })),
            account_wf(old(self)@) ==> account_wf(final(self)@),
    {
        self.request_action(thread_id, ActionKind::MarkRead)
    }

    /// Requests a remote mark-done for one thread, under the same
    /// at-most-one-in-flight rule as `request_mark_read`.
    pub fn request_mark_done(&mut self, thread_id: String) -> (ticket: Option<ActionTicket>)
        ensures
            inflight_contains(old(self)@.inflight_done, thread_id@) ==> final(self)@ == old(self)@
                && ticket is None,
            !inflight_contains(old(self)@.inflight_done, thread_id@) ==> final(self)@
                == after_request(old(self)@, thread_id@, ActionKind::MarkDone) && (
            ticket matches Some(t) && t@ == (ActionTicketView {
                thread_id: thread_id@,
                kind: ActionKind::MarkDone,
            })),
            account_wf(old(self)@) ==> account_wf(final(self)@),
    {
        self.request_action(thread_id, ActionKind::MarkDone)
    }

    fn request_action(&mut self, thread_id: String, kind: ActionKind) -> (ticket: Option<
        ActionTicket,
    >)
        ensures
            inflight_contains(old(self)@.inflight_done, thread_id@) ==> final(self)@ == old(self)@
                && ticket is None,
            !inflight_contains(old(self)@.inflight_done, thread_id@) ==> final(self)@
                == after_request(old(self)@, thread_id@, kind) && (
            ticket matches Some(t) && t@ == (ActionTicketView { thread_id: thread_id@, kind })),
            account_wf(old(self)@) ==> account_wf(final(self)@),
    {
        let ghost id_view = thread_id@;
        if self.is_inflight(thread_id.as_str()) {
            return None;
        }
        let ticket = ActionTicket { thread_id: thread_id.clone(), kind };
        self.pending_actions.push(ActionTicket { thread_id: thread_id.clone(), kind });
        self.inflight_done.push(thread_id);
        proof {
            assert(tickets_view(self.pending_actions@) =~= tickets_view(
                old(self).pending_actions@,
            ).push(ticket@));
            assert(ids_view(self.inflight_done@) =~= ids_view(old(self).inflight_done@).push(
                ticket@.thread_id,
            ));
            if account_wf(old(self)@) {
                lemma_request_preserves_wf(old(self)@, id_view, kind);
            }
        }
        Some(ticket)
    }

    /// Applies what a pending fetch delivered, if anything. With no fetch
    /// pending, or none finished yet, nothing changes. A fresh snapshot
    /// replaces the inbox wholesale, clears the error, and highlights
    /// every bucket whose unseen or updated tally grew against the
    /// previous snapshot (an absent one counts as empty). A failure leaves
    /// the stale snapshot visible and records the error text. Either way a
    /// delivered outcome clears the pending flag.
    pub fn poll_job(&mut self, outcome: Option<Result<InboxSnapshot, FetchError>>)
        ensures
            !old(self)@.fetch_pending || outcome is None ==> final(self)@ == old(self)@,
            old(self)@.fetch_pending ==> (outcome matches Some(Ok(snap)) ==> final(self)@
                == after_fetch_success(old(self)@, snap@)),
            old(self)@.fetch_pending ==> (outcome matches Some(Err(e)) ==> final(self)@
                == after_fetch_error(old(self)@, e)),
    {
        if !self.fetch_pending {
            return;
        }
        match outcome {
            None => {},
            Some(result) => {
                self.fetch_pending = false;
                match result {
                    Ok(snapshot) => {
                        let prev = match &self.inbox {
                            Some(ib) => section_stats(ib),
                            None => {
                                proof {
                                    assert(count_unseen(
                                        Seq::<NotificationItemView>::empty(),
                                        SectionKind::ReviewRequests,
                                    ) == 0);
                                    assert(count_unseen(
                                        Seq::<NotificationItemView>::empty(),
                                        SectionKind::Mentions,
                                    ) == 0);
                                    assert(count_unseen(
                                        Seq::<NotificationItemView>::empty(),
                                        SectionKind::Notifications,
                                    ) == 0);
                                    assert(count_updated(
                                        Seq::<NotificationItemView>::empty(),
                                        SectionKind::ReviewRequests,
                                    ) == 0);
                                    assert(count_updated(
                                        Seq::<NotificationItemView>::empty(),
                                        SectionKind::Mentions,
                                    ) == 0);
                                    assert(count_updated(
                                        Seq::<NotificationItemView>::empty(),
                                        SectionKind::Notifications,
                                    ) == 0);
                                }
                                SectionStats {
                                    review_requests: SectionCounts { unseen: 0, updated: 0 },
                                    mentions: SectionCounts { unseen: 0, updated: 0 },
                                    notifications: SectionCounts { unseen: 0, updated: 0 },
                                }
                            },
                        };
                        let next = section_stats(&snapshot);
                        if next.review_requests.bumped_since(&prev.review_requests) {
                            self.highlights.insert(SectionKind::ReviewRequests);
                        }
                        if next.mentions.bumped_since(&prev.mentions) {
                            self.highlights.insert(SectionKind::Mentions);
                        }
                        if next.notifications.bumped_since(&prev.notifications) {
                            self.highlights.insert(SectionKind::Notifications);
                        }
                        self.inbox = Some(snapshot);
                        self.last_error = None;
                    },
                    Err(e) => {
                        self.last_error = Some(e.message());
                    },
                }
            },
        }
    }
}

/// The state of one account right after `start_refresh`.
pub open spec fn refreshed_view(s: AccountStateView) -> AccountStateView {
    AccountStateView { last_error: None, fetch_pending: true, ..s }
}

/// An account the batch refresh would start a fetch for: none pending,
/// and its snapshot missing or stale.
pub open spec fn refreshable(s: AccountStateView, now: int, threshold: int) -> bool {
    !s.fetch_pending && needs_refresh_spec(s, now, threshold)
}

/// One pass of the shared auto-refresh: when the scheduler is due, every
/// account without a pending fetch whose snapshot is missing or at least
/// one interval old is refreshed, and the scheduler's window resets only
/// if at least one account actually was — an idle pass neither drifts the
/// window nor busy-fires. Returns the refreshed indices, in order; the
/// caller spawns one fetch worker per index.
pub fn maybe_auto_refresh(
    accounts: &mut Vec<AccountState>,
    scheduler: &mut BatchRefreshScheduler,
    now: i64,
) -> (started: Vec<usize>)
    ensures
        final(accounts)@.len() == old(accounts)@.len(),
        !due_at(old(scheduler)@, now as int) ==> final(accounts)@ == old(accounts)@
            && *final(scheduler) == *old(scheduler) && started@.len() == 0,
        due_at(old(scheduler)@, now as int) ==> {
            &&& forall|i: int|
                0 <= i < old(accounts)@.len() ==> final(accounts)@[i]@ == (if refreshable(
                    old(accounts)@[i]@,
                    now as int,
                    old(scheduler)@.interval_secs,
                ) {
                    refreshed_view(old(accounts)@[i]@)
                } else {
                    old(accounts)@[i]@
                })
            &&& forall|j: int|
                0 <= j < started@.len() ==> 0 <= #[trigger] started@[j] < old(accounts)@.len()
                    && refreshable(
                    old(accounts)@[started@[j] as int]@,
                    now as int,
                    old(scheduler)@.interval_secs,
                )
            &&& forall|i: int|
                0 <= i < old(accounts)@.len() && refreshable(
                    #[trigger] old(accounts)@[i]@,
                    now as int,
                    old(scheduler)@.interval_secs,
                ) ==> exists|j: int| 0 <= j < started@.len() && #[trigger] started@[j] == i
            &&& forall|j1: int, j2: int|
                0 <= j1 < j2 < started@.len() ==> #[trigger] started@[j1] < #[trigger] started@[j2]
            &&& started@.len() > 0 ==> final(scheduler)@ == (BatchRefreshSchedulerView {
                last_run: Some(now as int),
                ..old(scheduler)@
            })
            &&& started@.len() == 0 ==> *final(scheduler) == *old(scheduler)
        },
{
    let mut started: Vec<usize> = Vec::new();
    if !scheduler.should_trigger_at(now) {
        return started;
    }
    let threshold = scheduler.interval_secs;
    let n = accounts.len();
    let mut i: usize = 0;
    while i < n
        invariant
            n == accounts@.len(),
            accounts@.len() == old(accounts)@.len(),
            threshold == old(scheduler)@.interval_secs,
            *scheduler == *old(scheduler),
            0 <= i <= n,
            forall|k: int| i <= k < n ==> accounts@[k] == old(accounts)@[k],
            forall|k: int|
                0 <= k < i ==> accounts@[k]@ == (if refreshable(
                    old(accounts)@[k]@,
                    now as int,
                    threshold as int,
                ) {
                    refreshed_view(old(accounts)@[k]@)
                } else {
                    old(accounts)@[k]@
                }),
            forall|j: int|
                0 <= j < started@.len() ==> 0 <= #[trigger] started@[j] < i && refreshable(
                    old(accounts)@[started@[j] as int]@,
                    now as int,
                    threshold as int,
                ),
            forall|k: int|
                0 <= k < i && refreshable(
                    #[trigger] old(accounts)@[k]@,
                    now as int,
                    threshold as int,
                ) ==> exists|j: int| 0 <= j < started@.len() && #[trigger] started@[j] == k,
            forall|j1: int, j2: int|
                0 <= j1 < j2 < started@.len() ==> #[trigger] started@[j1] < #[trigger] started@[j2],
        decreases n - i,
    {
        let pending = accounts[i].fetch_pending;
        let needs = accounts[i].needs_refresh_at(now, threshold);
        if !pending && needs {
            let ghost started0 = started@;
            let account = &mut accounts[i];
            account.start_refresh();
            started.push(i);
            proof {
                assert forall|k: int|
                    0 <= k <= i as int && refreshable(
                        #[trigger] old(accounts)@[k]@,
                        now as int,
                        threshold as int,
                    ) implies exists|j: int|
                    0 <= j < started@.len() && #[trigger] started@[j] == k by {
                    if k == i as int {
                        assert(started@[started@.len() - 1] == k);
                    } else {
                        let j0 = choose|j0: int|
                            0 <= j0 < started0.len() && #[trigger] started0[j0] == k;
                        assert(started@[j0] == k);
                    }
                }
            }
        }
        i += 1;
    }
    if started.len() > 0 {
        scheduler.mark_triggered_at(now);
    }
    started
}

} // verus!
