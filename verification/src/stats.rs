//! Bucket classification of notifications, their derived visual state, and
//! the per-section counts that drive highlight decisions.

use vstd::prelude::*;
use crate::domain::{InboxSnapshot, InboxSnapshotView, NotificationItem, NotificationItemView};
use crate::domain::items_view;
use crate::text::str_eq;

verus! {

/// The three fixed dashboard sections a notification can fall into.
#[derive(Clone, Copy, Debug, Hash, PartialEq, Eq, Structural)]
pub enum SectionKind {
    ReviewRequests,
    Mentions,
    Notifications,
}

/// The bucket a reason code falls into. Reason codes outside the fixed,
/// hard-coded set fall into the general Notifications bucket.
pub open spec fn bucket_of(reason: Seq<char>) -> SectionKind {
    if reason == "review_requested"@ {
        SectionKind::ReviewRequests
    } else if reason == "mention"@ || reason == "team_mention"@ {
        SectionKind::Mentions
    } else {
        SectionKind::Notifications
    }
}

pub open spec fn in_bucket(item: NotificationItemView, kind: SectionKind) -> bool {
    bucket_of(item.reason) == kind
}

/// Classifies a reason code into its dashboard section.
pub fn classify_reason(reason: &str) -> (kind: SectionKind)
    ensures
        kind == bucket_of(reason@),
{
    if str_eq(reason, "review_requested") {
        SectionKind::ReviewRequests
    } else if str_eq(reason, "mention") || str_eq(reason, "team_mention") {
        SectionKind::Mentions
    } else {
        SectionKind::Notifications
    }
}

/// Derived, never persisted display state of one notification.
#[derive(Clone, Copy, Debug, PartialEq, Eq, Structural)]
pub struct NotificationVisualState {
    pub seen: bool,
    pub needs_revisit: bool,
}

/// The thread changed after the last time it was read: a read timestamp is
/// present and the update timestamp lies strictly after it.
pub open spec fn revisit_of(item: NotificationItemView) -> bool {
    match item.last_read_at {
        Some(last_read) => item.updated_at > last_read,
        None => false,
    }
}

/// A thread counts as seen only if it is marked read and no updates landed
/// after the read timestamp.
pub open spec fn seen_of(item: NotificationItemView) -> bool {
    !item.unread && !revisit_of(item)
}

/// Computes the visual state of one notification: a thread that the
/// provider marked read still needs a revisit if activity landed after the
/// read timestamp.
pub fn notification_state(item: &NotificationItem) -> (v: NotificationVisualState)
    ensures
        v.needs_revisit == revisit_of(item@),
        v.seen == seen_of(item@),
{
    let needs_revisit = match item.last_read_at {
        Some(last_read) => item.updated_at > last_read,
        None => false,
    };
    NotificationVisualState { seen: !item.unread && !needs_revisit, needs_revisit }
}

/// How many items of the given bucket are unread.
pub open spec fn count_unseen(items: Seq<NotificationItemView>, kind: SectionKind) -> nat
    decreases items.len(),
{
    if items.len() == 0 {
        0
    } else {
        count_unseen(items.drop_last(), kind) + if in_bucket(items.last(), kind)
            && items.last().unread {
            1nat
        } else {
            0nat
        }
    }
}

/// How many items of the given bucket need a revisit.
pub open spec fn count_updated(items: Seq<NotificationItemView>, kind: SectionKind) -> nat
    decreases items.len(),
{
    if items.len() == 0 {
        0
    } else {
        count_updated(items.drop_last(), kind) + if in_bucket(items.last(), kind) && revisit_of(
            items.last(),
        ) {
            1nat
        } else {
            0nat
        }
    }
}

pub proof fn lemma_counts_bounded(items: Seq<NotificationItemView>, kind: SectionKind)
    ensures
        count_unseen(items, kind) <= items.len(),
        count_updated(items, kind) <= items.len(),
    decreases items.len(),
{
    if items.len() > 0 {
        lemma_counts_bounded(items.drop_last(), kind);
    }
}

/// Unseen and updated tallies for one dashboard section.
#[derive(Clone, Copy, Debug, PartialEq, Eq, Structural)]
pub struct SectionCounts {
    pub unseen: usize,
    pub updated: usize,
}

impl SectionCounts {
    pub fn new(unseen: usize, updated: usize) -> (r: SectionCounts)
        ensures
            r.unseen == unseen,
            r.updated == updated,
    {
        SectionCounts { unseen, updated }
    }

    /// Either tally grew strictly since the previous counts.
    pub fn bumped_since(&self, previous: &SectionCounts) -> (r: bool)
        ensures
            r == (self.unseen > previous.unseen || self.updated > previous.updated),
    {
        self.unseen > previous.unseen || self.updated > previous.updated
    }
}

/// Counts for all three sections of one snapshot.
#[derive(Clone, Copy, Debug, PartialEq, Eq, Structural)]
pub struct SectionStats {
    pub review_requests: SectionCounts,
    pub mentions: SectionCounts,
    pub notifications: SectionCounts,
}

pub open spec fn stats_match(stats: SectionStats, items: Seq<NotificationItemView>) -> bool {
    &&& stats.review_requests.unseen == count_unseen(items, SectionKind::ReviewRequests)
    &&& stats.review_requests.updated == count_updated(items, SectionKind::ReviewRequests)
    &&& stats.mentions.unseen == count_unseen(items, SectionKind::Mentions)
    &&& stats.mentions.updated == count_updated(items, SectionKind::Mentions)
    &&& stats.notifications.unseen == count_unseen(items, SectionKind::Notifications)
    &&& stats.notifications.updated == count_updated(items, SectionKind::Notifications)
}

/// Tallies unread and needs-revisit items for every section of a snapshot
/// in one pass.
pub fn section_stats(inbox: &InboxSnapshot) -> (stats: SectionStats)
    ensures
        stats_match(stats, inbox@.notifications),
{
    let items = &inbox.notifications;
    let n = items.len();
    let mut rr = SectionCounts { unseen: 0, updated: 0 };
    let mut me = SectionCounts { unseen: 0, updated: 0 };
    let mut ge = SectionCounts { unseen: 0, updated: 0 };
    let ghost full = items_view(items@);
    proof {
        assert(full.take(0) =~= Seq::<NotificationItemView>::empty());
    }
    let mut i: usize = 0;
    while i < n
        invariant
            n == items@.len(),
            full == items_view(items@),
            full.len() == n,
            0 <= i <= n,
            rr.unseen == count_unseen(full.take(i as int), SectionKind::ReviewRequests),
            rr.updated == count_updated(full.take(i as int), SectionKind::ReviewRequests),
            me.unseen == count_unseen(full.take(i as int), SectionKind::Mentions),
            me.updated == count_updated(full.take(i as int), SectionKind::Mentions),
            ge.unseen == count_unseen(full.take(i as int), SectionKind::Notifications),
            ge.updated == count_updated(full.take(i as int), SectionKind::Notifications),
        decreases n - i,
    {
        proof {
            lemma_counts_bounded(full.take(i as int), SectionKind::ReviewRequests);
            lemma_counts_bounded(full.take(i as int), SectionKind::Mentions);
            lemma_counts_bounded(full.take(i as int), SectionKind::Notifications);
            assert(full.take(i as int).len() == i);
            assert(full.take(i as int + 1).drop_last() =~= full.take(i as int));
            assert(full.take(i as int + 1).last() == full[i as int]);
        }
        let item = &items[i];
        let kind = classify_reason(item.reason.as_str());
        let visual = notification_state(item);
        match kind {
            SectionKind::ReviewRequests => {
                if item.unread {
                    rr.unseen = rr.unseen + 1;
                }
                if visual.needs_revisit {
                    rr.updated = rr.updated + 1;
                }
            },
            SectionKind::Mentions => {
                if item.unread {
                    me.unseen = me.unseen + 1;
                }
                if visual.needs_revisit {
                    me.updated = me.updated + 1;
                }
            },
            SectionKind::Notifications => {
                if item.unread {
                    ge.unseen = ge.unseen + 1;
                }
                if visual.needs_revisit {
                    ge.updated = ge.updated + 1;
                }
            },
        }
        i += 1;
    }
    proof {
        assert(full.take(n as int) =~= full);
    }
    SectionStats { review_requests: rr, mentions: me, notifications: ge }
}

/// Tallies unread and needs-revisit items over one already filtered
/// section listing.
pub fn summarize_counts(items: &Vec<NotificationItem>) -> (r: (usize, usize))
    ensures
        r.0 == count_unread_flat(items_view(items@)),
        r.1 == count_revisit_flat(items_view(items@)),
{
    let n = items.len();
    let ghost full = items_view(items@);
    proof {
        assert(full.take(0) =~= Seq::<NotificationItemView>::empty());
    }
    let mut unseen: usize = 0;
    let mut updated: usize = 0;
    let mut i: usize = 0;
    while i < n
        invariant
            n == items@.len(),
            full == items_view(items@),
            full.len() == n,
            0 <= i <= n,
            unseen == count_unread_flat(full.take(i as int)),
            updated == count_revisit_flat(full.take(i as int)),
        decreases n - i,
    {
        proof {
            lemma_flat_counts_bounded(full.take(i as int));
            assert(full.take(i as int).len() == i);
            assert(full.take(i as int + 1).drop_last() =~= full.take(i as int));
            assert(full.take(i as int + 1).last() == full[i as int]);
        }
        let item = &items[i];
        let visual = notification_state(item);
        if item.unread {
            unseen = unseen + 1;
        }
        if visual.needs_revisit {
            updated = updated + 1;
        }
        i += 1;
    }
    proof {
        assert(full.take(n as int) =~= full);
    }
    (unseen, updated)
}

/// How many items are unread, regardless of bucket.
pub open spec fn count_unread_flat(items: Seq<NotificationItemView>) -> nat
    decreases items.len(),
{
    if items.len() == 0 {
        0
    } else {
        count_unread_flat(items.drop_last()) + if items.last().unread {
            1nat
        } else {
            0nat
        }
    }
}

/// How many items need a revisit, regardless of bucket.
pub open spec fn count_revisit_flat(items: Seq<NotificationItemView>) -> nat
    decreases items.len(),
{
    if items.len() == 0 {
        0
    } else {
        count_revisit_flat(items.drop_last()) + if revisit_of(items.last()) {
            1nat
        } else {
            0nat
        }
    }
}

pub proof fn lemma_flat_counts_bounded(items: Seq<NotificationItemView>)
    ensures
        count_unread_flat(items) <= items.len(),
        count_revisit_flat(items) <= items.len(),
    decreases items.len(),
{
    if items.len() > 0 {
        lemma_flat_counts_bounded(items.drop_last());
    }
}

/// The items of one bucket, in their snapshot order.
pub open spec fn bucket_filter(items: Seq<NotificationItemView>, kind: SectionKind) -> Seq<
    NotificationItemView,
>
    decreases items.len(),
{
    if items.len() == 0 {
        Seq::empty()
    } else if in_bucket(items.last(), kind) {
        bucket_filter(items.drop_last(), kind).push(items.last())
    } else {
        bucket_filter(items.drop_last(), kind)
    }
}

/// Selects the items of one bucket, keeping their order.
pub fn filter_bucket(items: &Vec<NotificationItem>, kind: SectionKind) -> (r: Vec<
    NotificationItem,
>)
    ensures
        items_view(r@) == bucket_filter(items_view(items@), kind),
{
    let n = items.len();
    let ghost full = items_view(items@);
    let mut out: Vec<NotificationItem> = Vec::new();
    proof {
        assert(full.take(0) =~= Seq::<NotificationItemView>::empty());
        assert(items_view(out@) =~= bucket_filter(full.take(0), kind));
    }
    let mut i: usize = 0;
    while i < n
        invariant
            n == items@.len(),
            full == items_view(items@),
            full.len() == n,
            0 <= i <= n,
            items_view(out@) == bucket_filter(full.take(i as int), kind),
        decreases n - i,
    {
        proof {
            assert(full.take(i as int + 1).drop_last() =~= full.take(i as int));
            assert(full.take(i as int + 1).last() == full[i as int]);
        }
        let item = &items[i];
        let kind_here = classify_reason(item.reason.as_str());
        if kind_here == kind {
            out.push(item.clone_item());
            proof {
                assert(items_view(out@) =~= bucket_filter(full.take(i as int + 1), kind));
            }
        } else {
            proof {
                assert(items_view(out@) =~= bucket_filter(full.take(i as int + 1), kind));
            }
        }
        i += 1;
    }
    proof {
        assert(full.take(n as int) =~= full);
    }
    out
}

} // verus!
