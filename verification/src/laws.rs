//! Laws of the library, stated over the spec-level transitions and proved
//! once: idempotence of the local seen edit, the guarantee that a grown
//! bucket is highlighted, and the scheduler's firing cycle.

use vstd::prelude::*;
use crate::account::{after_fetch_success, after_mark_seen, highlight_contains,
    item_marked_read, lemma_mark_first_match_len, mark_first_match, AccountStateView,
    ActionKind};
use crate::domain::{InboxSnapshotView, NotificationItemView};
use crate::scheduler::{due_at, BatchRefreshSchedulerView};
use crate::stats::SectionKind;

verus! {

/// Marking one thread seen twice leaves the same item listing as marking
/// it once.
pub proof fn lemma_mark_seen_items_idempotent(items: Seq<NotificationItemView>, id: Seq<char>)
    ensures
        mark_first_match(
            mark_first_match(items, id, ActionKind::MarkRead, 0),
            id,
            ActionKind::MarkRead,
            0,
        ) == mark_first_match(items, id, ActionKind::MarkRead, 0),
    decreases items.len(),
{
    let once = mark_first_match(items, id, ActionKind::MarkRead, 0);
    if items.len() == 0 {
        assert(mark_first_match(once, id, ActionKind::MarkRead, 0) =~= once);
    } else if items[0].thread_id == id {
        assert(once == seq![item_marked_read(items[0])] + items.drop_first());
        assert(once[0] == item_marked_read(items[0]));
        assert(once[0].thread_id == id);
        assert(item_marked_read(item_marked_read(items[0])) == item_marked_read(items[0]));
        assert(once.drop_first() =~= items.drop_first());
        assert(mark_first_match(once, id, ActionKind::MarkRead, 0) =~= once);
    } else {
        assert(once == seq![items[0]] + mark_first_match(
            items.drop_first(),
            id,
            ActionKind::MarkRead,
            0,
        ));
        assert(once[0] == items[0]);
        assert(once[0].thread_id != id);
        lemma_mark_first_match_len(items.drop_first(), id, ActionKind::MarkRead, 0);
        assert(once.drop_first() =~= mark_first_match(
            items.drop_first(),
            id,
            ActionKind::MarkRead,
            0,
        ));
        lemma_mark_seen_items_idempotent(items.drop_first(), id);
        assert(mark_first_match(once, id, ActionKind::MarkRead, 0) =~= once);
    }
}

/// The zero-latency seen edit is idempotent: applying it twice to one
/// account produces the same state as applying it once.
pub proof fn lemma_mark_seen_idempotent(s: AccountStateView, id: Seq<char>)
    ensures
        after_mark_seen(after_mark_seen(s, id), id) == after_mark_seen(s, id),
{
    match s.inbox {
        None => {},
        Some(ib) => {
            lemma_mark_seen_items_idempotent(ib.notifications, id);
        },
    }
}

/// A bucket whose unseen or updated tally grew strictly between the
/// previous and the new snapshot is in the highlight set right after the
/// new snapshot is applied.
pub proof fn lemma_bumped_section_highlighted(
    s: AccountStateView,
    snap: InboxSnapshotView,
    kind: SectionKind,
)
    requires
        crate::account::section_bumped(s.inbox, snap, kind),
    ensures
        highlight_contains(after_fetch_success(s, snap).highlights, kind),
{
}

/// A fresh scheduler is due at any instant; right after it fires it is no
/// longer due; and it becomes due again exactly when a full interval has
/// elapsed since the firing.
pub proof fn lemma_scheduler_cycle(s: BatchRefreshSchedulerView, now: int, later: int)
    requires
        s.interval_secs > 0,
    ensures
        s.last_run is None ==> due_at(s, now),
        !due_at((BatchRefreshSchedulerView { last_run: Some(now), ..s }), now),
        due_at((BatchRefreshSchedulerView { last_run: Some(now), ..s }), later) == (later - now
            >= s.interval_secs),
{
}

} // verus!
