//! What holds of the fold for every log.

use crate::tasks::{
    concerns, deleted, is_task, lemma_deleted_push, lemma_task_ids_distinct, live, live_ids,
    log_events, merged, snapshot, snapshots, task_ids, Event, HistoryItem, ItemAction,
};
use serde_json::Value;
use vstd::prelude::*;

verus! {

/// Whether `events[i]` is an event of the task record `id` that sets `field`.
pub open spec fn sets(events: Seq<Event>, i: int, id: Seq<char>, field: Seq<char>) -> bool {
    0 <= i < events.len() && concerns(events[i], id) && events[i].payload.contains_key(field)
}

/// The events of task records among `events`, in their order.
pub open spec fn task_events(events: Seq<Event>) -> Seq<Event> {
    events.filter(|event: Event| is_task(event.kind))
}

/// The identifiers listed by `task_ids` are those of the events of task records.
pub proof fn lemma_task_ids_are_seen(events: Seq<Event>, id: Seq<char>)
    ensures
        task_ids(events).contains(id) <==> exists|i: int|
            0 <= i < events.len() && concerns(#[trigger] events[i], id),
    decreases events.len(),
{
    if events.len() > 0 {
        let shorter = events.drop_last();
        let event = events.last();
        let earlier = task_ids(shorter);
        lemma_task_ids_are_seen(shorter, id);
        if task_ids(events).contains(id) {
            if earlier.contains(id) {
                let i = choose|i: int| 0 <= i < shorter.len() && concerns(#[trigger] shorter[i], id);
                assert(concerns(events[i], id));
            } else {
                let k = choose|k: int| 0 <= k < task_ids(events).len() && task_ids(events)[k] == id;
                assert(k == earlier.len());
                assert(concerns(events[events.len() - 1], id));
            }
        }
        if exists|i: int| 0 <= i < events.len() && concerns(#[trigger] events[i], id) {
            let i = choose|i: int| 0 <= i < events.len() && concerns(#[trigger] events[i], id);
            if i < shorter.len() {
                assert(concerns(shorter[i], id));
                let k = choose|k: int| 0 <= k < earlier.len() && earlier[k] == id;
                if is_task(event.kind) && !earlier.contains(event.id) {
                    assert(earlier.push(event.id)[k] == id);
                }
            } else {
                if earlier.contains(event.id) {
                } else {
                    assert(earlier.push(event.id)[earlier.len() as int] == id);
                }
            }
        }
    }
}

/// `live` keeps exactly those of `ids` that `events` does not delete.
pub proof fn lemma_live_contains(ids: Seq<Seq<char>>, events: Seq<Event>, id: Seq<char>)
    ensures
        live(ids, events).contains(id) <==> ids.contains(id) && !deleted(events, id),
    decreases ids.len(),
{
    if ids.len() > 0 {
        let shorter = ids.drop_last();
        let earlier = live(shorter, events);
        lemma_live_contains(shorter, events, id);
        if ids.contains(id) {
            let k = choose|k: int| 0 <= k < ids.len() && ids[k] == id;
            if k < shorter.len() {
                assert(shorter[k] == id);
            }
        }
        if shorter.contains(id) {
            let k = choose|k: int| 0 <= k < shorter.len() && shorter[k] == id;
            assert(ids[k] == id);
        }
        assert(ids[ids.len() - 1] == ids.last());
        if !deleted(events, ids.last()) {
            assert(earlier.push(ids.last())[earlier.len() as int] == ids.last());
            if earlier.contains(id) {
                let k = choose|k: int| 0 <= k < earlier.len() && earlier[k] == id;
                assert(earlier.push(ids.last())[k] == id);
            }
            if live(ids, events).contains(id) {
                let k = choose|k: int|
                    0 <= k < live(ids, events).len() && live(ids, events)[k] == id;
                if k < earlier.len() {
                    assert(earlier[k] == id);
                }
            }
        }
    }
}

/// A task record has a snapshot exactly if the log holds an event of it and
/// none that deletes it. So a record with a delete event anywhere in the log
/// has none, whatever events come after the deletion.
pub proof fn lemma_live_ids(events: Seq<Event>, id: Seq<char>)
    ensures
        live_ids(events).contains(id) <==> !deleted(events, id) && exists|i: int|
            0 <= i < events.len() && concerns(#[trigger] events[i], id),
        deleted(events, id) ==> !live_ids(events).contains(id),
{
    lemma_task_ids_are_seen(events, id);
    lemma_live_contains(task_ids(events), events, id);
}

/// `live` keeps the order of `ids` and takes none of them twice.
pub proof fn lemma_live_distinct(ids: Seq<Seq<char>>, events: Seq<Event>)
    requires
        ids.no_duplicates(),
    ensures
        live(ids, events).no_duplicates(),
    decreases ids.len(),
{
    if ids.len() > 0 {
        let shorter = ids.drop_last();
        lemma_live_distinct(shorter, events);
        lemma_live_contains(shorter, events, ids.last());
        if shorter.contains(ids.last()) {
            let k = choose|k: int| 0 <= k < shorter.len() && shorter[k] == ids.last();
            assert(ids[k] == ids[ids.len() - 1]);
        }
    }
}

/// There is one snapshot for each live task record, and no record has two:
/// the snapshots stand in the order of `live_ids`, which names no record twice.
pub proof fn lemma_one_snapshot_per_record(events: Seq<Event>)
    ensures
        live_ids(events).no_duplicates(),
        snapshots(events).len() == live_ids(events).len(),
        forall|k: int|
            0 <= k < live_ids(events).len() ==> #[trigger] snapshots(events)[k] == snapshot(
                events,
                live_ids(events)[k],
            ),
{
    lemma_task_ids_distinct(events);
    lemma_live_distinct(task_ids(events), events);
}

/// A snapshot has the fields that the events of its record set, each with
/// the value of the last event that sets it: if `events[last]` sets `field`
/// and no later event of the record does, the merged fields give `field` the
/// value that `events[last]` gives it.
pub proof fn lemma_last_writer_wins(
    events: Seq<Event>,
    id: Seq<char>,
    field: Seq<char>,
    last: int,
)
    requires
        sets(events, last, id, field),
        forall|j: int| last < j < events.len() ==> !sets(events, j, id, field),
    ensures
        merged(events, id).contains_key(field),
        merged(events, id)[field] == events[last].payload[field],
    decreases events.len(),
{
    let shorter = events.drop_last();
    if last < events.len() - 1 {
        assert(!sets(events, events.len() - 1, id, field));
        assert(shorter[last] == events[last]);
        assert forall|j: int| last < j < shorter.len() implies !sets(shorter, j, id, field) by {
            assert(shorter[j] == events[j]);
            assert(!sets(events, j, id, field));
        }
        lemma_last_writer_wins(shorter, id, field, last);
    }
}

/// A snapshot has no field but those that the events of its record set.
pub proof fn lemma_fields_are_set(events: Seq<Event>, id: Seq<char>, field: Seq<char>)
    ensures
        merged(events, id).contains_key(field) <==> exists|i: int| sets(events, i, id, field),
    decreases events.len(),
{
    if events.len() > 0 {
        let shorter = events.drop_last();
        lemma_fields_are_set(shorter, id, field);
        if merged(events, id).contains_key(field) {
            if merged(shorter, id).contains_key(field) {
                let i = choose|i: int| sets(shorter, i, id, field);
                assert(sets(events, i, id, field));
            } else {
                assert(sets(events, events.len() - 1, id, field));
            }
        }
        if exists|i: int| sets(events, i, id, field) {
            let i = choose|i: int| sets(events, i, id, field);
            if i < shorter.len() {
                assert(sets(shorter, i, id, field));
            }
        }
    } else {
        assert forall|i: int| !sets(events, i, id, field) by {}
    }
}

/// Without the events of other records the log lists the same task records,
/// deletes the same, and merges the same fields.
pub proof fn lemma_task_events_suffice(events: Seq<Event>, id: Seq<char>)
    ensures
        task_ids(task_events(events)) == task_ids(events),
        deleted(task_events(events), id) == deleted(events, id),
        merged(task_events(events), id) == merged(events, id),
    decreases events.len(),
{
    reveal(Seq::filter);
    if events.len() > 0 {
        let shorter = events.drop_last();
        let event = events.last();
        lemma_task_events_suffice(shorter, id);
        assert(events =~= shorter.push(event));
        lemma_deleted_push(shorter, event, id);
        if is_task(event.kind) {
            let kept = task_events(shorter).push(event);
            assert(task_events(events) == kept);
            assert(kept.drop_last() =~= task_events(shorter));
            assert(kept.last() == event);
            lemma_deleted_push(task_events(shorter), event, id);
        }
    } else {
        assert(task_events(events) =~= events);
    }
}

/// Logs that delete the same records keep the same of `ids`.
pub proof fn lemma_live_agrees(ids: Seq<Seq<char>>, a: Seq<Event>, b: Seq<Event>)
    requires
        forall|id: Seq<char>| deleted(a, id) == deleted(b, id),
    ensures
        live(ids, a) == live(ids, b),
    decreases ids.len(),
{
    if ids.len() > 0 {
        lemma_live_agrees(ids.drop_last(), a, b);
    }
}

/// Events of records that are no tasks leave no trace: the log folds into
/// the snapshots that its events of task records alone fold into.
pub proof fn lemma_other_records_ignored(events: Seq<Event>)
    ensures
        snapshots(task_events(events)) == snapshots(events),
{
    let tasks_only = task_events(events);
    assert forall|id: Seq<char>|
        deleted(tasks_only, id) == deleted(events, id) && merged(tasks_only, id) == merged(
            events,
            id,
        ) by {
        lemma_task_events_suffice(events, id);
    }
    lemma_task_events_suffice(events, Seq::empty());
    lemma_live_agrees(task_ids(events), tasks_only, events);
    assert(snapshots(tasks_only) =~= snapshots(events));
}

/// Whether no two events of a batch are of the same record. A batch maps
/// record identifiers to events, so this holds of every batch of the server.
pub open spec fn distinct_ids(batch: Seq<Event>) -> bool {
    forall|i: int, j: int| 0 <= i < j < batch.len() ==> batch[i].id != batch[j].id
}

/// Whether two batches hold the same events, in whatever order.
pub open spec fn same_events(a: Seq<Event>, b: Seq<Event>) -> bool {
    forall|event: Event| a.contains(event) <==> b.contains(event)
}

/// Whether the log holds an event of the task record `id`.
pub open spec fn occurs(events: Seq<Event>, id: Seq<char>) -> bool {
    exists|i: int| 0 <= i < events.len() && concerns(#[trigger] events[i], id)
}

/// What a batch without two events of one record makes of the fields `base`
/// of the record `id`: its one event of that record merged in, if it has one.
pub open spec fn touched(base: Map<Seq<char>, Value>, batch: Seq<Event>, id: Seq<char>) -> Map<
    Seq<char>,
    Value,
> {
    if occurs(batch, id) {
        let i = choose|i: int| 0 <= i < batch.len() && concerns(#[trigger] batch[i], id);
        base.union_prefer_right(batch[i].payload)
    } else {
        base
    }
}

/// What follows a log merges into the fields that the log has merged, whatever the log was.
pub proof fn lemma_merged_after(a: Seq<Event>, b: Seq<Event>, after: Seq<Event>, id: Seq<char>)
    requires
        merged(a, id) == merged(b, id),
    ensures
        merged(a + after, id) == merged(b + after, id),
    decreases after.len(),
{
    if after.len() == 0 {
        assert(a + after =~= a);
        assert(b + after =~= b);
    } else {
        lemma_merged_after(a, b, after.drop_last(), id);
        assert((a + after).drop_last() =~= a + after.drop_last());
        assert((b + after).drop_last() =~= b + after.drop_last());
    }
}

/// A batch without two events of one record merges at most one payload into a record.
pub proof fn lemma_merged_batch(before: Seq<Event>, batch: Seq<Event>, id: Seq<char>)
    requires
        distinct_ids(batch),
    ensures
        merged(before + batch, id) == touched(merged(before, id), batch, id),
    decreases batch.len(),
{
    if batch.len() == 0 {
        assert(before + batch =~= before);
    } else {
        let rest = batch.drop_last();
        let last = batch.last();
        let w = batch.len() - 1;
        assert(distinct_ids(rest)) by {
            assert forall|i: int, j: int| 0 <= i < j < rest.len() implies rest[i].id
                != rest[j].id by {
                assert(rest[i] == batch[i] && rest[j] == batch[j]);
            }
        }
        lemma_merged_batch(before, rest, id);
        assert((before + batch).drop_last() =~= before + rest);
        assert((before + batch).last() == last);
        if concerns(last, id) {
            assert forall|i: int| 0 <= i < rest.len() implies !concerns(#[trigger] rest[i], id) by {
                assert(rest[i] == batch[i]);
                assert(batch[i].id != batch[w].id);
            }
            assert(concerns(batch[w], id));
            let i = choose|i: int| 0 <= i < batch.len() && concerns(#[trigger] batch[i], id);
            if i < w {
                assert(concerns(rest[i], id));
            }
        } else {
            if occurs(batch, id) {
                let i = choose|i: int| 0 <= i < batch.len() && concerns(#[trigger] batch[i], id);
                assert(rest[i] == batch[i]);
                let r = choose|r: int| 0 <= r < rest.len() && concerns(#[trigger] rest[r], id);
                assert(rest[r] == batch[r]);
                if i < r {
                    assert(batch[i].id != batch[r].id);
                }
                if r < i {
                    assert(batch[r].id != batch[i].id);
                }
            } else {
                assert forall|i: int| 0 <= i < rest.len() implies !concerns(
                    #[trigger] rest[i],
                    id,
                ) by {
                    assert(rest[i] == batch[i]);
                }
            }
        }
    }
}

/// Batches with the same events touch a record in the same way.
pub proof fn lemma_touched_same(
    base: Map<Seq<char>, Value>,
    a: Seq<Event>,
    b: Seq<Event>,
    id: Seq<char>,
)
    requires
        distinct_ids(b),
        same_events(a, b),
    ensures
        occurs(a, id) == occurs(b, id),
        touched(base, a, id) == touched(base, b, id),
{
    if occurs(a, id) {
        let i = choose|i: int| 0 <= i < a.len() && concerns(#[trigger] a[i], id);
        assert(a.contains(a[i]));
        let j = choose|j: int| 0 <= j < b.len() && b[j] == a[i];
        assert(concerns(b[j], id));
        let k = choose|k: int| 0 <= k < b.len() && concerns(#[trigger] b[k], id);
        if k < j {
            assert(b[k].id != b[j].id);
        }
        if j < k {
            assert(b[j].id != b[k].id);
        }
    }
    if occurs(b, id) {
        let k = choose|k: int| 0 <= k < b.len() && concerns(#[trigger] b[k], id);
        assert(b.contains(b[k]));
        let i = choose|i: int| 0 <= i < a.len() && a[i] == b[k];
        assert(concerns(a[i], id));
    }
}

/// A log of two parts holds an event of a record, or one that deletes it,
/// exactly if one of the parts does.
pub proof fn lemma_concat(a: Seq<Event>, b: Seq<Event>, id: Seq<char>)
    ensures
        occurs(a + b, id) == (occurs(a, id) || occurs(b, id)),
        deleted(a + b, id) == (deleted(a, id) || deleted(b, id)),
{
    let whole = a + b;
    if occurs(a, id) {
        let i = choose|i: int| 0 <= i < a.len() && concerns(#[trigger] a[i], id);
        assert(whole[i] == a[i]);
    }
    if occurs(b, id) {
        let i = choose|i: int| 0 <= i < b.len() && concerns(#[trigger] b[i], id);
        assert(whole[a.len() + i] == b[i]);
    }
    if occurs(whole, id) {
        let i = choose|i: int| 0 <= i < whole.len() && concerns(#[trigger] whole[i], id);
        if i < a.len() {
            assert(a[i] == whole[i]);
        } else {
            assert(b[i - a.len()] == whole[i]);
        }
    }
    if deleted(a, id) {
        let i = choose|i: int|
            0 <= i < a.len() && concerns(#[trigger] a[i], id) && a[i].action
                == ItemAction::Deleted;
        assert(whole[i] == a[i]);
    }
    if deleted(b, id) {
        let i = choose|i: int|
            0 <= i < b.len() && concerns(#[trigger] b[i], id) && b[i].action
                == ItemAction::Deleted;
        assert(whole[a.len() + i] == b[i]);
    }
    if deleted(whole, id) {
        let i = choose|i: int|
            0 <= i < whole.len() && concerns(#[trigger] whole[i], id) && whole[i].action
                == ItemAction::Deleted;
        if i < a.len() {
            assert(a[i] == whole[i]);
        } else {
            assert(b[i - a.len()] == whole[i]);
        }
    }
}

/// Batches with the same events delete the same records.
pub proof fn lemma_deleted_same(a: Seq<Event>, b: Seq<Event>, id: Seq<char>)
    requires
        same_events(a, b),
    ensures
        deleted(a, id) == deleted(b, id),
{
    if deleted(a, id) {
        let i = choose|i: int|
            0 <= i < a.len() && concerns(#[trigger] a[i], id) && a[i].action
                == ItemAction::Deleted;
        assert(a.contains(a[i]));
        let j = choose|j: int| 0 <= j < b.len() && b[j] == a[i];
        assert(concerns(b[j], id));
    }
    if deleted(b, id) {
        let i = choose|i: int|
            0 <= i < b.len() && concerns(#[trigger] b[i], id) && b[i].action
                == ItemAction::Deleted;
        assert(b.contains(b[i]));
        let j = choose|j: int| 0 <= j < a.len() && a[j] == b[i];
        assert(concerns(a[j], id));
    }
}

/// The order of the events inside a batch does not show in the snapshots.
/// Where a batch holds no two events of one record, the log with the batch
/// in another order has snapshots of the same records, and each record has
/// the same snapshot. Only the order of the snapshots may differ.
pub proof fn lemma_order_in_batch(
    before: Seq<Event>,
    batch: Seq<Event>,
    other: Seq<Event>,
    after: Seq<Event>,
    id: Seq<char>,
)
    requires
        distinct_ids(batch),
        distinct_ids(other),
        same_events(batch, other),
    ensures
        live_ids(before + batch + after).contains(id) == live_ids(before + other + after).contains(
            id,
        ),
        snapshot(before + batch + after, id) == snapshot(before + other + after, id),
{
    lemma_merged_batch(before, batch, id);
    lemma_merged_batch(before, other, id);
    lemma_touched_same(merged(before, id), batch, other, id);
    lemma_merged_after(before + batch, before + other, after, id);
    lemma_deleted_same(batch, other, id);
    lemma_concat(before, batch, id);
    lemma_concat(before, other, id);
    lemma_concat(before + batch, after, id);
    lemma_concat(before + other, after, id);
    lemma_live_ids(before + batch + after, id);
    lemma_live_ids(before + other + after, id);
}

/// The fold is a function of the events alone: logs with the same events in
/// the same order fold into the same snapshots, however the events are
/// batched and however often the fold is made.
pub proof fn lemma_fold_is_function(
    a: Seq<Vec<(String, HistoryItem)>>,
    b: Seq<Vec<(String, HistoryItem)>>,
)
    requires
        log_events(a) == log_events(b),
    ensures
        snapshots(log_events(a)) == snapshots(log_events(b)),
{
}

/// The events of two logs put together are the events of the first, then
/// those of the second.
pub proof fn lemma_log_events_concat(
    a: Seq<Vec<(String, HistoryItem)>>,
    b: Seq<Vec<(String, HistoryItem)>>,
)
    ensures
        log_events(a + b) == log_events(a) + log_events(b),
    decreases b.len(),
{
    if b.len() == 0 {
        assert(a + b =~= a);
        assert(log_events(a) + log_events(b) =~= log_events(a));
    } else {
        lemma_log_events_concat(a, b.drop_last());
        assert((a + b).drop_last() =~= a + b.drop_last());
        assert((a + b).last() == b.last());
        assert(log_events(a + b) =~= log_events(a) + log_events(b));
    }
}

} // verus!
