//! The history of an account and its fold into task snapshots.
//!
//! The log is a sequence of batches; a batch maps record identifiers to
//! events. Only events of task records count. A record with a delete event
//! anywhere in the log is gone; every other record becomes one snapshot, the
//! payloads of its events merged in log order, a later field replacing an
//! earlier one of the same name.

use crate::account::Account;
use crate::json::{
    clone_fields, extend_fields, fields_of, new_fields, object_of, object_value, Object,
};
use serde_json::Value;
use vstd::prelude::*;

verus! {

/// Why the history of an account cannot be had.
#[derive(Debug)]
pub enum Error {
    /// An error occurred while communicating with the Things Cloud API;
    /// the text says which.
    Reqwest(String),
    /// An error occurred while decoding the API response: the path of the
    /// field that could not be decoded, and what was wrong with it.
    Decode { path: String, message: String },
}

/// What an event does to its record.
#[derive(Debug, Clone, Copy, PartialEq, Eq, Structural)]
pub enum ItemAction {
    Create,
    Modified,
    Deleted,
}

impl ItemAction {
    /// The action that a wire code stands for: 0 creates, 1 modifies, 2 deletes.
    pub open spec fn of_code(code: u8) -> Option<ItemAction> {
        if code == 0 {
            Some(ItemAction::Create)
        } else if code == 1 {
            Some(ItemAction::Modified)
        } else if code == 2 {
            Some(ItemAction::Deleted)
        } else {
            None
        }
    }

    pub fn from_code(code: u8) -> (action: Option<ItemAction>)
        ensures
            action == Self::of_code(code),
    {
        if code == 0 {
            Some(ItemAction::Create)
        } else if code == 1 {
            Some(ItemAction::Modified)
        } else if code == 2 {
            Some(ItemAction::Deleted)
        } else {
            None
        }
    }
}

/// The status that a task snapshot may carry in its `status` field.
#[derive(Debug, Clone, Copy, PartialEq, Eq, Structural)]
pub enum TaskStatus {
    Pending,
    Completed,
    Cancelled,
}

impl TaskStatus {
    /// The number that stands for a status: 0 pending, 2 cancelled, 3 completed.
    pub open spec fn spec_code(self) -> u8 {
        match self {
            TaskStatus::Pending => 0,
            TaskStatus::Completed => 3,
            TaskStatus::Cancelled => 2,
        }
    }

    pub fn code(self) -> (code: u8)
        ensures
            code == self.spec_code(),
    {
        match self {
            TaskStatus::Pending => 0,
            TaskStatus::Completed => 3,
            TaskStatus::Cancelled => 2,
        }
    }

    /// The status with the given number, if there is one.
    pub fn from_code(code: u8) -> (status: Option<TaskStatus>)
        ensures
            status is Some <==> code == 0 || code == 2 || code == 3,
            status is Some ==> status->0.spec_code() == code,
    {
        if code == 0 {
            Some(TaskStatus::Pending)
        } else if code == 3 {
            Some(TaskStatus::Completed)
        } else if code == 2 {
            Some(TaskStatus::Cancelled)
        } else {
            None
        }
    }
}

/// One event of the log, without the identifier of its record.
#[derive(Debug)]
pub struct HistoryItem {
    /// The kind of record; task records have a kind that begins with `Task`.
    pub kind: String,
    pub action: ItemAction,
    /// The fields that the event sets.
    pub payload: Object,
}

/// One page of the log as the server answers it, or several pages put together.
#[derive(Debug)]
pub struct HistoryApiResponse {
    /// The length of the whole log as the server reported it.
    pub last_index: usize,
    /// The batches in log order; each holds record identifiers with their events.
    pub items: Vec<Vec<(String, HistoryItem)>>,
}

/// An event as the fold sees it.
pub struct Event {
    pub id: Seq<char>,
    pub kind: Seq<char>,
    pub action: ItemAction,
    pub payload: Map<Seq<char>, Value>,
}

impl HistoryItem {
    pub open spec fn event(self, id: Seq<char>) -> Event {
        Event { id, kind: self.kind@, action: self.action, payload: fields_of(self.payload) }
    }
}

/// The events of one batch, in the order in which the batch lists them.
pub open spec fn batch_events(batch: Seq<(String, HistoryItem)>) -> Seq<Event> {
    Seq::new(batch.len(), |i: int| batch[i].1.event(batch[i].0@))
}

/// The events of a log, batch after batch.
pub open spec fn log_events(items: Seq<Vec<(String, HistoryItem)>>) -> Seq<Event>
    decreases items.len(),
{
    if items.len() == 0 {
        Seq::empty()
    } else {
        log_events(items.drop_last()) + batch_events(items.last()@)
    }
}

/// `str::starts_with` with a string pattern: whether `prefix` is how `text` begins.
#[verifier::external_body]
pub(crate) fn starts_with(text: &str, prefix: &str) -> (found: bool)
    ensures
        found == prefix@.is_prefix_of(text@),
{
    text.starts_with(prefix)
}

/// Whether a kind is that of a task record.
pub open spec fn is_task(kind: Seq<char>) -> bool {
    "Task"@.is_prefix_of(kind)
}

/// Whether `event` is an event of the task record `id`.
pub open spec fn concerns(event: Event, id: Seq<char>) -> bool {
    is_task(event.kind) && event.id == id
}

/// The identifiers of the task records of a log, each once, in the order of
/// their first event.
pub open spec fn task_ids(events: Seq<Event>) -> Seq<Seq<char>>
    decreases events.len(),
{
    if events.len() == 0 {
        Seq::empty()
    } else {
        let earlier = task_ids(events.drop_last());
        let event = events.last();
        if is_task(event.kind) && !earlier.contains(event.id) {
            earlier.push(event.id)
        } else {
            earlier
        }
    }
}

/// Whether some event of the task record `id` deletes it.
pub open spec fn deleted(events: Seq<Event>, id: Seq<char>) -> bool {
    exists|i: int|
        0 <= i < events.len() && concerns(#[trigger] events[i], id) && events[i].action
            == ItemAction::Deleted
}

/// The payloads of the events of the task record `id`, merged in log order:
/// a field has the value that the last event that sets it gives it.
pub open spec fn merged(events: Seq<Event>, id: Seq<char>) -> Map<Seq<char>, Value>
    decreases events.len(),
{
    if events.len() == 0 {
        Map::empty()
    } else {
        let earlier = merged(events.drop_last(), id);
        if concerns(events.last(), id) {
            earlier.union_prefer_right(events.last().payload)
        } else {
            earlier
        }
    }
}

/// Those of `ids` that `events` does not delete, in the order of `ids`.
pub open spec fn live(ids: Seq<Seq<char>>, events: Seq<Event>) -> Seq<Seq<char>>
    decreases ids.len(),
{
    if ids.len() == 0 {
        Seq::empty()
    } else {
        let earlier = live(ids.drop_last(), events);
        if deleted(events, ids.last()) {
            earlier
        } else {
            earlier.push(ids.last())
        }
    }
}

/// The identifiers of the task records that no event deletes, in the order
/// in which the records first occur.
pub open spec fn live_ids(events: Seq<Event>) -> Seq<Seq<char>> {
    live(task_ids(events), events)
}

/// The snapshot of the task record `id`: the object of its merged fields.
pub open spec fn snapshot(events: Seq<Event>, id: Seq<char>) -> Value {
    object_of(merged(events, id))
}

/// The task snapshots that a log folds into: one for each live task record.
pub open spec fn snapshots(events: Seq<Event>) -> Seq<Value> {
    Seq::new(live_ids(events).len(), |k: int| snapshot(events, live_ids(events)[k]))
}

/// A record without events so far is not deleted and has no fields.
pub proof fn lemma_unseen(events: Seq<Event>, id: Seq<char>)
    requires
        !task_ids(events).contains(id),
    ensures
        !deleted(events, id),
        merged(events, id) == Map::<Seq<char>, Value>::empty(),
        forall|i: int| 0 <= i < events.len() ==> !concerns(#[trigger] events[i], id),
    decreases events.len(),
{
    if events.len() > 0 {
        let earlier = task_ids(events.drop_last());
        let event = events.last();
        if is_task(event.kind) && !earlier.contains(event.id) {
            assert(earlier.push(event.id).last() == event.id);
            assert forall|i: int| 0 <= i < earlier.len() implies earlier[i] != id by {
                assert(earlier.push(event.id)[i] == earlier[i]);
            }
        }
        lemma_unseen(events.drop_last(), id);
        assert forall|i: int| 0 <= i < events.len() implies !concerns(#[trigger] events[i], id) by {
            if i < events.len() - 1 {
                assert(events.drop_last()[i] == events[i]);
            }
        }
    }
}

/// One more event deletes a record if an earlier one did or this one does.
pub proof fn lemma_deleted_push(events: Seq<Event>, event: Event, id: Seq<char>)
    ensures
        deleted(events.push(event), id) == (deleted(events, id) || (concerns(event, id)
            && event.action == ItemAction::Deleted)),
{
    let longer = events.push(event);
    if deleted(events, id) {
        let i = choose|i: int|
            0 <= i < events.len() && concerns(#[trigger] events[i], id) && events[i].action
                == ItemAction::Deleted;
        assert(longer[i] == events[i]);
    }
    if concerns(event, id) && event.action == ItemAction::Deleted {
        assert(longer[events.len() as int] == event);
    }
    if deleted(longer, id) {
        let i = choose|i: int|
            0 <= i < longer.len() && concerns(#[trigger] longer[i], id) && longer[i].action
                == ItemAction::Deleted;
        if i < events.len() {
            assert(longer[i] == events[i]);
        }
    }
}

/// The identifiers of the task records of a log are pairwise different.
pub proof fn lemma_task_ids_distinct(events: Seq<Event>)
    ensures
        task_ids(events).no_duplicates(),
    decreases events.len(),
{
    if events.len() > 0 {
        lemma_task_ids_distinct(events.drop_last());
    }
}

/// The place of `id` among `ids`, or their number where it is not among them.
fn position(ids: &Vec<String>, id: &String) -> (k: usize)
    ensures
        k <= ids.len(),
        k < ids.len() ==> ids[k as int]@ == id@,
        forall|j: int| 0 <= j < k ==> ids[j]@ != id@,
{
    let mut k: usize = 0;
    while k < ids.len()
        invariant
            k <= ids.len(),
            forall|j: int| 0 <= j < k ==> ids[j]@ != id@,
        decreases ids.len() - k,
    {
        if ids[k] == *id {
            return k;
        }
        k += 1;
    }
    k
}

/// The task records of the events taken so far, in the order of their first
/// event: of each its identifier, whether an event deleted it, and its fields.
struct Groups {
    ids: Vec<String>,
    dead: Vec<bool>,
    fields: Vec<Object>,
}

impl Groups {
    /// Whether the groups are those of the events `seen`.
    spec fn holds(&self, seen: Seq<Event>) -> bool {
        &&& self.ids@.len() == self.dead@.len()
        &&& self.ids@.len() == self.fields@.len()
        &&& task_ids(seen).len() == self.ids@.len()
        &&& forall|k: int|
            0 <= k < self.ids@.len() ==> (#[trigger] self.ids@[k])@ == task_ids(seen)[k]
        &&& forall|k: int|
            0 <= k < self.ids@.len() ==> #[trigger] self.dead@[k] == deleted(seen, self.ids@[k]@)
        &&& forall|k: int|
            0 <= k < self.ids@.len() ==> fields_of(#[trigger] self.fields@[k]) == merged(
                seen,
                self.ids@[k]@,
            )
    }

    fn new() -> (groups: Groups)
        ensures
            groups.holds(Seq::empty()),
    {
        Groups { ids: Vec::new(), dead: Vec::new(), fields: Vec::new() }
    }

    /// Takes the next event of the log.
    fn take(&mut self, id: &String, item: &HistoryItem, Ghost(seen): Ghost<Seq<Event>>)
        requires
            old(self).holds(seen),
        ensures
            final(self).holds(seen.push(item.event(id@))),
    {
        let ghost event = item.event(id@);
        let ghost longer = seen.push(event);
        proof {
            assert(longer.drop_last() =~= seen);
            assert forall|m: int| 0 <= m < self.ids@.len() implies deleted(longer, self.ids@[m]@)
                == (deleted(seen, self.ids@[m]@) || (concerns(event, self.ids@[m]@) && event.action
                == ItemAction::Deleted)) by {
                lemma_deleted_push(seen, event, self.ids@[m]@);
            }
        }
        if starts_with(item.kind.as_str(), "Task") {
            let k = position(&self.ids, id);
            if k == self.ids.len() {
                proof {
                    assert forall|m: int| 0 <= m < task_ids(seen).len() implies task_ids(
                        seen,
                    )[m] != event.id by {
                        assert(self.ids@[m]@ == task_ids(seen)[m]);
                    }
                    lemma_unseen(seen, event.id);
                }
                self.ids.push(id.clone());
                self.dead.push(false);
                self.fields.push(new_fields());
            }
            proof {
                lemma_task_ids_distinct(seen);
            }
            if item.action == ItemAction::Deleted {
                self.dead.set(k, true);
            }
            extend_fields(&mut self.fields[k], clone_fields(&item.payload));
            proof {
                assert forall|m: int| 0 <= m < self.ids@.len() implies fields_of(
                    #[trigger] self.fields@[m],
                ) == merged(longer, self.ids@[m]@) by {
                    if m == k && k == task_ids(seen).len() {
                        assert(Map::<Seq<char>, Value>::empty().union_prefer_right(event.payload)
                            =~= merged(seen, event.id).union_prefer_right(event.payload));
                    }
                }
            }
        }
    }

    /// The snapshots of the records that no event deleted.
    fn snapshots(&self, Ghost(seen): Ghost<Seq<Event>>) -> (tasks: Vec<Value>)
        requires
            self.holds(seen),
        ensures
            tasks@ == snapshots(seen),
    {
        let mut tasks: Vec<Value> = Vec::new();
        let mut k: usize = 0;
        let ghost all = task_ids(seen);
        assert(all.take(0) =~= Seq::empty());
        while k < self.ids.len()
            invariant
                k <= self.ids.len(),
                all == task_ids(seen),
                self.holds(seen),
                tasks@.len() == live(all.take(k as int), seen).len(),
                forall|m: int|
                    0 <= m < tasks@.len() ==> tasks@[m] == snapshot(
                        seen,
                        #[trigger] live(all.take(k as int), seen)[m],
                    ),
            decreases self.ids.len() - k,
        {
            proof {
                assert(all.take(k + 1).drop_last() =~= all.take(k as int));
                assert(all.take(k + 1).last() == self.ids@[k as int]@);
            }
            if !self.dead[k] {
                tasks.push(object_value(clone_fields(&self.fields[k])));
            }
            k += 1;
        }
        assert(all.take(all.len() as int) =~= all);
        assert(tasks@ =~= snapshots(seen));
        tasks
    }
}

/// Folds a log into the snapshots of its live tasks.
pub fn fold_events(items: &Vec<Vec<(String, HistoryItem)>>) -> (tasks: Vec<Value>)
    ensures
        tasks@ == snapshots(log_events(items@)),
{
    let mut groups = Groups::new();
    let ghost mut seen: Seq<Event> = Seq::empty();
    let mut i: usize = 0;
    assert(items@.take(0) =~= Seq::empty());
    while i < items.len()
        invariant
            i <= items.len(),
            seen == log_events(items@.take(i as int)),
            groups.holds(seen),
        decreases items.len() - i,
    {
        let batch = &items[i];
        let ghost before = seen;
        let mut j: usize = 0;
        assert(before + batch_events(batch@).take(0) =~= before);
        while j < batch.len()
            invariant
                j <= batch.len(),
                seen == before + batch_events(batch@).take(j as int),
                groups.holds(seen),
            decreases batch.len() - j,
        {
            let entry = &batch[j];
            groups.take(&entry.0, &entry.1, Ghost(seen));
            proof {
                let event = entry.1.event(entry.0@);
                assert(seen.push(event) =~= before + batch_events(batch@).take(j + 1));
                seen = seen.push(event);
            }
            j += 1;
        }
        proof {
            assert(batch_events(batch@).take(batch@.len() as int) =~= batch_events(batch@));
            assert(items@.take(i + 1).drop_last() =~= items@.take(i as int));
        }
        i += 1;
    }
    assert(items@.take(items@.len() as int) =~= items@);
    groups.snapshots(Ghost(seen))
}

/// The tasks of an account as its history gives them, with the length of the
/// log up to which the history was read.
#[derive(Debug)]
pub struct History<'a> {
    pub tasks: Vec<Value>,
    last_index: usize,
    account: &'a Account,
}

impl<'a> History<'a> {
    /// The snapshots that this history holds.
    pub closed spec fn spec_tasks(&self) -> Seq<Value> {
        self.tasks@
    }

    /// The length of the log up to which this history was read.
    pub closed spec fn spec_last_index(&self) -> usize {
        self.last_index
    }

    pub closed spec fn spec_account(&self) -> &'a Account {
        self.account
    }

    /// The history that a fetched log folds into. It keeps the log length
    /// that the log reports.
    pub fn from_response(account: &'a Account, history: &HistoryApiResponse) -> (result: Self)
        ensures
            result.spec_tasks() == snapshots(log_events(history.items@)),
            result.spec_last_index() == history.last_index,
            result.spec_account() == account,
    {
        let tasks = fold_events(&history.items);
        Self { tasks, last_index: history.last_index, account }
    }

    /// A history without tasks that stands at the given log length.
    #[must_use]
    pub fn from_index(account: &'a Account, index: usize) -> (result: Self)
        ensures
            result.spec_tasks() == Seq::<Value>::empty(),
            result.spec_last_index() == index,
            result.spec_account() == account,
    {
        Self { account, tasks: Vec::new(), last_index: index }
    }

    /// The snapshots that this history holds.
    pub fn tasks(&self) -> (tasks: &Vec<Value>)
        ensures
            tasks@ == self.spec_tasks(),
    {
        &self.tasks
    }

    #[verifier::when_used_as_spec(spec_last_index)]
    pub fn last_index(&self) -> (index: usize)
        ensures
            index == self.spec_last_index(),
    {
        self.last_index
    }

    #[verifier::when_used_as_spec(spec_account)]
    pub fn account(&self) -> (account: &'a Account)
        ensures
            account == self.spec_account(),
    {
        self.account
    }
}

} // verus!
