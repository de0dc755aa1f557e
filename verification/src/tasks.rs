//! The task list: plain records, the next free identifier, and the
//! serialized form that is handed to the model as context.

use crate::json::{begins_array, json_well_formed, opens_array, parse_succeeds};
use vstd::prelude::*;

verus! {

/// One task of the list.
#[derive(Debug, PartialEq, Eq)]
pub struct Task {
    pub id: u8,
    pub description: String,
    pub completed: bool,
}

/// The mathematical value of a `Task`.
pub struct TaskView {
    pub id: u8,
    pub description: Seq<char>,
    pub completed: bool,
}

impl View for Task {
    type V = TaskView;

    open spec fn view(&self) -> TaskView {
        TaskView { id: self.id, description: self.description@, completed: self.completed }
    }
}

impl DeepView for Task {
    type V = TaskView;

    open spec fn deep_view(&self) -> TaskView {
        self@
    }
}

impl Clone for Task {
    fn clone(&self) -> (r: Self)
        ensures
            r == *self,
    {
        Task { id: self.id, description: self.description.clone(), completed: self.completed }
    }
}

/// The highest identifier in use; 0 for the empty list.
pub open spec fn max_id(tasks: Seq<TaskView>) -> int
    decreases tasks.len(),
{
    if tasks.len() == 0 {
        0
    } else {
        let before = max_id(tasks.drop_last());
        if tasks.last().id > before {
            tasks.last().id as int
        } else {
            before
        }
    }
}

/// `max_id` is an upper bound of the identifiers, and one of them unless it is 0.
pub proof fn lemma_max_id(tasks: Seq<TaskView>)
    ensures
        0 <= max_id(tasks) <= u8::MAX,
        forall|i: int| 0 <= i < tasks.len() ==> (#[trigger] tasks[i]).id <= max_id(tasks),
        max_id(tasks) == 0 || exists|i: int| 0 <= i < tasks.len() && (#[trigger] tasks[i]).id
            == max_id(tasks),
    decreases tasks.len(),
{
    if tasks.len() > 0 {
        let before = tasks.drop_last();
        lemma_max_id(before);
        assert forall|i: int| 0 <= i < tasks.len() implies (#[trigger] tasks[i]).id <= max_id(
            tasks,
        ) by {
            if i < before.len() {
                assert(before[i] == tasks[i]);
            }
        }
        if max_id(tasks) != 0 {
            if tasks.last().id > max_id(before) {
                assert(tasks[tasks.len() - 1].id == max_id(tasks));
            } else {
                let i = choose|i: int| 0 <= i < before.len() && (#[trigger] before[i]).id
                    == max_id(before);
                assert(tasks[i] == before[i]);
            }
        }
    }
}

/// The highest identifier in use; 0 for the empty list.
pub fn highest_id(tasks: &Vec<Task>) -> (r: u8)
    ensures
        r == max_id(tasks.deep_view()),
{
    let ghost all = tasks.deep_view();
    let mut highest: u8 = 0;
    let mut i: usize = 0;
    while i < tasks.len()
        invariant
            i <= tasks.len(),
            all == tasks.deep_view(),
            highest == max_id(all.take(i as int)),
        decreases tasks.len() - i,
    {
        proof {
            let upto = all.take(i + 1);
            assert(upto.drop_last() =~= all.take(i as int));
        }
        if tasks[i].id > highest {
            highest = tasks[i].id;
        }
        i = i + 1;
    }
    assert(all.take(tasks.len() as int) =~= all);
    highest
}

/// The identifier for the next new task: one more than the highest in use.
pub fn get_next_id(tasks: &Vec<Task>) -> (r: u8)
    requires
        max_id(tasks.deep_view()) < u8::MAX,
    ensures
        r == max_id(tasks.deep_view()) + 1,
{
    highest_id(tasks) + 1
}

/// Appends a new, open task under the next identifier, which is returned.
pub fn add_task(tasks: &mut Vec<Task>, description: String) -> (id: u8)
    requires
        max_id(old(tasks).deep_view()) < u8::MAX,
    ensures
        id == max_id(old(tasks).deep_view()) + 1,
        final(tasks).deep_view() == old(tasks).deep_view().push(
            TaskView { id, description: description@, completed: false },
        ),
{
    let id = get_next_id(tasks);
    tasks.push(Task { id, description, completed: false });
    id
}

/// The position of the first task with identifier `id`.
pub open spec fn position_of(tasks: Seq<TaskView>, id: u8) -> Option<int>
    decreases tasks.len(),
{
    if tasks.len() == 0 {
        None
    } else {
        match position_of(tasks.drop_last(), id) {
            Some(i) => Some(i),
            None => if tasks.last().id == id {
                Some(tasks.len() - 1)
            } else {
                None
            },
        }
    }
}

/// `tasks` with the first task of identifier `id` marked as completed.
pub open spec fn with_completed(tasks: Seq<TaskView>, id: u8) -> Seq<TaskView> {
    match position_of(tasks, id) {
        Some(i) => tasks.update(i, TaskView { completed: true, ..tasks[i] }),
        None => tasks,
    }
}

/// `position_of` gives an index of the list that holds a task with the identifier.
pub proof fn lemma_position_of(tasks: Seq<TaskView>, id: u8)
    ensures
        position_of(tasks, id) matches Some(i) ==> 0 <= i < tasks.len() && tasks[i].id == id
            && forall|j: int| 0 <= j < i ==> (#[trigger] tasks[j]).id != id,
        position_of(tasks, id) is None ==> forall|j: int|
            0 <= j < tasks.len() ==> (#[trigger] tasks[j]).id != id,
    decreases tasks.len(),
{
    if tasks.len() > 0 {
        let before = tasks.drop_last();
        lemma_position_of(before, id);
        match position_of(before, id) {
            Some(i) => {
                assert forall|j: int| 0 <= j < i implies (#[trigger] tasks[j]).id != id by {
                    assert(tasks[j] == before[j]);
                }
            },
            None => {
                assert forall|j: int| 0 <= j < before.len() implies (#[trigger] tasks[j]).id
                    != id by {
                    assert(tasks[j] == before[j]);
                }
            },
        }
    }
}

/// Marks the first task with identifier `id` as completed. Returns whether
/// there is such a task; if there is none the list is unchanged.
pub fn complete_task(tasks: &mut Vec<Task>, id: u8) -> (found: bool)
    ensures
        found == position_of(old(tasks).deep_view(), id).is_some(),
        final(tasks).deep_view() == with_completed(old(tasks).deep_view(), id),
{
    let ghost all = tasks.deep_view();
    let mut i: usize = 0;
    while i < tasks.len()
        invariant
            i <= tasks.len(),
            all == tasks.deep_view(),
            tasks == old(tasks),
            position_of(all.take(i as int), id) is None,
        decreases tasks.len() - i,
    {
        proof {
            let upto = all.take(i + 1);
            assert(upto.drop_last() =~= all.take(i as int));
        }
        if tasks[i].id == id {
            proof {
                lemma_position_of_prefix(all, i + 1, id);
            }
            let done = Task {
                id: tasks[i].id,
                description: tasks[i].description.clone(),
                completed: true,
            };
            tasks.set(i, done);
            return true;
        }
        i = i + 1;
    }
    assert(all.take(tasks.len() as int) =~= all);
    false
}

/// What `position_of` finds in a prefix it finds in the whole list.
pub proof fn lemma_position_of_prefix(tasks: Seq<TaskView>, n: int, id: u8)
    requires
        0 <= n <= tasks.len(),
        position_of(tasks.take(n), id) is Some,
    ensures
        position_of(tasks, id) == position_of(tasks.take(n), id),
    decreases tasks.len() - n,
{
    if n == tasks.len() {
        assert(tasks.take(n) =~= tasks);
    } else {
        let longer = tasks.take(n + 1);
        assert(longer.drop_last() =~= tasks.take(n));
        lemma_position_of_prefix(tasks, n + 1, id);
    }
}

/// `tasks` without the tasks of identifier `id`, the others in their order.
pub open spec fn without_id(tasks: Seq<TaskView>, id: u8) -> Seq<TaskView>
    decreases tasks.len(),
{
    if tasks.len() == 0 {
        Seq::empty()
    } else if tasks.last().id == id {
        without_id(tasks.drop_last(), id)
    } else {
        without_id(tasks.drop_last(), id).push(tasks.last())
    }
}

/// Removing by identifier never lengthens the list, and shortens it exactly
/// when some task has the identifier.
pub proof fn lemma_without_id_len(tasks: Seq<TaskView>, id: u8)
    ensures
        without_id(tasks, id).len() <= tasks.len(),
        without_id(tasks, id).len() < tasks.len() <==> position_of(tasks, id) is Some,
    decreases tasks.len(),
{
    if tasks.len() > 0 {
        lemma_without_id_len(tasks.drop_last(), id);
    }
}

/// Removes every task with identifier `id`. Returns whether any was removed.
pub fn remove_task(tasks: &mut Vec<Task>, id: u8) -> (removed: bool)
    ensures
        final(tasks).deep_view() == without_id(old(tasks).deep_view(), id),
        removed == position_of(old(tasks).deep_view(), id).is_some(),
{
    let ghost all = tasks.deep_view();
    let mut kept: Vec<Task> = Vec::new();
    let mut i: usize = 0;
    while i < tasks.len()
        invariant
            i <= tasks.len(),
            all == tasks.deep_view(),
            kept.deep_view() == without_id(all.take(i as int), id),
        decreases tasks.len() - i,
    {
        let ghost before = kept.deep_view();
        proof {
            let upto = all.take(i + 1);
            assert(upto.drop_last() =~= all.take(i as int));
        }
        if tasks[i].id != id {
            kept.push(tasks[i].clone());
            assert(kept.deep_view() =~= before.push(tasks@[i as int]@));
        }
        i = i + 1;
    }
    proof {
        assert(all.take(tasks.len() as int) =~= all);
        lemma_without_id_len(all, id);
    }
    let removed = kept.len() < tasks.len();
    *tasks = kept;
    removed
}

/// The task list as the model is to see it: the stored text where that is
/// a well-formed JSON array, else the empty array.
pub open spec fn context_text(stored: Option<Seq<char>>) -> Seq<char> {
    match stored {
        Some(text) => checked_context_text(text, json_well_formed(text)),
        None => "[]"@,
    }
}

/// The stored text if it was found well-formed and is an array, else the
/// empty array. Well-formed text is an array exactly when it opens as one.
pub open spec fn checked_context_text(text: Seq<char>, well_formed: bool) -> Seq<char> {
    if well_formed && begins_array(text) {
        text
    } else {
        "[]"@
    }
}

/// Keeps the stored text if it was found well-formed and is an array, else
/// gives the empty array.
pub fn checked_context(text: String, well_formed: bool) -> (r: String)
    ensures
        r@ == checked_context_text(text@, well_formed),
{
    if well_formed && opens_array(text.as_str()) {
        text
    } else {
        "[]".to_owned()
    }
}

/// The serialized task list to use as context, given what was stored:
/// `None` where nothing could be read. The result is always a JSON array.
pub fn tasks_context(stored: Option<String>) -> (r: String)
    ensures
        r@ == context_text(stored.deep_view()),
{
    match stored {
        Some(text) => {
            let well_formed = parse_succeeds(text.as_str());
            checked_context(text, well_formed)
        },
        None => "[]".to_owned(),
    }
}

} // verus!
