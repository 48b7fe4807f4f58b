use vstd::prelude::*;

verus! {

/// The most execute tasks that one dependency may collect; a longer
/// list points at circular build dependencies.
pub const EXECUTE_TASK_LIMIT: usize = 10000;

/// The execute tasks that wait for the same dependency, in the order in
/// which they were added.
#[derive(Debug)]
pub struct ExecuteTaskList<T>(pub Vec<T>);

impl<T> View for ExecuteTaskList<T> {
    type V = Seq<T>;

    open spec fn view(&self) -> Seq<T> {
        self.0@
    }
}

impl<T> ExecuteTaskList<T> {
    pub fn new() -> (r: ExecuteTaskList<T>)
        ensures
            r@ == Seq::<T>::empty(),
    {
        ExecuteTaskList(Vec::new())
    }

    /// Appends a task; the list may not grow beyond `EXECUTE_TASK_LIMIT`.
    pub fn add_task(&mut self, task: T)
        requires
            old(self)@.len() < EXECUTE_TASK_LIMIT,
        ensures
            final(self)@ == old(self)@.push(task),
    {
        self.0.push(task);
    }

    pub fn into_vec(self) -> (r: Vec<T>)
        ensures
            r@ == self@,
    {
        self.0
    }
}

impl<T> Default for ExecuteTaskList<T> {
    fn default() -> (r: ExecuteTaskList<T>)
        ensures
            r@ == Seq::<T>::empty(),
    {
        ExecuteTaskList::new()
    }
}

/// The tasks of a list after `tasks` were added one by one.
pub open spec fn add_all<T>(list: Seq<T>, tasks: Seq<T>) -> Seq<T>
    decreases tasks.len(),
{
    if tasks.len() == 0 {
        list
    } else {
        add_all(list.push(tasks[0]), tasks.drop_first())
    }
}

proof fn lemma_add_all_len<T>(list: Seq<T>, tasks: Seq<T>)
    ensures
        add_all(list, tasks).len() == list.len() + tasks.len(),
    decreases tasks.len(),
{
    if tasks.len() > 0 {
        lemma_add_all_len(list.push(tasks[0]), tasks.drop_first());
    }
}

/// Adding tasks one by one, as long as the list stays within the limit,
/// is allowed at every step, and taking the tasks back gives those that
/// were there followed by the added ones, in order: none lost, none
/// duplicated.
pub proof fn lemma_add_tasks_round_trip<T>(list: Seq<T>, tasks: Seq<T>)
    requires
        list.len() + tasks.len() <= EXECUTE_TASK_LIMIT,
    ensures
        add_all(list, tasks) == list + tasks,
        forall|i: int| 0 <= i < tasks.len() ==> #[trigger] add_all(list, tasks.take(i)).len() < EXECUTE_TASK_LIMIT,
    decreases tasks.len(),
{
    if tasks.len() > 0 {
        lemma_add_tasks_round_trip(list.push(tasks[0]), tasks.drop_first());
        assert(list.push(tasks[0]) + tasks.drop_first() =~= list + tasks);
        assert forall|i: int| 0 <= i < tasks.len() implies #[trigger] add_all(list, tasks.take(i)).len() < EXECUTE_TASK_LIMIT by {
            lemma_add_all_len(list, tasks.take(i));
        }
    }
}

} // verus!
