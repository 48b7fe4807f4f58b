use std::collections::HashMap;
use std::collections::VecDeque;
use tokio::sync::mpsc::error::TryRecvError;
use tokio::sync::mpsc::UnboundedReceiver;
use vstd::prelude::*;

use crate::counter::UnfinishCounter;
use crate::finish::CtrlFault;
use crate::task_list::{ExecuteTaskList, EXECUTE_TASK_LIMIT};

verus! {

/// Identifies a module of the module graph.
pub type ModuleIdentifier = u64;

/// Identifies a dependency of the module graph.
pub type DependencyId = u32;

/// The receiving half of tokio's unbounded channel, declared so that the
/// controller can hold the receiver of its events. Nothing inside it is
/// visible to the proofs.
#[verifier::external_type_specification]
#[verifier::external_body]
#[verifier::reject_recursive_types(T)]
pub struct ExUnboundedReceiver<T>(UnboundedReceiver<T>);

/// A dependency that a loader imports, to be built and executed.
#[derive(Debug)]
pub struct LoaderImportDependency {
    pub id: DependencyId,
    pub request: String,
}

/// Which dependency an execution waits for.
#[derive(Debug)]
pub enum ExecuteParam {
    DependencyId(DependencyId),
    /// An entry that must be built first, with the layer it is built in.
    Entry(Box<LoaderImportDependency>, Option<String>),
}

impl ExecuteParam {
    pub open spec fn spec_dependency_id(self) -> DependencyId {
        match self {
            ExecuteParam::DependencyId(id) => id,
            ExecuteParam::Entry(dep, _) => dep.id,
        }
    }

    pub fn dependency_id(&self) -> (r: DependencyId)
        ensures
            r == self.spec_dependency_id(),
    {
        match self {
            ExecuteParam::DependencyId(id) => *id,
            ExecuteParam::Entry(dep, _) => dep.id,
        }
    }
}

/// The events that the build reports to the controller. `E` is an
/// execute task and `B` a task to run before the build of an entry.
#[derive(Debug)]
pub enum Event<E, B> {
    StartBuild(ModuleIdentifier),
    /// The origin module (none for an entry dependency), the dependency
    /// that finished, and the module it points at.
    FinishDeps(Option<ModuleIdentifier>, DependencyId, Option<ModuleIdentifier>),
    /// The module whose own build finished, and its number of children.
    FinishModule(ModuleIdentifier, usize),
    ExecuteModule(ExecuteParam, E, Option<B>),
    Stop(),
}

/// The task that builds an entry dependency.
#[derive(Debug)]
pub struct EntryTask {
    pub dep: Box<LoaderImportDependency>,
    pub layer: Option<String>,
}

/// A task that the controller hands out to be run.
#[derive(Debug)]
pub enum TaskItem<E, B> {
    BeforeExecuteBuild(B),
    Entry(EntryTask),
    Execute(E),
}

/// What the controller does after an event that it received in the
/// background.
#[derive(Debug)]
pub enum CtrlStep<E, B> {
    /// Wait for the next event.
    Continue,
    /// Run these tasks, then resume the controller.
    Yield(Vec<TaskItem<E, B>>),
    /// The module finished: hand the controller to a task that finishes it.
    FinishModule(ModuleIdentifier),
    /// Stop: no task follows.
    Stop,
}

/// How a task is scheduled.
#[derive(Clone, Copy, Debug, PartialEq, Eq, Structural)]
pub enum TaskType {
    Sync,
    Async,
}

/// The controller of module execution: it counts the unfinished
/// children of every module being built and keeps, for each dependency,
/// the execute tasks that wait for it.
#[derive(Debug)]
#[verifier::reject_recursive_types(E)]
#[verifier::reject_recursive_types(B)]
pub struct CtrlTask<E, B> {
    pub event_receiver: UnboundedReceiver<Event<E, B>>,
    pub execute_task_map: HashMap<DependencyId, ExecuteTaskList<E>>,
    pub running_module_map: HashMap<ModuleIdentifier, UnfinishCounter>,
}

/// The task that finishes a module with the controller in hand.
#[derive(Debug)]
#[verifier::reject_recursive_types(E)]
#[verifier::reject_recursive_types(B)]
pub struct FinishModuleTask<E, B> {
    pub ctrl_task: Box<CtrlTask<E, B>>,
    pub module_identifier: ModuleIdentifier,
}

impl<E, B> FinishModuleTask<E, B> {
    pub fn get_task_type(&self) -> (r: TaskType)
        ensures
            r is Sync,
    {
        TaskType::Sync
    }
}

/// The task lists of a map, each by its sequence of tasks.
pub open spec fn task_view<E>(m: Map<DependencyId, ExecuteTaskList<E>>) -> Map<DependencyId, Seq<E>> {
    m.map_values(|l: ExecuteTaskList<E>| l@)
}

/// Each execute task as a task to run.
pub open spec fn execute_items<E, B>(s: Seq<E>) -> Seq<TaskItem<E, B>> {
    s.map_values(|e: E| TaskItem::<E, B>::Execute(e))
}

/// The task to run before a build, where there is one.
pub open spec fn before_items<E, B>(before: Option<B>) -> Seq<TaskItem<E, B>> {
    match before {
        Some(b) => seq![TaskItem::<E, B>::BeforeExecuteBuild(b)],
        None => Seq::<TaskItem<E, B>>::empty(),
    }
}

/// A finished dependency whose target module is still being built, and
/// is not its origin, is ignored.
pub open spec fn deps_skipped(
    running: Map<ModuleIdentifier, UnfinishCounter>,
    origin: Option<ModuleIdentifier>,
    target: Option<ModuleIdentifier>,
) -> bool {
    match target {
        Some(t) => running.contains_key(t) && origin != Some(t),
        None => false,
    }
}

/// The events that the controller can handle in the given state: the
/// others would find no counter, no task list, a counter with no child
/// left, or a full task list.
pub open spec fn event_accepted<E, B>(
    running: Map<ModuleIdentifier, UnfinishCounter>,
    tasks: Map<DependencyId, Seq<E>>,
    event: Event<E, B>,
) -> bool {
    match event {
        Event::FinishDeps(origin, dep_id, target) => deps_skipped(running, origin, target) || match origin {
            None => tasks.contains_key(dep_id),
            Some(o) => running.contains_key(o) && running[o].can_minus_one(),
        },
        Event::FinishModule(m, _) => running.contains_key(m),
        Event::ExecuteModule(param, _, _) => {
            let id = param.spec_dependency_id();
            tasks.contains_key(id) ==> tasks[id].len() < EXECUTE_TASK_LIMIT
        },
        _ => true,
    }
}

/// The expectation that an event breaks in the given state: a finished
/// entry dependency with no task list, a finished child whose origin has
/// no counter or no child left, a finished module with no counter, or an
/// execution for a full task list.
pub open spec fn event_rejection<E, B>(
    running: Map<ModuleIdentifier, UnfinishCounter>,
    tasks: Map<DependencyId, Seq<E>>,
    event: Event<E, B>,
) -> Option<CtrlFault> {
    match event {
        Event::FinishDeps(origin, dep_id, target) => if deps_skipped(running, origin, target) {
            None
        } else {
            match origin {
                None => if tasks.contains_key(dep_id) { None } else { Some(CtrlFault::MissingExecuteTask) },
                Some(o) => if !running.contains_key(o) {
                    Some(CtrlFault::MissingCounter)
                } else if !running[o].can_minus_one() {
                    Some(CtrlFault::CounterUnderflow)
                } else {
                    None
                },
            }
        },
        Event::FinishModule(m, _) => if running.contains_key(m) { None } else { Some(CtrlFault::MissingCounter) },
        Event::ExecuteModule(param, _, _) => {
            let id = param.spec_dependency_id();
            if tasks.contains_key(id) && tasks[id].len() >= EXECUTE_TASK_LIMIT {
                Some(CtrlFault::TaskLimit)
            } else {
                None
            }
        },
        _ => None,
    }
}

/// What an event does: the new counters, the new task lists, the tasks
/// to run, the module that it finished, if any, and whether it stops the
/// controller.
pub open spec fn event_effect<E, B>(
    running: Map<ModuleIdentifier, UnfinishCounter>,
    tasks: Map<DependencyId, Seq<E>>,
    event: Event<E, B>,
) -> (Map<ModuleIdentifier, UnfinishCounter>, Map<DependencyId, Seq<E>>, Seq<TaskItem<E, B>>, Option<ModuleIdentifier>, bool) {
    match event {
        Event::StartBuild(m) => (running.insert(m, UnfinishCounter::building()), tasks, seq![], None, false),
        Event::FinishDeps(origin, dep_id, target) => {
            if deps_skipped(running, origin, target) {
                (running, tasks, seq![], None, false)
            } else {
                match origin {
                    None => (running, tasks.remove(dep_id), execute_items(tasks[dep_id]), None, false),
                    Some(o) => {
                        let c = running[o].spec_minus_one();
                        (running.insert(o, c), tasks, seq![], if c.finished() { Some(o) } else { None }, false)
                    },
                }
            }
        },
        Event::FinishModule(m, size) => {
            let c = UnfinishCounter { is_building: false, unfinished_child_module_count: size };
            (running.insert(m, c), tasks, seq![], if size == 0 { Some(m) } else { None }, false)
        },
        Event::ExecuteModule(param, e, before) => {
            let id = param.spec_dependency_id();
            if tasks.contains_key(id) {
                (running, tasks.insert(id, tasks[id].push(e)), seq![], None, false)
            } else {
                match param {
                    ExecuteParam::Entry(dep, layer) => (
                        running,
                        tasks.insert(id, seq![e]),
                        before_items(before).push(TaskItem::Entry(EntryTask { dep, layer })),
                        None,
                        false,
                    ),
                    ExecuteParam::DependencyId(_) => (
                        running,
                        tasks,
                        before_items(before).push(TaskItem::Execute(e)),
                        None,
                        false,
                    ),
                }
            }
        },
        Event::Stop() => (running, tasks, seq![], None, true),
    }
}

/// The events after which the background controller hands out tasks and
/// resumes: an entry dependency finished, or an execution waits for a
/// dependency that nobody waited for yet.
pub open spec fn event_yields<E, B>(
    running: Map<ModuleIdentifier, UnfinishCounter>,
    tasks: Map<DependencyId, Seq<E>>,
    event: Event<E, B>,
) -> bool {
    match event {
        Event::FinishDeps(origin, _, target) => !deps_skipped(running, origin, target) && origin is None,
        Event::ExecuteModule(param, _, _) => !tasks.contains_key(param.spec_dependency_id()),
        _ => false,
    }
}

/// The background controller's answer to an event.
pub open spec fn background_step<E, B>(
    running: Map<ModuleIdentifier, UnfinishCounter>,
    tasks: Map<DependencyId, Seq<E>>,
    event: Event<E, B>,
    r: CtrlStep<E, B>,
) -> bool {
    let eff = event_effect(running, tasks, event);
    if eff.4 {
        r is Stop
    } else if eff.3 is Some {
        r == CtrlStep::<E, B>::FinishModule(eff.3->0)
    } else if event_yields(running, tasks, event) {
        r matches CtrlStep::Yield(v) && v@ == eff.2
    } else {
        r is Continue
    }
}

impl<E, B> CtrlTask<E, B> {
    /// The counters of the modules being built.
    pub open spec fn running(&self) -> Map<ModuleIdentifier, UnfinishCounter> {
        self.running_module_map@
    }

    /// The execute tasks waiting for each dependency.
    pub open spec fn pending(&self) -> Map<DependencyId, Seq<E>> {
        task_view(self.execute_task_map@)
    }

    pub fn new(event_receiver: UnboundedReceiver<Event<E, B>>) -> (r: CtrlTask<E, B>)
        ensures
            r.event_receiver == event_receiver,
            r.running() == Map::<ModuleIdentifier, UnfinishCounter>::empty(),
            r.pending() == Map::<DependencyId, Seq<E>>::empty(),
    {
        let r = CtrlTask {
            event_receiver,
            execute_task_map: HashMap::new(),
            running_module_map: HashMap::new(),
        };
        assert(r.pending() =~= Map::<DependencyId, Seq<E>>::empty());
        r
    }

    pub fn get_task_type(&self) -> (r: TaskType)
        ensures
            r is Async,
    {
        TaskType::Async
    }

    /// Whether the controller can handle `event` in its current state.
    pub fn accepts(&self, event: &Event<E, B>) -> (r: bool)
        ensures
            r == event_accepted(self.running(), self.pending(), *event),
    {
        self.rejection(event).is_none()
    }

    /// Which expectation `event` breaks in the controller's current state,
    /// if any.
    pub fn rejection(&self, event: &Event<E, B>) -> (r: Option<CtrlFault>)
        ensures
            r == event_rejection(self.running(), self.pending(), *event),
            r is None <==> event_accepted(self.running(), self.pending(), *event),
    {
        match event {
            Event::FinishDeps(origin, dep_id, target) => {
                if self.is_skipped(origin, target) {
                    return None;
                }
                match origin {
                    None => if self.execute_task_map.contains_key(dep_id) {
                        None
                    } else {
                        Some(CtrlFault::MissingExecuteTask)
                    },
                    Some(o) => match self.running_module_map.get(o) {
                        Some(c) => if !c.is_building && c.unfinished_child_module_count > 0 {
                            None
                        } else {
                            Some(CtrlFault::CounterUnderflow)
                        },
                        None => Some(CtrlFault::MissingCounter),
                    },
                }
            },
            Event::FinishModule(m, _) => if self.running_module_map.contains_key(m) {
                None
            } else {
                Some(CtrlFault::MissingCounter)
            },
            Event::ExecuteModule(param, _, _) => {
                let id = param.dependency_id();
                match self.execute_task_map.get(&id) {
                    Some(list) => if list.0.len() < EXECUTE_TASK_LIMIT {
                        None
                    } else {
                        Some(CtrlFault::TaskLimit)
                    },
                    None => None,
                }
            },
            _ => None,
        }
    }

    fn is_skipped(&self, origin: &Option<ModuleIdentifier>, target: &Option<ModuleIdentifier>) -> (r: bool)
        ensures
            r == deps_skipped(self.running(), *origin, *target),
    {
        match target {
            Some(t) => self.running_module_map.contains_key(t) && match origin {
                Some(o) => *o != *t,
                None => true,
            },
            None => false,
        }
    }
    /// Applies `event` to the counters and task lists; returns the tasks
    /// to run, the module that finished, whether the background
    /// controller yields, and whether the event stops it.
    fn apply_event(&mut self, event: Event<E, B>) -> (r: (Vec<TaskItem<E, B>>, Option<ModuleIdentifier>, bool, bool))
        requires
            event_accepted(old(self).running(), old(self).pending(), event),
        ensures
            final(self).event_receiver == old(self).event_receiver,
            final(self).running() == event_effect(old(self).running(), old(self).pending(), event).0,
            final(self).pending() == event_effect(old(self).running(), old(self).pending(), event).1,
            r.0@ == event_effect(old(self).running(), old(self).pending(), event).2,
            r.1 == event_effect(old(self).running(), old(self).pending(), event).3,
            r.2 == event_yields(old(self).running(), old(self).pending(), event),
            r.3 == event_effect(old(self).running(), old(self).pending(), event).4,
    {
        let ghost tasks0 = self.pending();
        match event {
            Event::StartBuild(m) => {
                self.running_module_map.insert(m, UnfinishCounter::new());
                (Vec::new(), None, false, false)
            },
            Event::FinishDeps(origin, dep_id, target) => {
                if self.is_skipped(&origin, &target) {
                    return (Vec::new(), None, false, false);
                }
                match origin {
                    None => {
                        let list = self.execute_task_map.remove(&dep_id).unwrap();
                        proof {
                            assert(self.pending() =~= tasks0.remove(dep_id));
                        }
                        let items = execute_items_vec::<E, B>(list.into_vec());
                        (items, None, true, false)
                    },
                    Some(o) => {
                        let mut c = *self.running_module_map.get(&o).unwrap();
                        c.minus_one();
                        let finished = c.is_finished();
                        self.running_module_map.insert(o, c);
                        (Vec::new(), if finished { Some(o) } else { None }, false, false)
                    },
                }
            },
            Event::FinishModule(m, size) => {
                let mut c = *self.running_module_map.get(&m).unwrap();
                c.set_unfinished_child_module_count(size);
                self.running_module_map.insert(m, c);
                (Vec::new(), if size == 0 { Some(m) } else { None }, false, false)
            },
            Event::ExecuteModule(param, execute_task, before) => {
                let id = param.dependency_id();
                if self.execute_task_map.contains_key(&id) {
                    let mut list = self.execute_task_map.remove(&id).unwrap();
                    list.add_task(execute_task);
                    self.execute_task_map.insert(id, list);
                    proof {
                        assert(self.pending() =~= tasks0.insert(id, tasks0[id].push(execute_task)));
                    }
                    return (Vec::new(), None, false, false);
                }
                let mut items: Vec<TaskItem<E, B>> = Vec::new();
                match before {
                    Some(b) => items.push(TaskItem::BeforeExecuteBuild(b)),
                    None => {},
                }
                proof {
                    assert(items@ =~= before_items::<E, B>(before));
                }
                match param {
                    ExecuteParam::Entry(dep, layer) => {
                        let mut list = ExecuteTaskList::new();
                        list.add_task(execute_task);
                        self.execute_task_map.insert(id, list);
                        proof {
                            assert(self.pending() =~= tasks0.insert(id, seq![execute_task]));
                        }
                        items.push(TaskItem::Entry(EntryTask { dep, layer }));
                    },
                    ExecuteParam::DependencyId(_) => {
                        items.push(TaskItem::Execute(execute_task));
                    },
                }
                (items, None, true, false)
            },
            Event::Stop() => (Vec::new(), None, false, true),
        }
    }

    /// Handles an event received while the controller waits in the
    /// background.
    pub fn handle_event(&mut self, event: Event<E, B>) -> (r: CtrlStep<E, B>)
        requires
            event_accepted(old(self).running(), old(self).pending(), event),
        ensures
            final(self).event_receiver == old(self).event_receiver,
            final(self).running() == event_effect(old(self).running(), old(self).pending(), event).0,
            final(self).pending() == event_effect(old(self).running(), old(self).pending(), event).1,
            background_step(old(self).running(), old(self).pending(), event, r),
    {
        let (items, finished, yields, stop) = self.apply_event(event);
        if stop {
            CtrlStep::Stop
        } else if let Some(m) = finished {
            CtrlStep::FinishModule(m)
        } else if yields {
            CtrlStep::Yield(items)
        } else {
            CtrlStep::Continue
        }
    }

    /// Handles an event that was pending when a module finished: the
    /// tasks to run are appended to `res` and a module that finishes is
    /// queued. Returns false when the event stops the controller.
    pub fn absorb_event(
        &mut self,
        event: Event<E, B>,
        res: &mut Vec<TaskItem<E, B>>,
        queue: &mut VecDeque<ModuleIdentifier>,
    ) -> (r: bool)
        requires
            event_accepted(old(self).running(), old(self).pending(), event),
        ensures
            final(self).event_receiver == old(self).event_receiver,
            final(self).running() == event_effect(old(self).running(), old(self).pending(), event).0,
            final(self).pending() == event_effect(old(self).running(), old(self).pending(), event).1,
            final(res)@ == old(res)@ + event_effect(old(self).running(), old(self).pending(), event).2,
            final(queue)@ == match event_effect(old(self).running(), old(self).pending(), event).3 {
                Some(m) => old(queue)@.push(m),
                None => old(queue)@,
            },
            r == !event_effect(old(self).running(), old(self).pending(), event).4,
    {
        let (items, finished, _, stop) = self.apply_event(event);
        append_items(res, items);
        match finished {
            Some(m) => queue.push_back(m),
            None => {},
        }
        !stop
    }
}

/// Wraps each execute task as a task to run, in order.
pub(crate) fn execute_items_vec<E, B>(tasks: Vec<E>) -> (r: Vec<TaskItem<E, B>>)
    ensures
        r@ == execute_items::<E, B>(tasks@),
{
    let mut r: Vec<TaskItem<E, B>> = Vec::new();
    let ghost s = tasks@;
    for e in it: tasks.into_iter()
        invariant
            it.seq() == s,
            r@ == execute_items::<E, B>(s.take(it.index() as int)),
    {
        proof {
            assert(s.take(it.index() + 1) =~= s.take(it.index() as int).push(e));
        }
        r.push(TaskItem::Execute(e));
        proof {
            assert(r@ =~= execute_items::<E, B>(s.take(it.index() + 1)));
        }
    }
    proof {
        assert(s.take(s.len() as int) =~= s);
    }
    r
}

/// Moves the tasks of `items` to the end of `res`, in order.
pub(crate) fn append_items<E, B>(res: &mut Vec<TaskItem<E, B>>, items: Vec<TaskItem<E, B>>)
    ensures
        final(res)@ == old(res)@ + items@,
{
    let mut items = items;
    res.append(&mut items);
}

/// A task to run next: one that the controller handed out, the
/// controller itself, or the task that finishes a module with the
/// controller in hand.
#[derive(Debug)]
#[verifier::reject_recursive_types(E)]
#[verifier::reject_recursive_types(B)]
pub enum Task<E, B> {
    Item(TaskItem<E, B>),
    Ctrl(Box<CtrlTask<E, B>>),
    FinishModule(FinishModuleTask<E, B>),
}

/// What the background controller does after one event: it waits for
/// the next one, or it is done with the tasks to run next.
#[derive(Debug)]
#[verifier::reject_recursive_types(E)]
#[verifier::reject_recursive_types(B)]
pub enum BackgroundOutcome<E, B> {
    Waiting(Box<CtrlTask<E, B>>),
    Done(Vec<Task<E, B>>),
}

/// Each task handed out, as a task to run.
pub open spec fn item_tasks<E, B>(items: Seq<TaskItem<E, B>>) -> Seq<Task<E, B>> {
    items.map_values(|t: TaskItem<E, B>| Task::<E, B>::Item(t))
}

/// `c` is the controller `before` after the event: same receiver, the
/// event's counters and task lists.
pub open spec fn ctrl_after_event<E, B>(c: CtrlTask<E, B>, before: CtrlTask<E, B>, event: Event<E, B>) -> bool {
    let eff = event_effect(before.running(), before.pending(), event);
    &&& c.event_receiver == before.event_receiver
    &&& c.running() == eff.0
    &&& c.pending() == eff.1
}

/// The tasks to run after the background controller handled `event`:
/// none after a stop; the task that finishes a module, holding the
/// controller, after a module finished; the tasks handed out followed by
/// the controller after it yields.
pub open spec fn background_done<E, B>(before: CtrlTask<E, B>, event: Event<E, B>, v: Seq<Task<E, B>>) -> bool {
    let eff = event_effect(before.running(), before.pending(), event);
    if eff.4 {
        v.len() == 0
    } else if eff.3 is Some {
        &&& v.len() == 1
        &&& v[0] matches Task::FinishModule(t) && t.module_identifier == eff.3->0
            && ctrl_after_event(*t.ctrl_task, before, event)
    } else {
        &&& event_yields(before.running(), before.pending(), event)
        &&& v.len() == eff.2.len() + 1
        &&& v.subrange(0, eff.2.len() as int) == item_tasks(eff.2)
        &&& v.last() matches Task::Ctrl(c) && ctrl_after_event(*c, before, event)
    }
}

/// Each task handed out, as a task to run, in order.
fn item_tasks_vec<E, B>(items: Vec<TaskItem<E, B>>) -> (r: Vec<Task<E, B>>)
    ensures
        r@ == item_tasks(items@),
{
    let mut r: Vec<Task<E, B>> = Vec::new();
    let ghost s = items@;
    for t in it: items.into_iter()
        invariant
            it.seq() == s,
            r@ == item_tasks(s.take(it.index() as int)),
    {
        proof {
            assert(s.take(it.index() + 1) =~= s.take(it.index() as int).push(t));
        }
        r.push(Task::Item(t));
        proof {
            assert(r@ =~= item_tasks(s.take(it.index() + 1)));
        }
    }
    proof {
        assert(s.take(s.len() as int) =~= s);
    }
    r
}

/// The tasks to run after a module finished: the tasks that became free,
/// in order, followed by the controller.
pub fn finish_tasks<E, B>(ctrl: Box<CtrlTask<E, B>>, res: Vec<TaskItem<E, B>>) -> (r: Vec<Task<E, B>>)
    ensures
        r@ == item_tasks(res@).push(Task::Ctrl(ctrl)),
{
    let mut r = item_tasks_vec(res);
    r.push(Task::Ctrl(ctrl));
    r
}

impl<E, B> CtrlTask<E, B> {
    /// Handles an event received in the background and, unless the
    /// controller waits for the next event, gives the tasks to run next.
    pub fn background_event(ctrl: Box<CtrlTask<E, B>>, event: Event<E, B>) -> (r: BackgroundOutcome<E, B>)
        requires
            event_accepted(ctrl.running(), ctrl.pending(), event),
        ensures
            match r {
                BackgroundOutcome::Waiting(c) => {
                    &&& background_step(ctrl.running(), ctrl.pending(), event, CtrlStep::<E, B>::Continue)
                    &&& ctrl_after_event(*c, *ctrl, event)
                },
                BackgroundOutcome::Done(v) => {
                    &&& !background_step(ctrl.running(), ctrl.pending(), event, CtrlStep::<E, B>::Continue)
                    &&& background_done(*ctrl, event, v@)
                },
            },
    {
        let ghost before = *ctrl;
        let mut c = ctrl;
        let step = c.handle_event(event);
        match step {
            CtrlStep::Continue => BackgroundOutcome::Waiting(c),
            CtrlStep::Yield(items) => {
                let ghost n = items@.len();
                let r = finish_tasks(c, items);
                proof {
                    assert(r@.subrange(0, n as int) =~= item_tasks(event_effect(before.running(), before.pending(), event).2));
                }
                BackgroundOutcome::Done(r)
            },
            CtrlStep::FinishModule(m) => {
                let mut v: Vec<Task<E, B>> = Vec::new();
                v.push(Task::FinishModule(FinishModuleTask { ctrl_task: c, module_identifier: m }));
                BackgroundOutcome::Done(v)
            },
            CtrlStep::Stop => BackgroundOutcome::Done(Vec::new()),
        }
    }
}

/// What one non-blocking receive on the event channel gave.
pub enum Received<T> {
    Event(T),
    /// No event is pending, and senders remain.
    Empty,
    /// No event is pending, and every sender is gone.
    Disconnected,
}

/// Receives without waiting, through tokio's
/// `UnboundedReceiver::try_recv`, and tells its three outcomes apart.
/// Which outcome comes depends on the other tasks that hold senders, so
/// the contract states nothing of it.
#[verifier::external_body]
fn try_recv_event<T>(receiver: &mut UnboundedReceiver<T>) -> Received<T> {
    match receiver.try_recv() {
        Ok(event) => Received::Event(event),
        Err(TryRecvError::Empty) => Received::Empty,
        Err(TryRecvError::Disconnected) => Received::Disconnected,
    }
}

/// What one step of draining the pending events did.
#[derive(Clone, Copy, Debug, PartialEq, Eq, Structural)]
pub enum DrainStep {
    /// An event was handled; more may be pending.
    Absorbed,
    /// No event was pending: draining is done.
    Empty,
    /// A stop event was received.
    Stopped,
    /// The channel is closed.
    Closed,
    /// An event arrived that breaks this expectation of the controller
    /// in its state; it was dropped.
    Rejected(CtrlFault),
}

/// The controller's state, the tasks to run and the queue are as they
/// were.
pub open spec fn drain_unchanged<E, B>(
    old_ctrl: &CtrlTask<E, B>,
    new_ctrl: &CtrlTask<E, B>,
    old_res: Seq<TaskItem<E, B>>,
    new_res: Seq<TaskItem<E, B>>,
    old_queue: Seq<ModuleIdentifier>,
    new_queue: Seq<ModuleIdentifier>,
) -> bool {
    &&& new_ctrl.running() == old_ctrl.running()
    &&& new_ctrl.pending() == old_ctrl.pending()
    &&& new_res == old_res
    &&& new_queue == old_queue
}

/// The controller's state, the tasks to run and the queue after the
/// accepted event `e`, as `absorb_event` leaves them.
pub open spec fn drain_applied<E, B>(
    old_ctrl: &CtrlTask<E, B>,
    new_ctrl: &CtrlTask<E, B>,
    old_res: Seq<TaskItem<E, B>>,
    new_res: Seq<TaskItem<E, B>>,
    old_queue: Seq<ModuleIdentifier>,
    new_queue: Seq<ModuleIdentifier>,
    e: Event<E, B>,
) -> bool {
    let eff = event_effect(old_ctrl.running(), old_ctrl.pending(), e);
    &&& new_ctrl.running() == eff.0
    &&& new_ctrl.pending() == eff.1
    &&& new_res == old_res + eff.2
    &&& new_queue == match eff.3 {
        Some(m) => old_queue.push(m),
        None => old_queue,
    }
}

impl<E, B> CtrlTask<E, B> {
    /// Handles what one receive on the event channel gave: an event that
    /// the controller can handle is absorbed (or stops it); any other
    /// event is rejected and dropped; an empty or closed channel ends the
    /// draining. Only an absorbed event changes anything.
    pub fn drain_received(
        &mut self,
        received: Received<Event<E, B>>,
        res: &mut Vec<TaskItem<E, B>>,
        queue: &mut VecDeque<ModuleIdentifier>,
    ) -> (r: DrainStep)
        ensures
            final(self).event_receiver == old(self).event_receiver,
            match received {
                Received::Event(e) => if event_accepted(old(self).running(), old(self).pending(), e) {
                    &&& drain_applied(old(self), final(self), old(res)@, final(res)@, old(queue)@, final(queue)@, e)
                    &&& r == if event_effect(old(self).running(), old(self).pending(), e).4 {
                        DrainStep::Stopped
                    } else {
                        DrainStep::Absorbed
                    }
                } else {
                    &&& r == DrainStep::Rejected(event_rejection(old(self).running(), old(self).pending(), e)->0)
                    &&& drain_unchanged(old(self), final(self), old(res)@, final(res)@, old(queue)@, final(queue)@)
                },
                Received::Empty => {
                    &&& r is Empty
                    &&& drain_unchanged(old(self), final(self), old(res)@, final(res)@, old(queue)@, final(queue)@)
                },
                Received::Disconnected => {
                    &&& r is Closed
                    &&& drain_unchanged(old(self), final(self), old(res)@, final(res)@, old(queue)@, final(queue)@)
                },
            },
    {
        match received {
            Received::Event(event) => {
                if let Some(fault) = self.rejection(&event) {
                    DrainStep::Rejected(fault)
                } else if self.absorb_event(event, res, queue) {
                    DrainStep::Absorbed
                } else {
                    DrainStep::Stopped
                }
            },
            Received::Empty => DrainStep::Empty,
            Received::Disconnected => DrainStep::Closed,
        }
    }

    /// Takes one pending event off the channel, if there is one, and
    /// handles what the receive gave as `drain_received` does. Which
    /// outcome comes depends on the other tasks that hold senders.
    pub fn drain_one(
        &mut self,
        res: &mut Vec<TaskItem<E, B>>,
        queue: &mut VecDeque<ModuleIdentifier>,
    ) -> (r: DrainStep)
        ensures
            (r is Empty || r is Closed || r is Rejected) ==> drain_unchanged(
                old(self),
                final(self),
                old(res)@,
                final(res)@,
                old(queue)@,
                final(queue)@,
            ),
            (r is Absorbed || r is Stopped) ==> exists|e: Event<E, B>| {
                &&& event_accepted(old(self).running(), old(self).pending(), e)
                &&& #[trigger] drain_applied(old(self), final(self), old(res)@, final(res)@, old(queue)@, final(queue)@, e)
                &&& (r is Stopped <==> event_effect(old(self).running(), old(self).pending(), e).4)
            },
    {
        let received = try_recv_event(&mut self.event_receiver);
        let ghost rcv = received;
        let r = self.drain_received(received, res, queue);
        proof {
            if let Received::Event(e) = rcv {
                if event_accepted(old(self).running(), old(self).pending(), e) {
                    assert(drain_applied(old(self), self, old(res)@, res@, old(queue)@, queue@, e));
                }
            }
        }
        r
    }
}

/// A finished dependency whose target module is still being built, and
/// is not the dependency's origin, is ignored whatever its origin (an
/// entry's too): counters and task lists stay, no task is handed out,
/// no module finishes, the controller neither yields nor stops and is
/// not refused.
pub proof fn lemma_finished_dependency_of_building_target_ignored<E, B>(
    running: Map<ModuleIdentifier, UnfinishCounter>,
    tasks: Map<DependencyId, Seq<E>>,
    origin: Option<ModuleIdentifier>,
    dep: DependencyId,
    target: ModuleIdentifier,
)
    requires
        running.contains_key(target),
        origin != Some(target),
    ensures
        event_accepted(running, tasks, Event::<E, B>::FinishDeps(origin, dep, Some(target))),
        event_effect(running, tasks, Event::<E, B>::FinishDeps(origin, dep, Some(target)))
            == (running, tasks, Seq::<TaskItem<E, B>>::empty(), None::<ModuleIdentifier>, false),
        !event_yields(running, tasks, Event::<E, B>::FinishDeps(origin, dep, Some(target))),
        background_step(running, tasks, Event::<E, B>::FinishDeps(origin, dep, Some(target)), CtrlStep::<E, B>::Continue),
{
}

/// The state after a sequence of events, with the tasks to run that they
/// produced, in order.
pub open spec fn run_events<E, B>(
    running: Map<ModuleIdentifier, UnfinishCounter>,
    tasks: Map<DependencyId, Seq<E>>,
    events: Seq<Event<E, B>>,
) -> (Map<ModuleIdentifier, UnfinishCounter>, Map<DependencyId, Seq<E>>, Seq<TaskItem<E, B>>)
    decreases events.len(),
{
    if events.len() == 0 {
        (running, tasks, seq![])
    } else {
        let eff = event_effect(running, tasks, events[0]);
        let rest = run_events(eff.0, eff.1, events.drop_first());
        (rest.0, rest.1, eff.2 + rest.2)
    }
}

/// Every event of the sequence can be handled in the state that the
/// events before it left.
pub open spec fn all_accepted<E, B>(
    running: Map<ModuleIdentifier, UnfinishCounter>,
    tasks: Map<DependencyId, Seq<E>>,
    events: Seq<Event<E, B>>,
) -> bool
    decreases events.len(),
{
    events.len() == 0 || {
        let eff = event_effect(running, tasks, events[0]);
        event_accepted(running, tasks, events[0]) && all_accepted(eff.0, eff.1, events.drop_first())
    }
}

/// Further executions that wait for dependency `d`, then the finish of
/// `d` as an entry dependency.
pub open spec fn follow_ups<E, B>(d: DependencyId, rest: Seq<E>) -> Seq<Event<E, B>> {
    rest.map_values(|e: E| Event::<E, B>::ExecuteModule(ExecuteParam::DependencyId(d), e, None))
        + seq![Event::<E, B>::FinishDeps(None, d, None)]
}

proof fn lemma_follow_ups_release<E, B>(
    running: Map<ModuleIdentifier, UnfinishCounter>,
    tasks: Map<DependencyId, Seq<E>>,
    d: DependencyId,
    rest: Seq<E>,
)
    requires
        tasks.contains_key(d),
        tasks[d].len() + rest.len() <= EXECUTE_TASK_LIMIT,
    ensures
        all_accepted(running, tasks, follow_ups::<E, B>(d, rest)),
        run_events(running, tasks, follow_ups::<E, B>(d, rest))
            == (running, tasks.remove(d), execute_items::<E, B>(tasks[d] + rest)),
    decreases rest.len(),
{
    let evs = follow_ups::<E, B>(d, rest);
    if rest.len() == 0 {
        let eff = event_effect(running, tasks, evs[0]);
        assert(all_accepted(eff.0, eff.1, evs.drop_first()));
        assert(run_events(eff.0, eff.1, evs.drop_first()) == (eff.0, eff.1, Seq::<TaskItem<E, B>>::empty()));
    } else {
        let t1 = tasks.insert(d, tasks[d].push(rest[0]));
        assert(evs.drop_first() =~= follow_ups::<E, B>(d, rest.drop_first()));
        lemma_follow_ups_release::<E, B>(running, t1, d, rest.drop_first());
        assert(Seq::<TaskItem<E, B>>::empty() + execute_items::<E, B>(tasks[d] + rest)
            =~= execute_items::<E, B>(tasks[d] + rest));
    }
}

/// Executions that wait for an entry dependency are all handed out, in
/// the order in which they arrived, when the entry finishes: the first
/// one starts the build of the entry (after its before-build task, if
/// any), and once the entry finishes, the controller's counters and task
/// lists are as they were before.
pub proof fn lemma_entry_executions_released_in_order<E, B>(
    running: Map<ModuleIdentifier, UnfinishCounter>,
    tasks: Map<DependencyId, Seq<E>>,
    dep: Box<LoaderImportDependency>,
    layer: Option<String>,
    before: Option<B>,
    executions: Seq<E>,
)
    requires
        !tasks.contains_key(dep.id),
        0 < executions.len() <= EXECUTE_TASK_LIMIT,
    ensures
        ({
            let events = seq![Event::<E, B>::ExecuteModule(ExecuteParam::Entry(dep, layer), executions[0], before)]
                + follow_ups::<E, B>(dep.id, executions.drop_first());
            &&& all_accepted(running, tasks, events)
            &&& run_events(running, tasks, events) == (
                running,
                tasks,
                before_items::<E, B>(before).push(TaskItem::Entry(EntryTask { dep, layer }))
                    + execute_items::<E, B>(executions),
            )
        }),
{
    let d = dep.id;
    let first = Event::<E, B>::ExecuteModule(ExecuteParam::Entry(dep, layer), executions[0], before);
    let rest = follow_ups::<E, B>(d, executions.drop_first());
    let events = seq![first] + rest;
    let t1 = tasks.insert(d, seq![executions[0]]);
    assert(events.drop_first() =~= rest);
    lemma_follow_ups_release::<E, B>(running, t1, d, executions.drop_first());
}

} // verus!
