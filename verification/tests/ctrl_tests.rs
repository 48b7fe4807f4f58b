use rspack_ctrl::counter::UnfinishCounter;
use rspack_ctrl::ctrl::{
    finish_tasks, BackgroundOutcome, CtrlStep, CtrlTask, DrainStep, Event, ExecuteParam,
    FinishModuleTask, LoaderImportDependency, Received, Task, TaskItem, TaskType,
};
use rspack_ctrl::finish::CtrlFault;
use rspack_ctrl::module_graph::{Connection, ModuleGraph};
use rspack_ctrl::task_list::{ExecuteTaskList, EXECUTE_TASK_LIMIT};
use std::collections::VecDeque;
use tokio::sync::mpsc::{unbounded_channel, UnboundedSender};

type Ev = Event<String, u8>;
type Ctrl = CtrlTask<String, u8>;

fn ctrl() -> (UnboundedSender<Ev>, Ctrl) {
    let (tx, rx) = unbounded_channel::<Ev>();
    (tx, CtrlTask::new(rx))
}

fn entry(id: u32) -> ExecuteParam {
    ExecuteParam::Entry(Box::new(LoaderImportDependency { id, request: format!("./entry{id}.js") }), Some("layer".to_string()))
}

fn execute_names(items: &[TaskItem<String, u8>]) -> Vec<String> {
    items
        .iter()
        .map(|t| match t {
            TaskItem::Execute(e) => e.clone(),
            TaskItem::BeforeExecuteBuild(b) => format!("before:{b}"),
            TaskItem::Entry(e) => format!("entry:{}", e.dep.id),
        })
        .collect()
}

#[test]
fn counter_counts_down_to_finished() {
    let mut c = UnfinishCounter::new();
    assert!(c.is_building);
    assert!(!c.is_finished());
    c.set_unfinished_child_module_count(2);
    assert!(!c.is_finished());
    c.minus_one();
    assert_eq!(c.unfinished_child_module_count, 1);
    assert!(!c.is_finished());
    c.minus_one();
    assert!(c.is_finished());
}

#[test]
fn counter_with_no_children_is_finished_at_once() {
    let mut c = UnfinishCounter::new();
    c.set_unfinished_child_module_count(0);
    assert!(c.is_finished());
}

#[test]
fn task_list_keeps_order() {
    let mut l: ExecuteTaskList<u32> = ExecuteTaskList::default();
    l.add_task(3);
    l.add_task(1);
    l.add_task(2);
    assert_eq!(l.into_vec(), vec![3, 1, 2]);
}

#[test]
fn task_types() {
    let (_tx, c) = ctrl();
    assert!(matches!(c.get_task_type(), TaskType::Async));
    let f = FinishModuleTask { ctrl_task: Box::new(c), module_identifier: 1 };
    assert!(matches!(f.get_task_type(), TaskType::Sync));
}

#[test]
fn module_without_children_finishes_on_its_build() {
    let (_tx, mut c) = ctrl();
    assert!(matches!(c.handle_event(Event::StartBuild(1)), CtrlStep::Continue));
    assert_eq!(c.running_module_map.get(&1), Some(&UnfinishCounter { is_building: true, unfinished_child_module_count: 0 }));
    let ev = Event::FinishModule(1, 0);
    assert!(c.accepts(&ev));
    assert!(matches!(c.handle_event(ev), CtrlStep::FinishModule(1)));
}

#[test]
fn module_finishes_after_its_last_child() {
    let (_tx, mut c) = ctrl();
    c.handle_event(Event::StartBuild(1));
    assert!(matches!(c.handle_event(Event::FinishModule(1, 2)), CtrlStep::Continue));
    assert!(matches!(c.handle_event(Event::FinishDeps(Some(1), 10, None)), CtrlStep::Continue));
    assert_eq!(c.running_module_map.get(&1).unwrap().unfinished_child_module_count, 1);
    assert!(matches!(c.handle_event(Event::FinishDeps(Some(1), 11, Some(2))), CtrlStep::FinishModule(1)));
}

#[test]
fn finished_dependency_of_a_module_still_building_is_ignored() {
    let (_tx, mut c) = ctrl();
    c.handle_event(Event::StartBuild(1));
    c.handle_event(Event::FinishModule(1, 1));
    c.handle_event(Event::StartBuild(3));
    // module 3 is still being built and is not the origin: nothing happens
    assert!(matches!(c.handle_event(Event::FinishDeps(Some(1), 10, Some(3))), CtrlStep::Continue));
    assert_eq!(c.running_module_map.get(&1).unwrap().unfinished_child_module_count, 1);
    // a dependency of a module on itself is not skipped
    assert!(matches!(c.handle_event(Event::FinishDeps(Some(1), 12, Some(1))), CtrlStep::FinishModule(1)));
}

#[test]
fn entry_executions_are_released_in_order() {
    let (_tx, mut c) = ctrl();
    match c.handle_event(Event::ExecuteModule(entry(7), "a".to_string(), Some(1))) {
        CtrlStep::Yield(items) => {
            assert_eq!(execute_names(&items), vec!["before:1".to_string(), "entry:7".to_string()]);
            match &items[1] {
                TaskItem::Entry(e) => assert_eq!(e.layer.as_deref(), Some("layer")),
                _ => panic!("entry task expected"),
            }
        },
        _ => panic!("yield expected"),
    }
    assert!(matches!(c.handle_event(Event::ExecuteModule(ExecuteParam::DependencyId(7), "b".to_string(), None)), CtrlStep::Continue));
    assert!(matches!(c.handle_event(Event::ExecuteModule(entry(7), "c".to_string(), Some(9))), CtrlStep::Continue));
    match c.handle_event(Event::FinishDeps(None, 7, None)) {
        CtrlStep::Yield(items) => assert_eq!(execute_names(&items), vec!["a", "b", "c"]),
        _ => panic!("yield expected"),
    }
    assert!(c.execute_task_map.is_empty());
}

#[test]
fn execution_of_unknown_dependency_runs_at_once() {
    let (_tx, mut c) = ctrl();
    match c.handle_event(Event::ExecuteModule(ExecuteParam::DependencyId(5), "x".to_string(), Some(2))) {
        CtrlStep::Yield(items) => assert_eq!(execute_names(&items), vec!["before:2", "x"]),
        _ => panic!("yield expected"),
    }
    assert!(c.execute_task_map.is_empty());
}

#[test]
fn stop_event_stops() {
    let (_tx, mut c) = ctrl();
    assert!(matches!(c.handle_event(Event::Stop()), CtrlStep::Stop));
}

#[test]
fn unexpected_events_are_not_accepted() {
    let (_tx, mut c) = ctrl();
    assert!(!c.accepts(&Event::FinishModule(99, 0)));
    assert!(!c.accepts(&Event::FinishDeps(Some(5), 1, None)));
    assert!(!c.accepts(&Event::FinishDeps(None, 1, None)));
    c.handle_event(Event::StartBuild(5));
    // still building: no child can finish yet
    assert!(!c.accepts(&Event::FinishDeps(Some(5), 1, None)));
    c.handle_event(Event::FinishModule(5, 0));
    assert!(!c.accepts(&Event::FinishDeps(Some(5), 1, None)));
    assert!(c.accepts(&Event::StartBuild(6)));
    assert!(c.accepts(&Event::Stop()));
}

#[test]
fn task_list_limit_is_not_exceeded() {
    let (_tx, mut c) = ctrl();
    c.handle_event(Event::ExecuteModule(entry(1), "t".to_string(), None));
    for _ in 1..EXECUTE_TASK_LIMIT {
        let ev = Event::ExecuteModule(ExecuteParam::DependencyId(1), "t".to_string(), None);
        assert!(c.accepts(&ev));
        c.handle_event(ev);
    }
    assert_eq!(c.execute_task_map.get(&1).unwrap().0.len(), EXECUTE_TASK_LIMIT);
    assert!(!c.accepts(&Event::ExecuteModule(ExecuteParam::DependencyId(1), "t".to_string(), None)));
}

fn graph(incoming: &[(u64, Vec<u32>)], conns: &[(u32, Option<u64>, u64)]) -> ModuleGraph {
    let mut g = ModuleGraph::new();
    for (m, deps) in incoming {
        g.incoming_connections.insert(*m, deps.clone());
    }
    for (d, origin, target) in conns {
        g.connections.insert(*d, Connection { dependency_id: *d, original_module_identifier: *origin, module_identifier: *target });
    }
    g
}

#[test]
fn finishing_a_module_finishes_its_waiting_origins() {
    let (_tx, mut c) = ctrl();
    // module 2 imports module 1 and waits for it; entry 101 points at module 1,
    // entry 102 at module 2
    c.handle_event(Event::StartBuild(2));
    c.handle_event(Event::FinishModule(2, 1));
    c.handle_event(Event::StartBuild(1));
    c.handle_event(Event::ExecuteModule(entry(101), "run1".to_string(), None));
    c.handle_event(Event::ExecuteModule(entry(102), "run2".to_string(), None));
    let g = graph(
        &[(1, vec![100, 101, 103]), (2, vec![102])],
        &[(100, Some(2), 1), (101, None, 1), (102, None, 2), (103, Some(1), 1)],
    );
    c.running_module_map.remove(&1);
    let mut queue = VecDeque::from(vec![1u64]);
    let mut res = Vec::new();
    assert_eq!(c.finish_queue(&g, &mut queue, &mut res), Ok(()));
    assert_eq!(execute_names(&res), vec!["run1", "run2"]);
    assert!(queue.is_empty());
    assert!(c.running_module_map.is_empty());
    assert!(c.execute_task_map.is_empty());
}

#[test]
fn origin_is_counted_down_once_per_finished_module() {
    let (_tx, mut c) = ctrl();
    c.handle_event(Event::StartBuild(2));
    c.handle_event(Event::FinishModule(2, 2));
    // two connections from module 2 to module 1 count down only once
    let g = graph(&[(1, vec![10, 11])], &[(10, Some(2), 1), (11, Some(2), 1)]);
    let mut queue = VecDeque::from(vec![1u64]);
    let mut res = Vec::new();
    assert_eq!(c.finish_queue(&g, &mut queue, &mut res), Ok(()));
    assert_eq!(c.running_module_map.get(&2).unwrap().unfinished_child_module_count, 1);
    assert!(res.is_empty());
}

#[test]
fn finish_queue_reports_broken_expectations() {
    let (_tx, mut c) = ctrl();
    let mut res = Vec::new();
    let g = graph(&[], &[]);
    assert_eq!(c.finish_queue(&g, &mut VecDeque::from(vec![1u64]), &mut res), Err(CtrlFault::MissingModule));
    let g = graph(&[(1, vec![10])], &[]);
    assert_eq!(c.finish_queue(&g, &mut VecDeque::from(vec![1u64]), &mut res), Err(CtrlFault::MissingConnection));
    let g = graph(&[(1, vec![10])], &[(10, None, 1)]);
    assert_eq!(c.finish_queue(&g, &mut VecDeque::from(vec![1u64]), &mut res), Err(CtrlFault::MissingExecuteTask));
    let g = graph(&[(1, vec![10])], &[(10, Some(2), 1)]);
    assert_eq!(c.finish_queue(&g, &mut VecDeque::from(vec![1u64]), &mut res), Err(CtrlFault::MissingCounter));
    c.handle_event(Event::StartBuild(2));
    assert_eq!(c.finish_queue(&g, &mut VecDeque::from(vec![1u64]), &mut res), Err(CtrlFault::CounterUnderflow));
    let mut q = VecDeque::new();
    assert_eq!(c.finish_queue(&g, &mut q, &mut res), Ok(()));
}

#[test]
fn drain_takes_pending_events_one_by_one() {
    let (tx, mut c) = ctrl();
    let mut res = Vec::new();
    let mut queue = VecDeque::new();
    assert!(matches!(c.drain_one(&mut res, &mut queue), DrainStep::Empty));
    tx.send(Event::StartBuild(4)).unwrap();
    tx.send(Event::FinishModule(4, 0)).unwrap();
    tx.send(Event::ExecuteModule(ExecuteParam::DependencyId(3), "x".to_string(), Some(7))).unwrap();
    tx.send(Event::FinishModule(8, 0)).unwrap();
    assert!(matches!(c.drain_one(&mut res, &mut queue), DrainStep::Absorbed));
    assert!(matches!(c.drain_one(&mut res, &mut queue), DrainStep::Absorbed));
    assert_eq!(queue, VecDeque::from(vec![4u64]));
    assert!(matches!(c.drain_one(&mut res, &mut queue), DrainStep::Absorbed));
    assert_eq!(execute_names(&res), vec!["before:7", "x"]);
    assert!(matches!(c.drain_one(&mut res, &mut queue), DrainStep::Rejected(CtrlFault::MissingCounter)));
    tx.send(Event::Stop()).unwrap();
    assert!(matches!(c.drain_one(&mut res, &mut queue), DrainStep::Stopped));
    drop(tx);
    assert!(matches!(c.drain_one(&mut res, &mut queue), DrainStep::Closed));
}

#[test]
fn drained_entry_finish_hands_out_its_tasks() {
    let (tx, mut c) = ctrl();
    let mut res = Vec::new();
    let mut queue = VecDeque::new();
    tx.send(Event::ExecuteModule(entry(9), "e1".to_string(), None)).unwrap();
    tx.send(Event::ExecuteModule(ExecuteParam::DependencyId(9), "e2".to_string(), None)).unwrap();
    tx.send(Event::FinishDeps(None, 9, None)).unwrap();
    for _ in 0..3 {
        assert!(matches!(c.drain_one(&mut res, &mut queue), DrainStep::Absorbed));
    }
    assert_eq!(execute_names(&res), vec!["entry:9", "e1", "e2"]);
    assert!(c.execute_task_map.is_empty());
}

#[test]
fn drain_received_maps_each_outcome() {
    let (_tx, mut c) = ctrl();
    let mut res = Vec::new();
    let mut queue = VecDeque::new();
    assert_eq!(c.drain_received(Received::Empty, &mut res, &mut queue), DrainStep::Empty);
    assert_eq!(c.drain_received(Received::Disconnected, &mut res, &mut queue), DrainStep::Closed);
    assert_eq!(c.drain_received(Received::Event(Event::FinishModule(1, 0)), &mut res, &mut queue), DrainStep::Rejected(CtrlFault::MissingCounter));
    assert!(c.running_module_map.is_empty());
    assert_eq!(c.drain_received(Received::Event(Event::StartBuild(1)), &mut res, &mut queue), DrainStep::Absorbed);
    assert_eq!(c.drain_received(Received::Event(Event::FinishModule(1, 0)), &mut res, &mut queue), DrainStep::Absorbed);
    assert_eq!(queue, VecDeque::from(vec![1u64]));
    assert_eq!(c.drain_received(Received::Event(Event::Stop()), &mut res, &mut queue), DrainStep::Stopped);
    assert!(res.is_empty());
}

#[test]
fn background_event_hands_out_tasks_then_the_controller() {
    let (_tx, c) = ctrl();
    let c = match CtrlTask::background_event(Box::new(c), Event::StartBuild(1)) {
        BackgroundOutcome::Waiting(c) => c,
        BackgroundOutcome::Done(_) => panic!("waiting expected"),
    };
    let c = match CtrlTask::background_event(c, Event::ExecuteModule(entry(4), "x".to_string(), Some(3))) {
        BackgroundOutcome::Done(v) => {
            assert_eq!(v.len(), 3);
            assert!(matches!(&v[0], Task::Item(TaskItem::BeforeExecuteBuild(3))));
            assert!(matches!(&v[1], Task::Item(TaskItem::Entry(_))));
            match v.into_iter().last() {
                Some(Task::Ctrl(c)) => c,
                _ => panic!("controller last expected"),
            }
        },
        BackgroundOutcome::Waiting(_) => panic!("done expected"),
    };
    assert!(c.execute_task_map.contains_key(&4));
    let c = match CtrlTask::background_event(c, Event::FinishModule(1, 0)) {
        BackgroundOutcome::Done(v) => {
            assert_eq!(v.len(), 1);
            match v.into_iter().next() {
                Some(Task::FinishModule(t)) => {
                    assert_eq!(t.module_identifier, 1);
                    t.ctrl_task
                },
                _ => panic!("finish task expected"),
            }
        },
        BackgroundOutcome::Waiting(_) => panic!("done expected"),
    };
    match CtrlTask::background_event(c, Event::Stop()) {
        BackgroundOutcome::Done(v) => assert!(v.is_empty()),
        BackgroundOutcome::Waiting(_) => panic!("done expected"),
    }
}

#[test]
fn finished_tasks_end_with_the_controller() {
    let (_tx, c) = ctrl();
    let v = finish_tasks(Box::new(c), vec![TaskItem::Execute("a".to_string()), TaskItem::Execute("b".to_string())]);
    assert_eq!(v.len(), 3);
    assert!(matches!(&v[0], Task::Item(TaskItem::Execute(a)) if a == "a"));
    assert!(matches!(&v[1], Task::Item(TaskItem::Execute(b)) if b == "b"));
    assert!(matches!(&v[2], Task::Ctrl(_)));
}

#[test]
fn rejection_names_the_broken_expectation() {
    let (_tx, mut c) = ctrl();
    assert_eq!(c.rejection(&Event::FinishModule(9, 0)), Some(CtrlFault::MissingCounter));
    assert_eq!(c.rejection(&Event::FinishDeps(None, 4, None)), Some(CtrlFault::MissingExecuteTask));
    assert_eq!(c.rejection(&Event::FinishDeps(Some(2), 4, None)), Some(CtrlFault::MissingCounter));
    c.handle_event(Event::StartBuild(2));
    assert_eq!(c.rejection(&Event::FinishDeps(Some(2), 4, None)), Some(CtrlFault::CounterUnderflow));
    assert_eq!(c.rejection(&Event::StartBuild(3)), None);
    c.handle_event(Event::ExecuteModule(entry(1), "t".to_string(), None));
    for _ in 1..EXECUTE_TASK_LIMIT {
        c.handle_event(Event::ExecuteModule(ExecuteParam::DependencyId(1), "t".to_string(), None));
    }
    assert_eq!(
        c.rejection(&Event::ExecuteModule(ExecuteParam::DependencyId(1), "t".to_string(), None)),
        Some(CtrlFault::TaskLimit)
    );
    assert_eq!(c.rejection(&Event::ExecuteModule(ExecuteParam::DependencyId(2), "t".to_string(), None)), None);
}
