use std::collections::VecDeque;
use vstd::prelude::*;

use crate::counter::UnfinishCounter;
use crate::ctrl::{
    CtrlTask, DependencyId, ModuleIdentifier, TaskItem, execute_items, execute_items_vec,
    append_items,
};
use crate::module_graph::{Connection, ModuleGraph};

verus! {

/// A broken expectation of the controller, where the build protocol was
/// not followed.
#[derive(Clone, Copy, Debug, PartialEq, Eq, Structural)]
pub enum CtrlFault {
    /// A finished module is not in the module graph.
    MissingModule,
    /// A dependency of an incoming connection makes no connection.
    MissingConnection,
    /// An entry dependency finished with no execute tasks waiting for it.
    MissingExecuteTask,
    /// An origin module has no counter.
    MissingCounter,
    /// An origin module's counter has no unfinished child left.
    CounterUnderflow,
    /// A task list would grow beyond its limit.
    TaskLimit,
}

/// The modules whose counters can still count down.
pub open spec fn live(running: Map<ModuleIdentifier, UnfinishCounter>) -> Set<ModuleIdentifier> {
    running.dom().filter(|k: ModuleIdentifier| running[k].can_minus_one())
}

/// Walks the incoming dependencies `deps` of the finished module `m`, in
/// order: an entry connection hands out the execute tasks that wait for
/// its dependency; any other connection names an origin module, which is
/// collected once unless it is `m` itself. The origins form a set, held
/// as a list in the order in which they are first met: the order in
/// which a hash set is walked cannot be stated, and it decides the order
/// in which modules are queued.
pub open spec fn collect_incoming<E, B>(
    conns: Map<DependencyId, Connection>,
    m: ModuleIdentifier,
    deps: Seq<DependencyId>,
    tasks: Map<DependencyId, Seq<E>>,
    res: Seq<TaskItem<E, B>>,
    origins: Seq<ModuleIdentifier>,
) -> Result<(Map<DependencyId, Seq<E>>, Seq<TaskItem<E, B>>, Seq<ModuleIdentifier>), CtrlFault>
    decreases deps.len(),
{
    if deps.len() == 0 {
        Ok((tasks, res, origins))
    } else if !conns.contains_key(deps[0]) {
        Err(CtrlFault::MissingConnection)
    } else {
        let c = conns[deps[0]];
        match c.original_module_identifier {
            Some(o) => collect_incoming(
                conns,
                m,
                deps.drop_first(),
                tasks,
                res,
                if o != m && !origins.contains(o) { origins.push(o) } else { origins },
            ),
            None => if !tasks.contains_key(c.dependency_id) {
                Err(CtrlFault::MissingExecuteTask)
            } else {
                collect_incoming(
                    conns,
                    m,
                    deps.drop_first(),
                    tasks.remove(c.dependency_id),
                    res + execute_items(tasks[c.dependency_id]),
                    origins,
                )
            },
        }
    }
}

/// Counts one finished child down for each origin module, in order, and
/// queues each origin whose counter reaches zero.
pub open spec fn release_origins(
    running: Map<ModuleIdentifier, UnfinishCounter>,
    origins: Seq<ModuleIdentifier>,
    queue: Seq<ModuleIdentifier>,
) -> Result<(Map<ModuleIdentifier, UnfinishCounter>, Seq<ModuleIdentifier>), CtrlFault>
    decreases origins.len(),
{
    if origins.len() == 0 {
        Ok((running, queue))
    } else {
        let o = origins[0];
        if !running.contains_key(o) {
            Err(CtrlFault::MissingCounter)
        } else if !running[o].can_minus_one() {
            Err(CtrlFault::CounterUnderflow)
        } else {
            let c = running[o].spec_minus_one();
            release_origins(
                running.insert(o, c),
                origins.drop_first(),
                if c.finished() { queue.push(o) } else { queue },
            )
        }
    }
}

/// Finishes the module at the head of the queue: it leaves the running
/// modules, its incoming dependencies are walked, and its origins count
/// down.
pub open spec fn finish_step<E, B>(
    g: &ModuleGraph,
    running: Map<ModuleIdentifier, UnfinishCounter>,
    tasks: Map<DependencyId, Seq<E>>,
    queue: Seq<ModuleIdentifier>,
    res: Seq<TaskItem<E, B>>,
) -> Result<(Map<ModuleIdentifier, UnfinishCounter>, Map<DependencyId, Seq<E>>, Seq<ModuleIdentifier>, Seq<TaskItem<E, B>>), CtrlFault>
    recommends
        queue.len() > 0,
{
    let m = queue[0];
    if !g.incoming_connections@.contains_key(m) {
        Err(CtrlFault::MissingModule)
    } else {
        match collect_incoming(g.connections@, m, g.incoming_connections@[m]@, tasks, res, seq![]) {
            Err(f) => Err(f),
            Ok((tasks1, res1, origins)) => match release_origins(running.remove(m), origins, queue.drop_first()) {
                Err(f) => Err(f),
                Ok((running1, queue1)) => Ok((running1, tasks1, queue1, res1)),
            },
        }
    }
}

/// Finishes queued modules until the queue is empty: the final counters,
/// task lists and tasks to run, or the first broken expectation.
///
/// The counters of a controller are always a finite map (a `HashMap`'s
/// view is finite); the branch for an infinite map only gives the
/// recursion its measure, a number of counters, and no run reaches it.
pub open spec fn finish_run<E, B>(
    g: &ModuleGraph,
    running: Map<ModuleIdentifier, UnfinishCounter>,
    tasks: Map<DependencyId, Seq<E>>,
    queue: Seq<ModuleIdentifier>,
    res: Seq<TaskItem<E, B>>,
) -> Result<(Map<ModuleIdentifier, UnfinishCounter>, Map<DependencyId, Seq<E>>, Seq<TaskItem<E, B>>), CtrlFault>
    decreases queue.len() + live(running).len(),
{
    if queue.len() == 0 {
        Ok((running, tasks, res))
    } else if !running.dom().finite() {
        Err(CtrlFault::MissingCounter)
    } else {
        match finish_step(g, running, tasks, queue, res) {
            Err(f) => Err(f),
            Ok((running1, tasks1, queue1, res1)) => {
                proof {
                    lemma_finish_step_measure(g, running, tasks, queue, res);
                }
                finish_run(g, running1, tasks1, queue1, res1)
            },
        }
    }
}

pub proof fn lemma_live_finite(running: Map<ModuleIdentifier, UnfinishCounter>)
    requires
        running.dom().finite(),
    ensures
        live(running).finite(),
        live(running).len() <= running.dom().len(),
{
    running.dom().lemma_len_filter(|k: ModuleIdentifier| running[k].can_minus_one());
}

pub proof fn lemma_release_measure(
    running: Map<ModuleIdentifier, UnfinishCounter>,
    origins: Seq<ModuleIdentifier>,
    queue: Seq<ModuleIdentifier>,
)
    requires
        running.dom().finite(),
        release_origins(running, origins, queue) is Ok,
    ensures
        ({
            let (r2, q2) = release_origins(running, origins, queue)->Ok_0;
            &&& r2.dom().finite()
            &&& live(r2).len() + q2.len() <= live(running).len() + queue.len()
        }),
    decreases origins.len(),
{
    if origins.len() > 0 {
        let o = origins[0];
        let c = running[o].spec_minus_one();
        let r1 = running.insert(o, c);
        let q1 = if c.finished() { queue.push(o) } else { queue };
        lemma_live_finite(running);
        lemma_live_finite(r1);
        if c.finished() {
            assert(live(r1) =~= live(running).remove(o));
        } else {
            assert(live(r1) =~= live(running));
        }
        lemma_release_measure(r1, origins.drop_first(), q1);
    }
}

pub proof fn lemma_finish_step_measure<E, B>(
    g: &ModuleGraph,
    running: Map<ModuleIdentifier, UnfinishCounter>,
    tasks: Map<DependencyId, Seq<E>>,
    queue: Seq<ModuleIdentifier>,
    res: Seq<TaskItem<E, B>>,
)
    requires
        queue.len() > 0,
        running.dom().finite(),
        finish_step(g, running, tasks, queue, res) is Ok,
    ensures
        ({
            let (r1, t1, q1, s1) = finish_step(g, running, tasks, queue, res)->Ok_0;
            &&& r1.dom().finite()
            &&& q1.len() + live(r1).len() < queue.len() + live(running).len()
        }),
{
    let m = queue[0];
    let origins = collect_incoming(g.connections@, m, g.incoming_connections@[m]@, tasks, res, seq![])->Ok_0.2;
    let r0 = running.remove(m);
    lemma_live_finite(running);
    lemma_live_finite(r0);
    assert(live(r0).subset_of(live(running)));
    vstd::set_lib::lemma_len_subset(live(r0), live(running));
    lemma_release_measure(r0, origins, queue.drop_first());
}

/// Walking the incoming dependencies only takes task lists away, leaving
/// the others as they were, and only appends to the tasks handed out.
pub proof fn lemma_collect_shrinks<E, B>(
    conns: Map<DependencyId, Connection>,
    m: ModuleIdentifier,
    deps: Seq<DependencyId>,
    tasks: Map<DependencyId, Seq<E>>,
    res: Seq<TaskItem<E, B>>,
    origins: Seq<ModuleIdentifier>,
)
    requires
        collect_incoming(conns, m, deps, tasks, res, origins) is Ok,
    ensures
        ({
            let (t2, s2, _) = collect_incoming(conns, m, deps, tasks, res, origins)->Ok_0;
            &&& forall|d: DependencyId| #[trigger] t2.contains_key(d) ==> tasks.contains_key(d) && t2[d] == tasks[d]
            &&& res.len() <= s2.len()
            &&& s2.subrange(0, res.len() as int) == res
        }),
    decreases deps.len(),
{
    if deps.len() > 0 {
        let c = conns[deps[0]];
        match c.original_module_identifier {
            Some(o) => {
                let o2 = if o != m && !origins.contains(o) { origins.push(o) } else { origins };
                lemma_collect_shrinks(conns, m, deps.drop_first(), tasks, res, o2);
            },
            None => {
                let res1 = res + execute_items::<E, B>(tasks[c.dependency_id]);
                lemma_collect_shrinks(conns, m, deps.drop_first(), tasks.remove(c.dependency_id), res1, origins);
                let s2 = collect_incoming(conns, m, deps.drop_first(), tasks.remove(c.dependency_id), res1, origins)->Ok_0.1;
                assert(s2.subrange(0, res.len() as int) =~= s2.subrange(0, res1.len() as int).subrange(0, res.len() as int));
                assert(res1.subrange(0, res.len() as int) =~= res);
            },
        }
    }
}

/// Walking the incoming dependencies collects each origin module once:
/// the origins collected hold no module twice and never the finished
/// module itself, and they are exactly the origins met before together
/// with the origin modules (other than the finished one) of the
/// connections that the walked dependencies make, whatever their order.
/// So finishing a module counts each distinct origin down once.
pub proof fn lemma_collect_origins_distinct<E, B>(
    conns: Map<DependencyId, Connection>,
    m: ModuleIdentifier,
    deps: Seq<DependencyId>,
    tasks: Map<DependencyId, Seq<E>>,
    res: Seq<TaskItem<E, B>>,
    origins: Seq<ModuleIdentifier>,
)
    requires
        collect_incoming(conns, m, deps, tasks, res, origins) is Ok,
        origins.no_duplicates(),
        !origins.contains(m),
    ensures
        ({
            let o2 = collect_incoming(conns, m, deps, tasks, res, origins)->Ok_0.2;
            &&& o2.no_duplicates()
            &&& !o2.contains(m)
            &&& forall|x: ModuleIdentifier| o2.contains(x) <==> (origins.contains(x) || (x != m && exists|i: int|
                0 <= i < deps.len() && #[trigger] conns[deps[i]].original_module_identifier == Some(x)))
        }),
    decreases deps.len(),
{
    if deps.len() > 0 {
        let c = conns[deps[0]];
        let rest = deps.drop_first();
        match c.original_module_identifier {
            Some(o) => {
                let o1 = if o != m && !origins.contains(o) { origins.push(o) } else { origins };
                if o != m && !origins.contains(o) {
                    assert forall|i: int, j: int| 0 <= i < o1.len() && 0 <= j < o1.len() && i != j implies o1[i] != o1[j] by {
                        if i == origins.len() {
                            assert(o1[j] == origins[j]);
                        } else if j == origins.len() {
                            assert(o1[i] == origins[i]);
                        }
                    }
                    assert(!o1.contains(m)) by {
                        if o1.contains(m) {
                            let k = choose|k: int| 0 <= k < o1.len() && o1[k] == m;
                            if k < origins.len() {
                                assert(origins[k] == m);
                            }
                        }
                    }
                }
                lemma_collect_origins_distinct(conns, m, rest, tasks, res, o1);
                let o2 = collect_incoming(conns, m, rest, tasks, res, o1)->Ok_0.2;
                assert forall|x: ModuleIdentifier| o2.contains(x) <==> (origins.contains(x) || (x != m && exists|i: int|
                    0 <= i < deps.len() && #[trigger] conns[deps[i]].original_module_identifier == Some(x))) by {
                    if o1.contains(x) && !origins.contains(x) {
                        assert(x == o);
                        assert(conns[deps[0]].original_module_identifier == Some(x));
                    }
                    if origins.contains(x) {
                        let k = choose|k: int| 0 <= k < origins.len() && origins[k] == x;
                        assert(o1[k] == x);
                    }
                    if x != m && exists|i: int| 0 <= i < deps.len() && #[trigger] conns[deps[i]].original_module_identifier == Some(x) {
                        let i = choose|i: int| 0 <= i < deps.len() && #[trigger] conns[deps[i]].original_module_identifier == Some(x);
                        if i == 0 {
                            if !origins.contains(x) {
                                assert(o1[origins.len() as int] == x);
                            }
                        } else {
                            assert(rest[i - 1] == deps[i]);
                        }
                    }
                    if exists|i: int| 0 <= i < rest.len() && #[trigger] conns[rest[i]].original_module_identifier == Some(x) {
                        let i = choose|i: int| 0 <= i < rest.len() && #[trigger] conns[rest[i]].original_module_identifier == Some(x);
                        assert(deps[i + 1] == rest[i]);
                    }
                }
            },
            None => {
                let t1 = tasks.remove(c.dependency_id);
                let s1 = res + execute_items::<E, B>(tasks[c.dependency_id]);
                lemma_collect_origins_distinct(conns, m, rest, t1, s1, origins);
                let o2 = collect_incoming(conns, m, rest, t1, s1, origins)->Ok_0.2;
                assert forall|x: ModuleIdentifier| o2.contains(x) <==> (origins.contains(x) || (x != m && exists|i: int|
                    0 <= i < deps.len() && #[trigger] conns[deps[i]].original_module_identifier == Some(x))) by {
                    if x != m && exists|i: int| 0 <= i < deps.len() && #[trigger] conns[deps[i]].original_module_identifier == Some(x) {
                        let i = choose|i: int| 0 <= i < deps.len() && #[trigger] conns[deps[i]].original_module_identifier == Some(x);
                        assert(i != 0);
                        assert(rest[i - 1] == deps[i]);
                    }
                    if exists|i: int| 0 <= i < rest.len() && #[trigger] conns[rest[i]].original_module_identifier == Some(x) {
                        let i = choose|i: int| 0 <= i < rest.len() && #[trigger] conns[rest[i]].original_module_identifier == Some(x);
                        assert(deps[i + 1] == rest[i]);
                    }
                }
            },
        }
    }
}

/// Counting the origins down keeps the set of running modules and only
/// appends to the queue.
pub proof fn lemma_release_keeps_modules(
    running: Map<ModuleIdentifier, UnfinishCounter>,
    origins: Seq<ModuleIdentifier>,
    queue: Seq<ModuleIdentifier>,
)
    requires
        release_origins(running, origins, queue) is Ok,
    ensures
        ({
            let (r2, q2) = release_origins(running, origins, queue)->Ok_0;
            &&& r2.dom() == running.dom()
            &&& queue.len() <= q2.len()
            &&& q2.subrange(0, queue.len() as int) == queue
            &&& forall|k: ModuleIdentifier| #[trigger] r2.contains_key(k) ==> r2[k] == running[k] || !r2[k].finished()
                || q2.contains(k)
        }),
    decreases origins.len(),
{
    if origins.len() > 0 {
        let o = origins[0];
        let c = running[o].spec_minus_one();
        let r1 = running.insert(o, c);
        let q1 = if c.finished() { queue.push(o) } else { queue };
        lemma_release_keeps_modules(r1, origins.drop_first(), q1);
        assert(r1.dom() =~= running.dom());
        let q2 = release_origins(r1, origins.drop_first(), q1)->Ok_0.1;
        assert(q2.subrange(0, queue.len() as int) =~= q2.subrange(0, q1.len() as int).subrange(0, queue.len() as int));
        assert(q1.subrange(0, queue.len() as int) =~= queue);
        let r2 = release_origins(r1, origins.drop_first(), q1)->Ok_0.0;
        assert forall|k: ModuleIdentifier| #[trigger] r2.contains_key(k) implies r2[k] == running[k] || !r2[k].finished()
            || q2.contains(k) by {
            if k == o && r2[k] == r1[k] && c.finished() {
                assert(q1[q1.len() - 1] == o);
                assert(q2.subrange(0, q1.len() as int)[q1.len() - 1] == o);
                assert(q2[q1.len() - 1] == o);
            }
        }
    }
}

/// Finishing modules only ever takes away: every module still running
/// afterwards was running before, no module that was queued is still
/// running, no module whose counter reached zero along the way is still
/// running (a module left finished was finished and untouched before),
/// every task list still pending was pending before and is unchanged,
/// and the tasks handed out before stay in front of those handed out
/// now.
pub proof fn lemma_finish_run_shrinks<E, B>(
    g: &ModuleGraph,
    running: Map<ModuleIdentifier, UnfinishCounter>,
    tasks: Map<DependencyId, Seq<E>>,
    queue: Seq<ModuleIdentifier>,
    res: Seq<TaskItem<E, B>>,
)
    requires
        finish_run(g, running, tasks, queue, res) is Ok,
    ensures
        ({
            let (r2, t2, s2) = finish_run(g, running, tasks, queue, res)->Ok_0;
            &&& r2.dom().subset_of(running.dom())
            &&& forall|i: int| 0 <= i < queue.len() ==> !r2.contains_key(#[trigger] queue[i])
            &&& forall|k: ModuleIdentifier| #[trigger] r2.contains_key(k) && r2[k].finished() ==> r2[k] == running[k]
            &&& forall|d: DependencyId| #[trigger] t2.contains_key(d) ==> tasks.contains_key(d) && t2[d] == tasks[d]
            &&& res.len() <= s2.len()
            &&& s2.subrange(0, res.len() as int) == res
        }),
    decreases queue.len() + live(running).len(),
{
    if queue.len() > 0 {
        let m = queue[0];
        let (t1, s1, origins) = collect_incoming(g.connections@, m, g.incoming_connections@[m]@, tasks, res, seq![])->Ok_0;
        lemma_collect_shrinks(g.connections@, m, g.incoming_connections@[m]@, tasks, res, seq![]);
        lemma_release_keeps_modules(running.remove(m), origins, queue.drop_first());
        let (r1, _, q1, _) = finish_step(g, running, tasks, queue, res)->Ok_0;
        lemma_finish_step_measure(g, running, tasks, queue, res);
        lemma_finish_run_shrinks(g, r1, t1, q1, s1);
        let (r2, t2, s2) = finish_run(g, r1, t1, q1, s1)->Ok_0;
        assert forall|i: int| 0 <= i < queue.len() implies !r2.contains_key(#[trigger] queue[i]) by {
            if i > 0 {
                assert(q1[i - 1] == queue.drop_first()[i - 1]);
            } else {
                assert(!r1.contains_key(m));
            }
        }
        assert(s2.subrange(0, res.len() as int) =~= s2.subrange(0, s1.len() as int).subrange(0, res.len() as int));
        assert forall|k: ModuleIdentifier| #[trigger] r2.contains_key(k) && r2[k].finished() implies r2[k] == running[k] by {
            assert(r1.contains_key(k));
            assert(r2[k] == r1[k]);
            if q1.contains(k) {
                let i = choose|i: int| 0 <= i < q1.len() && q1[i] == k;
                assert(!r2.contains_key(q1[i]));
            }
            assert(running.remove(m).contains_key(k));
        }
    }
}

/// Whether `x` occurs in `v`.
fn contains_module(v: &Vec<ModuleIdentifier>, x: ModuleIdentifier) -> (r: bool)
    ensures
        r == v@.contains(x),
{
    let mut i: usize = 0;
    while i < v.len()
        invariant
            i <= v@.len(),
            forall|j: int| 0 <= j < i ==> v@[j] != x,
        decreases v@.len() - i,
    {
        if v[i] == x {
            return true;
        }
        i = i + 1;
    }
    false
}

impl<E, B> CtrlTask<E, B> {
    /// Finishes the queued modules, and the modules that they finish in
    /// turn, in queue order. The execute tasks that become free are
    /// appended to `res`.
    ///
    /// A run that meets a broken expectation (a finished module missing
    /// from the graph, a connection or task list or counter missing, a
    /// counter with no child left) stops with the fault, exactly where
    /// `finish_run` does. Whether a run meets one depends on the events
    /// that came before and on the modules that finish along the way, so
    /// no caller can test for it beforehand; the caller treats the fault
    /// as the build's protocol being broken.
    #[verifier::loop_isolation(false)]
    pub fn finish_queue(
        &mut self,
        graph: &ModuleGraph,
        queue: &mut VecDeque<ModuleIdentifier>,
        res: &mut Vec<TaskItem<E, B>>,
    ) -> (r: Result<(), CtrlFault>)
        ensures
            final(self).event_receiver == old(self).event_receiver,
            match finish_run(graph, old(self).running(), old(self).pending(), old(queue)@, old(res)@) {
                Ok((running, tasks, items)) => r is Ok && final(self).running() == running
                    && final(self).pending() == tasks && final(res)@ == items && final(queue)@.len() == 0,
                Err(f) => r == Err::<(), CtrlFault>(f),
            },
    {
        let ghost target = finish_run(graph, self.running(), self.pending(), queue@, res@);
        loop
            invariant
                finish_run(graph, self.running(), self.pending(), queue@, res@) == target,
                target == finish_run(graph, old(self).running(), old(self).pending(), old(queue)@, old(res)@),
                self.event_receiver == old(self).event_receiver,
            decreases queue@.len() + live(self.running()).len(),
        {
            let ghost running0 = self.running();
            let ghost tasks0 = self.pending();
            let ghost queue0 = queue@;
            let ghost res0 = res@;
            if queue.len() == 0 {
                return Ok(());
            }
            proof {
                vstd::std_specs::hash::axiom_hashmap_view_finite_dom(self.running_module_map);
            }
            let m = queue.pop_front().unwrap();
            self.running_module_map.remove(&m);
            let deps = match graph.incoming_connections.get(&m) {
                Some(d) => d,
                None => return Err(CtrlFault::MissingModule),
            };
            let ghost conns = graph.connections@;
            proof {
                assert(deps@.skip(0) =~= deps@);
            }
            let mut origins: Vec<ModuleIdentifier> = Vec::new();
            let n = deps.len();
            for i in 0..n
                invariant
                    n == deps@.len(),
                    deps@ == graph.incoming_connections@[m]@,
                    conns == graph.connections@,
                    self.running() == running0.remove(m),
                    queue@ == queue0.drop_first(),
                    self.event_receiver == old(self).event_receiver,
                    collect_incoming(conns, m, deps@, tasks0, res0, seq![])
                        == collect_incoming(conns, m, deps@.skip(i as int), self.pending(), res@, origins@),
            {
                proof {
                    assert(deps@.skip(i as int).drop_first() =~= deps@.skip(i + 1));
                }
                let d = deps[i];
                let conn = match graph.connections.get(&d) {
                    Some(c) => c,
                    None => return Err(CtrlFault::MissingConnection),
                };
                match conn.original_module_identifier {
                    Some(o) => {
                        if o != m && !contains_module(&origins, o) {
                            origins.push(o);
                        }
                    },
                    None => {
                        let ghost tasks1 = self.pending();
                        match self.execute_task_map.remove(&conn.dependency_id) {
                            Some(list) => {
                                proof {
                                    assert(self.pending() =~= tasks1.remove(conn.dependency_id));
                                }
                                append_items(res, execute_items_vec::<E, B>(list.into_vec()));
                            },
                            None => return Err(CtrlFault::MissingExecuteTask),
                        }
                    },
                }
            }
            proof {
                assert(deps@.skip(n as int) =~= Seq::<DependencyId>::empty());
            }
            let ghost running1 = self.running();
            let ghost tasks2 = self.pending();
            let ghost res2 = res@;
            let ghost queue1 = queue@;
            let k = origins.len();
            proof {
                assert(origins@.skip(0) =~= origins@);
            }
            for j in 0..k
                invariant
                    k == origins@.len(),
                    self.event_receiver == old(self).event_receiver,
                    release_origins(running1, origins@, queue1)
                        == release_origins(self.running(), origins@.skip(j as int), queue@),
                    self.pending() == tasks2,
                    res@ == res2,
            {
                proof {
                    assert(origins@.skip(j as int).drop_first() =~= origins@.skip(j + 1));
                }
                let o = origins[j];
                let mut c = match self.running_module_map.get(&o) {
                    Some(c) => *c,
                    None => return Err(CtrlFault::MissingCounter),
                };
                if c.is_building || c.unfinished_child_module_count == 0 {
                    return Err(CtrlFault::CounterUnderflow);
                }
                c.minus_one();
                self.running_module_map.insert(o, c);
                if c.is_finished() {
                    queue.push_back(o);
                }
            }
            proof {
                assert(origins@.skip(k as int) =~= Seq::<ModuleIdentifier>::empty());
                assert(release_origins(running1, origins@, queue1) == Ok::<_, CtrlFault>((self.running(), queue@)));
                assert(finish_step(graph, running0, tasks0, queue0, res0)
                    == Ok::<_, CtrlFault>((self.running(), self.pending(), queue@, res@)));
                lemma_finish_step_measure(graph, running0, tasks0, queue0, res0);
            }
        }
    }
}

} // verus!
