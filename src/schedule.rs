//! The scheduler: decides which task starts next. A serial bootstrap phase
//! runs a declared list of tasks in order; the parallel phase then starts
//! every remaining task once its dependencies have passed or been skipped,
//! with at most `limit` tasks running at once. The caller performs the
//! work and reports each task's outcome back.
use vstd::prelude::*;

use crate::graph::TaskGraph;
use crate::names::{has_name, position_of};

verus! {

/// How a task ended, as far as scheduling is concerned.
#[derive(Debug, Clone, Copy, PartialEq, Eq, Structural)]
pub enum Outcome {
    Passed,
    Skipped,
    Failed,
    /// Never started because a dependency failed or was itself blocked.
    Blocked,
}

/// Where a task stands in the run.
#[derive(Debug, Clone, Copy, PartialEq, Eq, Structural)]
pub enum NodeState {
    Pending,
    Running,
    Done(Outcome),
}

/// What the caller should do next.
#[derive(Debug, Clone, Copy, PartialEq, Eq, Structural)]
pub enum Step {
    /// Start the task.
    Start(usize),
    /// Wait for a running task to finish and report it.
    Wait,
    /// Nothing is running and nothing more will start.
    Finished,
}

/// A dependency in this state lets its dependents run.
pub open spec fn satisfied(s: NodeState) -> bool {
    s == NodeState::Done(Outcome::Passed) || s == NodeState::Done(Outcome::Skipped)
}

/// A dependency in this state keeps its dependents from running.
pub open spec fn blocking(s: NodeState) -> bool {
    s == NodeState::Done(Outcome::Failed) || s == NodeState::Done(Outcome::Blocked)
}

/// Number of running tasks.
pub open spec fn count_running(s: Seq<NodeState>) -> nat
    decreases s.len(),
{
    if s.len() == 0 {
        0
    } else {
        count_running(s.drop_last()) + if s.last() is Running {
            1nat
        } else {
            0nat
        }
    }
}

proof fn lemma_count_update(s: Seq<NodeState>, i: int, v: NodeState)
    requires
        0 <= i < s.len(),
    ensures
        count_running(s.update(i, v)) + (if s[i] is Running { 1nat } else { 0nat }) == count_running(s)
            + (if v is Running { 1nat } else { 0nat }),
    decreases s.len(),
{
    let u = s.update(i, v);
    if i < s.len() - 1 {
        lemma_count_update(s.drop_last(), i, v);
        assert(u.drop_last() =~= s.drop_last().update(i, v));
    } else {
        assert(u.drop_last() =~= s.drop_last());
    }
}

proof fn lemma_count_zero(s: Seq<NodeState>)
    requires
        count_running(s) == 0,
    ensures
        forall|i: int| 0 <= i < s.len() ==> !(#[trigger] s[i] is Running),
    decreases s.len(),
{
    if s.len() > 0 {
        lemma_count_zero(s.drop_last());
        assert forall|i: int| 0 <= i < s.len() implies !(#[trigger] s[i] is Running) by {
            if i < s.len() - 1 {
                assert(s[i] == s.drop_last()[i]);
            }
        }
    }
}

proof fn lemma_no_running(s: Seq<NodeState>)
    requires
        forall|i: int| 0 <= i < s.len() ==> !(#[trigger] s[i] is Running),
    ensures
        count_running(s) == 0,
    decreases s.len(),
{
    if s.len() > 0 {
        assert(!(s[s.len() - 1] is Running));
        lemma_no_running(s.drop_last());
    }
}

proof fn lemma_count_bound(s: Seq<NodeState>)
    ensures
        count_running(s) <= s.len(),
    decreases s.len(),
{
    if s.len() > 0 {
        lemma_count_bound(s.drop_last());
    }
}

/// The `k`-th dependency of node `t`.
pub open spec fn dep_of(g: TaskGraph, t: int, k: int) -> int {
    g.deps@[t]@[k] as int
}

/// Every dependency of `t` has passed or been skipped.
pub open spec fn deps_satisfied(g: TaskGraph, states: Seq<NodeState>, t: int) -> bool {
    forall|k: int| 0 <= k < g.deps@[t]@.len() ==> satisfied(states[#[trigger] dep_of(g, t, k)])
}

/// Some dependency of `t` failed or was blocked.
pub open spec fn dep_blocking(g: TaskGraph, states: Seq<NodeState>, t: int) -> bool {
    exists|k: int| 0 <= k < g.deps@[t]@.len() && blocking(states[#[trigger] dep_of(g, t, k)])
}

/// Some dependency of `t` has not finished.
pub open spec fn dep_unfinished(g: TaskGraph, states: Seq<NodeState>, t: int) -> bool {
    exists|k: int| 0 <= k < g.deps@[t]@.len() && !(states[#[trigger] dep_of(g, t, k)] is Done)
}

/// Whether `x` is in the bootstrap list.
pub open spec fn in_list(list: Seq<usize>, x: int) -> bool {
    exists|j: int| 0 <= j < list.len() && list[j] == x
}

/// The scheduler's state for one run.
pub struct Scheduler {
    /// The dependency graph of the eligible tasks.
    pub graph: TaskGraph,
    /// Nodes of the bootstrap phase, in the order they run.
    pub bootstrap: Vec<usize>,
    /// Whether a bootstrap failure lets the run continue.
    pub keep_going: bool,
    /// Most tasks running at once.
    pub limit: usize,
    /// State of each node.
    pub states: Vec<NodeState>,
    /// Next position in `bootstrap`.
    pub next_boot: usize,
    /// Whether the bootstrap phase is still on.
    pub in_bootstrap: bool,
    /// Whether a bootstrap failure stopped the run.
    pub aborted: bool,
    /// Number of running tasks.
    pub running: usize,
}

impl Scheduler {
    /// Number of tasks in the run.
    pub open spec fn n(&self) -> int {
        self.graph.names@.len() as int
    }

    /// Whether a task is on the bootstrap list.
    pub open spec fn is_bootstrap(&self, t: int) -> bool {
        in_list(self.bootstrap@, t)
    }

    /// What holds in every state of a run: sizes agree, the running count
    /// is exact and within the limit, at most one task runs during the
    /// bootstrap phase, a blocked task has a failed or blocked dependency,
    /// and a task outside the bootstrap list that started had every
    /// dependency passed or skipped.
    pub open spec fn wf(&self) -> bool {
        &&& self.graph.wf()
        &&& self.states@.len() == self.n()
        &&& self.limit >= 1
        &&& self.next_boot <= self.bootstrap@.len()
        &&& forall|j: int|
            0 <= j < self.next_boot ==> !(self.states@[#[trigger] self.bootstrap@[j] as int] is Pending)
        &&& forall|j: int| 0 <= j < self.bootstrap@.len() ==> #[trigger] self.bootstrap@[j] < self.n()
        &&& self.running == count_running(self.states@)
        &&& self.running <= self.limit
        &&& self.in_bootstrap ==> self.running <= 1
        &&& self.aborted ==> self.in_bootstrap && !self.keep_going
        &&& !self.in_bootstrap ==> forall|j: int|
            0 <= j < self.bootstrap@.len() ==> !(self.states@[#[trigger] self.bootstrap@[j] as int] is Pending)
        &&& forall|t: int|
            0 <= t < self.n() && #[trigger] self.states@[t] == NodeState::Done(Outcome::Blocked)
                ==> !self.is_bootstrap(t) && dep_blocking(self.graph, self.states@, t)
        &&& forall|t: int|
            0 <= t < self.n() && !(#[trigger] self.states@[t] is Pending) && self.states@[t]
                != NodeState::Done(Outcome::Blocked) && !self.is_bootstrap(t) ==> deps_satisfied(
                self.graph,
                self.states@,
                t,
            )
    }

    /// The run failed: a bootstrap failure stopped it, or a task failed
    /// while `keep_going` is off.
    pub open spec fn failed_spec(&self) -> bool {
        self.aborted || (!self.keep_going && exists|t: int|
            0 <= t < self.n() && #[trigger] self.states@[t] == NodeState::Done(Outcome::Failed))
    }

    /// Whether every task has a terminal state.
    pub open spec fn all_done(&self) -> bool {
        forall|t: int| 0 <= t < self.n() ==> #[trigger] self.states@[t] is Done
    }

    /// Done states never change.
    pub open spec fn keeps_done(&self, later: &Scheduler) -> bool {
        forall|t: int| 0 <= t < self.n() && #[trigger] self.states@[t] is Done ==> later.states@[t] == self.states@[t]
    }
}

/// Index of the first name in `names` equal to `x`.
pub open spec fn first_index(names: Seq<String>, x: Seq<char>) -> int {
    choose|u: int| 0 <= u < names.len() && names[u]@ == x && forall|j: int| 0 <= j < u ==> names[j]@ != x
}

/// The nodes that a list of bootstrap names selects, in list order; names
/// of no node are left out.
pub open spec fn boot_nodes(names: Seq<String>, list: Seq<String>) -> Seq<usize>
    decreases list.len(),
{
    if list.len() == 0 {
        Seq::empty()
    } else {
        let rest = boot_nodes(names, list.drop_last());
        if has_name(names, list.last()@) {
            rest.push(first_index(names, list.last()@) as usize)
        } else {
            rest
        }
    }
}

proof fn lemma_boot_nodes_bounded(names: Seq<String>, list: Seq<String>)
    ensures
        forall|j: int| 0 <= j < boot_nodes(names, list).len() ==> #[trigger] boot_nodes(names, list)[j] < names.len(),
    decreases list.len(),
{
    if list.len() > 0 {
        let rest = boot_nodes(names, list.drop_last());
        lemma_boot_nodes_bounded(names, list.drop_last());
        let x = list.last()@;
        if has_name(names, x) {
            let k = choose|k: int| 0 <= k < names.len() && #[trigger] names[k]@ == x;
            lemma_first_index_exists(names, x, k);
            let r = rest.push(first_index(names, x) as usize);
            assert(boot_nodes(names, list) == r);
            assert forall|j: int| 0 <= j < r.len() implies #[trigger] r[j] < names.len() by {
                if j < rest.len() {
                    assert(r[j] == rest[j]);
                }
            }
        } else {
            assert(boot_nodes(names, list) == rest);
        }
    }
}

proof fn lemma_first_index_exists(names: Seq<String>, x: Seq<char>, k: int)
    requires
        0 <= k < names.len(),
        names[k]@ == x,
    ensures
        0 <= first_index(names, x) < names.len(),
        names[first_index(names, x)]@ == x,
    decreases k,
{
    if exists|j: int| 0 <= j < k && names[j]@ == x {
        let j = choose|j: int| 0 <= j < k && names[j]@ == x;
        lemma_first_index_exists(names, x, j);
    } else {
        assert(0 <= k < names.len() && names[k]@ == x && forall|j: int| 0 <= j < k ==> names[j]@ != x);
    }
}

proof fn lemma_first_index_is(names: Seq<String>, x: Seq<char>, k: int)
    requires
        0 <= k < names.len(),
        names[k]@ == x,
        forall|j: int| 0 <= j < k ==> names[j]@ != x,
    ensures
        first_index(names, x) == k,
{
    let u = first_index(names, x);
    assert(0 <= k < names.len() && names[k]@ == x && forall|j: int| 0 <= j < k ==> names[j]@ != x);
    if u < k {
        assert(names[u]@ != x);
    } else if u > k {
        assert(names[k]@ != x);
    }
}

/// The outcome of checking a pending task's dependencies.
enum DepCheck {
    Blocked,
    Ready,
    Unfinished,
}

impl Scheduler {
    /// A scheduler for a run over `graph`. With `bootstrap` set, the tasks
    /// that `bootstrap_names` names run first, one at a time, in that
    /// order; names of tasks not in the graph are passed over.
    pub fn new(
        graph: TaskGraph,
        bootstrap_names: &Vec<String>,
        bootstrap: bool,
        keep_going: bool,
        limit: usize,
    ) -> (r: Scheduler)
        requires
            graph.wf(),
            limit >= 1,
        ensures
            r.wf(),
            r.graph == graph,
            r.bootstrap@ == (if bootstrap { boot_nodes(graph.names@, bootstrap_names@) } else { Seq::empty() }),
            r.keep_going == keep_going,
            r.limit == limit,
            r.in_bootstrap == bootstrap,
            !r.aborted,
            r.next_boot == 0,
            forall|t: int| 0 <= t < r.n() ==> #[trigger] r.states@[t] == NodeState::Pending,
    {
        let n = graph.names.len();
        let mut boot: Vec<usize> = Vec::new();
        if bootstrap {
            let mut j: usize = 0;
            while j < bootstrap_names.len()
                invariant
                    j <= bootstrap_names.len(),
                    boot@ == boot_nodes(graph.names@, bootstrap_names@.subrange(0, j as int)),
                decreases bootstrap_names.len() - j,
            {
                let ghost pre = bootstrap_names@.subrange(0, j as int);
                let ghost cur = bootstrap_names@.subrange(0, j as int + 1);
                assert(cur.drop_last() =~= pre);
                assert(cur.last() == bootstrap_names@[j as int]);
                match position_of(&graph.names, &bootstrap_names[j]) {
                    Some(u) => {
                        proof {
                            lemma_first_index_is(graph.names@, bootstrap_names@[j as int]@, u as int);
                        }
                        boot.push(u);
                    },
                    None => {},
                }
                j += 1;
            }
            assert(bootstrap_names@.subrange(0, bootstrap_names@.len() as int) =~= bootstrap_names@);
        }
        let mut states: Vec<NodeState> = Vec::new();
        while states.len() < n
            invariant
                states@.len() <= n,
                forall|t: int| 0 <= t < states@.len() ==> #[trigger] states@[t] == NodeState::Pending,
            decreases n - states@.len(),
        {
            states.push(NodeState::Pending);
        }
        proof {
            lemma_boot_nodes_bounded(graph.names@, bootstrap_names@);
            lemma_no_running(states@);
        }
        Scheduler {
            graph,
            bootstrap: boot,
            keep_going,
            limit,
            states,
            next_boot: 0,
            in_bootstrap: bootstrap,
            aborted: false,
            running: 0,
        }
    }

    fn dep_check(&self, t: usize) -> (r: DepCheck)
        requires
            self.wf(),
            t < self.n(),
        ensures
            r is Blocked <==> dep_blocking(self.graph, self.states@, t as int),
            r is Ready <==> !dep_blocking(self.graph, self.states@, t as int) && deps_satisfied(self.graph, self.states@, t as int),
            r is Unfinished <==> !dep_blocking(self.graph, self.states@, t as int) && !deps_satisfied(self.graph, self.states@, t as int),
            r is Unfinished ==> dep_unfinished(self.graph, self.states@, t as int),
    {
        let ds = &self.graph.deps[t];
        let mut ready = true;
        let mut k: usize = 0;
        while k < ds.len()
            invariant
                self.wf(),
                t < self.n(),
                ds@ == self.graph.deps@[t as int]@,
                k <= ds.len(),
                forall|j: int| 0 <= j < k ==> !blocking(self.states@[#[trigger] dep_of(self.graph, t as int, j)]),
                ready <==> forall|j: int| 0 <= j < k ==> satisfied(self.states@[#[trigger] dep_of(self.graph, t as int, j)]),
            decreases ds.len() - k,
        {
            assert(ds@[k as int] < self.n());
            let st = self.states[ds[k]];
            assert(st == self.states@[dep_of(self.graph, t as int, k as int)]);
            match st {
                NodeState::Done(Outcome::Failed) | NodeState::Done(Outcome::Blocked) => {
                    return DepCheck::Blocked;
                },
                NodeState::Done(Outcome::Passed) | NodeState::Done(Outcome::Skipped) => {},
                _ => {
                    ready = false;
                },
            }
            k += 1;
        }
        if ready {
            DepCheck::Ready
        } else {
            proof {
                let j = choose|j: int| 0 <= j < k && !satisfied(self.states@[#[trigger] dep_of(self.graph, t as int, j)]);
                assert(!blocking(self.states@[dep_of(self.graph, t as int, j)]));
            }
            DepCheck::Unfinished
        }
    }
}

/// `later` is `s` with the states changed and every other field kept.
pub open spec fn same_setup(s: Scheduler, later: Scheduler) -> bool {
    &&& later.graph == s.graph
    &&& later.bootstrap == s.bootstrap
    &&& later.keep_going == s.keep_going
    &&& later.limit == s.limit
}

/// The dependency predicates of `t` agree on two state vectors that agree
/// on its dependencies.
proof fn lemma_deps_frame(sch: Scheduler, a: Seq<NodeState>, b: Seq<NodeState>, t: int)
    requires
        sch.graph.wf(),
        0 <= t < sch.n(),
        a.len() == sch.n(),
        b.len() == sch.n(),
        forall|k: int| 0 <= k < sch.graph.deps@[t]@.len() ==> a[#[trigger] dep_of(sch.graph, t, k)] == b[dep_of(sch.graph, t, k)],
    ensures
        dep_blocking(sch.graph, a, t) == dep_blocking(sch.graph, b, t),
        deps_satisfied(sch.graph, a, t) == deps_satisfied(sch.graph, b, t),
        dep_unfinished(sch.graph, a, t) == dep_unfinished(sch.graph, b, t),
{
    if dep_blocking(sch.graph, a, t) {
        let k = choose|k: int| 0 <= k < sch.graph.deps@[t]@.len() && blocking(a[#[trigger] dep_of(sch.graph, t, k)]);
        assert(blocking(b[dep_of(sch.graph, t, k)]));
    }
    if dep_blocking(sch.graph, b, t) {
        let k = choose|k: int| 0 <= k < sch.graph.deps@[t]@.len() && blocking(b[#[trigger] dep_of(sch.graph, t, k)]);
        assert(blocking(a[dep_of(sch.graph, t, k)]));
    }
    if dep_unfinished(sch.graph, a, t) {
        let k = choose|k: int| 0 <= k < sch.graph.deps@[t]@.len() && !(a[#[trigger] dep_of(sch.graph, t, k)] is Done);
        assert(!(b[dep_of(sch.graph, t, k)] is Done));
    }
    if dep_unfinished(sch.graph, b, t) {
        let k = choose|k: int| 0 <= k < sch.graph.deps@[t]@.len() && !(b[#[trigger] dep_of(sch.graph, t, k)] is Done);
        assert(!(a[dep_of(sch.graph, t, k)] is Done));
    }
    if deps_satisfied(sch.graph, a, t) {
        assert forall|k: int| 0 <= k < sch.graph.deps@[t]@.len() implies satisfied(b[#[trigger] dep_of(sch.graph, t, k)]) by {
            assert(satisfied(a[dep_of(sch.graph, t, k)]));
        }
    }
    if deps_satisfied(sch.graph, b, t) {
        assert forall|k: int| 0 <= k < sch.graph.deps@[t]@.len() implies satisfied(a[#[trigger] dep_of(sch.graph, t, k)]) by {
            assert(satisfied(b[dep_of(sch.graph, t, k)]));
        }
    }
}

/// Changing the state of a node that is not a dependency of `t` leaves the
/// dependency predicates of `t` as they were.
proof fn lemma_update_elsewhere(sch: Scheduler, a: Seq<NodeState>, x: int, v: NodeState, t: int)
    requires
        sch.graph.wf(),
        0 <= t < sch.n(),
        0 <= x < sch.n(),
        a.len() == sch.n(),
        sch.graph.rank@[x] >= sch.graph.rank@[t],
    ensures
        dep_blocking(sch.graph, a, t) == dep_blocking(sch.graph, a.update(x, v), t),
        deps_satisfied(sch.graph, a, t) == deps_satisfied(sch.graph, a.update(x, v), t),
        dep_unfinished(sch.graph, a, t) == dep_unfinished(sch.graph, a.update(x, v), t),
{
    assert forall|k: int| 0 <= k < sch.graph.deps@[t]@.len() implies a[#[trigger] dep_of(sch.graph, t, k)] == a.update(x, v)[dep_of(sch.graph, t, k)] by {
        assert(sch.graph.rank@[dep_of(sch.graph, t, k)] < sch.graph.rank@[t]);
    }
    lemma_deps_frame(sch, a, a.update(x, v), t);
}

/// Marking a pending task with a failed or blocked dependency as blocked,
/// in the parallel phase, keeps the scheduler well formed.
proof fn lemma_block_keeps_wf(s: Scheduler, later: Scheduler, t: int)
    requires
        s.wf(),
        same_setup(s, later),
        later.next_boot == s.next_boot,
        later.in_bootstrap == s.in_bootstrap,
        later.aborted == s.aborted,
        later.running == s.running,
        !s.in_bootstrap,
        0 <= t < s.n(),
        s.states@[t] is Pending,
        dep_blocking(s.graph, s.states@, t),
        later.states@ == s.states@.update(t, NodeState::Done(Outcome::Blocked)),
    ensures
        later.wf(),
{
    let a = s.states@;
    let b = later.states@;
    lemma_count_update(a, t, NodeState::Done(Outcome::Blocked));
    if s.is_bootstrap(t) {
        let j = choose|j: int| 0 <= j < s.bootstrap@.len() && s.bootstrap@[j] == t;
        assert(!(a[s.bootstrap@[j] as int] is Pending));
    }
    assert forall|j: int| 0 <= j < later.bootstrap@.len() implies !(b[#[trigger] later.bootstrap@[j] as int] is Pending) by {
        assert(!(a[s.bootstrap@[j] as int] is Pending));
    }
    assert forall|x: int|
        0 <= x < later.n() && #[trigger] b[x] == NodeState::Done(Outcome::Blocked) implies !later.is_bootstrap(x)
            && dep_blocking(later.graph, b, x) by {
        if x == t {
            lemma_update_elsewhere(s, a, t, NodeState::Done(Outcome::Blocked), t);
        } else {
            assert(a[x] == b[x]);
            let k = choose|k: int| 0 <= k < s.graph.deps@[x]@.len() && blocking(a[#[trigger] dep_of(s.graph, x, k)]);
            assert(blocking(b[dep_of(s.graph, x, k)]));
        }
    }
    assert forall|x: int|
        0 <= x < later.n() && !(#[trigger] b[x] is Pending) && b[x] != NodeState::Done(Outcome::Blocked)
            && !later.is_bootstrap(x) implies deps_satisfied(later.graph, b, x) by {
        assert(x != t);
        assert(a[x] == b[x]);
        assert(deps_satisfied(s.graph, a, x));
        assert forall|k: int| 0 <= k < s.graph.deps@[x]@.len() implies satisfied(b[#[trigger] dep_of(s.graph, x, k)]) by {
            assert(satisfied(a[dep_of(s.graph, x, k)]));
        }
    }
}

/// With nothing running and every pending task waiting on an unfinished
/// dependency, no task is pending at all.
proof fn lemma_nothing_pending(s: Scheduler, r: int)
    requires
        s.wf(),
        0 <= r <= s.n(),
        forall|t: int| 0 <= t < s.n() ==> !(#[trigger] s.states@[t] is Running),
        forall|t: int| 0 <= t < s.n() && #[trigger] s.states@[t] is Pending ==> dep_unfinished(s.graph, s.states@, t),
    ensures
        forall|t: int| 0 <= t < s.n() && s.graph.rank@[t] < r ==> #[trigger] s.states@[t] is Done,
    decreases r,
{
    if r > 0 {
        lemma_nothing_pending(s, r - 1);
        assert forall|t: int| 0 <= t < s.n() && s.graph.rank@[t] < r implies #[trigger] s.states@[t] is Done by {
            if s.graph.rank@[t] == r - 1 && s.states@[t] is Pending {
                let k = choose|k: int| 0 <= k < s.graph.deps@[t]@.len() && !(s.states@[#[trigger] dep_of(s.graph, t, k)] is Done);
                let d = dep_of(s.graph, t, k);
                assert(s.graph.rank@[d] < s.graph.rank@[t]);
                assert(s.states@[d] is Done);
            }
        }
    }
}

impl Scheduler {
    /// One pass over the nodes in dependency order: blocks each pending
    /// task with a failed or blocked dependency, and returns the first
    /// pending task whose dependencies all passed or were skipped.
    fn scan(&mut self) -> (r: Option<usize>)
        requires
            old(self).wf(),
            !old(self).in_bootstrap,
        ensures
            final(self).wf(),
            same_setup(*old(self), *final(self)),
            final(self).next_boot == old(self).next_boot,
            final(self).in_bootstrap == old(self).in_bootstrap,
            final(self).aborted == old(self).aborted,
            final(self).running == old(self).running,
            old(self).keeps_done(&*final(self)),
            forall|t: int|
                0 <= t < old(self).n() && #[trigger] final(self).states@[t] != old(self).states@[t] ==> old(
                    self,
                ).states@[t] is Pending && final(self).states@[t] == NodeState::Done(Outcome::Blocked),
            r matches Some(t) ==> t < final(self).n() && final(self).states@[t as int] is Pending
                && deps_satisfied(final(self).graph, final(self).states@, t as int),
            r is None ==> forall|t: int|
                0 <= t < final(self).n() && #[trigger] final(self).states@[t] is Pending ==> dep_unfinished(final(self).graph,
                    final(self).states@,
                    t,
                ) && !dep_blocking(final(self).graph, final(self).states@, t),
    {
        let ghost start = *self;
        let n = self.graph.order.len();
        let mut p: usize = 0;
        while p < n
            invariant
                self.wf(),
                n == self.n(),
                p <= n,
                !self.in_bootstrap,
                start == *old(self),
                same_setup(start, *self),
                self.next_boot == start.next_boot,
                self.in_bootstrap == start.in_bootstrap,
                self.aborted == start.aborted,
                self.running == start.running,
                start.keeps_done(&*self),
                forall|t: int|
                    0 <= t < n && #[trigger] self.states@[t] != start.states@[t] ==> start.states@[t] is Pending
                        && self.states@[t] == NodeState::Done(Outcome::Blocked),
                forall|q: int|
                    0 <= q < p ==> (self.states@[#[trigger] self.graph.order@[q] as int] is Pending ==> dep_unfinished(
                        self.graph,
                        self.states@,
                        self.graph.order@[q] as int,
                    ) && !dep_blocking(self.graph, self.states@, self.graph.order@[q] as int)),
            decreases n - p,
        {
            let t = self.graph.order[p];
            assert(self.graph.rank@[t as int] == p);
            if let NodeState::Pending = self.states[t] {
                match self.dep_check(t) {
                    DepCheck::Blocked => {
                        let ghost before = *self;
                        self.states.set(t, NodeState::Done(Outcome::Blocked));
                        proof {
                            lemma_block_keeps_wf(before, *self, t as int);
                            assert forall|q: int|
                                0 <= q < p + 1 && self.states@[#[trigger] self.graph.order@[q] as int] is Pending implies dep_unfinished(
                                    self.graph,
                                    self.states@,
                                    self.graph.order@[q] as int,
                                ) && !dep_blocking(self.graph, self.states@, self.graph.order@[q] as int) by {
                                let t2 = self.graph.order@[q] as int;
                                if q < p {
                                    assert(self.graph.rank@[t2] == q);
                                    assert(before.graph.order@[q] as int == t2);
                                    assert(t2 != t);
                                    assert(self.states@[t2] == before.states@[t2]);
                                    assert(self.states@ == before.states@.update(t as int, NodeState::Done(Outcome::Blocked)));
                                    lemma_update_elsewhere(before, before.states@, t as int, NodeState::Done(Outcome::Blocked), t2);
                                } else {
                                    assert(t2 == t);
                                }
                            }
                        }
                    },
                    DepCheck::Ready => {
                        return Some(t);
                    },
                    DepCheck::Unfinished => {},
                }
            }
            p += 1;
        }
        proof {
            assert forall|t: int|
                0 <= t < n && #[trigger] self.states@[t] is Pending implies dep_unfinished(self.graph, self.states@, t)
                    && !dep_blocking(self.graph, self.states@, t) by {
                let q = self.graph.rank@[t] as int;
                assert(self.graph.order@[q] == t);
            }
        }
        None
    }
}

/// Starting a pending task keeps the scheduler well formed: in the
/// bootstrap phase the next bootstrap entry with nothing else running, in
/// the parallel phase a task whose dependencies all passed or were skipped.
proof fn lemma_start_keeps_wf(s: Scheduler, later: Scheduler, t: int)
    requires
        s.wf(),
        same_setup(s, later),
        later.in_bootstrap == s.in_bootstrap,
        later.aborted == s.aborted,
        0 <= t < s.n(),
        s.states@[t] is Pending,
        s.running < s.limit,
        later.running == s.running + 1,
        later.states@ == s.states@.update(t, NodeState::Running),
        later.next_boot == s.next_boot,
        s.in_bootstrap ==> s.running == 0 && s.next_boot < s.bootstrap@.len() && s.bootstrap@[s.next_boot as int] == t,
        !s.in_bootstrap ==> deps_satisfied(s.graph, s.states@, t),
    ensures
        later.wf(),
{
    let a = s.states@;
    let b = later.states@;
    lemma_count_update(a, t, NodeState::Running);
    if s.in_bootstrap {
        assert(in_list(s.bootstrap@, t));
    }
    assert forall|j: int| 0 <= j < later.next_boot implies !(b[#[trigger] later.bootstrap@[j] as int] is Pending) by {
        assert(!(a[s.bootstrap@[j] as int] is Pending));
    }
    assert forall|j: int| 0 <= j < later.bootstrap@.len() && !later.in_bootstrap implies !(b[#[trigger] later.bootstrap@[j] as int] is Pending) by {
        assert(!(a[s.bootstrap@[j] as int] is Pending));
    }
    assert forall|x: int|
        0 <= x < later.n() && #[trigger] b[x] == NodeState::Done(Outcome::Blocked) implies !in_list(later.bootstrap@, x)
            && dep_blocking(later.graph, b, x) by {
        assert(x != t);
        assert(a[x] == b[x]);
        let k = choose|k: int| 0 <= k < s.graph.deps@[x]@.len() && blocking(a[#[trigger] dep_of(s.graph, x, k)]);
        assert(blocking(b[dep_of(s.graph, x, k)]));
    }
    assert forall|x: int|
        0 <= x < later.n() && !(#[trigger] b[x] is Pending) && b[x] != NodeState::Done(Outcome::Blocked)
            && !in_list(later.bootstrap@, x) implies deps_satisfied(later.graph, b, x) by {
        if x == t {
            lemma_update_elsewhere(s, a, t, NodeState::Running, t);
        } else {
            assert(a[x] == b[x]);
            assert(deps_satisfied(s.graph, a, x));
            assert forall|k: int| 0 <= k < s.graph.deps@[x]@.len() implies satisfied(b[#[trigger] dep_of(s.graph, x, k)]) by {
                assert(satisfied(a[dep_of(s.graph, x, k)]));
            }
        }
    }
}

/// Recording the end of a running task keeps the scheduler well formed.
proof fn lemma_complete_keeps_wf(s: Scheduler, later: Scheduler, t: int, o: Outcome)
    requires
        s.wf(),
        same_setup(s, later),
        later.in_bootstrap == s.in_bootstrap,
        later.next_boot == s.next_boot,
        later.aborted == (s.aborted || (s.in_bootstrap && o == Outcome::Failed && !s.keep_going)),
        0 <= t < s.n(),
        s.states@[t] is Running,
        o != Outcome::Blocked,
        later.running + 1 == s.running,
        later.states@ == s.states@.update(t, NodeState::Done(o)),
    ensures
        later.wf(),
{
    let a = s.states@;
    let b = later.states@;
    lemma_count_update(a, t, NodeState::Done(o));
    assert forall|j: int| 0 <= j < later.next_boot implies !(b[#[trigger] later.bootstrap@[j] as int] is Pending) by {
        assert(!(a[s.bootstrap@[j] as int] is Pending));
    }
    assert forall|j: int| 0 <= j < later.bootstrap@.len() && !later.in_bootstrap implies !(b[#[trigger] later.bootstrap@[j] as int] is Pending) by {
        assert(!(a[s.bootstrap@[j] as int] is Pending));
    }
    assert forall|x: int|
        0 <= x < later.n() && #[trigger] b[x] == NodeState::Done(Outcome::Blocked) implies !in_list(later.bootstrap@, x)
            && dep_blocking(later.graph, b, x) by {
        assert(x != t);
        assert(a[x] == b[x]);
        let k = choose|k: int| 0 <= k < s.graph.deps@[x]@.len() && blocking(a[#[trigger] dep_of(s.graph, x, k)]);
        assert(blocking(b[dep_of(s.graph, x, k)]));
    }
    assert forall|x: int|
        0 <= x < later.n() && !(#[trigger] b[x] is Pending) && b[x] != NodeState::Done(Outcome::Blocked)
            && !in_list(later.bootstrap@, x) implies deps_satisfied(later.graph, b, x) by {
        if x == t {
            assert(deps_satisfied(s.graph, a, t));
            lemma_update_elsewhere(s, a, t, NodeState::Done(o), t);
        } else {
            assert(a[x] == b[x]);
            assert(deps_satisfied(s.graph, a, x));
            assert forall|k: int| 0 <= k < s.graph.deps@[x]@.len() implies satisfied(b[#[trigger] dep_of(s.graph, x, k)]) by {
                assert(satisfied(a[dep_of(s.graph, x, k)]));
            }
        }
    }
}

impl Scheduler {
    fn start(&mut self, t: usize)
        requires
            old(self).wf(),
            t < old(self).n(),
            old(self).states@[t as int] is Pending,
            old(self).running < old(self).limit,
            old(self).in_bootstrap ==> old(self).running == 0 && old(self).next_boot < old(self).bootstrap@.len()
                && old(self).bootstrap@[old(self).next_boot as int] == t,
            !old(self).in_bootstrap ==> deps_satisfied(old(self).graph, old(self).states@, t as int),
        ensures
            final(self).wf(),
            same_setup(*old(self), *final(self)),
            final(self).in_bootstrap == old(self).in_bootstrap,
            final(self).aborted == old(self).aborted,
            final(self).next_boot == old(self).next_boot,
            final(self).running == old(self).running + 1,
            final(self).states@ == old(self).states@.update(t as int, NodeState::Running),
    {
        let ghost before = *self;
        proof {
            lemma_count_bound(self.states@);
        }
        self.states.set(t, NodeState::Running);
        self.running = self.running + 1;
        proof {
            lemma_start_keeps_wf(before, *self, t as int);
        }
    }

    /// Decides what happens next. In the bootstrap phase the bootstrap
    /// tasks start one at a time, in order; after a failure there, unless
    /// `keep_going` is set, nothing more starts. In the parallel phase a
    /// task starts only once all its dependencies passed or were skipped,
    /// and a task with a failed or blocked dependency is marked blocked
    /// without starting.
    pub fn next_step(&mut self) -> (r: Step)
        requires
            old(self).wf(),
        ensures
            final(self).wf(),
            same_setup(*old(self), *final(self)),
            old(self).keeps_done(&*final(self)),
            forall|t: int|
                0 <= t < old(self).n() && #[trigger] final(self).states@[t] != old(self).states@[t] ==> old(
                    self,
                ).states@[t] is Pending && (final(self).states@[t] == NodeState::Done(Outcome::Blocked)
                    || r == Step::Start(t as usize)),
            r matches Step::Start(t) ==> t < final(self).n() && old(self).states@[t as int] is Pending
                && final(self).states@[t as int] is Running && final(self).running == old(self).running + 1,
            r matches Step::Start(t) ==> (final(self).in_bootstrap ==> in_list(final(self).bootstrap@, t as int)
                && old(self).running == 0),
            r matches Step::Start(t) ==> (final(self).in_bootstrap ==> old(self).next_boot < final(self).next_boot
                && final(self).bootstrap@[final(self).next_boot - 1] == t && forall|j: int|
                old(self).next_boot <= j < final(self).next_boot - 1 ==> !(old(self).states@[#[trigger] old(
                    self,
                ).bootstrap@[j] as int] is Pending)),
            r matches Step::Start(t) ==> (!final(self).in_bootstrap ==> deps_satisfied(
                final(self).graph,
                final(self).states@,
                t as int,
            )),
            old(self).aborted ==> final(self).aborted && !(r is Start),
            !old(self).in_bootstrap ==> !final(self).in_bootstrap,
            final(self).aborted == old(self).aborted,
            r is Wait ==> final(self).running > 0,
            r is Finished ==> final(self).running == 0 && (!final(self).aborted ==> final(self).all_done()),
    {
        if self.in_bootstrap {
            if self.running > 0 {
                return Step::Wait;
            }
            if self.aborted {
                return Step::Finished;
            }
            loop
                invariant
                    self.wf(),
                    self.in_bootstrap,
                    !self.aborted,
                    self.running == 0,
                    old(self).running == 0,
                    old(self).in_bootstrap,
                    same_setup(*old(self), *self),
                    self.states == old(self).states,
                    self.aborted == old(self).aborted,
                    old(self).next_boot <= self.next_boot,
                    forall|j: int|
                        old(self).next_boot <= j < self.next_boot ==> !(self.states@[#[trigger] self.bootstrap@[j] as int] is Pending),
                ensures
                    self.wf(),
                    self.in_bootstrap,
                    !self.aborted,
                    self.running == 0,
                    old(self).running == 0,
                    same_setup(*old(self), *self),
                    self.states == old(self).states,
                    self.aborted == old(self).aborted,
                    self.next_boot >= self.bootstrap@.len(),
                decreases self.bootstrap@.len() - self.next_boot,
            {
                if self.next_boot >= self.bootstrap.len() {
                    break;
                }
                let t = self.bootstrap[self.next_boot];
                if let NodeState::Pending = self.states[t] {
                    let ghost j = self.next_boot as int;
                    self.start(t);
                    self.next_boot = self.next_boot + 1;
                    proof {
                        assert(self.bootstrap@[j] == t);
                        assert forall|i: int| 0 <= i < self.next_boot implies !(self.states@[#[trigger] self.bootstrap@[i] as int] is Pending) by {
                            if i < j {
                                assert(!(old(self).states@[old(self).bootstrap@[i] as int] is Pending));
                            }
                        }
                    }
                    return Step::Start(t);
                }
                self.next_boot = self.next_boot + 1;
            }
            self.in_bootstrap = false;
            proof {
                assert forall|j: int| 0 <= j < self.bootstrap@.len() implies !(self.states@[#[trigger] self.bootstrap@[j] as int] is Pending) by {
                    assert(j < self.next_boot);
                }
            }
        }
        if self.aborted {
            return if self.running > 0 {
                Step::Wait
            } else {
                Step::Finished
            };
        }
        if self.running >= self.limit {
            return Step::Wait;
        }
        let ghost before_scan = *self;
        match self.scan() {
            Some(t) => {
                self.start(t);
                Step::Start(t)
            },
            None => {
                if self.running == 0 {
                    proof {
                        lemma_count_zero(self.states@);
                        lemma_nothing_pending(*self, self.n());
                        assert forall|t: int| 0 <= t < self.n() implies #[trigger] self.states@[t] is Done by {
                            assert(self.graph.rank@[t] < self.n());
                        }
                    }
                    Step::Finished
                } else {
                    Step::Wait
                }
            },
        }
    }

    /// Records how the running task `t` ended. A failure in the bootstrap
    /// phase stops the run unless `keep_going` is set.
    pub fn complete(&mut self, t: usize, outcome: Outcome)
        requires
            old(self).wf(),
            t < old(self).n(),
            old(self).states@[t as int] is Running,
            outcome != Outcome::Blocked,
        ensures
            final(self).wf(),
            same_setup(*old(self), *final(self)),
            final(self).states@ == old(self).states@.update(t as int, NodeState::Done(outcome)),
            final(self).running + 1 == old(self).running,
            final(self).in_bootstrap == old(self).in_bootstrap,
            final(self).aborted == (old(self).aborted || (old(self).in_bootstrap && outcome == Outcome::Failed
                && !old(self).keep_going)),
    {
        let ghost before = *self;
        proof {
            lemma_count_update(self.states@, t as int, NodeState::Done(outcome));
        }
        self.states.set(t, NodeState::Done(outcome));
        self.running = self.running - 1;
        if self.in_bootstrap && !self.keep_going {
            if let Outcome::Failed = outcome {
                self.aborted = true;
            }
        }
        proof {
            lemma_complete_keeps_wf(before, *self, t as int, outcome);
        }
    }

    /// Whether the run failed: a bootstrap failure stopped it, or a task
    /// failed while `keep_going` is off.
    pub fn run_failed(&self) -> (r: bool)
        requires
            self.wf(),
        ensures
            r == self.failed_spec(),
    {
        if self.aborted {
            return true;
        }
        if self.keep_going {
            return false;
        }
        let mut t: usize = 0;
        while t < self.states.len()
            invariant
                self.wf(),
                !self.aborted,
                !self.keep_going,
                t <= self.states@.len(),
                forall|x: int| 0 <= x < t ==> #[trigger] self.states@[x] != NodeState::Done(Outcome::Failed),
            decreases self.states@.len() - t,
        {
            if let NodeState::Done(Outcome::Failed) = self.states[t] {
                assert(self.states@[t as int] == NodeState::Done(Outcome::Failed));
                return true;
            }
            t += 1;
        }
        false
    }
}

/// The task ran and ended with this state (it was not blocked).
pub open spec fn ran(s: NodeState) -> bool {
    s is Done && s != NodeState::Done(Outcome::Blocked)
}

/// A task outside the bootstrap list that has started had every
/// dependency passed or skipped: no such task starts before all its
/// dependencies have reached a terminal state.
pub proof fn started_after_dependencies(s: Scheduler, t: int)
    requires
        s.wf(),
        0 <= t < s.n(),
        !(s.states@[t] is Pending),
        s.states@[t] != NodeState::Done(Outcome::Blocked),
        !in_list(s.bootstrap@, t),
    ensures
        forall|k: int|
            0 <= k < s.graph.deps@[t]@.len() ==> #[trigger] s.states@[dep_of(s.graph, t, k)] is Done,
{
    assert forall|k: int| 0 <= k < s.graph.deps@[t]@.len() implies #[trigger] s.states@[dep_of(s.graph, t, k)] is Done by {
        assert(satisfied(s.states@[dep_of(s.graph, t, k)]));
    }
}

/// A bootstrap task that fails while `keep_going` is off stops the run:
/// `complete` then sets `aborted`, from which `next_step` starts no task,
/// and the run counts as failed.
pub proof fn bootstrap_failure_fails_the_run(s: Scheduler, later: Scheduler, outcome: Outcome)
    requires
        s.wf(),
        s.in_bootstrap,
        !s.keep_going,
        outcome == Outcome::Failed,
        same_setup(s, later),
        later.aborted == (s.aborted || (s.in_bootstrap && outcome == Outcome::Failed && !s.keep_going)),
    ensures
        later.aborted,
        later.failed_spec(),
{
}

/// With `keep_going` set the run is never stopped, so when the scheduler
/// says `Finished` every task has exactly one terminal state.
pub proof fn keep_going_finishes_every_task(s: Scheduler)
    requires
        s.wf(),
        s.keep_going,
    ensures
        !s.aborted,
{
}

/// Two finished runs over the same graph and bootstrap list, in which every
/// task that ran in both ended the same way, leave every task in the same
/// state, whatever order the tasks ran in; in particular they skip the
/// same tasks.
pub proof fn same_outcomes_same_states(a: Scheduler, b: Scheduler)
    requires
        a.wf(),
        b.wf(),
        a.graph == b.graph,
        a.bootstrap == b.bootstrap,
        a.all_done(),
        b.all_done(),
        forall|t: int| 0 <= t < a.n() && ran(#[trigger] a.states@[t]) && ran(b.states@[t]) ==> a.states@[t] == b.states@[t],
    ensures
        a.states@ == b.states@,
{
    lemma_states_agree_below(a, b, a.n());
    assert forall|t: int| 0 <= t < a.n() implies a.states@[t] == b.states@[t] by {
        assert(a.graph.rank@[t] < a.n());
    }
    assert(a.states@ =~= b.states@);
}

proof fn lemma_states_agree_below(a: Scheduler, b: Scheduler, r: int)
    requires
        a.wf(),
        b.wf(),
        a.graph == b.graph,
        a.bootstrap == b.bootstrap,
        a.all_done(),
        b.all_done(),
        forall|t: int| 0 <= t < a.n() && ran(#[trigger] a.states@[t]) && ran(b.states@[t]) ==> a.states@[t] == b.states@[t],
        0 <= r <= a.n(),
    ensures
        forall|t: int| 0 <= t < a.n() && a.graph.rank@[t] < r ==> #[trigger] a.states@[t] == b.states@[t],
    decreases r,
{
    if r > 0 {
        lemma_states_agree_below(a, b, r - 1);
        assert forall|t: int| 0 <= t < a.n() && a.graph.rank@[t] < r implies #[trigger] a.states@[t] == b.states@[t] by {
            if a.graph.rank@[t] == r - 1 {
                assert forall|k: int| 0 <= k < a.graph.deps@[t]@.len() implies a.states@[#[trigger] dep_of(a.graph, t, k)] == b.states@[dep_of(a.graph, t, k)] by {
                    assert(a.graph.rank@[dep_of(a.graph, t, k)] < a.graph.rank@[t]);
                }
                lemma_deps_frame(a, a.states@, b.states@, t);
                assert(a.states@[t] is Done);
                assert(b.states@[t] is Done);
                if a.states@[t] == NodeState::Done(Outcome::Blocked) && ran(b.states@[t]) {
                    assert(dep_blocking(a.graph, a.states@, t));
                    assert(deps_satisfied(b.graph, b.states@, t));
                    let k = choose|k: int| 0 <= k < a.graph.deps@[t]@.len() && blocking(b.states@[#[trigger] dep_of(a.graph, t, k)]);
                    assert(satisfied(b.states@[dep_of(a.graph, t, k)]));
                }
                if b.states@[t] == NodeState::Done(Outcome::Blocked) && ran(a.states@[t]) {
                    assert(dep_blocking(b.graph, b.states@, t));
                    assert(deps_satisfied(a.graph, a.states@, t));
                    let k = choose|k: int| 0 <= k < a.graph.deps@[t]@.len() && blocking(a.states@[#[trigger] dep_of(a.graph, t, k)]);
                    assert(satisfied(a.states@[dep_of(a.graph, t, k)]));
                }
            }
        }
    }
}

} // verus!
