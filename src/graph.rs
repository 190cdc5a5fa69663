//! The dependency graph over the tasks eligible for a run: references are
//! resolved to node indices, and the nodes are put in an order in which
//! every task comes after the tasks it depends on.
use vstd::prelude::*;
use vstd::set_lib::{lemma_int_range, lemma_len_subset, set_int_range};

use crate::error::ConfigError;
use crate::names::{contains_name, has_name, position_of};
use crate::select::{eligible_spec, eligible_tasks};
use crate::task::Task;

verus! {

/// No two tasks share a name.
pub open spec fn names_unique(tasks: Seq<Task>) -> bool {
    forall|i: int, j: int|
        0 <= i < j < tasks.len() ==> #[trigger] tasks[i].name@ != #[trigger] tasks[j].name@
}

/// `eligible` holds strictly increasing indices into `tasks`.
pub open spec fn valid_selection(tasks: Seq<Task>, eligible: Seq<usize>) -> bool {
    &&& forall|t: int| 0 <= t < eligible.len() ==> #[trigger] eligible[t] < tasks.len()
    &&& forall|t: int, u: int| 0 <= t < u < eligible.len() ==> eligible[t] < eligible[u]
}

/// The name of node `t`.
pub open spec fn node_name(tasks: Seq<Task>, eligible: Seq<usize>, t: int) -> Seq<char> {
    tasks[eligible[t] as int].name@
}

/// The dependencies declared by node `t`.
pub open spec fn node_requires(tasks: Seq<Task>, eligible: Seq<usize>, t: int) -> Seq<String> {
    tasks[eligible[t] as int].requires_spec()
}

/// Whether some node is named `name`.
pub open spec fn is_node_name(tasks: Seq<Task>, eligible: Seq<usize>, name: Seq<char>) -> bool {
    exists|u: int| 0 <= u < eligible.len() && #[trigger] node_name(tasks, eligible, u) == name
}

/// Whether some task at all is named `name`.
pub open spec fn is_task_name(tasks: Seq<Task>, name: Seq<char>) -> bool {
    exists|i: int| 0 <= i < tasks.len() && #[trigger] tasks[i].name@ == name
}

/// Every dependency of every node names a node.
pub open spec fn references_resolve(tasks: Seq<Task>, eligible: Seq<usize>) -> bool {
    forall|t: int, k: int|
        0 <= t < eligible.len() && 0 <= k < node_requires(tasks, eligible, t).len()
            ==> is_node_name(tasks, eligible, #[trigger] node_requires(tasks, eligible, t)[k]@)
}

/// Node `t` declares a dependency on node `u`.
pub open spec fn depends_on(tasks: Seq<Task>, eligible: Seq<usize>, t: int, u: int) -> bool {
    has_name(node_requires(tasks, eligible, t), node_name(tasks, eligible, u))
}

/// The position after `q` in a cyclic sequence of length `len`.
pub open spec fn next_index(len: nat, q: int) -> int {
    if q + 1 < len {
        q + 1
    } else {
        0
    }
}

/// `c` is a cycle of nodes: each member depends on the next, and the last
/// on the first.
pub open spec fn is_cycle(tasks: Seq<Task>, eligible: Seq<usize>, c: Seq<int>) -> bool {
    &&& c.len() > 0
    &&& forall|q: int| 0 <= q < c.len() ==> 0 <= #[trigger] c[q] < eligible.len()
    &&& forall|q: int|
        0 <= q < c.len() ==> depends_on(tasks, eligible, #[trigger] c[q], c[next_index(c.len(), q)])
}

/// Whether the dependencies among the nodes form a cycle.
pub open spec fn has_cycle(tasks: Seq<Task>, eligible: Seq<usize>) -> bool {
    exists|c: Seq<int>| is_cycle(tasks, eligible, c)
}

/// Dependency graph over the eligible tasks. Node `t` stands for task
/// `tasks[t]` of the full list.
pub struct TaskGraph {
    /// Name of each node.
    pub names: Vec<String>,
    /// Index of each node in the full task list.
    pub tasks: Vec<usize>,
    /// Nodes that each node depends on.
    pub deps: Vec<Vec<usize>>,
    /// The nodes in an order where dependencies come first.
    pub order: Vec<usize>,
    /// Position of each node in `order`.
    pub rank: Vec<usize>,
}

impl TaskGraph {
    /// Sizes agree, edges point to nodes of lower rank, and `order` and
    /// `rank` are inverse permutations.
    pub open spec fn wf(&self) -> bool {
        let n = self.names.len();
        &&& self.tasks.len() == n
        &&& self.deps.len() == n
        &&& self.order.len() == n
        &&& self.rank.len() == n
        &&& forall|t: int, k: int|
            0 <= t < n && 0 <= k < self.deps@[t].len() ==> {
                &&& #[trigger] self.deps@[t]@[k] < n
                &&& self.rank@[self.deps@[t]@[k] as int] < self.rank@[t]
            }
        &&& forall|p: int|
            0 <= p < n ==> #[trigger] self.order@[p] < n && self.rank@[self.order@[p] as int] == p
        &&& forall|t: int| 0 <= t < n ==> #[trigger] self.rank@[t] < n && self.order@[self.rank@[t] as int] == t
    }

    /// Node `t` depends on node `u`.
    pub open spec fn edge(&self, t: int, u: int) -> bool {
        exists|k: int| 0 <= k < self.deps@[t].len() && #[trigger] self.deps@[t]@[k] == u
    }

    /// The graph is the one that `tasks` and `eligible` declare.
    pub open spec fn built_from(&self, tasks: Seq<Task>, eligible: Seq<usize>) -> bool {
        &&& self.tasks@ == eligible
        &&& self.names.len() == eligible.len()
        &&& forall|t: int|
            0 <= t < eligible.len() ==> #[trigger] self.names@[t]@ == node_name(tasks, eligible, t)
        &&& forall|t: int, u: int|
            0 <= t < eligible.len() && 0 <= u < eligible.len() ==> (#[trigger] self.edge(t, u)
                <==> depends_on(tasks, eligible, t, u))
    }
}

/// A sequence of distinct values below `n` has at most `n` members.
proof fn lemma_distinct_bounded(s: Seq<usize>, n: usize)
    requires
        forall|p: int, q: int| 0 <= p < q < s.len() ==> s[p] != s[q],
        forall|p: int| 0 <= p < s.len() ==> s[p] < n,
    ensures
        s.len() <= n,
{
    let si = s.map_values(|x: usize| x as int);
    assert(si.no_duplicates()) by {
        assert forall|p: int, q: int| 0 <= p < si.len() && 0 <= q < si.len() && p != q implies si[p]
            != si[q] by {
            if p < q {
                assert(s[p] != s[q]);
            } else {
                assert(s[q] != s[p]);
            }
        }
    }
    si.unique_seq_to_set();
    lemma_int_range(0, n as int);
    assert(si.to_set().subset_of(set_int_range(0, n as int))) by {
        assert forall|x: int| si.to_set().contains(x) implies set_int_range(0, n as int).contains(
            x,
        ) by {
            let p = choose|p: int| 0 <= p < si.len() && si[p] == x;
            assert(s[p] < n);
        }
    }
    lemma_len_subset(si.to_set(), set_int_range(0, n as int));
}

/// `n` copies of `v`.
fn repeat_usize(v: usize, n: usize) -> (r: Vec<usize>)
    ensures
        r@.len() == n,
        forall|i: int| 0 <= i < n ==> #[trigger] r@[i] == v,
{
    let mut r: Vec<usize> = Vec::new();
    while r.len() < n
        invariant
            r@.len() <= n,
            forall|i: int| 0 <= i < r@.len() ==> #[trigger] r@[i] == v,
        decreases n - r@.len(),
    {
        r.push(v);
    }
    r
}

/// `n` copies of `false`.
fn all_false(n: usize) -> (r: Vec<bool>)
    ensures
        r@.len() == n,
        forall|i: int| 0 <= i < n ==> !#[trigger] r@[i],
{
    let mut r: Vec<bool> = Vec::new();
    while r.len() < n
        invariant
            r@.len() <= n,
            forall|i: int| 0 <= i < r@.len() ==> !#[trigger] r@[i],
        decreases n - r@.len(),
    {
        r.push(false);
    }
    r
}

/// Edges given as index lists point below `n`.
pub open spec fn edges_bounded(deps: Seq<Vec<usize>>, n: nat) -> bool {
    &&& deps.len() == n
    &&& forall|t: int, k: int|
        0 <= t < n && 0 <= k < deps[t]@.len() ==> #[trigger] deps[t]@[k] < n
}

/// `u` is among the dependencies of `t`.
pub open spec fn edge_in(deps: Seq<Vec<usize>>, t: int, u: int) -> bool {
    exists|k: int| 0 <= k < deps[t]@.len() && #[trigger] deps[t]@[k] == u
}

/// `c` is a cycle along the edges `deps`.
pub open spec fn edge_cycle(deps: Seq<Vec<usize>>, c: Seq<usize>) -> bool {
    &&& c.len() > 0
    &&& forall|q: int| 0 <= q < c.len() ==> #[trigger] c[q] < deps.len()
    &&& forall|q: int|
        0 <= q < c.len() ==> edge_in(deps, #[trigger] c[q] as int, c[next_index(c.len(), q)] as int)
}

/// The name of the first task that shares its name with an earlier one.
pub fn find_duplicate(tasks: &Vec<Task>) -> (r: Option<String>)
    ensures
        r is None <==> names_unique(tasks@),
        r matches Some(n) ==> exists|i: int, j: int|
            0 <= i < j < tasks.len() && tasks@[i].name@ == n@ && tasks@[j].name@ == n@,
{
    let mut j: usize = 0;
    while j < tasks.len()
        invariant
            j <= tasks.len(),
            forall|a: int, b: int|
                0 <= a < b < j ==> #[trigger] tasks@[a].name@ != #[trigger] tasks@[b].name@,
        decreases tasks.len() - j,
    {
        let mut i: usize = 0;
        while i < j
            invariant
                i <= j < tasks.len(),
                forall|a: int| 0 <= a < i ==> #[trigger] tasks@[a].name@ != tasks@[j as int].name@,
            decreases j - i,
        {
            if tasks[i].name == tasks[j].name {
                return Some(tasks[j].name.clone());
            }
            i += 1;
        }
        j += 1;
    }
    None
}

/// Node `p` of a cycle search: the dependency of `cur` that is not placed.
fn unplaced_dependency(deps: &Vec<Vec<usize>>, placed: &Vec<bool>, cur: usize) -> (r: usize)
    requires
        cur < deps.len(),
        placed.len() == deps.len(),
        edges_bounded(deps@, deps.len() as nat),
        exists|k: int| 0 <= k < deps@[cur as int]@.len() && !placed@[#[trigger] deps@[cur as int]@[k] as int],
    ensures
        edge_in(deps@, cur as int, r as int),
        r < deps.len(),
        !placed@[r as int],
{
    let ds = &deps[cur];
    let mut k: usize = 0;
    while k < ds.len()
        invariant
            k <= ds.len(),
            cur < deps.len(),
            placed.len() == deps.len(),
            edges_bounded(deps@, deps.len() as nat),
            ds@ == deps@[cur as int]@,
            forall|j: int| 0 <= j < k ==> placed@[#[trigger] ds@[j] as int],
        decreases ds.len() - k,
    {
        assert(ds@[k as int] < deps.len());
        if !placed[ds[k]] {
            return ds[k];
        }
        k += 1;
    }
    proof {
        let k2 = choose|k2: int| 0 <= k2 < deps@[cur as int]@.len() && !placed@[#[trigger] deps@[cur as int]@[k2] as int];
        assert(placed@[ds@[k2] as int]);
    }
    ds[0]
}

/// The members of `path` from position `from` on.
fn tail_from(path: &Vec<usize>, from: usize) -> (c: Vec<usize>)
    requires
        from < path.len(),
    ensures
        c@ == path@.subrange(from as int, path@.len() as int),
{
    let mut c: Vec<usize> = Vec::new();
    let mut q: usize = from;
    while q < path.len()
        invariant
            from <= q <= path.len(),
            c@ == path@.subrange(from as int, q as int),
        decreases path.len() - q,
    {
        c.push(path[q]);
        q += 1;
        assert(c@ =~= path@.subrange(from as int, q as int));
    }
    c
}

/// A walk whose last node has an edge back to the node at `from` closes
/// the cycle that starts there.
proof fn lemma_closed_walk(deps: Seq<Vec<usize>>, path: Seq<usize>, from: int, c: Seq<usize>)
    requires
        0 <= from < path.len(),
        c == path.subrange(from, path.len() as int),
        forall|p: int| 0 <= p < path.len() ==> #[trigger] path[p] < deps.len(),
        forall|q: int| 0 <= q < path.len() - 1 ==> edge_in(deps, #[trigger] path[q] as int, path[q + 1] as int),
        edge_in(deps, path[path.len() - 1] as int, path[from] as int),
    ensures
        edge_cycle(deps, c),
{
    assert forall|qq: int| 0 <= qq < c.len() implies edge_in(deps, #[trigger] c[qq] as int, c[next_index(c.len(), qq)] as int) by {
        if qq + 1 < c.len() {
            assert(c[qq] == path[from + qq]);
            assert(c[qq + 1] == path[from + qq + 1]);
        } else {
            assert(c[qq] == path[path.len() - 1]);
            assert(c[0] == path[from]);
        }
    }
    assert forall|q: int| 0 <= q < c.len() implies #[trigger] c[q] < deps.len() by {
        assert(c[q] == path[from + q]);
    }
}

/// A walk of distinct nodes below `n` can take one more new node only while
/// it is shorter than `n`.
proof fn lemma_walk_grows(path: Seq<usize>, at: Seq<usize>, d: usize, n: usize)
    requires
        at.len() == n,
        d < n,
        path.len() <= n,
        at[d as int] == n,
        forall|p: int| 0 <= p < path.len() ==> #[trigger] path[p] < n,
        forall|p: int| 0 <= p < path.len() ==> at[#[trigger] path[p] as int] == p,
    ensures
        path.len() + 1 <= n,
{
    let s = path.push(d);
    assert forall|p: int, q: int| 0 <= p < q < s.len() implies s[p] != s[q] by {
        assert(s[p] == path[p]);
        assert(at[path[p] as int] == p);
        if q < path.len() {
            assert(s[q] == path[q]);
            assert(at[path[q] as int] == q);
        } else {
            assert(s[q] == d);
            assert(p < n);
        }
    }
    assert forall|p: int| 0 <= p < s.len() implies s[p] < n by {
        if p < path.len() {
            assert(s[p] == path[p]);
        }
    }
    lemma_distinct_bounded(s, n);
}

/// Follows unplaced dependencies from `start` until a node repeats, and
/// returns the nodes of the cycle so found, in the order walked.
fn find_cycle(deps: &Vec<Vec<usize>>, placed: &Vec<bool>, start: usize) -> (r: Vec<usize>)
    requires
        start < deps.len(),
        placed.len() == deps.len(),
        edges_bounded(deps@, deps.len() as nat),
        !placed@[start as int],
        forall|t: int|
            0 <= t < deps.len() && !#[trigger] placed@[t] ==> exists|k: int|
                0 <= k < deps@[t]@.len() && !placed@[#[trigger] deps@[t]@[k] as int],
    ensures
        edge_cycle(deps@, r@),
{
    let n = deps.len();
    let mut path: Vec<usize> = Vec::new();
    path.push(start);
    let mut at = repeat_usize(n, n);
    at.set(start, 0);
    loop
        invariant
            n == deps.len(),
            at.len() == n,
            path.len() <= n,
            placed.len() == n,
            edges_bounded(deps@, deps.len() as nat),
            forall|t: int|
                0 <= t < deps.len() && !#[trigger] placed@[t] ==> exists|k: int|
                    0 <= k < deps@[t]@.len() && !placed@[#[trigger] deps@[t]@[k] as int],
            path.len() > 0,
            forall|p: int| 0 <= p < path.len() ==> #[trigger] path@[p] < n && !placed@[path@[p] as int],
            forall|p: int| 0 <= p < path.len() ==> at@[#[trigger] path@[p] as int] == p,
            forall|x: int| 0 <= x < n ==> (#[trigger] at@[x] == n || (at@[x] < path.len() && path@[at@[x] as int] == x)),
            forall|q: int| 0 <= q < path.len() - 1 ==> edge_in(deps@, #[trigger] path@[q] as int, path@[q + 1] as int),
        decreases n - path.len(),
    {
        let cur = path[path.len() - 1];
        let d = unplaced_dependency(deps, placed, cur);
        if at[d] < n {
            let c = tail_from(&path, at[d]);
            proof {
                lemma_closed_walk(deps@, path@, at[d as int] as int, c@);
            }
            return c;
        }
        proof {
            lemma_walk_grows(path@, at@, d, n);
        }
        let ghost old_path = path@;
        path.push(d);
        at.set(d, path.len() - 1);
        proof {
            assert forall|q: int| 0 <= q < path.len() - 1 implies edge_in(deps@, #[trigger] path@[q] as int, path@[q + 1] as int) by {
                if q + 1 < old_path.len() {
                    assert(old_path[q] == path@[q]);
                    assert(old_path[q + 1] == path@[q + 1]);
                }
            }
            assert forall|p: int| 0 <= p < path.len() implies at@[#[trigger] path@[p] as int] == p by {
                if p < old_path.len() {
                    assert(old_path[p] != d);
                }
            }
        }
    }
}

/// An unplaced node whose dependencies are all placed, if any, and some
/// unplaced node, if any.
fn pick_ready(deps: &Vec<Vec<usize>>, placed: &Vec<bool>) -> (r: (Option<usize>, Option<usize>))
    requires
        placed.len() == deps.len(),
        edges_bounded(deps@, deps.len() as nat),
    ensures
        r.0 matches Some(t) ==> t < deps.len() && !placed@[t as int] && forall|k: int|
            0 <= k < deps@[t as int]@.len() ==> placed@[#[trigger] deps@[t as int]@[k] as int],
        r.0 is None ==> forall|t: int|
            0 <= t < deps.len() && !#[trigger] placed@[t] ==> exists|k: int|
                0 <= k < deps@[t]@.len() && !placed@[#[trigger] deps@[t]@[k] as int],
        r.1 matches Some(u) ==> u < deps.len() && !placed@[u as int],
        r.1 is None ==> forall|t: int| 0 <= t < deps.len() ==> #[trigger] placed@[t],
{
    let n = deps.len();
    let mut any: Option<usize> = None;
    let mut t: usize = 0;
    while t < n
        invariant
            t <= n,
            n == deps.len(),
            placed.len() == n,
            edges_bounded(deps@, deps.len() as nat),
            any matches Some(u) ==> u < n && !placed@[u as int],
            any is None ==> forall|x: int| 0 <= x < t ==> #[trigger] placed@[x],
            forall|x: int|
                0 <= x < t && !#[trigger] placed@[x] ==> exists|k: int|
                    0 <= k < deps@[x]@.len() && !placed@[#[trigger] deps@[x]@[k] as int],
        decreases n - t,
    {
        if !placed[t] {
            if any.is_none() {
                any = Some(t);
            }
            let ds = &deps[t];
            let mut k: usize = 0;
            let mut ready = true;
            while k < ds.len()
                invariant
                    k <= ds.len(),
                    t < n,
                    n == deps.len(),
                    placed.len() == n,
                    edges_bounded(deps@, deps.len() as nat),
                    ds@ == deps@[t as int]@,
                    ready ==> forall|j: int| 0 <= j < k ==> placed@[#[trigger] ds@[j] as int],
                    !ready ==> exists|j: int| 0 <= j < ds@.len() && !placed@[#[trigger] ds@[j] as int],
                decreases ds.len() - k,
            {
                assert(ds@[k as int] < n);
                if !placed[ds[k]] {
                    ready = false;
                }
                k += 1;
            }
            if ready {
                return (Some(t), any);
            }
        }
        t += 1;
    }
    (None, any)
}

/// A topological order of the nodes: `order` lists each node once, `rank`
/// is its inverse, and every node ranks above its dependencies.
pub open spec fn topological(deps: Seq<Vec<usize>>, order: Seq<usize>, rank: Seq<usize>) -> bool {
    let n = deps.len();
    &&& order.len() == n
    &&& rank.len() == n
    &&& forall|t: int, k: int|
        0 <= t < n && 0 <= k < deps[t]@.len() ==> rank[#[trigger] deps[t]@[k] as int] < rank[t]
    &&& forall|p: int| 0 <= p < n ==> #[trigger] order[p] < n && rank[order[p] as int] == p
    &&& forall|t: int| 0 <= t < n ==> #[trigger] rank[t] < n && order[rank[t] as int] == t
}

/// Orders the nodes so that dependencies come first, or returns a cycle.
pub fn topological_order(deps: &Vec<Vec<usize>>) -> (r: Result<(Vec<usize>, Vec<usize>), Vec<usize>>)
    requires
        edges_bounded(deps@, deps.len() as nat),
    ensures
        r matches Ok((order, rank)) ==> topological(deps@, order@, rank@),
        r matches Err(c) ==> edge_cycle(deps@, c@),
{
    let n = deps.len();
    let mut placed = all_false(n);
    let mut order: Vec<usize> = Vec::new();
    let mut rank = repeat_usize(0, n);
    loop
        invariant
            n == deps.len(),
            edges_bounded(deps@, deps.len() as nat),
            placed.len() == n,
            rank.len() == n,
            order.len() <= n,
            forall|p: int| 0 <= p < order.len() ==> #[trigger] order@[p] < n && placed@[order@[p] as int] && rank@[order@[p] as int] == p,
            forall|t: int| 0 <= t < n && #[trigger] placed@[t] ==> rank@[t] < order.len() && order@[rank@[t] as int] == t,
            forall|t: int, k: int|
                0 <= t < n && placed@[t] && 0 <= k < deps@[t]@.len() ==> placed@[#[trigger] deps@[t]@[k] as int] && rank@[deps@[t]@[k] as int] < rank@[t],
        decreases n - order.len(),
    {
        let (ready, any) = pick_ready(deps, &placed);
        match ready {
            Some(t) => {
                proof {
                    let s = order@.push(t);
                    assert forall|p: int, q: int| 0 <= p < q < s.len() implies s[p] != s[q] by {
                        assert(s[p] == order@[p]);
                        if q < order.len() {
                            assert(s[q] == order@[q]);
                        }
                    }
                    assert forall|p: int| 0 <= p < s.len() implies s[p] < n by {
                        if p < order.len() {
                            assert(s[p] == order@[p]);
                        }
                    }
                    lemma_distinct_bounded(s, n);
                }
                let ghost old_placed = placed@;
                let ghost old_rank = rank@;
                rank.set(t, order.len());
                order.push(t);
                placed.set(t, true);
                proof {
                    assert forall|x: int, k: int|
                        0 <= x < n && placed@[x] && 0 <= k < deps@[x]@.len() implies placed@[#[trigger] deps@[x]@[k] as int] && rank@[deps@[x]@[k] as int] < rank@[x] by {
                        if x == t {
                            assert(old_placed[deps@[x]@[k] as int]);
                        } else {
                            assert(old_placed[x]);
                            assert(old_placed[deps@[x]@[k] as int]);
                        }
                    }
                }
            },
            None => {
                match any {
                    None => {
                        proof {
                            let rs = rank@;
                            assert forall|p: int, q: int| 0 <= p < q < rs.len() implies rs[p] != rs[q] by {
                                assert(placed@[p]);
                                assert(placed@[q]);
                            }
                            assert forall|p: int| 0 <= p < rs.len() implies rs[p] < order.len() by {
                                assert(placed@[p]);
                            }
                            lemma_distinct_bounded(rs, order.len());
                        }
                        return Ok((order, rank));
                    },
                    Some(u) => {
                        return Err(find_cycle(deps, &placed, u));
                    },
                }
            },
        }
    }
}

/// Node names are distinct when task names are.
proof fn lemma_node_names_distinct(tasks: Seq<Task>, eligible: Seq<usize>, a: int, b: int)
    requires
        names_unique(tasks),
        valid_selection(tasks, eligible),
        0 <= a < eligible.len(),
        0 <= b < eligible.len(),
        a != b,
    ensures
        node_name(tasks, eligible, a) != node_name(tasks, eligible, b),
{
    if a < b {
        assert(eligible[a] < eligible[b]);
        assert(tasks[eligible[a] as int].name@ != tasks[eligible[b] as int].name@);
    } else {
        assert(eligible[b] < eligible[a]);
        assert(tasks[eligible[b] as int].name@ != tasks[eligible[a] as int].name@);
    }
}

/// The dependencies declared by a task, as a list.
fn requirements(task: &Task) -> (r: Vec<String>)
    ensures
        r@ == task.requires_spec(),
{
    match &task.config.requires {
        Some(v) => crate::names::copy_names(v),
        None => Vec::new(),
    }
}

/// Resolves the dependencies of node `t` to node indices.
fn resolve_node(
    tasks: &Vec<Task>,
    eligible: &Vec<usize>,
    names: &Vec<String>,
    all_names: &Vec<String>,
    t: usize,
) -> (r: Result<Vec<usize>, ConfigError>)
    requires
        valid_selection(tasks@, eligible@),
        t < eligible.len(),
        names@.len() == eligible.len(),
        forall|u: int| 0 <= u < eligible.len() ==> #[trigger] names@[u]@ == node_name(tasks@, eligible@, u),
        all_names@.len() == tasks.len(),
        forall|i: int| 0 <= i < tasks.len() ==> #[trigger] all_names@[i]@ == tasks@[i].name@,
    ensures
        r is Ok <==> forall|k: int|
            0 <= k < node_requires(tasks@, eligible@, t as int).len() ==> is_node_name(
                tasks@,
                eligible@,
                #[trigger] node_requires(tasks@, eligible@, t as int)[k]@,
            ),
        r matches Ok(ds) ==> ds@.len() == node_requires(tasks@, eligible@, t as int).len() && forall|k: int|
            0 <= k < ds@.len() ==> #[trigger] ds@[k] < eligible.len() && node_name(tasks@, eligible@, ds@[k] as int)
                == node_requires(tasks@, eligible@, t as int)[k]@,
        r matches Err(ConfigError::DependencyExcluded { task, dependency }) ==> task@ == node_name(tasks@, eligible@, t as int)
            && has_name(node_requires(tasks@, eligible@, t as int), dependency@)
            && !is_node_name(tasks@, eligible@, dependency@) && is_task_name(tasks@, dependency@),
        r matches Err(ConfigError::UnknownDependency { task, dependency }) ==> task@ == node_name(tasks@, eligible@, t as int)
            && has_name(node_requires(tasks@, eligible@, t as int), dependency@)
            && !is_node_name(tasks@, eligible@, dependency@) && !is_task_name(tasks@, dependency@),
        r is Err ==> r matches Err(ConfigError::DependencyExcluded { .. }) || r matches Err(ConfigError::UnknownDependency { .. }),
{
    let reqs = requirements(&tasks[eligible[t]]);
    let ghost want = node_requires(tasks@, eligible@, t as int);
    let mut ds: Vec<usize> = Vec::new();
    let mut k: usize = 0;
    while k < reqs.len()
        invariant
            k <= reqs.len(),
            reqs@ == want,
            want == node_requires(tasks@, eligible@, t as int),
            valid_selection(tasks@, eligible@),
            t < eligible.len(),
            all_names@.len() == tasks.len(),
            forall|i: int| 0 <= i < tasks.len() ==> #[trigger] all_names@[i]@ == tasks@[i].name@,
            ds@.len() == k,
            names@.len() == eligible.len(),
            forall|u: int| 0 <= u < eligible.len() ==> #[trigger] names@[u]@ == node_name(tasks@, eligible@, u),
            forall|j: int|
                0 <= j < k ==> #[trigger] ds@[j] < eligible.len() && node_name(tasks@, eligible@, ds@[j] as int) == want[j]@,
        decreases reqs.len() - k,
    {
        match position_of(names, &reqs[k]) {
            Some(u) => {
                ds.push(u);
            },
            None => {
                let dependency = reqs[k].clone();
                let task = names[t].clone();
                proof {
                    assert(want[k as int]@ == dependency@);
                    if is_node_name(tasks@, eligible@, dependency@) {
                        let u = choose|u: int| 0 <= u < eligible.len() && #[trigger] node_name(tasks@, eligible@, u) == dependency@;
                        assert(names@[u]@ == dependency@);
                    }
                }
                if contains_name(all_names, &dependency) {
                    proof {
                        let i = choose|i: int| 0 <= i < all_names@.len() && #[trigger] all_names@[i]@ == dependency@;
                        assert(tasks@[i].name@ == dependency@);
                    }
                    return Err(ConfigError::DependencyExcluded { task, dependency });
                } else {
                    proof {
                        if is_task_name(tasks@, dependency@) {
                            let i = choose|i: int| 0 <= i < tasks.len() && #[trigger] tasks@[i].name@ == dependency@;
                            assert(all_names@[i]@ == dependency@);
                        }
                    }
                    return Err(ConfigError::UnknownDependency { task, dependency });
                }
            },
        }
        k += 1;
    }
    proof {
        assert forall|j: int| 0 <= j < want.len() implies is_node_name(tasks@, eligible@, #[trigger] want[j]@) by {
            assert(node_name(tasks@, eligible@, ds@[j] as int) == want[j]@);
        }
    }
    Ok(ds)
}

/// The names of all tasks, and of the nodes.
fn name_lists(tasks: &Vec<Task>, eligible: &Vec<usize>) -> (r: (Vec<String>, Vec<String>))
    requires
        valid_selection(tasks@, eligible@),
    ensures
        r.0@.len() == tasks.len(),
        forall|i: int| 0 <= i < tasks.len() ==> #[trigger] r.0@[i]@ == tasks@[i].name@,
        r.1@.len() == eligible.len(),
        forall|u: int| 0 <= u < eligible.len() ==> #[trigger] r.1@[u]@ == node_name(tasks@, eligible@, u),
{
    let mut all: Vec<String> = Vec::new();
    let mut i: usize = 0;
    while i < tasks.len()
        invariant
            i <= tasks.len(),
            all@.len() == i,
            forall|j: int| 0 <= j < i ==> #[trigger] all@[j]@ == tasks@[j].name@,
        decreases tasks.len() - i,
    {
        all.push(tasks[i].name.clone());
        i += 1;
    }
    let mut nodes: Vec<String> = Vec::new();
    let mut u: usize = 0;
    while u < eligible.len()
        invariant
            u <= eligible.len(),
            valid_selection(tasks@, eligible@),
            nodes@.len() == u,
            forall|j: int| 0 <= j < u ==> #[trigger] nodes@[j]@ == node_name(tasks@, eligible@, j),
        decreases eligible.len() - u,
    {
        nodes.push(tasks[eligible[u]].name.clone());
        u += 1;
    }
    (all, nodes)
}

/// Along a path whose steps lower the rank, the rank drops by at least one
/// per step.
proof fn lemma_rank_descends(g: TaskGraph, c: Seq<int>, q: int)
    requires
        0 <= q < c.len(),
        forall|q2: int| 0 <= q2 < c.len() ==> g.rank@[c[next_index(c.len(), q2)]] < g.rank@[#[trigger] c[q2]],
    ensures
        g.rank@[c[q]] + q <= g.rank@[c[0]],
    decreases q,
{
    if q > 0 {
        lemma_rank_descends(g, c, q - 1);
        assert(next_index(c.len(), q - 1) == q);
        assert(g.rank@[c[q]] < g.rank@[c[q - 1]]);
    }
}

/// A graph with a topological order has no cycle.
proof fn lemma_ordered_acyclic(g: TaskGraph, tasks: Seq<Task>, eligible: Seq<usize>, c: Seq<int>)
    requires
        g.wf(),
        g.built_from(tasks, eligible),
    ensures
        !is_cycle(tasks, eligible, c),
{
    if !is_cycle(tasks, eligible, c) {
        return;
    }
    let len = c.len() as int;
    assert forall|q: int| 0 <= q < len implies g.rank@[c[next_index(c.len(), q)]] < g.rank@[#[trigger] c[q]] by {
        let nq = next_index(c.len(), q);
        assert(depends_on(tasks, eligible, c[q], c[nq]));
        assert(g.edge(c[q], c[nq]));
        let k = choose|k: int| 0 <= k < g.deps@[c[q]].len() && #[trigger] g.deps@[c[q]]@[k] == c[nq];
    }
    lemma_rank_descends(g, c, len - 1);
    assert(next_index(c.len(), len - 1) == 0);
    assert(g.rank@[c[0]] < g.rank@[c[len - 1]]);
}

impl TaskGraph {
    /// Builds the dependency graph over the eligible tasks (`eligible`
    /// indexes `tasks`, the full task list). Fails on a shared name, on a
    /// dependency that names no task or a task filtered out of the run, and
    /// on a cycle, naming its members in the order walked.
    pub fn build(tasks: &Vec<Task>, eligible: &Vec<usize>) -> (r: Result<TaskGraph, ConfigError>)
        requires
            valid_selection(tasks@, eligible@),
        ensures
            r is Ok <==> names_unique(tasks@) && references_resolve(tasks@, eligible@) && !has_cycle(tasks@, eligible@),
            r matches Ok(g) ==> g.wf() && g.built_from(tasks@, eligible@),
            r matches Err(ConfigError::DuplicateName { .. }) <==> !names_unique(tasks@),
            r matches Err(ConfigError::DuplicateName { name }) ==> exists|i: int, j: int|
                0 <= i < j < tasks.len() && tasks@[i].name@ == name@ && tasks@[j].name@ == name@,
            (r matches Err(ConfigError::DependencyExcluded { .. }) || r matches Err(ConfigError::UnknownDependency { .. }))
                <==> names_unique(tasks@) && !references_resolve(tasks@, eligible@),
            r matches Err(ConfigError::DependencyExcluded { task, dependency }) ==> exists|t: int|
                0 <= t < eligible.len() && #[trigger] node_name(tasks@, eligible@, t) == task@
                && has_name(node_requires(tasks@, eligible@, t), dependency@)
                && !is_node_name(tasks@, eligible@, dependency@) && is_task_name(tasks@, dependency@),
            r matches Err(ConfigError::UnknownDependency { task, dependency }) ==> exists|t: int|
                0 <= t < eligible.len() && #[trigger] node_name(tasks@, eligible@, t) == task@
                && has_name(node_requires(tasks@, eligible@, t), dependency@)
                && !is_node_name(tasks@, eligible@, dependency@) && !is_task_name(tasks@, dependency@),
            r matches Err(ConfigError::CyclicDependency { .. }) <==> names_unique(tasks@) && references_resolve(tasks@, eligible@)
                && has_cycle(tasks@, eligible@),
            r matches Err(ConfigError::CyclicDependency { cycle }) ==> exists|c: Seq<int>|
                is_cycle(tasks@, eligible@, c) && cycle@.len() == c.len() && forall|q: int|
                    0 <= q < c.len() ==> #[trigger] cycle@[q]@ == node_name(tasks@, eligible@, c[q]),
    {
        if let Some(name) = find_duplicate(tasks) {
            return Err(ConfigError::DuplicateName { name });
        }
        let (all_names, names) = name_lists(tasks, eligible);
        let n = eligible.len();
        let mut deps: Vec<Vec<usize>> = Vec::new();
        let mut t: usize = 0;
        while t < n
            invariant
                t <= n,
                n == eligible.len(),
                valid_selection(tasks@, eligible@),
                names_unique(tasks@),
                names@.len() == n,
                forall|u: int| 0 <= u < n ==> #[trigger] names@[u]@ == node_name(tasks@, eligible@, u),
                all_names@.len() == tasks.len(),
                forall|i: int| 0 <= i < tasks.len() ==> #[trigger] all_names@[i]@ == tasks@[i].name@,
                deps@.len() == t,
                forall|x: int, k: int|
                    0 <= x < t && 0 <= k < node_requires(tasks@, eligible@, x).len() ==> is_node_name(
                        tasks@,
                        eligible@,
                        #[trigger] node_requires(tasks@, eligible@, x)[k]@,
                    ),
                forall|x: int|
                    0 <= x < t ==> (#[trigger] deps@[x])@.len() == node_requires(tasks@, eligible@, x).len(),
                forall|x: int, k: int|
                    0 <= x < t && 0 <= k < deps@[x]@.len() ==> #[trigger] deps@[x]@[k] < n && node_name(tasks@, eligible@, deps@[x]@[k] as int)
                        == node_requires(tasks@, eligible@, x)[k]@,
            decreases n - t,
        {
            match resolve_node(tasks, eligible, &names, &all_names, t) {
                Ok(ds) => {
                    deps.push(ds);
                },
                Err(e) => {
                    proof {
                        let x = t as int;
                        assert(0 <= x < eligible.len());
                    }
                    return Err(e);
                },
            }
            t += 1;
        }
        proof {
            assert forall|x: int, u: int|
                0 <= x < n && 0 <= u < n implies (edge_in(deps@, x, u) <==> depends_on(tasks@, eligible@, x, u)) by {
                if edge_in(deps@, x, u) {
                    let k = choose|k: int| 0 <= k < deps@[x]@.len() && #[trigger] deps@[x]@[k] == u;
                    assert(node_requires(tasks@, eligible@, x)[k]@ == node_name(tasks@, eligible@, u));
                }
                if depends_on(tasks@, eligible@, x, u) {
                    let k = choose|k: int| 0 <= k < node_requires(tasks@, eligible@, x).len()
                        && #[trigger] node_requires(tasks@, eligible@, x)[k]@ == node_name(tasks@, eligible@, u);
                    let v = deps@[x]@[k] as int;
                    if v != u {
                        lemma_node_names_distinct(tasks@, eligible@, v, u);
                    }
                }
            }
        }
        match topological_order(&deps) {
            Ok((order, rank)) => {
                let ghost d = deps@;
                let g = TaskGraph { names, tasks: crate::graph::copy_indices(eligible), deps, order, rank };
                proof {
                    assert forall|x: int, u: int|
                        0 <= x < n && 0 <= u < n implies (#[trigger] g.edge(x, u) <==> depends_on(tasks@, eligible@, x, u)) by {
                        assert(g.deps@ == d);
                        assert(g.edge(x, u) == edge_in(d, x, u));
                    }
                    if has_cycle(tasks@, eligible@) {
                        let c = choose|c: Seq<int>| is_cycle(tasks@, eligible@, c);
                        lemma_ordered_acyclic(g, tasks@, eligible@, c);
                    }
                }
                Ok(g)
            },
            Err(c) => {
                let cycle = names_at(&names, &c);
                proof {
                    let ci = c@.map_values(|x: usize| x as int);
                    assert forall|qq: int| 0 <= qq < ci.len() implies depends_on(tasks@, eligible@, #[trigger] ci[qq], ci[next_index(ci.len(), qq)]) by {
                        assert(c@[qq] < n);
                        assert(c@[next_index(c@.len(), qq)] < n);
                        assert(edge_in(deps@, c@[qq] as int, c@[next_index(c@.len(), qq)] as int));
                    }
                    assert(is_cycle(tasks@, eligible@, ci));
                    assert forall|qq: int| 0 <= qq < ci.len() implies #[trigger] cycle@[qq]@ == node_name(tasks@, eligible@, ci[qq]) by {
                        assert(cycle@[qq] == names@[c@[qq] as int]);
                    }
                }
                Err(ConfigError::CyclicDependency { cycle })
            },
        }
    }
}

/// The names at the given positions.
fn names_at(names: &Vec<String>, c: &Vec<usize>) -> (r: Vec<String>)
    requires
        forall|q: int| 0 <= q < c.len() ==> #[trigger] c@[q] < names.len(),
    ensures
        r@.len() == c.len(),
        forall|q: int| 0 <= q < c.len() ==> #[trigger] r@[q] == names@[c@[q] as int],
{
    let mut r: Vec<String> = Vec::new();
    let mut q: usize = 0;
    while q < c.len()
        invariant
            q <= c.len(),
            r@.len() == q,
            forall|j: int| 0 <= j < c.len() ==> #[trigger] c@[j] < names.len(),
            forall|j: int| 0 <= j < q ==> #[trigger] r@[j] == names@[c@[j] as int],
        decreases c.len() - q,
    {
        r.push(names[c[q]].clone());
        q += 1;
    }
    r
}

impl TaskGraph {
    /// Selects the tasks eligible for a run with this allow-list,
    /// exclude-list and environment, and builds their dependency graph.
    pub fn plan(
        tasks: &Vec<Task>,
        allow: &Option<Vec<String>>,
        exclude: &Option<Vec<String>>,
        env: &Vec<(String, String)>,
    ) -> (r: Result<TaskGraph, ConfigError>)
        ensures
            r matches Ok(g) ==> g.wf() && valid_selection(tasks@, g.tasks@) && g.built_from(tasks@, g.tasks@)
                && names_unique(tasks@) && forall|i: int|
                0 <= i < tasks.len() ==> (g.tasks@.contains(i as usize) <==> eligible_spec(
                    #[trigger] tasks@[i],
                    *allow,
                    *exclude,
                    env@,
                )),
            r is Err ==> exists|eligible: Seq<usize>|
                valid_selection(tasks@, eligible) && (forall|i: int|
                    0 <= i < tasks.len() ==> (eligible.contains(i as usize) <==> eligible_spec(
                        #[trigger] tasks@[i],
                        *allow,
                        *exclude,
                        env@,
                    ))) && !(names_unique(tasks@) && references_resolve(tasks@, eligible) && !has_cycle(tasks@, eligible)),
    {
        let eligible = eligible_tasks(tasks, allow, exclude, env);
        let r = TaskGraph::build(tasks, &eligible);
        proof {
            if r is Err {
                assert(valid_selection(tasks@, eligible@));
            }
        }
        r
    }
}

/// A copy of a list of indices.
fn copy_indices(v: &Vec<usize>) -> (r: Vec<usize>)
    ensures
        r@ == v@,
{
    let mut r: Vec<usize> = Vec::new();
    let mut k: usize = 0;
    while k < v.len()
        invariant
            k <= v.len(),
            r@ == v@.subrange(0, k as int),
        decreases v.len() - k,
    {
        r.push(v[k]);
        k += 1;
        assert(r@ =~= v@.subrange(0, k as int));
    }
    assert(r@ =~= v@);
    r
}

/// Two eligible tasks that require each other form a cycle, so building the
/// graph fails with a cyclic-dependency error whenever names are unique and
/// every dependency resolves, before any task can run.
pub proof fn mutual_requirement_is_cyclic(tasks: Seq<Task>, eligible: Seq<usize>, a: int, b: int)
    requires
        0 <= a < eligible.len(),
        0 <= b < eligible.len(),
        depends_on(tasks, eligible, a, b),
        depends_on(tasks, eligible, b, a),
    ensures
        has_cycle(tasks, eligible),
{
    let c = seq![a, b];
    assert(next_index(c.len(), 0) == 1);
    assert(next_index(c.len(), 1) == 0);
    assert(is_cycle(tasks, eligible, c));
}

} // verus!
