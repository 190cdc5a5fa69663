//! Selection of the tasks eligible for a run: allow-list, exclude-list,
//! constraints against the environment, and the auto-run policy.
use vstd::prelude::*;

use crate::names::{contains_name, has_name};
use crate::task::Task;

verus! {

/// The value that `env` gives `key`: the first pair with that key.
pub open spec fn env_value(env: Seq<(String, String)>, key: Seq<char>, value: Seq<char>) -> bool {
    exists|j: int|
        0 <= j < env.len() && #[trigger] env[j].0@ == key && env[j].1@ == value && forall|i: int|
            0 <= i < j ==> env[i].0@ != key
}

/// Whether every constraint pair is matched by the environment.
pub open spec fn constraints_hold(
    constraints: Seq<(String, String)>,
    env: Seq<(String, String)>,
) -> bool {
    forall|c: int|
        0 <= c < constraints.len() ==> env_value(env, #[trigger] constraints[c].0@, constraints[c].1@)
}

/// The names in an optional list (none when unset).
pub open spec fn listed(list: Option<Vec<String>>) -> Seq<String> {
    match list {
        Some(v) => v@,
        None => Seq::empty(),
    }
}

/// Whether a task is eligible for a run with the given allow-list,
/// exclude-list and environment. An empty allow-list allows every task, but
/// a task that does not auto-run must be named in it.
pub open spec fn eligible_spec(
    task: Task,
    allow: Option<Vec<String>>,
    exclude: Option<Vec<String>>,
    env: Seq<(String, String)>,
) -> bool {
    let allowed = listed(allow);
    &&& !has_name(listed(exclude), task.name@)
    &&& (allowed.len() == 0 || has_name(allowed, task.name@))
    &&& constraints_hold(
        match task.config.constraints {
            Some(c) => c@,
            None => Seq::empty(),
        },
        env,
    )
    &&& (task.auto_run_spec() || has_name(allowed, task.name@))
}

/// Whether `env` holds `value` under `key`.
pub fn env_matches(env: &Vec<(String, String)>, key: &String, value: &String) -> (r: bool)
    ensures
        r == env_value(env@, key@, value@),
{
    let mut j: usize = 0;
    while j < env.len()
        invariant
            j <= env.len(),
            forall|i: int| 0 <= i < j ==> env@[i].0@ != key@,
        decreases env.len() - j,
    {
        if env[j].0 == *key {
            let r = env[j].1 == *value;
            if !r {
                assert forall|j2: int|
                    0 <= j2 < env@.len() && #[trigger] env@[j2].0@ == key@ && env@[j2].1@ == value@
                        implies !(forall|i: int| 0 <= i < j2 ==> env@[i].0@ != key@) by {
                    if j2 > j {
                        assert(env@[j as int].0@ == key@);
                    }
                }
            }
            return r;
        }
        j += 1;
    }
    false
}

/// Whether every constraint is matched by the environment.
pub fn constraints_match(constraints: &Vec<(String, String)>, env: &Vec<(String, String)>) -> (r:
    bool)
    ensures
        r == constraints_hold(constraints@, env@),
{
    let mut c: usize = 0;
    while c < constraints.len()
        invariant
            c <= constraints.len(),
            forall|k: int|
                0 <= k < c ==> env_value(env@, #[trigger] constraints@[k].0@, constraints@[k].1@),
        decreases constraints.len() - c,
    {
        if !env_matches(env, &constraints[c].0, &constraints[c].1) {
            return false;
        }
        c += 1;
    }
    true
}

fn in_list(list: &Option<Vec<String>>, name: &String) -> (r: bool)
    ensures
        r == has_name(listed(*list), name@),
{
    match list {
        Some(v) => contains_name(v, name),
        None => false,
    }
}

/// Whether `task` is eligible for a run with this allow-list, exclude-list
/// and environment. The exclude-list wins over the allow-list.
pub fn is_eligible(
    task: &Task,
    allow: &Option<Vec<String>>,
    exclude: &Option<Vec<String>>,
    env: &Vec<(String, String)>,
) -> (r: bool)
    ensures
        r == eligible_spec(*task, *allow, *exclude, env@),
{
    if in_list(exclude, &task.name) {
        return false;
    }
    let allow_empty = match allow {
        Some(v) => v.len() == 0,
        None => true,
    };
    let allowed = in_list(allow, &task.name);
    if !allow_empty && !allowed {
        return false;
    }
    let constraints_ok = match &task.config.constraints {
        Some(c) => constraints_match(c, env),
        None => true,
    };
    if !constraints_ok {
        return false;
    }
    let auto_run = match task.config.auto_run {
        Some(b) => b,
        None => true,
    };
    auto_run || allowed
}

/// Indices, in increasing order, of the tasks eligible for a run.
pub fn eligible_tasks(
    tasks: &Vec<Task>,
    allow: &Option<Vec<String>>,
    exclude: &Option<Vec<String>>,
    env: &Vec<(String, String)>,
) -> (r: Vec<usize>)
    ensures
        forall|k: int| 0 <= k < r.len() ==> r@[k] < tasks.len(),
        forall|k: int, l: int| 0 <= k < l < r.len() ==> r@[k] < r@[l],
        forall|i: int|
            0 <= i < tasks.len() ==> (r@.contains(i as usize) <==> eligible_spec(
                #[trigger] tasks@[i],
                *allow,
                *exclude,
                env@,
            )),
{
    let mut r: Vec<usize> = Vec::new();
    let mut i: usize = 0;
    while i < tasks.len()
        invariant
            i <= tasks.len(),
            forall|k: int| 0 <= k < r.len() ==> r@[k] < i,
            forall|k: int, l: int| 0 <= k < l < r.len() ==> r@[k] < r@[l],
            forall|j: int|
                0 <= j < i ==> (r@.contains(j as usize) <==> eligible_spec(
                    #[trigger] tasks@[j],
                    *allow,
                    *exclude,
                    env@,
                )),
        decreases tasks.len() - i,
    {
        let ghost before = r@;
        let e = is_eligible(&tasks[i], allow, exclude, env);
        if e {
            r.push(i);
        }
        assert forall|j: int|
            0 <= j <= i implies (r@.contains(j as usize) <==> eligible_spec(
                #[trigger] tasks@[j],
                *allow,
                *exclude,
                env@,
            )) by {
            if r@.contains(j as usize) {
                let k = choose|k: int| 0 <= k < r.len() && r@[k] == j as usize;
                if k < before.len() {
                    assert(before[k] == j as usize);
                    assert(before.contains(j as usize));
                }
            }
            if j < i && before.contains(j as usize) {
                let k = choose|k: int| 0 <= k < before.len() && before[k] == j as usize;
                assert(r@[k] == j as usize);
            }
            if j == i && e {
                assert(r@[r.len() - 1] == i);
            }
        }
        i += 1;
    }
    r
}

/// A task named in the exclude-list is never eligible, whether or not the
/// allow-list names it too: the exclude-list wins.
pub proof fn excluded_never_eligible(
    task: Task,
    allow: Option<Vec<String>>,
    exclude: Option<Vec<String>>,
    env: Seq<(String, String)>,
)
    requires
        has_name(listed(exclude), task.name@),
    ensures
        !eligible_spec(task, allow, exclude, env),
{
}

} // verus!
