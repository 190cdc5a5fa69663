//! The config document: environment variables to inject, variables to
//! inherit from the invoking shell by name, and the bootstrap task list.
use vstd::prelude::*;

use crate::error::ConfigError;
use crate::expand::lookup;
use crate::paths::{joined, path_join};

verus! {

/// The config file, as parsed.
#[derive(Debug, Default)]
pub struct ConfigYaml {
    /// Path to the tasks directory, relative to the config file.
    pub tasks_path: Option<String>,
    /// Environment variables to pass to tasks.
    pub env: Option<Vec<(String, String)>>,
    /// Environment variables to take from the invoking shell, when set there.
    pub inherit_env: Option<Vec<String>>,
    /// Tasks to run in order in bootstrap mode.
    pub bootstrap_tasks: Option<Vec<String>>,
}

/// A list of pairs as pairs of character sequences.
pub open spec fn pair_views(v: Seq<(String, String)>) -> Seq<(Seq<char>, Seq<char>)> {
    v.map_values(|p: (String, String)| (p.0@, p.1@))
}

/// The inherited pairs: each listed name that the shell defines, with the
/// shell's value, in list order.
pub open spec fn inherited(names: Seq<String>, shell: Seq<(String, String)>) -> Seq<(Seq<char>, Seq<char>)>
    decreases names.len(),
{
    if names.len() == 0 {
        Seq::empty()
    } else {
        let rest = inherited(names.drop_last(), shell);
        match lookup(shell, names.last()@) {
            Some(v) => rest.push((names.last()@, v)),
            None => rest,
        }
    }
}

impl ConfigYaml {
    /// The environment snapshot for a run: the declared variables first,
    /// then the inherited ones that the shell defines. A lookup takes the
    /// first pair with the key, so a declared value wins over an inherited
    /// one.
    pub fn task_env(&self, shell: &Vec<(String, String)>) -> (r: Vec<(String, String)>)
        ensures
            pair_views(r@) == (match self.env {
                Some(e) => pair_views(e@),
                None => Seq::empty(),
            }) + (match self.inherit_env {
                Some(names) => inherited(names@, shell@),
                None => Seq::empty(),
            }),
    {
        let mut r: Vec<(String, String)> = Vec::new();
        let ghost declared: Seq<(Seq<char>, Seq<char>)> = Seq::empty();
        if let Some(e) = &self.env {
            let mut k: usize = 0;
            while k < e.len()
                invariant
                    k <= e.len(),
                    r@.len() == k,
                    pair_views(r@) == pair_views(e@.subrange(0, k as int)),
                decreases e.len() - k,
            {
                let ghost before = r@;
                let pair = (e[k].0.clone(), e[k].1.clone());
                assert(pair.0@ == e@[k as int].0@ && pair.1@ == e@[k as int].1@);
                r.push(pair);
                k += 1;
                assert forall|j: int| 0 <= j < k implies #[trigger] pair_views(r@)[j] == pair_views(e@.subrange(0, k as int))[j] by {
                    if j < k - 1 {
                        assert(r@[j] == before[j]);
                        assert(pair_views(before)[j] == pair_views(e@.subrange(0, k - 1))[j]);
                    } else {
                        assert(r@[j] == pair);
                    }
                }
                assert(pair_views(r@) =~= pair_views(e@.subrange(0, k as int)));
            }
            assert(e@.subrange(0, e@.len() as int) =~= e@);
            proof {
                declared = pair_views(e@);
            }
        }
        assert(pair_views(r@) =~= declared);
        if let Some(names) = &self.inherit_env {
            let mut k: usize = 0;
            assert(names@.subrange(0, 0) =~= Seq::<String>::empty());
            while k < names.len()
                invariant
                    k <= names.len(),
                    pair_views(r@) == declared + inherited(names@.subrange(0, k as int), shell@),
                decreases names.len() - k,
            {
                let ghost pre = names@.subrange(0, k as int);
                let ghost cur = names@.subrange(0, k as int + 1);
                assert(cur.drop_last() =~= pre);
                let ghost before = r@;
                match crate::expand::lookup_value(shell, &names[k]) {
                    Some(v) => {
                        r.push((names[k].clone(), v));
                        assert(pair_views(r@) =~= pair_views(before).push((names@[k as int]@, v@)));
                    },
                    None => {},
                }
                k += 1;
            }
            assert(names@.subrange(0, names@.len() as int) =~= names@);
        } else {
            assert(declared + Seq::<(Seq<char>, Seq<char>)>::empty() =~= declared);
        }
        r
    }

    /// The bootstrap task names (none when unset).
    pub fn bootstrap_list(&self) -> (r: Vec<String>)
        ensures
            r@ == (match self.bootstrap_tasks {
                Some(v) => v@,
                None => Seq::empty(),
            }),
    {
        match &self.bootstrap_tasks {
            Some(v) => crate::names::copy_names(v),
            None => Vec::new(),
        }
    }
}

/// Whether task output goes straight to the console: as requested, else
/// only when exactly one task runs.
pub fn console_inherit(requested: Option<bool>, resolved: usize) -> (r: bool)
    ensures
        r == match requested {
            Some(b) => b,
            None => resolved == 1,
        },
{
    match requested {
        Some(b) => b,
        None => resolved == 1,
    }
}

/// The `--config` value that stands for "not given".
pub const DEFAULT_CONFIG_ARG: &'static str = "$XDG_CONFIG_HOME/up/up.yaml";

/// Where the config file is looked for.
#[derive(Debug)]
pub enum ConfigPath {
    /// Given with `--config`; it must exist.
    Explicit(String),
    /// Given in `$UP_CONFIG`; it must exist.
    FromEnv(String),
    /// The default location; it may not exist.
    Default(String),
}

impl ConfigYaml {
    /// Chooses the config file: the `--config` argument when one was given,
    /// else `$UP_CONFIG`, else `up/up.yaml` under `$XDG_CONFIG_HOME`, else
    /// under `~/.config`. Without a home directory only the first two can
    /// be used.
    pub fn up_yaml_path(
        args_config_path: &String,
        up_config: Option<String>,
        xdg_config_home: Option<String>,
        home: Option<String>,
    ) -> (r: Result<ConfigPath, ConfigError>)
        ensures
            args_config_path@ != DEFAULT_CONFIG_ARG@ ==> (r matches Ok(ConfigPath::Explicit(p)) && p@ == args_config_path@),
            args_config_path@ == DEFAULT_CONFIG_ARG@ ==> match (up_config, home, xdg_config_home) {
                (Some(p), _, _) => r matches Ok(ConfigPath::FromEnv(q)) && q@ == p@,
                (None, None, _) => r matches Err(ConfigError::NoHomeDir),
                (None, Some(_), Some(x)) => r matches Ok(ConfigPath::Default(q)) && q@ == joined(joined(x@, "up"@), "up.yaml"@),
                (None, Some(h), None) => r matches Ok(ConfigPath::Default(q)) && q@ == joined(joined(joined(h@, ".config"@), "up"@), "up.yaml"@),
            },
    {
        if *args_config_path != String::from_str(DEFAULT_CONFIG_ARG) {
            return Ok(ConfigPath::Explicit(args_config_path.clone()));
        }
        if let Some(p) = up_config {
            return Ok(ConfigPath::FromEnv(p));
        }
        let home = match home {
            Some(h) => h,
            None => {
                return Err(ConfigError::NoHomeDir);
            },
        };
        let config_dir = match xdg_config_home {
            Some(x) => x,
            None => path_join(home.as_str(), ".config"),
        };
        let up_dir = path_join(config_dir.as_str(), "up");
        Ok(ConfigPath::Default(path_join(up_dir.as_str(), "up.yaml")))
    }
}

} // verus!
