//! The service's configuration: the server's port, and the plugins to load
//! with the checks each of them is to run, by name. Reading it from its YAML
//! file is the program's part; here it is a value.

use vstd::prelude::*;
use crate::registry::NameMap;
use crate::server;
use crate::plugins::{counts_fit, sum_counts};

verus! {

/// The configuration.
pub struct Config {
    pub server: ServerConfig,
    pub plugins: NameMap<PluginConfig>,
}

/// The server's section of the configuration.
pub struct ServerConfig {
    /// The port to listen on (0 where the file gives none).
    pub port: u16,
}

/// A plugin to load: the path of its shared library, the path of its own
/// configuration, and its checks by name.
pub struct PluginConfig {
    pub path: String,
    pub conf_path: String,
    pub checks: NameMap<CheckConfig>,
}

/// A check to add: the path of its configuration.
pub struct CheckConfig {
    pub conf_path: String,
}

/// One step of setting the service up from its configuration.
#[derive(PartialEq, Eq, Structural, Clone, Copy, Debug)]
pub enum StartupStep {
    /// Load the plugin at this position of the configuration.
    LoadPlugin(usize),
    /// Add check `.1` of plugin `.0` (positions in the configuration).
    AddCheck(usize, usize),
}

/// Setting up plugin `p` (which has `n` checks): load it, then add its
/// checks in order.
pub open spec fn plugin_startup_steps(p: int, n: nat) -> Seq<StartupStep> {
    seq![StartupStep::LoadPlugin(p as usize)] + Seq::new(
        n,
        |j: int| StartupStep::AddCheck(p as usize, j as usize),
    )
}

/// Setting up plugins with `sizes[i]` checks each, plugin by plugin.
pub open spec fn startup_steps(sizes: Seq<nat>) -> Seq<StartupStep>
    decreases sizes.len(),
{
    if sizes.len() == 0 {
        Seq::empty()
    } else {
        startup_steps(sizes.drop_last()) + plugin_startup_steps(sizes.len() - 1, sizes.last())
    }
}

/// Where plugin `i`'s steps begin: after one load step and the check steps
/// of each plugin before it.
pub open spec fn startup_offset(sizes: Seq<nat>, i: int) -> int {
    i + sum_counts(sizes.take(i))
}

/// Where check `j` of plugin `i` is added: right after loading the plugin,
/// after its checks before `j`.
pub open spec fn add_check_offset(sizes: Seq<nat>, i: int, j: int) -> int {
    startup_offset(sizes, i) + 1 + j
}

/// `step` stands at position `k` of the start-up: it loads plugin `i` at
/// `startup_offset(sizes, i)`, or adds check `j < sizes[i]` of plugin `i`
/// right after, at `startup_offset(sizes, i) + 1 + j`.
pub open spec fn is_startup_step_at(sizes: Seq<nat>, step: StartupStep, k: int) -> bool {
    match step {
        StartupStep::LoadPlugin(i) => i < sizes.len() && k == startup_offset(sizes, i as int),
        StartupStep::AddCheck(i, j) => i < sizes.len() && j < sizes[i as int] && k
            == startup_offset(sizes, i as int) + 1 + j,
    }
}

/// The next plugin's steps begin after this plugin's load and checks.
proof fn lemma_startup_offset_step(sizes: Seq<nat>, i: int)
    requires
        0 <= i < sizes.len(),
    ensures
        startup_offset(sizes, i + 1) == startup_offset(sizes, i) + 1 + sizes[i],
{
    assert(sizes.take(i + 1).drop_last() =~= sizes.take(i));
}

/// Later plugins' steps begin later, all within the start-up.
proof fn lemma_startup_offset_monotone(sizes: Seq<nat>, i: int, j: int)
    requires
        0 <= i <= j <= sizes.len(),
    ensures
        startup_offset(sizes, i) <= startup_offset(sizes, j),
        i < j ==> startup_offset(sizes, i) + 1 + sizes[i] <= startup_offset(sizes, j),
    decreases j - i,
{
    if i < j {
        lemma_startup_offset_monotone(sizes, i, j - 1);
        lemma_startup_offset_step(sizes, j - 1);
    }
}

/// The start-up loads every configured plugin once and adds every one of
/// its checks once, right after loading it and before loading the next
/// plugin: it has one step per plugin and one per check, plugin `i` is
/// loaded at `startup_offset(sizes, i)` and its check `j` added at
/// `startup_offset(sizes, i) + 1 + j`, and no step stands anywhere else.
pub proof fn lemma_startup_layout(sizes: Seq<nat>)
    requires
        counts_fit(sizes),
    ensures
        startup_steps(sizes).len() == sizes.len() + sum_counts(sizes),
        startup_steps(sizes).len() == startup_offset(sizes, sizes.len() as int),
        forall|i: int|
            0 <= i < sizes.len() ==> startup_steps(sizes)[#[trigger] startup_offset(sizes, i)]
                == StartupStep::LoadPlugin(i as usize),
        forall|i: int, j: int|
            0 <= i < sizes.len() && 0 <= j < sizes[i] ==> startup_steps(sizes)[#[trigger] add_check_offset(
                sizes,
                i,
                j,
            )] == StartupStep::AddCheck(i as usize, j as usize),
        forall|k: int|
            0 <= k < startup_steps(sizes).len() ==> is_startup_step_at(
                sizes,
                #[trigger] startup_steps(sizes)[k],
                k,
            ),
    decreases sizes.len(),
{
    let n = sizes.len() as int;
    assert(sizes.take(n) =~= sizes);
    if n > 0 {
        let d = sizes.drop_last();
        let l = n - 1;
        assert(counts_fit(d)) by {
            assert forall|i: int| 0 <= i < d.len() implies #[trigger] d[i] <= usize::MAX by {
                assert(d[i] == sizes[i]);
            }
        }
        lemma_startup_layout(d);
        let sd = startup_steps(d);
        let ss = startup_steps(sizes);
        assert(sizes.take(l) =~= d);
        assert(d.take(l) =~= d);
        assert(sd.len() == startup_offset(sizes, l));
        assert forall|i: int| 0 <= i <= l implies #[trigger] startup_offset(d, i) == startup_offset(
            sizes,
            i,
        ) by {
            assert(d.take(i) =~= sizes.take(i));
        }
        assert forall|i: int| 0 <= i < n implies ss[#[trigger] startup_offset(sizes, i)]
            == StartupStep::LoadPlugin(i as usize) by {
            if i < l {
                assert(startup_offset(d, i) == startup_offset(sizes, i));
                lemma_startup_offset_monotone(d, i, l);
                assert(ss[startup_offset(sizes, i)] == sd[startup_offset(d, i)]);
            }
        }
        assert forall|i: int, j: int| 0 <= i < n && 0 <= j < sizes[i] implies ss[#[trigger] add_check_offset(
            sizes,
            i,
            j,
        )] == StartupStep::AddCheck(i as usize, j as usize) by {
            if i < l {
                assert(startup_offset(d, i) == startup_offset(sizes, i));
                assert(d[i] == sizes[i]);
                lemma_startup_offset_monotone(d, i, l);
                assert(sd[add_check_offset(d, i, j)] == StartupStep::AddCheck(i as usize, j as usize));
                assert(ss[startup_offset(sizes, i) + 1 + j] == sd[startup_offset(d, i) + 1 + j]);
            } else {
                let tail = plugin_startup_steps(l, sizes.last());
                assert(ss == sd + tail);
                assert(add_check_offset(sizes, i, j) == sd.len() + 1 + j);
                assert(tail[1 + j] == StartupStep::AddCheck(l as usize, j as usize));
            }
        }
        assert forall|k: int| 0 <= k < ss.len() implies is_startup_step_at(
            sizes,
            #[trigger] ss[k],
            k,
        ) by {
            if k < sd.len() {
                assert(ss[k] == sd[k]);
                assert(is_startup_step_at(d, sd[k], k));
                match sd[k] {
                    StartupStep::LoadPlugin(i) => {
                        assert(startup_offset(d, i as int) == startup_offset(sizes, i as int));
                    },
                    StartupStep::AddCheck(i, j) => {
                        assert(startup_offset(d, i as int) == startup_offset(sizes, i as int));
                        assert(d[i as int] == sizes[i as int]);
                    },
                }
            }
        }
    } else {
        assert(sizes.take(0) =~= sizes);
    }
}

impl Config {
    /// The numbers of checks of the configured plugins, in name order.
    pub open spec fn check_counts(self) -> Seq<nat> {
        self.plugins@.map_values(|e: (Seq<char>, PluginConfig)| e.1.checks@.len())
    }

    /// The order in which the configuration is put in place: plugin by
    /// plugin in name order, each plugin is loaded and then its checks are
    /// added in name order. The caller performs the steps in this order and
    /// stops at the first that fails.
    pub fn startup_steps(&self) -> (r: Vec<StartupStep>)
        ensures
            r@ == startup_steps(self.check_counts()),
            counts_fit(self.check_counts()),
            r@.len() == self.check_counts().len() + sum_counts(self.check_counts()),
            forall|i: int|
                0 <= i < self.check_counts().len() ==> r@[#[trigger] startup_offset(
                    self.check_counts(),
                    i,
                )] == StartupStep::LoadPlugin(i as usize),
            forall|i: int, j: int|
                0 <= i < self.check_counts().len() && 0 <= j < self.check_counts()[i] ==> r@[#[trigger] add_check_offset(
                    self.check_counts(),
                    i,
                    j,
                )] == StartupStep::AddCheck(i as usize, j as usize),
            forall|k: int| 0 <= k < r@.len() ==> is_startup_step_at(self.check_counts(), #[trigger] r@[k], k),
    {
        let ghost sizes = self.check_counts();
        let n = self.plugins.len();
        let mut steps: Vec<StartupStep> = Vec::new();
        let mut i: usize = 0;
        while i < n
            invariant
                n == self.plugins@.len(),
                sizes == self.check_counts(),
                sizes.len() == n,
                i <= n,
                steps@ == startup_steps(sizes.take(i as int)),
                forall|k: int| 0 <= k < i ==> #[trigger] sizes[k] <= usize::MAX,
            decreases n - i,
        {
            let ghost before = steps@;
            steps.push(StartupStep::LoadPlugin(i));
            let m = self.plugins.value_at(i).checks.len();
            assert(m == sizes[i as int]);
            let mut j: usize = 0;
            while j < m
                invariant
                    j <= m,
                    steps@ =~= before + seq![StartupStep::LoadPlugin(i)] + Seq::new(
                        j as nat,
                        |k: int| StartupStep::AddCheck(i, k as usize),
                    ),
                decreases m - j,
            {
                steps.push(StartupStep::AddCheck(i, j));
                j = j + 1;
            }
            proof {
                assert(sizes.take(i + 1).drop_last() =~= sizes.take(i as int));
                assert(steps@ =~= startup_steps(sizes.take(i + 1)));
            }
            i = i + 1;
        }
        proof {
            assert(sizes.take(n as int) =~= sizes);
            lemma_startup_layout(sizes);
        }
        steps
    }

    /// The settings the health server runs with.
    pub fn server_config(&self) -> (r: server::ServerConfig)
        ensures
            r.port == self.server.port,
    {
        server::ServerConfig { port: self.server.port }
    }
}

} // verus!
