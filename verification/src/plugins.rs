//! The plugins the service has loaded and the checks each of them runs, and
//! the decisions around them: in which order checks are performed and when a
//! round of checks stops, how their outcomes become the health report, and
//! in which order plugins and checks are finalized on release.
//!
//! The calls into a plugin go through its C interface and are made by the
//! program that holds the loaded libraries; here a plugin's context and its
//! checks are opaque handles of types `P` and `C`.

use vstd::prelude::*;
use crate::registry::{as_map, has_name, lemma_update_value, sorted_names, NameMap};
use crate::json::starts_with;
use crate::report::{lemma_report_json_begins_with_ok, report_json, CheckResultView, HealthReportView, PluginCheckResult, PluginChecksResult, PluginReportView, PluginsChecksResult};

verus! {

broadcast use vstd::string::group_string_axioms;


/// Where a check stands: its plugin's position in plugin-name order and its
/// position in that plugin's check-name order.
#[derive(PartialEq, Eq, Structural, Clone, Copy, Debug)]
pub struct CheckPosition {
    pub plugin: usize,
    pub check: usize,
}

/// One step of releasing the plugins.
#[derive(PartialEq, Eq, Structural, Clone, Copy, Debug)]
pub enum ReleaseStep {
    /// Finalize a check.
    FinalizeCheck(CheckPosition),
    /// Finalize the context of the plugin at this position.
    FinalizeContext(usize),
}

/// The checks of plugin `p` (which has `n` of them), in order.
pub open spec fn plugin_positions(p: int, n: nat) -> Seq<CheckPosition> {
    Seq::new(n, |j: int| CheckPosition { plugin: p as usize, check: j as usize })
}

/// Every check of plugins with `sizes[i]` checks each: plugin by plugin, and
/// within a plugin check by check.
pub open spec fn check_positions(sizes: Seq<nat>) -> Seq<CheckPosition>
    decreases sizes.len(),
{
    if sizes.len() == 0 {
        Seq::empty()
    } else {
        check_positions(sizes.drop_last()) + plugin_positions(sizes.len() - 1, sizes.last())
    }
}

/// The number of checks of the plugins before position `i`.
pub open spec fn offset(sizes: Seq<nat>, i: int) -> nat {
    check_positions(sizes.take(i)).len()
}

/// Releasing plugin `p` (which has `n` checks): its checks in order, then
/// its context.
pub open spec fn plugin_release_steps(p: int, n: nat) -> Seq<ReleaseStep> {
    Seq::new(n, |j: int| ReleaseStep::FinalizeCheck(CheckPosition { plugin: p as usize, check: j as usize })).push(
        ReleaseStep::FinalizeContext(p as usize),
    )
}

/// Releasing all plugins, plugin by plugin in name order.
pub open spec fn release_steps(sizes: Seq<nat>) -> Seq<ReleaseStep>
    decreases sizes.len(),
{
    if sizes.len() == 0 {
        Seq::empty()
    } else {
        release_steps(sizes.drop_last()) + plugin_release_steps(sizes.len() - 1, sizes.last())
    }
}

/// The report of a plugin whose checks are named `names`, from their results
/// `rs` in the same order: it passes when each of them does.
pub open spec fn plugin_report(names: Seq<Seq<char>>, rs: Seq<CheckResultView>) -> PluginReportView {
    PluginReportView {
        ok: forall|j: int| 0 <= j < names.len() ==> (#[trigger] rs[j]).ok,
        checks: Seq::new(names.len(), |j: int| (names[j], rs[j])),
    }
}

/// A plugin's report passes exactly when every one of its checks passed,
/// and lists each check by name with its own result, in order.
pub proof fn lemma_plugin_report_ok(names: Seq<Seq<char>>, rs: Seq<CheckResultView>)
    requires
        names.len() <= rs.len(),
    ensures
        plugin_report(names, rs).ok <==> (forall|j: int| 0 <= j < names.len() ==> (#[trigger] rs[j]).ok),
        plugin_report(names, rs).checks.len() == names.len(),
        forall|j: int|
            0 <= j < names.len() ==> (#[trigger] plugin_report(names, rs).checks[j]) == (names[j], rs[j]),
{
}

/// The numbers of checks of the plugins `ps`, in order.
pub open spec fn check_counts<P, C>(ps: Seq<(Seq<char>, Plugin<P, C>)>) -> Seq<nat> {
    ps.map_values(|e: (Seq<char>, Plugin<P, C>)| e.1.spec_checks().len())
}

/// The report of plugin `i` of `ps`, from the results `rs` of all checks in
/// the order of `check_positions`.
pub open spec fn plugin_report_at<P, C>(
    ps: Seq<(Seq<char>, Plugin<P, C>)>,
    rs: Seq<CheckResultView>,
    i: int,
) -> PluginReportView {
    let o = offset(check_counts(ps), i) as int;
    plugin_report(ps[i].1.check_names(), rs.subrange(o, o + ps[i].1.spec_checks().len()))
}

/// The health report of the plugins `ps`, from the results `rs` of all their
/// checks in the order of `check_positions`: the service is healthy when
/// each plugin is.
pub open spec fn health_report<P, C>(ps: Seq<(Seq<char>, Plugin<P, C>)>, rs: Seq<CheckResultView>) -> HealthReportView {
    HealthReportView {
        ok: forall|i: int| 0 <= i < ps.len() ==> (#[trigger] plugin_report_at(ps, rs, i)).ok,
        plugins: Seq::new(ps.len(), |i: int| (ps[i].0, plugin_report_at(ps, rs, i))),
    }
}

/// The total of `sizes`.
pub open spec fn sum_counts(sizes: Seq<nat>) -> nat
    decreases sizes.len(),
{
    if sizes.len() == 0 {
        0
    } else {
        sum_counts(sizes.drop_last()) + sizes.last()
    }
}

/// A round of checks has one step per check, and the checks of the plugins
/// before plugin `i` take the steps before `offset(sizes, i)`: as many as
/// those plugins have checks.
pub proof fn lemma_offset_is_sum(sizes: Seq<nat>, i: int)
    requires
        0 <= i <= sizes.len(),
    ensures
        check_positions(sizes).len() == sum_counts(sizes),
        offset(sizes, i) == sum_counts(sizes.take(i)),
    decreases sizes.len(),
{
    if sizes.len() > 0 {
        lemma_offset_is_sum(sizes.drop_last(), 0);
    }
    if i < sizes.len() {
        lemma_offset_is_sum(sizes.take(i), i);
        assert(sizes.take(i).take(i) =~= sizes.take(i));
    } else {
        assert(sizes.take(i) =~= sizes);
    }
}

/// Where plugin `i`'s release steps begin: after the steps of the plugins
/// before it, one per check and one for the context of each.
pub open spec fn release_offset(sizes: Seq<nat>, i: int) -> int {
    i + sum_counts(sizes.take(i))
}

/// Where check `j` of plugin `i` is finalized.
pub open spec fn finalize_check_offset(sizes: Seq<nat>, i: int, j: int) -> int {
    release_offset(sizes, i) + j
}

/// Where the context of plugin `i` is finalized: after all its checks.
pub open spec fn finalize_context_offset(sizes: Seq<nat>, i: int) -> int {
    release_offset(sizes, i) + sizes[i]
}

/// The next plugin's release steps begin after this plugin's.
proof fn lemma_release_offset_step(sizes: Seq<nat>, i: int)
    requires
        0 <= i < sizes.len(),
    ensures
        release_offset(sizes, i + 1) == release_offset(sizes, i) + sizes[i] + 1,
{
    assert(sizes.take(i + 1).drop_last() =~= sizes.take(i));
}

/// Later plugins' release steps come later.
proof fn lemma_release_offset_monotone(sizes: Seq<nat>, i: int, j: int)
    requires
        0 <= i <= j <= sizes.len(),
    ensures
        i < j ==> release_offset(sizes, i) + sizes[i] + 1 <= release_offset(sizes, j),
    decreases j - i,
{
    if i < j {
        lemma_release_offset_monotone(sizes, i, j - 1);
        lemma_release_offset_step(sizes, j - 1);
    }
}

/// Releasing finalizes every check once and every context once, each
/// plugin's checks in order right before its context, plugin after plugin:
/// one step per check and one per plugin, check `j` of plugin `i` at
/// `finalize_check_offset(sizes, i, j)`, plugin `i`'s context right after its
/// last check.
pub proof fn lemma_release_layout(sizes: Seq<nat>)
    requires
        counts_fit(sizes),
    ensures
        release_steps(sizes).len() == sizes.len() + sum_counts(sizes),
        forall|i: int, j: int|
            0 <= i < sizes.len() && 0 <= j < sizes[i] ==> release_steps(sizes)[#[trigger] finalize_check_offset(
                sizes,
                i,
                j,
            )] == ReleaseStep::FinalizeCheck(check_position(i, j)),
        forall|i: int|
            0 <= i < sizes.len() ==> release_steps(sizes)[#[trigger] finalize_context_offset(sizes, i)]
                == ReleaseStep::FinalizeContext(i as usize),
    decreases sizes.len(),
{
    let n = sizes.len() as int;
    if n > 0 {
        let d = sizes.drop_last();
        let l = n - 1;
        assert(counts_fit(d)) by {
            assert forall|i: int| 0 <= i < d.len() implies #[trigger] d[i] <= usize::MAX by {
                assert(d[i] == sizes[i]);
            }
        }
        lemma_release_layout(d);
        let sd = release_steps(d);
        let ss = release_steps(sizes);
        let tail = plugin_release_steps(l, sizes.last());
        assert(ss == sd + tail);
        assert(sizes.take(l) =~= d);
        assert(d.take(l) =~= d);
        assert(sd.len() == release_offset(sizes, l));
        assert forall|i: int, j: int| 0 <= i < n && 0 <= j < sizes[i] implies ss[#[trigger] finalize_check_offset(
            sizes,
            i,
            j,
        )] == ReleaseStep::FinalizeCheck(check_position(i, j)) by {
            if i < l {
                assert(d.take(i) =~= sizes.take(i));
                assert(d[i] == sizes[i]);
                lemma_release_offset_monotone(d, i, l);
                assert(sd[finalize_check_offset(d, i, j)] == ReleaseStep::FinalizeCheck(check_position(i, j)));
            } else {
                assert(tail[j] == ReleaseStep::FinalizeCheck(check_position(l, j)));
            }
        }
        assert forall|i: int| 0 <= i < n implies ss[#[trigger] finalize_context_offset(sizes, i)]
            == ReleaseStep::FinalizeContext(i as usize) by {
            if i < l {
                assert(d.take(i) =~= sizes.take(i));
                assert(d[i] == sizes[i]);
                lemma_release_offset_monotone(d, i, l);
                assert(sd[finalize_context_offset(d, i)] == ReleaseStep::FinalizeContext(i as usize));
            } else {
                assert(tail[sizes.last() as int] == ReleaseStep::FinalizeContext(l as usize));
            }
        }
    } else {
        assert(sizes.take(0) =~= sizes);
    }
}

/// Adding a plugin's checks to the order adds its number of checks.
pub proof fn lemma_offset_step(sizes: Seq<nat>, i: int)
    requires
        0 <= i < sizes.len(),
    ensures
        offset(sizes, i + 1) == offset(sizes, i) + sizes[i],
        check_positions(sizes.take(i + 1)) == check_positions(sizes.take(i)) + plugin_positions(i, sizes[i]),
{
    assert(sizes.take(i + 1).drop_last() =~= sizes.take(i));
}

/// All plugins' checks together.
pub proof fn lemma_offset_total(sizes: Seq<nat>)
    ensures
        offset(sizes, sizes.len() as int) == check_positions(sizes).len(),
{
    assert(sizes.take(sizes.len() as int) =~= sizes);
}

/// The checks before plugin `i` are no more than those before plugin `j`,
/// for `i <= j`.
pub proof fn lemma_offset_monotone(sizes: Seq<nat>, i: int, j: int)
    requires
        0 <= i <= j <= sizes.len(),
    ensures
        offset(sizes, i) <= offset(sizes, j),
        j < sizes.len() ==> offset(sizes, i) <= offset(sizes, j) + sizes[j],
    decreases j - i,
{
    if i < j {
        lemma_offset_monotone(sizes, i, j - 1);
        lemma_offset_step(sizes, j - 1);
    }
    if j < sizes.len() {
        lemma_offset_step(sizes, j);
    }
}

/// Positions fit in `usize`: there are no more plugins, nor checks in any
/// plugin, than a `usize` counts (which holds of everything in memory).
pub open spec fn counts_fit(sizes: Seq<nat>) -> bool {
    &&& sizes.len() <= usize::MAX
    &&& forall|i: int| 0 <= i < sizes.len() ==> #[trigger] sizes[i] <= usize::MAX
}

/// Check `j` of plugin `i`.
pub open spec fn check_position(i: int, j: int) -> CheckPosition {
    CheckPosition { plugin: i as usize, check: j as usize }
}

/// The step of the round of checks at which check `j` of plugin `i` runs.
pub open spec fn position_of(sizes: Seq<nat>, i: int, j: int) -> int {
    offset(sizes, i) + j
}

/// `p` names an existing check, and the round of checks reaches it at step
/// `k`.
pub open spec fn is_check_at(sizes: Seq<nat>, p: CheckPosition, k: int) -> bool {
    &&& p.plugin < sizes.len()
    &&& p.check < sizes[p.plugin as int]
    &&& k == position_of(sizes, p.plugin as int, p.check as int)
}

/// The round of checks reaches check `j` of plugin `i` at position
/// `offset(sizes, i) + j`.
pub proof fn lemma_check_position(sizes: Seq<nat>, i: int, j: int)
    requires
        0 <= i < sizes.len(),
        0 <= j < sizes[i],
    ensures
        offset(sizes, i) + j < check_positions(sizes).len(),
        check_positions(sizes)[offset(sizes, i) + j] == (CheckPosition {
            plugin: i as usize,
            check: j as usize,
        }),
    decreases sizes.len(),
{
    let d = sizes.drop_last();
    if i == sizes.len() - 1 {
        assert(sizes.take(i) =~= d);
    } else {
        lemma_check_position(d, i, j);
        assert(d.take(i) =~= sizes.take(i));
    }
}

/// Every position of the round of checks is check `j` of some plugin `i`.
pub proof fn lemma_locate_check(sizes: Seq<nat>, k: int) -> (r: (int, int))
    requires
        0 <= k < check_positions(sizes).len(),
    ensures
        0 <= r.0 < sizes.len(),
        0 <= r.1 < sizes[r.0],
        offset(sizes, r.0) + r.1 == k,
    decreases sizes.len(),
{
    let d = sizes.drop_last();
    let i = sizes.len() - 1;
    assert(sizes.take(i) =~= d);
    if k < check_positions(d).len() {
        let (a, b) = lemma_locate_check(d, k);
        assert(d.take(a) =~= sizes.take(a));
        (a, b)
    } else {
        (i, k - check_positions(d).len())
    }
}

/// A round of checks performs every check of every plugin exactly once:
/// as many steps as there are checks, each naming an existing check, and
/// check `j` of plugin `i` at exactly one step, the one at
/// `offset(sizes, i) + j`; so plugins come in name order, each plugin's
/// checks together and in name order.
pub proof fn lemma_round_covers_each_check_once(sizes: Seq<nat>)
    requires
        counts_fit(sizes),
    ensures
        forall|k: int|
            0 <= k < check_positions(sizes).len() ==> is_check_at(
                sizes,
                #[trigger] check_positions(sizes)[k],
                k,
            ),
        forall|i: int, j: int|
            0 <= i < sizes.len() && 0 <= j < sizes[i] ==> #[trigger] position_of(sizes, i, j)
                < check_positions(sizes).len() && check_positions(sizes)[position_of(sizes, i, j)]
                == check_position(i, j),
{
    assert forall|k: int| 0 <= k < check_positions(sizes).len() implies is_check_at(
        sizes,
        #[trigger] check_positions(sizes)[k],
        k,
    ) by {
        let (i, j) = lemma_locate_check(sizes, k);
        lemma_check_position(sizes, i, j);
    }
    assert forall|i: int, j: int| 0 <= i < sizes.len() && 0 <= j < sizes[i] implies #[trigger] position_of(
        sizes,
        i,
        j,
    ) < check_positions(sizes).len() && check_positions(sizes)[position_of(sizes, i, j)]
        == check_position(i, j) by {
        lemma_check_position(sizes, i, j);
    }
}

/// The service is reported healthy exactly when every one of its checks
/// passed.
pub proof fn lemma_report_ok_iff_all_checks_passed<P, C>(
    ps: Seq<(Seq<char>, Plugin<P, C>)>,
    rs: Seq<CheckResultView>,
)
    requires
        rs.len() == check_positions(check_counts(ps)).len(),
    ensures
        health_report(ps, rs).ok <==> (forall|k: int| 0 <= k < rs.len() ==> (#[trigger] rs[k]).ok),
{
    let sizes = check_counts(ps);
    lemma_offset_total(sizes);
    if forall|k: int| 0 <= k < rs.len() ==> (#[trigger] rs[k]).ok {
        assert forall|i: int| 0 <= i < ps.len() implies (#[trigger] plugin_report_at(ps, rs, i)).ok by {
            lemma_offset_monotone(sizes, i, ps.len() as int);
            lemma_offset_monotone(sizes, i + 1, ps.len() as int);
            lemma_offset_step(sizes, i);
            let o = offset(sizes, i) as int;
            let n = ps[i].1.spec_checks().len();
            let sub = rs.subrange(o, o + n);
            assert forall|j: int| 0 <= j < ps[i].1.check_names().len() implies (#[trigger] sub[j]).ok by {
                assert(sub[j] == rs[o + j]);
            }
        }
    }
    if health_report(ps, rs).ok {
        assert forall|k: int| 0 <= k < rs.len() implies (#[trigger] rs[k]).ok by {
            let (i, j) = lemma_locate_check(sizes, k);
            assert(plugin_report_at(ps, rs, i).ok);
            lemma_offset_monotone(sizes, i, ps.len() as int);
            lemma_offset_monotone(sizes, i + 1, ps.len() as int);
            lemma_offset_step(sizes, i);
            let o = offset(sizes, i) as int;
            let n = ps[i].1.spec_checks().len();
            let sub = rs.subrange(o, o + n);
            assert(sub[j] == rs[k]);
        }
    }
}

/// The health endpoint's body, for the report of a round in which every
/// check could be performed, begins with `{"ok":true` exactly when every
/// check passed.
pub proof fn lemma_round_json_healthy_iff_all_passed<P, C>(
    ps: Seq<(Seq<char>, Plugin<P, C>)>,
    rs: Seq<CheckResultView>,
)
    requires
        rs.len() == check_positions(check_counts(ps)).len(),
    ensures
        starts_with(report_json(health_report(ps, rs)), "{\"ok\":true"@) <==> (forall|k: int|
            0 <= k < rs.len() ==> (#[trigger] rs[k]).ok),
{
    let h = health_report(ps, rs);
    let j = report_json(h);
    lemma_report_ok_iff_all_checks_passed(ps, rs);
    lemma_report_json_begins_with_ok(h);
    reveal_strlit("{\"ok\":");
    reveal_strlit("{\"ok\":true");
    reveal_strlit("true");
    reveal_strlit("false");
    reveal_strlit(",\"plugins\":");
    let p = "{\"ok\":"@ + (if h.ok {
        "true"@
    } else {
        "false"@
    }) + ",\"plugins\":"@;
    let t = "{\"ok\":true"@;
    assert(j.take(p.len() as int) == p);
    if h.ok {
        assert(j.take(t.len() as int) =~= t) by {
            assert forall|x: int| 0 <= x < t.len() implies j.take(t.len() as int)[x] == t[x] by {
                assert(j[x] == p[x]);
            }
        }
    } else {
        assert(p[6] == 'f');
        assert(j[6] == p[6]);
        assert(t[6] == 't');
        if starts_with(j, t) {
            assert(j.take(t.len() as int)[6] == t[6]);
        }
    }
}

/// A round of checks in progress: the checks to perform, in order, the
/// results of those performed so far, and the error that ended the round
/// early, if one did.
pub struct ChecksRun {
    order: Vec<CheckPosition>,
    results: Vec<PluginCheckResult>,
    error: Option<String>,
}

impl ChecksRun {
    /// The checks of the round, in the order they are performed.
    pub closed spec fn spec_order(self) -> Seq<CheckPosition> {
        self.order@
    }

    /// The results of the checks performed so far, in order.
    pub closed spec fn spec_results(self) -> Seq<CheckResultView> {
        self.results@.map_values(|x: PluginCheckResult| x@)
    }

    /// The error message of the check that could not be performed, if any.
    pub closed spec fn spec_error(self) -> Option<Seq<char>> {
        match self.error {
            Some(e) => Some(e@),
            None => None,
        }
    }

    pub open spec fn wf(self) -> bool {
        &&& self.spec_results().len() <= self.spec_order().len()
        &&& self.spec_error() is Some ==> self.spec_results().len() < self.spec_order().len()
    }

    /// No check is left to perform: one failed to run, or all have run.
    pub open spec fn finished(self) -> bool {
        self.spec_error() is Some || self.spec_results().len() == self.spec_order().len()
    }

    /// The check to perform next, or `None` when the round is over.
    pub fn next_check(&self) -> (r: Option<CheckPosition>)
        requires
            self.wf(),
        ensures
            r == (if self.finished() {
                None
            } else {
                Some(self.spec_order()[self.spec_results().len() as int])
            }),
    {
        if self.error.is_some() || self.results.len() == self.order.len() {
            None
        } else {
            Some(self.order[self.results.len()])
        }
    }

    /// Whether the round is over.
    pub fn is_finished(&self) -> (r: bool)
        requires
            self.wf(),
        ensures
            r == self.finished(),
    {
        self.error.is_some() || self.results.len() == self.order.len()
    }

    /// Records the outcome of the check that `next_check` named: a result is
    /// kept and the round goes on; an error ends the round.
    pub fn record(&mut self, outcome: Result<PluginCheckResult, String>)
        requires
            old(self).wf(),
            !old(self).finished(),
        ensures
            final(self).wf(),
            final(self).spec_order() == old(self).spec_order(),
            match outcome {
                Ok(res) => final(self).spec_results() == old(self).spec_results().push(res@)
                    && final(self).spec_error() is None,
                Err(e) => final(self).spec_results() == old(self).spec_results()
                    && final(self).spec_error() == Some(e@),
            },
    {
        match outcome {
            Ok(res) => {
                let ghost before = self.results@;
                self.results.push(res);
                proof {
                    assert(self.results@.map_values(|x: PluginCheckResult| x@) =~= before.map_values(
                        |x: PluginCheckResult| x@,
                    ).push(res@));
                }
            },
            Err(e) => {
                self.error = Some(e);
            },
        }
    }
}

/// After a round of checks in which every check could be performed, there
/// is one result per check, and the service is reported healthy exactly when
/// each check passed.
pub proof fn lemma_round_reports_ok_iff_all_passed<P, C>(plugins: Plugins<P, C>, run: ChecksRun)
    requires
        run.wf(),
        run.finished(),
        run.spec_error() is None,
        run.spec_order() == check_positions(plugins.spec_check_counts()),
    ensures
        run.spec_results().len() == check_positions(plugins.spec_check_counts()).len(),
        health_report(plugins.spec_plugins(), run.spec_results()).ok <==> (forall|k: int|
            0 <= k < run.spec_results().len() ==> (#[trigger] run.spec_results()[k]).ok),
{
    lemma_report_ok_iff_all_checks_passed(plugins.spec_plugins(), run.spec_results());
}

/// A release in progress: the steps to perform, in order, how many have
/// succeeded so far, and the error that ended the release early, if one did.
/// A failing step ends the release: no later step is performed, and the
/// failure's error is the release's outcome.
pub struct ReleaseRun {
    steps: Vec<ReleaseStep>,
    done: usize,
    error: Option<String>,
}

impl ReleaseRun {
    /// The steps of the release, in the order they are performed.
    pub closed spec fn spec_steps(self) -> Seq<ReleaseStep> {
        self.steps@
    }

    /// The number of steps performed so far that succeeded.
    pub closed spec fn spec_done(self) -> nat {
        self.done as nat
    }

    /// The error of the step that failed, if one did.
    pub closed spec fn spec_error(self) -> Option<Seq<char>> {
        match self.error {
            Some(e) => Some(e@),
            None => None,
        }
    }

    pub open spec fn wf(self) -> bool {
        &&& self.spec_done() <= self.spec_steps().len()
        &&& self.spec_error() is Some ==> self.spec_done() < self.spec_steps().len()
    }

    /// No step is left to perform: one failed, or all succeeded.
    pub open spec fn finished(self) -> bool {
        self.spec_error() is Some || self.spec_done() == self.spec_steps().len()
    }

    /// A release that performs `steps` in order.
    pub fn new(steps: Vec<ReleaseStep>) -> (r: Self)
        ensures
            r.wf(),
            r.spec_steps() == steps@,
            r.spec_done() == 0,
            r.spec_error() is None,
    {
        ReleaseRun { steps, done: 0, error: None }
    }

    /// The step to perform next, or `None` when the release is over.
    pub fn next_step(&self) -> (r: Option<ReleaseStep>)
        requires
            self.wf(),
        ensures
            r == (if self.finished() {
                None
            } else {
                Some(self.spec_steps()[self.spec_done() as int])
            }),
    {
        if self.error.is_some() || self.done == self.steps.len() {
            None
        } else {
            Some(self.steps[self.done])
        }
    }

    /// Records the outcome of the step that `next_step` named: a success
    /// moves on to the next step; a failure ends the release.
    pub fn record(&mut self, outcome: Result<(), String>)
        requires
            old(self).wf(),
            !old(self).finished(),
        ensures
            final(self).wf(),
            final(self).spec_steps() == old(self).spec_steps(),
            match outcome {
                Ok(_) => final(self).spec_done() == old(self).spec_done() + 1
                    && final(self).spec_error() is None,
                Err(e) => final(self).spec_done() == old(self).spec_done()
                    && final(self).spec_error() == Some(e@),
            },
    {
        match outcome {
            Ok(_) => {
                let n = self.steps.len();
                assert(self.done < n);
                self.done = self.done + 1;
            },
            Err(e) => {
                self.error = Some(e);
            },
        }
    }

    /// The outcome of a finished release: the error of the step that failed,
    /// if one did; otherwise success, every step having succeeded.
    pub fn outcome(&self) -> (r: Result<(), String>)
        requires
            self.wf(),
            self.finished(),
        ensures
            match self.spec_error() {
                Some(e) => r matches Err(m) && m@ == e,
                None => r is Ok && self.spec_done() == self.spec_steps().len(),
            },
    {
        match &self.error {
            Some(e) => Err(e.clone()),
            None => Ok(()),
        }
    }
}

/// A loaded plugin: its initialized context and its checks by name.
pub struct Plugin<P, C> {
    ctx: P,
    chks: NameMap<C>,
}

impl<P, C> Plugin<P, C> {
    /// The plugin's context handle.
    pub closed spec fn spec_context(self) -> P {
        self.ctx
    }

    /// The plugin's checks, in name order.
    pub closed spec fn spec_checks(self) -> Seq<(Seq<char>, C)> {
        self.chks@
    }

    /// The names of the plugin's checks, in order.
    pub open spec fn check_names(self) -> Seq<Seq<char>> {
        self.spec_checks().map_values(|e: (Seq<char>, C)| e.0)
    }

    pub open spec fn wf(self) -> bool {
        sorted_names(self.spec_checks())
    }

    /// A plugin whose context `ctx` was created and initialized, with no
    /// checks yet.
    pub fn load(ctx: P) -> (r: Self)
        ensures
            r.wf(),
            r.spec_context() == ctx,
            r.spec_checks() == Seq::<(Seq<char>, C)>::empty(),
    {
        Plugin { ctx, chks: NameMap::new() }
    }

    /// The plugin's context handle.
    pub fn context(&self) -> (r: &P)
        ensures
            *r == self.spec_context(),
    {
        &self.ctx
    }

    /// The number of checks.
    pub fn check_count(&self) -> (r: usize)
        ensures
            r == self.spec_checks().len(),
    {
        self.chks.len()
    }

    /// The name of the `i`-th check in name order.
    pub fn check_name(&self, i: usize) -> (r: &String)
        requires
            i < self.spec_checks().len(),
        ensures
            r@ == self.spec_checks()[i as int].0,
    {
        self.chks.name_at(i)
    }

    /// The handle of the `i`-th check in name order.
    pub fn check(&self, i: usize) -> (r: &C)
        requires
            i < self.spec_checks().len(),
        ensures
            *r == self.spec_checks()[i as int].1,
    {
        self.chks.value_at(i)
    }

    /// Adds the initialized check `check` under `name`; a check already
    /// under that name is dropped.
    pub fn add_check(&mut self, name: &str, check: C)
        requires
            old(self).wf(),
        ensures
            final(self).wf(),
            final(self).spec_context() == old(self).spec_context(),
            as_map(final(self).spec_checks()) == as_map(old(self).spec_checks()).insert(
                name@,
                check,
            ),
            has_name(final(self).spec_checks(), name@),
    {
        let _replaced = self.chks.insert(name.to_string(), check);
        assert(as_map(self.spec_checks()).dom().contains(name@));
    }

    /// The steps that release this plugin, at position `index`: finalize its
    /// checks in name order, then its context.
    pub fn release(&self, index: usize) -> (r: Vec<ReleaseStep>)
        ensures
            r@ == plugin_release_steps(index as int, self.spec_checks().len()),
            r@.len() == self.spec_checks().len() + 1,
            forall|j: int|
                0 <= j < self.spec_checks().len() ==> #[trigger] r@[j] == ReleaseStep::FinalizeCheck(
                    check_position(index as int, j),
                ),
            r@[self.spec_checks().len() as int] == ReleaseStep::FinalizeContext(index),
    {
        let n = self.chks.len();
        let mut steps: Vec<ReleaseStep> = Vec::new();
        let mut j: usize = 0;
        while j < n
            invariant
                n == self.spec_checks().len(),
                j <= n,
                steps@ =~= Seq::new(
                    j as nat,
                    |k: int| ReleaseStep::FinalizeCheck(CheckPosition { plugin: index, check: k as usize }),
                ),
            decreases n - j,
        {
            steps.push(ReleaseStep::FinalizeCheck(CheckPosition { plugin: index, check: j }));
            j = j + 1;
        }
        steps.push(ReleaseStep::FinalizeContext(index));
        proof {
            assert(steps@ =~= plugin_release_steps(index as int, n as nat));
        }
        steps
    }

    /// Starts releasing this plugin, at position `index`: its checks are
    /// finalized in name order, then its context; the first failure ends it.
    pub fn start_release(&self, index: usize) -> (r: ReleaseRun)
        ensures
            r.wf(),
            r.spec_steps() == plugin_release_steps(index as int, self.spec_checks().len()),
            r.spec_done() == 0,
            r.spec_error() is None,
    {
        ReleaseRun::new(self.release(index))
    }

    /// Starts a round of this plugin's checks alone, the plugin standing at
    /// position `index`: its checks in name order, the first that cannot be
    /// performed ending the round.
    pub fn start_checks(&self, index: usize) -> (r: ChecksRun)
        ensures
            r.wf(),
            r.spec_order() == plugin_positions(index as int, self.spec_checks().len()),
            r.spec_results() == Seq::<CheckResultView>::empty(),
            r.spec_error() is None,
    {
        let m = self.chks.len();
        let mut order: Vec<CheckPosition> = Vec::new();
        let mut j: usize = 0;
        while j < m
            invariant
                m == self.spec_checks().len(),
                j <= m,
                order@ =~= plugin_positions(index as int, j as nat),
            decreases m - j,
        {
            order.push(CheckPosition { plugin: index, check: j });
            j = j + 1;
        }
        let r = ChecksRun { order, results: Vec::new(), error: None };
        assert(r.spec_results() =~= Seq::<CheckResultView>::empty());
        r
    }

    /// The outcome of a finished round of this plugin's checks: the error of
    /// the check that could not be performed, if one could not (no later
    /// check was performed); otherwise the plugin's report made of every
    /// check's result.
    pub fn round_outcome(&self, run: &ChecksRun) -> (r: Result<PluginChecksResult, String>)
        requires
            run.wf(),
            run.finished(),
            run.spec_order().len() == self.spec_checks().len(),
        ensures
            match run.spec_error() {
                Some(e) => r matches Err(m) && m@ == e,
                None => r matches Ok(rep) && rep@ == plugin_report(
                    self.check_names(),
                    run.spec_results(),
                ),
            },
    {
        if let Some(e) = &run.error {
            return Err(e.clone());
        }
        let rep = self.perform_checks(&run.results, 0);
        proof {
            assert(run.spec_results().subrange(0, self.spec_checks().len() as int) =~= run.spec_results());
        }
        Ok(rep)
    }

    /// The plugin's report from the results of its checks, which stand in
    /// name order in `results` from position `start` on.
    pub fn perform_checks(&self, results: &Vec<PluginCheckResult>, start: usize) -> (r: PluginChecksResult)
        requires
            start + self.spec_checks().len() <= results@.len(),
        ensures
            r@ == plugin_report(
                self.check_names(),
                results@.map_values(|x: PluginCheckResult| x@).subrange(
                    start as int,
                    start + self.spec_checks().len(),
                ),
            ),
            r.ok <==> (forall|j: int|
                0 <= j < self.spec_checks().len() ==> (#[trigger] results@[start + j]).ok),
            r.checks@.len() == self.spec_checks().len(),
            forall|j: int|
                0 <= j < self.spec_checks().len() ==> (#[trigger] r.checks@[j]).0@
                    == self.spec_checks()[j].0 && r.checks@[j].1@ == results@[start + j]@,
    {
        let ghost rs = results@.map_values(|x: PluginCheckResult| x@).subrange(
            start as int,
            start + self.spec_checks().len(),
        );
        let ghost names = self.check_names();
        let n = self.chks.len();
        let total = results.len();
        let mut checks: Vec<(String, PluginCheckResult)> = Vec::new();
        let mut ok = true;
        let mut j: usize = 0;
        while j < n
            invariant
                n == self.spec_checks().len(),
                n == names.len(),
                start + n <= results@.len(),
                total == results@.len(),
                rs == results@.map_values(|x: PluginCheckResult| x@).subrange(start as int, start + n),
                names == self.check_names(),
                j <= n,
                ok == (forall|k: int| 0 <= k < j ==> (#[trigger] rs[k]).ok),
                checks@.map_values(|e: (String, PluginCheckResult)| (e.0@, e.1@)) =~= Seq::new(
                    j as nat,
                    |k: int| (names[k], rs[k]),
                ),
            decreases n - j,
        {
            assert(start + j < total);
            let r = results[start + j].clone();
            assert(r@ == rs[j as int]);
            ok = ok && r.ok;
            let name = self.chks.name_at(j).clone();
            assert(name@ == names[j as int]);
            let ghost before = checks@;
            checks.push((name, r));
            proof {
                assert(checks@ == before.push((name, r)));
                assert(checks@.map_values(|e: (String, PluginCheckResult)| (e.0@, e.1@)) =~= before.map_values(
                    |e: (String, PluginCheckResult)| (e.0@, e.1@),
                ).push((name@, r@)));
            }
            j = j + 1;
        }
        let res = PluginChecksResult { ok, checks };
        assert(res@.checks =~= plugin_report(names, rs).checks);
        proof {
            lemma_plugin_report_ok(names, rs);
            if ok {
                assert forall|j: int| 0 <= j < n implies (#[trigger] results@[start + j]).ok by {
                    assert(rs[j] == results@[start + j]@);
                    assert(rs[j].ok);
                }
            }
            if forall|j: int| 0 <= j < n ==> (#[trigger] results@[start + j]).ok {
                assert forall|j: int| 0 <= j < n implies (#[trigger] rs[j]).ok by {
                    assert(rs[j] == results@[start + j]@);
                    assert(results@[start + j].ok);
                }
            }
            assert forall|j: int| 0 <= j < n implies (#[trigger] res.checks@[j]).0@
                == self.spec_checks()[j].0 && res.checks@[j].1@ == results@[start + j]@ by {
                assert(res@.checks[j] == (names[j], rs[j]));
                assert(names[j] == self.spec_checks()[j].0);
                assert(res@.checks[j] == (res.checks@[j].0@, res.checks@[j].1@));
                assert(rs[j] == results@[start + j]@);
            }
        }
        res
    }
}

/// All loaded plugins by name.
pub struct Plugins<P, C> {
    plugins: NameMap<Plugin<P, C>>,
}

impl<P, C> Plugins<P, C> {
    /// The plugins, in name order.
    pub closed spec fn spec_plugins(self) -> Seq<(Seq<char>, Plugin<P, C>)> {
        self.plugins@
    }

    pub open spec fn wf(self) -> bool {
        &&& sorted_names(self.spec_plugins())
        &&& forall|i: int|
            0 <= i < self.spec_plugins().len() ==> (#[trigger] self.spec_plugins()[i]).1.wf()
    }

    /// No plugins.
    pub fn new() -> (r: Self)
        ensures
            r.wf(),
            r.spec_plugins() == Seq::<(Seq<char>, Plugin<P, C>)>::empty(),
    {
        Plugins { plugins: NameMap::new() }
    }

    /// The number of plugins.
    pub fn plugin_count(&self) -> (r: usize)
        ensures
            r == self.spec_plugins().len(),
    {
        self.plugins.len()
    }

    /// The name of the `i`-th plugin in name order.
    pub fn plugin_name(&self, i: usize) -> (r: &String)
        requires
            i < self.spec_plugins().len(),
        ensures
            r@ == self.spec_plugins()[i as int].0,
    {
        self.plugins.name_at(i)
    }

    /// The `i`-th plugin in name order.
    pub fn plugin(&self, i: usize) -> (r: &Plugin<P, C>)
        requires
            i < self.spec_plugins().len(),
        ensures
            *r == self.spec_plugins()[i as int].1,
    {
        self.plugins.value_at(i)
    }

    /// The numbers of checks of the plugins, in name order.
    pub open spec fn spec_check_counts(self) -> Seq<nat> {
        check_counts(self.spec_plugins())
    }

    /// Starts a round of checks: every check of every plugin, plugin by
    /// plugin in name order, each plugin's checks in name order.
    pub fn start_checks(&self) -> (r: ChecksRun)
        ensures
            r.wf(),
            r.spec_order() == check_positions(self.spec_check_counts()),
            r.spec_results() == Seq::<CheckResultView>::empty(),
            r.spec_error() is None,
            counts_fit(self.spec_check_counts()),
            r.spec_order().len() == sum_counts(self.spec_check_counts()),
            forall|i: int, j: int|
                0 <= i < self.spec_check_counts().len() && 0 <= j < self.spec_check_counts()[i]
                    ==> r.spec_order()[sum_counts(self.spec_check_counts().take(i)) + j] == (
                #[trigger] check_position(i, j)),
            forall|k: int|
                0 <= k < r.spec_order().len() ==> is_check_at(
                    self.spec_check_counts(),
                    #[trigger] r.spec_order()[k],
                    k,
                ),
    {
        let ghost sizes = self.spec_check_counts();
        let n = self.plugins.len();
        let mut order: Vec<CheckPosition> = Vec::new();
        let mut i: usize = 0;
        while i < n
            invariant
                n == self.spec_plugins().len(),
                sizes == self.spec_check_counts(),
                sizes.len() == n,
                i <= n,
                order@ == check_positions(sizes.take(i as int)),
                forall|k: int| 0 <= k < i ==> #[trigger] sizes[k] <= usize::MAX,
            decreases n - i,
        {
            let p = self.plugins.value_at(i);
            let m = p.check_count();
            assert(m == sizes[i as int]);
            let ghost before = order@;
            let mut j: usize = 0;
            while j < m
                invariant
                    j <= m,
                    order@ =~= before + plugin_positions(i as int, j as nat),
                decreases m - j,
            {
                order.push(CheckPosition { plugin: i, check: j });
                j = j + 1;
            }
            proof {
                lemma_offset_step(sizes, i as int);
            }
            i = i + 1;
        }
        proof {
            assert(sizes.take(n as int) =~= sizes);
        }
        let r = ChecksRun { order, results: Vec::new(), error: None };
        assert(r.spec_results() =~= Seq::<CheckResultView>::empty());
        proof {
            lemma_round_covers_each_check_once(sizes);
            lemma_offset_is_sum(sizes, 0);
            assert forall|i: int, j: int|
                0 <= i < sizes.len() && 0 <= j < sizes[i] implies r.spec_order()[sum_counts(
                sizes.take(i),
            ) + j] == (#[trigger] check_position(i, j)) by {
                lemma_offset_is_sum(sizes, i);
                assert(position_of(sizes, i, j) == sum_counts(sizes.take(i)) + j);
            }
        }
        r
    }

    /// Releasing the plugins: plugin by plugin in name order, each plugin's
    /// checks are finalized in name order and then its context. The caller
    /// performs the steps in this order and stops at the first that fails.
    pub fn release(&self) -> (r: Vec<ReleaseStep>)
        ensures
            r@ == release_steps(self.spec_check_counts()),
            r@.len() == self.spec_check_counts().len() + sum_counts(self.spec_check_counts()),
            forall|i: int, j: int|
                0 <= i < self.spec_check_counts().len() && 0 <= j < self.spec_check_counts()[i]
                    ==> r@[#[trigger] finalize_check_offset(self.spec_check_counts(), i, j)]
                    == ReleaseStep::FinalizeCheck(check_position(i, j)),
            forall|i: int|
                0 <= i < self.spec_check_counts().len() ==> r@[#[trigger] finalize_context_offset(
                    self.spec_check_counts(),
                    i,
                )] == ReleaseStep::FinalizeContext(i as usize),
    {
        let ghost sizes = self.spec_check_counts();
        let n = self.plugins.len();
        let mut steps: Vec<ReleaseStep> = Vec::new();
        let mut i: usize = 0;
        while i < n
            invariant
                n == self.spec_plugins().len(),
                sizes == self.spec_check_counts(),
                sizes.len() == n,
                i <= n,
                steps@ == release_steps(sizes.take(i as int)),
                forall|k: int| 0 <= k < i ==> #[trigger] sizes[k] <= usize::MAX,
            decreases n - i,
        {
            let mut more = self.plugins.value_at(i).release(i);
            let m = self.plugins.value_at(i).check_count();
            assert(m == sizes[i as int]);
            let ghost before = steps@;
            steps.append(&mut more);
            proof {
                assert(sizes.take(i + 1).drop_last() =~= sizes.take(i as int));
                assert(steps@ =~= release_steps(sizes.take(i + 1)));
            }
            i = i + 1;
        }
        proof {
            assert(sizes.take(n as int) =~= sizes);
        }
        proof {
            lemma_release_layout(sizes);
        }
        steps
    }

    /// Starts releasing the plugins: plugin by plugin in name order, each
    /// plugin's checks are finalized in name order and then its context; the
    /// first failure ends the release.
    pub fn start_release(&self) -> (r: ReleaseRun)
        ensures
            r.wf(),
            r.spec_steps() == release_steps(self.spec_check_counts()),
            r.spec_done() == 0,
            r.spec_error() is None,
    {
        ReleaseRun::new(self.release())
    }

    /// The outcome of a finished round of checks: the error of the check
    /// that could not be performed, if one could not; otherwise the health
    /// report made of every check's result.
    pub fn perform_checks(&self, run: &ChecksRun) -> (r: Result<PluginsChecksResult, String>)
        requires
            self.wf(),
            run.wf(),
            run.finished(),
            run.spec_order() == check_positions(self.spec_check_counts()),
        ensures
            match run.spec_error() {
                Some(e) => r matches Err(m) && m@ == e,
                None => r matches Ok(rep) && rep@ == health_report(
                    self.spec_plugins(),
                    run.spec_results(),
                ) && (rep.ok <==> (forall|k: int|
                    0 <= k < run.spec_results().len() ==> (#[trigger] run.spec_results()[k]).ok))
                    && run.spec_results().len() == sum_counts(self.spec_check_counts())
                    && rep.plugins@.len() == self.spec_plugins().len() && (forall|i: int|
                    0 <= i < self.spec_plugins().len() ==> (#[trigger] rep.plugins@[i]).0@
                        == self.spec_plugins()[i].0 && rep.plugins@[i].1.checks@.len()
                        == self.spec_plugins()[i].1.spec_checks().len() && (rep.plugins@[i].1.ok <==> (forall|j: int|
                        0 <= j < self.spec_plugins()[i].1.spec_checks().len()
                            ==> (#[trigger] run.spec_results()[sum_counts(
                            self.spec_check_counts().take(i),
                        ) + j]).ok))) && (forall|i: int, j: int|
                    0 <= i < self.spec_plugins().len() && 0 <= j
                        < self.spec_plugins()[i].1.spec_checks().len() ==> (
                    #[trigger] rep.plugins@[i].1.checks@[j]).0@
                        == self.spec_plugins()[i].1.spec_checks()[j].0 && rep.plugins@[i].1.checks@[j].1@
                        == run.spec_results()[sum_counts(self.spec_check_counts().take(i)) + j]),
            },
    {
        if let Some(e) = &run.error {
            return Err(e.clone());
        }
        let ghost ps = self.spec_plugins();
        let ghost sizes = self.spec_check_counts();
        let ghost rs = run.spec_results();
        proof {
            lemma_offset_total(sizes);
        }
        let n = self.plugins.len();
        let total = run.results.len();
        let mut plugins: Vec<(String, PluginChecksResult)> = Vec::new();
        let mut ok = true;
        let mut start: usize = 0;
        let mut i: usize = 0;
        while i < n
            invariant
                n == ps.len(),
                ps == self.spec_plugins(),
                sizes == check_counts(ps),
                rs == run.results@.map_values(|x: PluginCheckResult| x@),
                rs.len() == offset(sizes, n as int),
                total == rs.len(),
                i <= n,
                start == offset(sizes, i as int),
                ok == (forall|k: int| 0 <= k < i ==> (#[trigger] plugin_report_at(ps, rs, k)).ok),
                plugins@.map_values(|e: (String, PluginChecksResult)| (e.0@, e.1@)) =~= Seq::new(
                    i as nat,
                    |k: int| (ps[k].0, plugin_report_at(ps, rs, k)),
                ),
            decreases n - i,
        {
            let p = self.plugins.value_at(i);
            proof {
                lemma_offset_monotone(sizes, i as int + 1, n as int);
                lemma_offset_step(sizes, i as int);
            }
            let pr = p.perform_checks(&run.results, start);
            assert(pr@ == plugin_report_at(ps, rs, i as int));
            ok = ok && pr.ok;
            let name = self.plugins.name_at(i).clone();
            let ghost before = plugins@;
            plugins.push((name, pr));
            proof {
                assert(plugins@.map_values(|e: (String, PluginChecksResult)| (e.0@, e.1@)) =~= before.map_values(
                    |e: (String, PluginChecksResult)| (e.0@, e.1@),
                ).push((name@, pr@)));
            }
            let m = p.check_count();
            assert(start + m <= total);
            start = start + m;
            i = i + 1;
        }
        let rep = PluginsChecksResult { ok, plugins };
        assert(rep@.plugins =~= health_report(ps, rs).plugins);
        proof {
            lemma_offset_is_sum(sizes, 0);
            lemma_report_ok_iff_all_checks_passed(ps, rs);
            assert forall|i: int| 0 <= i < ps.len() implies (#[trigger] rep.plugins@[i]).0@ == ps[i].0
                && rep.plugins@[i].1.checks@.len() == ps[i].1.spec_checks().len()
                && (rep.plugins@[i].1.ok <==> (forall|j: int|
                0 <= j < ps[i].1.spec_checks().len() ==> (#[trigger] rs[sum_counts(sizes.take(i))
                    + j]).ok)) by {
                lemma_offset_is_sum(sizes, i);
                lemma_offset_monotone(sizes, i, ps.len() as int);
                lemma_offset_monotone(sizes, i + 1, ps.len() as int);
                lemma_offset_step(sizes, i);
                assert(rep@.plugins[i] == (rep.plugins@[i].0@, rep.plugins@[i].1@));
                let o = offset(sizes, i) as int;
                let n = ps[i].1.spec_checks().len();
                let sub = rs.subrange(o, o + n);
                lemma_plugin_report_ok(ps[i].1.check_names(), sub);
                assert(rep.plugins@[i].1@.checks.len() == rep.plugins@[i].1.checks@.len());
                if rep.plugins@[i].1.ok {
                    assert forall|j: int| 0 <= j < n implies (#[trigger] rs[sum_counts(sizes.take(i)) + j]).ok by {
                        assert(sub[j] == rs[o + j]);
                        assert(sub[j].ok);
                    }
                }
                if forall|j: int| 0 <= j < n ==> (#[trigger] rs[sum_counts(sizes.take(i)) + j]).ok {
                    assert forall|j: int| 0 <= j < n implies (#[trigger] sub[j]).ok by {
                        assert(sub[j] == rs[o + j]);
                        assert(rs[sum_counts(sizes.take(i)) + j].ok);
                    }
                }
            }
            assert forall|i: int, j: int|
                0 <= i < ps.len() && 0 <= j < ps[i].1.spec_checks().len() implies (#[trigger] rep.plugins@[i].1.checks@[j]).0@
                == ps[i].1.spec_checks()[j].0 && rep.plugins@[i].1.checks@[j].1@ == rs[sum_counts(
                sizes.take(i),
            ) + j] by {
                lemma_offset_is_sum(sizes, i);
                lemma_offset_monotone(sizes, i, ps.len() as int);
                lemma_offset_monotone(sizes, i + 1, ps.len() as int);
                lemma_offset_step(sizes, i);
                let o = offset(sizes, i) as int;
                let n = ps[i].1.spec_checks().len();
                let sub = rs.subrange(o, o + n);
                let names = ps[i].1.check_names();
                lemma_plugin_report_ok(names, sub);
                let pr = rep.plugins@[i].1;
                assert(rep@.plugins[i] == (rep.plugins@[i].0@, pr@));
                assert(pr@ == plugin_report(names, sub));
                assert(pr@.checks[j] == (pr.checks@[j].0@, pr.checks@[j].1@));
                assert(sub[j] == rs[o + j]);
            }
        }
        Ok(rep)
    }

    /// The position of the plugin named `name`, if it was loaded.
    pub fn position(&self, name: &str) -> (r: Option<usize>)
        requires
            self.wf(),
        ensures
            r is None <==> !has_name(self.spec_plugins(), name@),
            r matches Some(i) ==> i < self.spec_plugins().len() && self.spec_plugins()[i as int].0
                == name@,
    {
        self.plugins.find(name)
    }

    /// Keeps the loaded plugin `plugin` under `name`; a plugin already under
    /// that name is dropped.
    pub fn load(&mut self, name: &str, plugin: Plugin<P, C>)
        requires
            old(self).wf(),
            plugin.wf(),
        ensures
            final(self).wf(),
            as_map(final(self).spec_plugins()) == as_map(old(self).spec_plugins()).insert(
                name@,
                plugin,
            ),
            has_name(final(self).spec_plugins(), name@),
    {
        let ghost s = self.plugins@;
        let _replaced = self.plugins.insert(name.to_string(), plugin);
        proof {
            assert(as_map(self.spec_plugins()).dom().contains(name@));
            assert forall|i: int|
                0 <= i < self.spec_plugins().len() implies (#[trigger] self.spec_plugins()[i]).1.wf() by {
                let k = self.spec_plugins()[i].0;
                crate::registry::lemma_name_index(self.spec_plugins(), i);
                if k != name@ {
                    let j = crate::registry::name_index(s, k);
                    crate::registry::lemma_name_index(s, j);
                }
            }
        }
    }

    /// Adds the initialized check `check` under `check_name` to the plugin
    /// named `plugin_name`, which must have been loaded.
    pub fn add_check(&mut self, plugin_name: &str, check_name: &str, check: C)
        requires
            old(self).wf(),
            has_name(old(self).spec_plugins(), plugin_name@),
        ensures
            final(self).wf(),
            as_map(final(self).spec_plugins()).dom() == as_map(old(self).spec_plugins()).dom(),
            forall|k: Seq<char>|
                k != plugin_name@ ==> #[trigger] as_map(final(self).spec_plugins())[k] == as_map(
                    old(self).spec_plugins(),
                )[k],
            as_map(final(self).spec_plugins())[plugin_name@].spec_context() == as_map(
                old(self).spec_plugins(),
            )[plugin_name@].spec_context(),
            as_map(as_map(final(self).spec_plugins())[plugin_name@].spec_checks()) == as_map(
                as_map(old(self).spec_plugins())[plugin_name@].spec_checks(),
            ).insert(check_name@, check),
    {
        let ghost s = self.plugins@;
        let i = self.plugins.find(plugin_name).unwrap();
        proof {
            crate::registry::lemma_name_index(s, i as int);
        }
        let p = self.plugins.value_at_mut(i);
        p.add_check(check_name, check);
        proof {
            let np = self.plugins@[i as int].1;
            lemma_update_value(s, i as int, np);
            assert(self.plugins@ == s.update(i as int, (s[i as int].0, np)));
            assert forall|j: int|
                0 <= j < self.spec_plugins().len() implies (#[trigger] self.spec_plugins()[j]).1.wf() by {
                if j != i {
                    assert(self.spec_plugins()[j] == s[j]);
                }
            }
        }
    }
}

} // verus!
