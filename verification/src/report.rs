//! The health report: the result of each check, of each plugin and of the
//! whole service, and the JSON text the health endpoint answers with.

use vstd::prelude::*;
use crate::json::{bool_json, json_bool, json_members, json_object, push_member, starts_with};

verus! {

/// What one check reported: whether it passed, and the JSON value it gave
/// along with its verdict.
#[derive(Debug)]
pub struct PluginCheckResult {
    pub ok: bool,
    pub extra: String,
}

impl Clone for PluginCheckResult {
    fn clone(&self) -> (r: Self)
        ensures
            r == *self,
    {
        PluginCheckResult { ok: self.ok, extra: self.extra.clone() }
    }
}

/// A check's result, as values.
pub struct CheckResultView {
    pub ok: bool,
    pub extra: Seq<char>,
}

impl View for PluginCheckResult {
    type V = CheckResultView;

    open spec fn view(&self) -> CheckResultView {
        CheckResultView { ok: self.ok, extra: self.extra@ }
    }
}

/// The results of the checks of one plugin, in check-name order; `ok` holds
/// when every one of them passed.
#[derive(Debug)]
pub struct PluginChecksResult {
    pub ok: bool,
    pub checks: Vec<(String, PluginCheckResult)>,
}

/// A plugin's results, as values.
pub struct PluginReportView {
    pub ok: bool,
    pub checks: Seq<(Seq<char>, CheckResultView)>,
}

impl View for PluginChecksResult {
    type V = PluginReportView;

    open spec fn view(&self) -> PluginReportView {
        PluginReportView {
            ok: self.ok,
            checks: self.checks@.map_values(|e: (String, PluginCheckResult)| (e.0@, e.1@)),
        }
    }
}

/// The results of all plugins, in plugin-name order; `ok` holds when every
/// plugin's does.
#[derive(Debug)]
pub struct PluginsChecksResult {
    pub ok: bool,
    pub plugins: Vec<(String, PluginChecksResult)>,
}

/// The whole report, as values.
pub struct HealthReportView {
    pub ok: bool,
    pub plugins: Seq<(Seq<char>, PluginReportView)>,
}

impl View for PluginsChecksResult {
    type V = HealthReportView;

    open spec fn view(&self) -> HealthReportView {
        HealthReportView {
            ok: self.ok,
            plugins: self.plugins@.map_values(|e: (String, PluginChecksResult)| (e.0@, e.1@)),
        }
    }
}

/// `{"ok":<ok>,"extra":<extra>}`
pub open spec fn check_json(r: CheckResultView) -> Seq<char> {
    "{\"ok\":"@ + json_bool(r.ok) + ",\"extra\":"@ + r.extra + "}"@
}

/// The members `name: {check}` of a plugin's `checks` object.
pub open spec fn check_members(cs: Seq<(Seq<char>, CheckResultView)>) -> Seq<(Seq<char>, Seq<char>)> {
    cs.map_values(|e: (Seq<char>, CheckResultView)| (e.0, check_json(e.1)))
}

/// `{"ok":<ok>,"checks":{<name>:<check>,...}}`
pub open spec fn plugin_json(r: PluginReportView) -> Seq<char> {
    "{\"ok\":"@ + json_bool(r.ok) + ",\"checks\":"@ + json_object(check_members(r.checks)) + "}"@
}

/// The members `name: {plugin}` of the report's `plugins` object.
pub open spec fn plugin_members(ps: Seq<(Seq<char>, PluginReportView)>) -> Seq<(Seq<char>, Seq<char>)> {
    ps.map_values(|e: (Seq<char>, PluginReportView)| (e.0, plugin_json(e.1)))
}

/// `{"ok":<ok>,"plugins":{<name>:<plugin>,...}}`
pub open spec fn report_json(r: HealthReportView) -> Seq<char> {
    "{\"ok\":"@ + json_bool(r.ok) + ",\"plugins\":"@ + json_object(plugin_members(r.plugins)) + "}"@
}

/// The JSON text of `b`: `true` or `false`.
pub proof fn lemma_json_bool(b: bool)
    ensures
        json_bool(b) == (if b {
            "true"@
        } else {
            "false"@
        }),
{
}

/// A check's JSON begins with its own verdict, then its extra value's key.
pub proof fn lemma_check_json_begins_with_ok(r: CheckResultView)
    ensures
        starts_with(
            check_json(r),
            "{\"ok\":"@ + (if r.ok {
                "true"@
            } else {
                "false"@
            }) + ",\"extra\":"@,
        ),
{
    let p = "{\"ok\":"@ + json_bool(r.ok) + ",\"extra\":"@;
    assert(check_json(r).take(p.len() as int) =~= p);
}

/// A plugin's JSON begins with its own verdict, whatever its checks are.
pub proof fn lemma_plugin_json_begins_with_ok(r: PluginReportView)
    ensures
        starts_with(
            plugin_json(r),
            "{\"ok\":"@ + (if r.ok {
                "true"@
            } else {
                "false"@
            }) + ",\"checks\":"@,
        ),
{
    let p = "{\"ok\":"@ + json_bool(r.ok) + ",\"checks\":"@;
    assert(plugin_json(r).take(p.len() as int) =~= p);
}

/// The report's JSON begins with the service's own verdict, whatever its
/// plugins are: `{"ok":true,"plugins":` exactly when the report is ok.
pub proof fn lemma_report_json_begins_with_ok(r: HealthReportView)
    ensures
        starts_with(
            report_json(r),
            "{\"ok\":"@ + (if r.ok {
                "true"@
            } else {
                "false"@
            }) + ",\"plugins\":"@,
        ),
{
    let p = "{\"ok\":"@ + json_bool(r.ok) + ",\"plugins\":"@;
    assert(report_json(r).take(p.len() as int) =~= p);
}

impl PluginCheckResult {
    /// The result as JSON text.
    pub fn to_json(&self) -> (r: String)
        ensures
            r@ == check_json(self@),
            starts_with(
                r@,
                "{\"ok\":"@ + (if self.ok {
                    "true"@
                } else {
                    "false"@
                }) + ",\"extra\":"@,
            ),
    {
        let mut out = String::new();
        out.append("{\"ok\":");
        out.append(bool_json(self.ok));
        out.append(",\"extra\":");
        out.append(self.extra.as_str());
        out.append("}");
        proof {
            assert(out@ =~= check_json(self@));
            lemma_check_json_begins_with_ok(self@);
        }
        out
    }
}

impl PluginChecksResult {
    /// The results as JSON text.
    pub fn to_json(&self) -> (r: String)
        ensures
            r@ == plugin_json(self@),
            starts_with(
                r@,
                "{\"ok\":"@ + (if self.ok {
                    "true"@
                } else {
                    "false"@
                }) + ",\"checks\":"@,
            ),
    {
        let ghost ms = check_members(self@.checks);
        let mut out = String::new();
        out.append("{\"ok\":");
        out.append(bool_json(self.ok));
        out.append(",\"checks\":");
        let ghost prefix = out@;
        out.append("{");
        proof {
            reveal_strlit("{");
            assert(json_members(ms.take(0)) =~= Seq::<char>::empty());
            assert(out@ =~= prefix + seq!['{'] + json_members(ms.take(0)));
        }
        let n = self.checks.len();
        let mut i: usize = 0;
        while i < n
            invariant
                n == self.checks@.len(),
                ms == check_members(self@.checks),
                i <= n,
                out@ == prefix + seq!['{'] + json_members(ms.take(i as int)),
            decreases n - i,
        {
            let value = self.checks[i].1.to_json();
            proof {
                assert(ms.take(i as int).push((self.checks@[i as int].0@, value@)) =~= ms.take(i + 1));
            }
            push_member(
                &mut out,
                Ghost(prefix),
                Ghost(ms.take(i as int)),
                i,
                self.checks[i].0.as_str(),
                value.as_str(),
            );
            i = i + 1;
        }
        out.append("}");
        out.append("}");
        proof {
            reveal_strlit("}");
            assert(ms.take(n as int) =~= ms);
            assert(out@ =~= plugin_json(self@));
            lemma_plugin_json_begins_with_ok(self@);
        }
        out
    }
}

impl PluginsChecksResult {
    /// The report as JSON text: the body the health endpoint answers with.
    pub fn to_json(&self) -> (r: String)
        ensures
            r@ == report_json(self@),
            starts_with(
                r@,
                "{\"ok\":"@ + (if self.ok {
                    "true"@
                } else {
                    "false"@
                }) + ",\"plugins\":"@,
            ),
    {
        let ghost ms = plugin_members(self@.plugins);
        let mut out = String::new();
        out.append("{\"ok\":");
        out.append(bool_json(self.ok));
        out.append(",\"plugins\":");
        let ghost prefix = out@;
        out.append("{");
        proof {
            reveal_strlit("{");
            assert(json_members(ms.take(0)) =~= Seq::<char>::empty());
            assert(out@ =~= prefix + seq!['{'] + json_members(ms.take(0)));
        }
        let n = self.plugins.len();
        let mut i: usize = 0;
        while i < n
            invariant
                n == self.plugins@.len(),
                ms == plugin_members(self@.plugins),
                i <= n,
                out@ == prefix + seq!['{'] + json_members(ms.take(i as int)),
            decreases n - i,
        {
            let value = self.plugins[i].1.to_json();
            proof {
                assert(ms.take(i as int).push((self.plugins@[i as int].0@, value@)) =~= ms.take(i + 1));
            }
            push_member(
                &mut out,
                Ghost(prefix),
                Ghost(ms.take(i as int)),
                i,
                self.plugins[i].0.as_str(),
                value.as_str(),
            );
            i = i + 1;
        }
        out.append("}");
        out.append("}");
        proof {
            reveal_strlit("}");
            assert(ms.take(n as int) =~= ms);
            assert(out@ =~= report_json(self@));
            lemma_report_json_begins_with_ok(self@);
        }
        out
    }
}

} // verus!
