use dsvchc::config::{CheckConfig, Config, PluginConfig, ServerConfig as FileServerConfig, StartupStep};
use dsvchc::plugins::{CheckPosition, Plugin, Plugins, ReleaseStep};
use dsvchc::registry::NameMap;
use dsvchc::report::{PluginCheckResult, PluginChecksResult, PluginsChecksResult};
use dsvchc::sample_plugin::Ctx;
use dsvchc::server::{
    health_response, not_found_response, route, Route, Server, ServerConfig,
};

fn pos(plugin: usize, check: usize) -> CheckPosition {
    CheckPosition { plugin, check }
}

fn passed(extra: &str) -> PluginCheckResult {
    PluginCheckResult { ok: true, extra: extra.to_string() }
}

fn failed(extra: &str) -> PluginCheckResult {
    PluginCheckResult { ok: false, extra: extra.to_string() }
}

/// Plugins "web" (checks "tls", "http") and "db" (check "ping"), and
/// "empty" without checks; handles are numbers.
fn sample_plugins() -> Plugins<u32, u32> {
    let mut ps: Plugins<u32, u32> = Plugins::new();
    ps.load("web", Plugin::load(1));
    ps.load("db", Plugin::load(2));
    ps.load("empty", Plugin::load(3));
    ps.add_check("web", "tls", 10);
    ps.add_check("web", "http", 11);
    ps.add_check("db", "ping", 20);
    ps
}

#[test]
fn plugins_are_kept_in_name_order() {
    let ps = sample_plugins();
    assert_eq!(ps.plugin_count(), 3);
    assert_eq!(ps.plugin_name(0), "db");
    assert_eq!(ps.plugin_name(1), "empty");
    assert_eq!(ps.plugin_name(2), "web");
    assert_eq!(*ps.plugin(0).context(), 2);
    assert_eq!(*ps.plugin(2).context(), 1);
    assert_eq!(ps.plugin(2).check_count(), 2);
    assert_eq!(ps.plugin(2).check_name(0), "http");
    assert_eq!(ps.plugin(2).check_name(1), "tls");
    assert_eq!(*ps.plugin(2).check(0), 11);
    assert_eq!(ps.plugin(1).check_count(), 0);
}

#[test]
fn loading_a_plugin_again_replaces_it() {
    let mut ps = sample_plugins();
    ps.load("db", Plugin::load(9));
    assert_eq!(ps.plugin_count(), 3);
    assert_eq!(*ps.plugin(0).context(), 9);
    assert_eq!(ps.plugin(0).check_count(), 0);
}

#[test]
fn position_of_plugins() {
    let ps = sample_plugins();
    assert_eq!(ps.position("db"), Some(0));
    assert_eq!(ps.position("web"), Some(2));
    assert_eq!(ps.position("cache"), None);
}

#[test]
fn adding_a_check_again_replaces_it() {
    let mut ps = sample_plugins();
    ps.add_check("db", "ping", 21);
    assert_eq!(ps.plugin(0).check_count(), 1);
    assert_eq!(*ps.plugin(0).check(0), 21);
}

#[test]
fn round_visits_every_check_in_order() {
    let ps = sample_plugins();
    let mut run = ps.start_checks();
    let mut seen = Vec::new();
    while let Some(p) = run.next_check() {
        seen.push(p);
        run.record(Ok(passed("{}")));
    }
    assert_eq!(seen, vec![pos(0, 0), pos(2, 0), pos(2, 1)]);
    assert!(run.is_finished());
}

#[test]
fn healthy_report_and_its_json() {
    let ps = sample_plugins();
    let mut run = ps.start_checks();
    assert_eq!(run.next_check(), Some(pos(0, 0)));
    run.record(Ok(passed("{\"ms\":3}")));
    run.record(Ok(passed("{}")));
    run.record(Ok(passed("null")));
    assert_eq!(run.next_check(), None);
    let report = ps.perform_checks(&run).unwrap();
    assert!(report.ok);
    assert_eq!(report.plugins.len(), 3);
    assert_eq!(
        report.to_json(),
        "{\"ok\":true,\"plugins\":{\"db\":{\"ok\":true,\"checks\":{\"ping\":{\"ok\":true,\"extra\":{\"ms\":3}}}},\"empty\":{\"ok\":true,\"checks\":{}},\"web\":{\"ok\":true,\"checks\":{\"http\":{\"ok\":true,\"extra\":{}},\"tls\":{\"ok\":true,\"extra\":null}}}}}"
    );
}

#[test]
fn one_failed_check_makes_plugin_and_service_unhealthy() {
    let ps = sample_plugins();
    let mut run = ps.start_checks();
    run.record(Ok(passed("{}")));
    run.record(Ok(failed("{\"status\":503}")));
    run.record(Ok(passed("{}")));
    let report = ps.perform_checks(&run).unwrap();
    assert!(!report.ok);
    assert!(report.plugins[0].1.ok);
    assert!(report.plugins[1].1.ok);
    assert!(!report.plugins[2].1.ok);
    assert_eq!(
        report.plugins[2].1.to_json(),
        "{\"ok\":false,\"checks\":{\"http\":{\"ok\":false,\"extra\":{\"status\":503}},\"tls\":{\"ok\":true,\"extra\":{}}}}"
    );
}

#[test]
fn error_ends_round_and_is_returned() {
    let ps = sample_plugins();
    let mut run = ps.start_checks();
    run.record(Ok(passed("{}")));
    assert_eq!(run.next_check(), Some(pos(2, 0)));
    run.record(Err("plugin crashed".to_string()));
    assert_eq!(run.next_check(), None);
    assert!(run.is_finished());
    match ps.perform_checks(&run) {
        Err(e) => assert_eq!(e, "plugin crashed"),
        Ok(_) => panic!("expected an error"),
    }
}

#[test]
fn round_without_plugins() {
    let ps: Plugins<u32, u32> = Plugins::new();
    let run = ps.start_checks();
    assert_eq!(run.next_check(), None);
    let report = ps.perform_checks(&run).unwrap();
    assert!(report.ok);
    assert_eq!(report.to_json(), "{\"ok\":true,\"plugins\":{}}");
}

#[test]
fn release_finalizes_checks_then_context_plugin_by_plugin() {
    let ps = sample_plugins();
    assert_eq!(
        ps.release(),
        vec![
            ReleaseStep::FinalizeCheck(pos(0, 0)),
            ReleaseStep::FinalizeContext(0),
            ReleaseStep::FinalizeContext(1),
            ReleaseStep::FinalizeCheck(pos(2, 0)),
            ReleaseStep::FinalizeCheck(pos(2, 1)),
            ReleaseStep::FinalizeContext(2),
        ]
    );
    assert_eq!(
        ps.plugin(2).release(2),
        vec![
            ReleaseStep::FinalizeCheck(pos(2, 0)),
            ReleaseStep::FinalizeCheck(pos(2, 1)),
            ReleaseStep::FinalizeContext(2),
        ]
    );
}

#[test]
fn release_stops_at_first_failure() {
    let ps = sample_plugins();
    let mut run = ps.start_release();
    assert_eq!(run.next_step(), Some(ReleaseStep::FinalizeCheck(pos(0, 0))));
    run.record(Ok(()));
    assert_eq!(run.next_step(), Some(ReleaseStep::FinalizeContext(0)));
    run.record(Ok(()));
    assert_eq!(run.next_step(), Some(ReleaseStep::FinalizeContext(1)));
    run.record(Err("context 1 busy".to_string()));
    assert_eq!(run.next_step(), None);
    assert_eq!(run.outcome(), Err("context 1 busy".to_string()));
}

#[test]
fn release_succeeds_when_every_step_does() {
    let ps = sample_plugins();
    let mut run = ps.start_release();
    let mut n = 0;
    while let Some(_) = run.next_step() {
        run.record(Ok(()));
        n += 1;
    }
    assert_eq!(n, 6);
    assert_eq!(run.outcome(), Ok(()));
    let mut one = ps.plugin(2).start_release(2);
    assert_eq!(one.next_step(), Some(ReleaseStep::FinalizeCheck(pos(2, 0))));
    one.record(Err("tls stuck".to_string()));
    assert_eq!(one.next_step(), None);
    assert_eq!(one.outcome(), Err("tls stuck".to_string()));
}

#[test]
fn plugin_round_stops_at_first_error() {
    let ps = sample_plugins();
    let web = ps.plugin(2);
    let mut run = web.start_checks(2);
    assert_eq!(run.next_check(), Some(pos(2, 0)));
    run.record(Err("http down".to_string()));
    assert_eq!(run.next_check(), None);
    match web.round_outcome(&run) {
        Err(e) => assert_eq!(e, "http down"),
        Ok(_) => panic!("expected an error"),
    }
}

#[test]
fn plugin_round_reports_every_check() {
    let ps = sample_plugins();
    let web = ps.plugin(2);
    let mut run = web.start_checks(2);
    let mut seen = Vec::new();
    while let Some(p) = run.next_check() {
        seen.push(p);
        run.record(Ok(if p.check == 0 { failed("1") } else { passed("2") }));
    }
    assert_eq!(seen, vec![pos(2, 0), pos(2, 1)]);
    let r = web.round_outcome(&run).unwrap();
    assert!(!r.ok);
    assert_eq!(r.checks[0].0, "http");
    assert_eq!(r.checks[1].0, "tls");
    assert_eq!(r.checks[1].1.extra, "2");
    let empty = ps.plugin(1);
    let run = empty.start_checks(1);
    assert_eq!(run.next_check(), None);
    assert!(empty.round_outcome(&run).unwrap().ok);
}

#[test]
fn plugin_report_from_results() {
    let ps = sample_plugins();
    let results = vec![passed("1"), failed("2"), passed("3")];
    let r = ps.plugin(2).perform_checks(&results, 1);
    assert!(!r.ok);
    assert_eq!(r.checks.len(), 2);
    assert_eq!(r.checks[0].0, "http");
    assert_eq!(r.checks[0].1.extra, "2");
    assert_eq!(r.checks[1].0, "tls");
    assert_eq!(r.checks[1].1.extra, "3");
}

#[test]
fn report_json_quotes_names() {
    let r = PluginsChecksResult {
        ok: false,
        plugins: vec![(
            "we\"ird".to_string(),
            PluginChecksResult {
                ok: false,
                checks: vec![("a\\b".to_string(), failed("[]"))],
            },
        )],
    };
    assert_eq!(
        r.to_json(),
        "{\"ok\":false,\"plugins\":{\"we\\\"ird\":{\"ok\":false,\"checks\":{\"a\\\\b\":{\"ok\":false,\"extra\":[]}}}}}"
    );
    assert_eq!(passed("{}").to_json(), "{\"ok\":true,\"extra\":{}}");
}

#[test]
fn routing() {
    assert_eq!(route(true, "/health"), Route::Health);
    assert_eq!(route(true, "/health?verbose=1"), Route::Health);
    assert_eq!(route(true, "/health?"), Route::Health);
    assert_eq!(route(false, "/health"), Route::NotFound);
    assert_eq!(route(true, "/healthz"), Route::NotFound);
    assert_eq!(route(true, "/health/"), Route::NotFound);
    assert_eq!(route(true, "/heal"), Route::NotFound);
    assert_eq!(route(true, "/"), Route::NotFound);
    assert_eq!(route(true, ""), Route::NotFound);
    assert_eq!(route(true, "?/health"), Route::NotFound);
    assert_eq!(route(true, "/Health"), Route::NotFound);
}

#[test]
fn responses() {
    let r = not_found_response();
    assert_eq!(r.status, 404);
    assert!(r.content_type.is_none());
    assert_eq!(r.body, "NOT FOUND");
    let h = health_response("{\"ok\":true,\"plugins\":{}}".to_string());
    assert_eq!(h.status, 200);
    assert_eq!(h.content_type, Some("application/json".to_string()));
    assert_eq!(h.body, "{\"ok\":true,\"plugins\":{}}");
}

#[test]
fn listen_address_in_decimal() {
    assert_eq!(ServerConfig { port: 8080 }.listen_address(), "0.0.0.0:8080");
    assert_eq!(ServerConfig { port: 0 }.listen_address(), "0.0.0.0:0");
    assert_eq!(ServerConfig { port: 9 }.listen_address(), "0.0.0.0:9");
    assert_eq!(ServerConfig { port: 10 }.listen_address(), "0.0.0.0:10");
    assert_eq!(ServerConfig { port: 65535 }.listen_address(), "0.0.0.0:65535");
}

#[test]
fn server_new_keeps_settings_and_plugins() {
    let conf = ServerConfig { port: 80 };
    let ps = sample_plugins();
    let srv = Server::new(&conf, &ps);
    assert_eq!(srv.conf().port, 80);
    assert_eq!(srv.plugins().plugin_count(), 3);
}

fn sample_config() -> Config {
    let mut web_checks = NameMap::new();
    web_checks.insert("tls".to_string(), CheckConfig { conf_path: "tls.yaml".to_string() });
    web_checks.insert("http".to_string(), CheckConfig { conf_path: "http.yaml".to_string() });
    let mut plugins = NameMap::new();
    plugins.insert(
        "web".to_string(),
        PluginConfig {
            path: "libweb.so".to_string(),
            conf_path: "web.yaml".to_string(),
            checks: web_checks,
        },
    );
    plugins.insert(
        "db".to_string(),
        PluginConfig {
            path: "libdb.so".to_string(),
            conf_path: "db.yaml".to_string(),
            checks: NameMap::new(),
        },
    );
    Config { server: FileServerConfig { port: 9000 }, plugins }
}

#[test]
fn startup_loads_each_plugin_then_its_checks() {
    let c = sample_config();
    assert_eq!(
        c.startup_steps(),
        vec![
            StartupStep::LoadPlugin(0),
            StartupStep::LoadPlugin(1),
            StartupStep::AddCheck(1, 0),
            StartupStep::AddCheck(1, 1),
        ]
    );
    assert_eq!(c.plugins.name_at(0), "db");
    assert_eq!(c.plugins.value_at(1).checks.name_at(0), "http");
    assert_eq!(c.server_config().port, 9000);
}

#[test]
fn sample_plugin_answers() {
    let _ctx = Ctx::new();
    assert_eq!(Ctx::initialize(), 0);
    assert_eq!(Ctx::check_initialize(), 0);
    assert_eq!(Ctx::check_perform(), 0);
    assert_eq!(Ctx::check_result_json(), "{}");
    assert_eq!(Ctx::check_finalize(), 0);
    assert_eq!(Ctx::finalize(), 0);
}

#[test]
fn sample_plugin_result_is_reported() {
    let outcome = dsvchc::protocol::perform_outcome(
        Ctx::check_perform(),
        Ctx::check_result_json().to_string(),
    )
    .unwrap()
    .unwrap();
    assert!(outcome.ok);
    assert_eq!(outcome.extra, "{}");
}
