//! Users, models, prices and telemetry.

use plan_ai_core::ids::Uuid;
use plan_ai_core::metrics::{level_str, Level};
use plan_ai_core::models::{one_or_many, LlmModelEntry, ModelCatalog, OneOrMany};
use plan_ai_core::otel::http::{is_server_error, marks_failure, route_of, span_name, untraced};
use plan_ai_core::otel::{enabled, filter_directives, service_name, EXPORTER_NOISE};
use plan_ai_core::spend::{ModelPricing, PricingTable};
use plan_ai_core::types::{OrgMembership, WebUser};

fn id(n: u128) -> Uuid {
    Uuid { bits: n }
}

fn member(org: u128, role: &str, permissions: &[&str]) -> OrgMembership {
    let mut m = OrgMembership::new(id(org), role);
    assert!(m.permissions.is_empty());
    m.permissions = permissions.iter().map(|p| p.to_string()).collect();
    m
}

fn user(is_admin: bool) -> WebUser {
    WebUser {
        id: id(100),
        email: "me@x".into(),
        name: "Me".into(),
        is_admin,
        org_memberships: vec![
            member(1, "admin", &[]),
            member(2, "write", &["billing"]),
            member(3, "read", &["billing", "buy"]),
            member(4, "read", &[]),
        ],
        impersonating_from: None,
    }
}

#[test]
fn organizations_of_a_user() {
    let u = user(false);
    assert_eq!(u.org_ids(), vec![id(1), id(2), id(3), id(4)]);
    assert_eq!(u.write_org_ids(), vec![id(1), id(2)]);
    assert_eq!(u.permitted_org_ids("billing"), vec![id(1), id(2), id(3)]);
    assert_eq!(u.permitted_org_ids("buy"), vec![id(1), id(3)]);
    assert_eq!(u.permitted_org_ids("nothing"), vec![id(1)]);
}

#[test]
fn permissions_of_a_user() {
    let u = user(false);
    assert!(u.is_org_admin(&id(1)) && !u.is_org_admin(&id(2)));
    assert!(u.has_org_permission(&id(1), "anything"));
    assert!(u.has_org_permission(&id(3), "buy"));
    assert!(!u.has_org_permission(&id(2), "buy"));
    assert!(!u.has_org_permission(&id(9), "buy"));
    let boss = user(true);
    assert!(boss.is_org_admin(&id(9)));
    assert!(boss.has_org_permission(&id(9), "buy"));
}

#[test]
fn admins_are_required() {
    assert_eq!(user(false).require_admin_str(), Err("admin access required"));
    assert_eq!(user(true).require_admin_str(), Ok(()));
    assert_eq!(
        user(false).require_org_admin_str(&id(2)),
        Err("organization admin access required")
    );
    assert_eq!(user(false).require_org_admin_str(&id(1)), Ok(()));
    assert_eq!(user(true).require_org_admin_str(&id(2)), Ok(()));
}

fn entry(
    name: &str,
    model: &str,
    validator: bool,
    validator_only: bool,
    restrict: Vec<String>,
) -> LlmModelEntry<f64> {
    LlmModelEntry {
        name: name.into(),
        model: model.into(),
        provider: "ollama".into(),
        token_budget: None,
        input_cost_per_mtok: None,
        output_cost_per_mtok: None,
        validator,
        validator_only,
        restrict,
    }
}

#[test]
fn catalog_filters_by_type_and_role() {
    let catalog = ModelCatalog::new(vec![
        entry("All", "all", false, false, vec![]),
        entry("HealerOnly", "h", true, false, vec!["healer".into()]),
        entry("Guard", "g", true, true, vec![]),
    ]);
    let chat_models: Vec<&str> =
        catalog.models_for("chat").iter().map(|e| e.model.as_str()).collect();
    assert_eq!(chat_models, vec!["all"]);
    let healer_models: Vec<&str> =
        catalog.models_for("healer").iter().map(|e| e.model.as_str()).collect();
    assert_eq!(healer_models, vec!["all", "h"]);
    let healer_validators: Vec<&str> =
        catalog.validators_for("healer").iter().map(|e| e.model.as_str()).collect();
    assert_eq!(healer_validators, vec!["h", "g"]);
    assert_eq!(catalog.entries().len(), 3);
    assert!(ModelCatalog::<f64>::default().entries().is_empty());
}

#[test]
fn restrictions_are_one_or_many() {
    assert_eq!(one_or_many(OneOrMany::One("healer".into())), vec!["healer"]);
    assert_eq!(
        one_or_many(OneOrMany::Many(vec!["healer".into(), "chat".into()])),
        vec!["healer", "chat"]
    );
}

#[test]
fn models_show_their_provider() {
    let shown = |name: &str, provider: &str| {
        LlmModelEntry::<f64>::basic(name, "m", provider).display_name()
    };
    assert_eq!(shown("Gemma 4", "ollama"), "Gemma 4 (Ollama)");
    assert_eq!(shown("Y", "anthropic"), "Y (Anthropic)");
    assert_eq!(shown("X", "openrouter"), "X (OpenRouter)");
    assert_eq!(shown("X", "openai_compat"), "X (plan.ai Hosted)");
    assert_eq!(shown("X", "local"), "X (local)");
    assert_eq!(shown("My OLLAMA model", "Ollama"), "My OLLAMA model");
}

#[test]
fn models_have_budgets() {
    let e = LlmModelEntry::<f64>::with_budget("n", "m", "p", 7);
    assert_eq!((e.name.as_str(), e.model.as_str(), e.provider.as_str()), ("n", "m", "p"));
    assert_eq!(e.token_budget, Some(7));
    assert!(!e.validator && !e.validator_only && e.restrict.is_empty());
    assert!(e.allows("anything"));
    assert_eq!(LlmModelEntry::<f64>::basic("n", "m", "p").token_budget, None);
}

#[test]
fn prices_of_models() {
    let mut a = entry("A", "a", false, false, vec![]);
    a.input_cost_per_mtok = Some(1.0);
    a.output_cost_per_mtok = Some(5.0);
    let mut half = entry("B", "b", false, false, vec![]);
    half.input_cost_per_mtok = Some(1.0);
    let mut again = entry("A2", "a", false, false, vec![]);
    again.input_cost_per_mtok = Some(9.0);
    let catalog = ModelCatalog::new(vec![a, half, again]);
    assert_eq!(catalog.find("ollama", "a").unwrap().name, "A");
    assert!(catalog.find("other", "a").is_none());
    assert_eq!(catalog.price_of("ollama", "a"), Some((1.0, 5.0)));
    assert_eq!(catalog.price_of("ollama", "b"), None);
    assert_eq!(catalog.price_of("ollama", "c"), None);
}

#[test]
fn rates_of_models() {
    let p = |input, output| ModelPricing {
        provider: "openrouter".to_string(),
        model: "x".to_string(),
        input_cost_per_mtok: input,
        output_cost_per_mtok: output,
    };
    assert_eq!(p(Some(3), Some(15)).rates(0), Some((3, 15)));
    assert_eq!(p(Some(3), None).rates(0), Some((3, 0)));
    assert_eq!(p(None, Some(15)).rates(0), Some((0, 15)));
    assert_eq!(p(None, None).rates(0), None);
    let t = PricingTable(vec![p(Some(1), None), p(Some(2), None)]);
    assert_eq!(t.rates("openrouter", "x", 0), Some((1, 0)));
    assert_eq!(t.rates("openrouter", "y", 0), None);
    assert_eq!(t.find("openrouter", "x").unwrap().input_cost_per_mtok, Some(1));
    assert!(PricingTable::<u64>::default().find("a", "b").is_none());
}

#[test]
fn telemetry_needs_an_endpoint() {
    assert!(!enabled(None, None, None, None));
    assert!(!enabled(None, Some("  "), None, Some("")));
    assert!(enabled(None, Some("http://c"), None, None));
    assert!(enabled(None, None, Some("http://c"), None));
    assert!(enabled(None, None, None, Some("http://c")));
    assert!(!enabled(Some("true"), Some("http://c"), None, None));
    assert!(enabled(Some("TRUE"), Some("http://c"), None, None));
}

#[test]
fn telemetry_settings() {
    assert_eq!(filter_directives(None, "info"), format!("info,{EXPORTER_NOISE}"));
    assert_eq!(filter_directives(Some("debug"), "info"), format!("debug,{EXPORTER_NOISE}"));
    assert!(EXPORTER_NOISE.starts_with("hyper=off,hyper_util=off,"));
    assert!(EXPORTER_NOISE.ends_with(",opentelemetry_otlp=off"));
    assert_eq!(service_name(Some("svc"), "mine"), None);
    assert_eq!(service_name(Some(" "), "mine").as_deref(), Some("mine"));
    assert_eq!(service_name(None, "mine").as_deref(), Some("mine"));
}

#[test]
fn requests_are_named_by_route() {
    assert_eq!(route_of(Some("/orders/{id}")), "/orders/{id}");
    assert_eq!(route_of(None), "unmatched");
    assert_eq!(span_name("GET", "/orders/{id}"), "GET /orders/{id}");
}

#[test]
fn probes_are_not_traced() {
    for path in ["/metrics", "/api/metrics", "/health", "/healthz", "/x/readyz"] {
        assert!(untraced(path));
    }
    for path in ["/orders", "/metrics/", "/metricsx", "metrics", ""] {
        assert!(!untraced(path));
    }
}

#[test]
fn errors_of_the_server() {
    assert!(!is_server_error(499) && is_server_error(500) && is_server_error(599));
    assert!(!is_server_error(600) && !is_server_error(200));
    assert!(!marks_failure(499) && marks_failure(500) && marks_failure(600));
}

#[test]
fn levels_have_names() {
    let names: Vec<&str> =
        [Level::Error, Level::Warn, Level::Info, Level::Debug, Level::Trace].iter().map(level_str).collect();
    assert_eq!(names, vec!["error", "warn", "info", "debug", "trace"]);
}
