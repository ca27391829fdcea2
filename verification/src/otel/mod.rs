//! Whether and how telemetry is exported, from the values of the environment.

use vstd::prelude::*;
use vstd::string::StringExecFns;

use crate::text::{all_white, opt_str, text_eq, text_is_white};

pub mod http;

verus! {

/// Log directives that silence the exporter's own HTTP stack: its spans would
/// be exported, and exporting them would make more of them.
pub const EXPORTER_NOISE: &'static str = "hyper=off,hyper_util=off,h2=off,reqwest=off,tower=off,opentelemetry=off,opentelemetry_sdk=off,opentelemetry_otlp=off";

/// Whether a variable of the environment says something.
pub open spec fn says(value: Option<Seq<char>>) -> bool {
    value matches Some(v) && !all_white(v)
}

/// Whether a variable of the environment says something.
pub fn is_set(value: Option<&str>) -> (r: bool)
    ensures
        r == says(opt_str(value)),
{
    match value {
        Some(v) => !text_is_white(v),
        None => false,
    }
}

/// Whether telemetry is exported: an endpoint is configured, and the exporter
/// is not switched off.
pub fn enabled(
    sdk_disabled: Option<&str>,
    endpoint: Option<&str>,
    traces_endpoint: Option<&str>,
    metrics_endpoint: Option<&str>,
) -> (r: bool)
    ensures
        r == (opt_str(sdk_disabled) != Some("true"@) && (says(opt_str(endpoint)) || says(
            opt_str(traces_endpoint),
        ) || says(opt_str(metrics_endpoint)))),
{
    if let Some(v) = sdk_disabled {
        if text_eq(v, "true") {
            return false;
        }
    }
    is_set(endpoint) || is_set(traces_endpoint) || is_set(metrics_endpoint)
}

/// The log directives: those of the environment or else the default ones, with
/// the exporter's own stack silenced.
pub fn filter_directives(from_env: Option<&str>, default_filter: &str) -> (r: String)
    ensures
        r@ == (match opt_str(from_env) {
            Some(v) => v,
            None => default_filter@,
        }) + ","@ + EXPORTER_NOISE@,
{
    let base: &str = match from_env {
        Some(v) => v,
        None => default_filter,
    };
    let mut s = base.to_owned();
    s.append(",");
    s.append(EXPORTER_NOISE);
    s
}

/// The name to give the service, where the environment gives none.
pub fn service_name(from_env: Option<&str>, service: &str) -> (r: Option<String>)
    ensures
        if says(opt_str(from_env)) {
            r is None
        } else {
            r matches Some(s) && s@ == service@
        },
{
    if is_set(from_env) {
        None
    } else {
        Some(service.to_owned())
    }
}

/// A variable says something exactly where it is set and not blank.
pub proof fn variables_say_something_unless_blank(value: Option<Seq<char>>)
    ensures
        value is None ==> !says(value),
        value matches Some(v) ==> (says(value) <==> !all_white(v)),
{
}

/// What the exporter's own stack is silenced with.
pub proof fn the_exporter_is_silenced()
    ensures
        EXPORTER_NOISE@
            == "hyper=off,hyper_util=off,h2=off,reqwest=off,tower=off,opentelemetry=off,opentelemetry_sdk=off,opentelemetry_otlp=off"@,
{
}

}
