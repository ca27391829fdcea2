//! How requests are named and counted. The template of the route is used, and
//! never the path itself, so that a parameter in the path cannot multiply the
//! names of spans or the series of a metric.

use vstd::prelude::*;
use vstd::string::StringExecFns;

use crate::text::{has_suffix, opt_str, text_ends_with};

verus! {

/// The template of a route.
pub open spec fn route_text(matched: Option<Seq<char>>) -> Seq<char> {
    match matched {
        Some(template) => template,
        None => "unmatched"@,
    }
}

/// The template of the route that a request has matched.
pub fn route_of(matched: Option<&str>) -> (r: String)
    ensures
        r@ == route_text(opt_str(matched)),
{
    match matched {
        Some(template) => template.to_owned(),
        None => "unmatched".to_owned(),
    }
}

/// The name of the span of a request.
pub fn span_name(method: &str, route: &str) -> (r: String)
    ensures
        r@ == method@ + " "@ + route@,
{
    let mut s = method.to_owned();
    s.append(" ");
    s.append(route);
    s
}

/// Whether a response tells of an error of the server.
pub fn is_server_error(status: u16) -> (r: bool)
    ensures
        r == (500 <= status < 600),
{
    500 <= status && status < 600
}

/// Whether a response marks the span of its request as failed, where any
/// status from the errors of the server on does.
pub fn marks_failure(status: u16) -> (r: bool)
    ensures
        r == (status >= 500),
{
    status >= 500
}

/// Whether a path is that of a probe or a scrape.
pub open spec fn is_probe(path: Seq<char>) -> bool {
    has_suffix(path, "/metrics"@) || has_suffix(path, "/health"@) || has_suffix(path, "/healthz"@)
        || has_suffix(path, "/readyz"@)
}

/// Whether a path gets no span: probes and scrapes come all the time. A prefix
/// that the routes are mounted under does not matter.
pub fn untraced(path: &str) -> (r: bool)
    ensures
        r == is_probe(path@),
{
    text_ends_with(path, "/metrics") || text_ends_with(path, "/health") || text_ends_with(
        path,
        "/healthz",
    ) || text_ends_with(path, "/readyz")
}

/// Mounting routes under a prefix does not bring a probe back into the traces.
pub proof fn probes_stay_untraced(prefix: Seq<char>, path: Seq<char>)
    requires
        is_probe(path),
    ensures
        is_probe(prefix + path),
{
    let whole = prefix + path;
    assert forall|part: Seq<char>| has_suffix(path, part) implies #[trigger] has_suffix(
        whole,
        part,
    ) by {
        assert(whole.skip(whole.len() - part.len()) =~= path.skip(path.len() - part.len()));
    }
}

/// A request that has matched a route goes by its template, and any other by
/// one name.
pub proof fn requests_go_by_their_route(template: Seq<char>)
    ensures
        route_text(Some(template)) == template,
        route_text(None) == "unmatched"@,
{
}

proof fn ends_are_suffixes(front: Seq<char>, end: Seq<char>)
    ensures
        has_suffix(front + end, end),
{
    assert((front + end).skip((front + end).len() - end.len()) =~= end);
}

/// Whatever stands in front, the paths of metrics and of health and readiness
/// probes are probes; a path with none of these ends is not.
pub proof fn probes_go_by_their_end(front: Seq<char>, path: Seq<char>)
    ensures
        is_probe(front + "/metrics"@),
        is_probe(front + "/health"@),
        is_probe(front + "/healthz"@),
        is_probe(front + "/readyz"@),
        is_probe(path) ==> exists|x: Seq<char>, end: Seq<char>|
            path == #[trigger] (x + end) && (end == "/metrics"@ || end == "/health"@ || end
                == "/healthz"@ || end == "/readyz"@),
{
    ends_are_suffixes(front, "/metrics"@);
    ends_are_suffixes(front, "/health"@);
    ends_are_suffixes(front, "/healthz"@);
    ends_are_suffixes(front, "/readyz"@);
    if is_probe(path) {
        let end = if has_suffix(path, "/metrics"@) {
            "/metrics"@
        } else if has_suffix(path, "/health"@) {
            "/health"@
        } else if has_suffix(path, "/healthz"@) {
            "/healthz"@
        } else {
            "/readyz"@
        };
        let x = path.take(path.len() - end.len());
        assert(path =~= x + path.skip(path.len() - end.len()));
        assert(path == x + end);
    }
}

}
