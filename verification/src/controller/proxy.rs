//! The decisions of the proxy handler: which route a request takes and what is done with it.
use vstd::prelude::*;

use crate::config::model::RouteConfig;
use crate::textops::{occurs_at_exec, seq_starts_with, str_chars, str_eq};

verus! {

/// What the proxy does with a route.
#[derive(Debug, Clone, Copy, PartialEq, Eq, Structural)]
pub enum ProxyAction {
    Block,
    Bypass,
    Mask,
}

/// The route serves a request with this method and path (after `/proxy/`): same method,
/// and the exact path, or else the path prefix, when given.
pub open spec fn route_serves(r: RouteConfig, method: Seq<char>, route_path: Seq<char>) -> bool {
    &&& r.route_match.method@ == method
    &&& if r.route_match.path@.len() > 0 {
        route_path == r.route_match.path@
    } else if r.route_match.path_prefix@.len() > 0 {
        seq_starts_with(route_path, r.route_match.path_prefix@)
    } else {
        false
    }
}

fn starts_with_str(s: &str, prefix: &str) -> (r: bool)
    ensures
        r == seq_starts_with(s@, prefix@),
{
    let a = str_chars(s);
    let b = str_chars(prefix);
    occurs_at_exec(a.as_slice(), b.as_slice(), 0)
}

/// The first route that serves the request.
pub fn find_proxy_route(routes: &Vec<RouteConfig>, method: &str, route_path: &str) -> (r: Option<usize>)
    ensures
        match r {
            Some(i) => i < routes@.len() && route_serves(routes@[i as int], method@, route_path@)
                && forall|j: int| 0 <= j < i ==> !route_serves(#[trigger] routes@[j], method@, route_path@),
            None => forall|j: int| 0 <= j < routes@.len() ==> !route_serves(#[trigger] routes@[j], method@, route_path@),
        },
{
    let mut i: usize = 0;
    while i < routes.len()
        invariant
            i <= routes@.len(),
            forall|j: int| 0 <= j < i ==> !route_serves(#[trigger] routes@[j], method@, route_path@),
        decreases routes.len() - i,
    {
        let m = &routes[i].route_match;
        let method_match = str_eq(m.method.as_str(), method);
        let path_match = if !m.path.as_str().is_empty() {
            str_eq(route_path, m.path.as_str())
        } else if !m.path_prefix.as_str().is_empty() {
            starts_with_str(route_path, m.path_prefix.as_str())
        } else {
            false
        };
        if method_match && path_match {
            return Some(i);
        }
        i += 1;
    }
    None
}

/// The route part of a proxied path: what follows `/proxy/`, empty otherwise.
pub fn route_path_of(path: &str) -> (r: String)
    ensures
        seq_starts_with(path@, "/proxy/"@) ==> r@ == path@.skip(7),
        !seq_starts_with(path@, "/proxy/"@) ==> r@.len() == 0,
{
    let cs = str_chars(path);
    let p = str_chars("/proxy/");
    proof {
        reveal_strlit("/proxy/");
    }
    if occurs_at_exec(cs.as_slice(), p.as_slice(), 0) {
        let rest = vstd::slice::slice_subrange(cs.as_slice(), 7, cs.len());
        assert(rest@ =~= path@.skip(7));
        crate::textops::string_from_chars(rest)
    } else {
        String::new()
    }
}

/// What the proxy does with a route: `block` refuses, `bypass` forwards unmasked,
/// anything else masks.
pub fn proxy_action(action: &Option<String>) -> (r: ProxyAction)
    ensures
        r == match action {
            Some(a) => if a@ == "block"@ {
                ProxyAction::Block
            } else if a@ == "bypass"@ {
                ProxyAction::Bypass
            } else {
                ProxyAction::Mask
            },
            None => ProxyAction::Mask,
        },
{
    match action {
        Some(a) => if str_eq(a.as_str(), "block") {
            ProxyAction::Block
        } else if str_eq(a.as_str(), "bypass") {
            ProxyAction::Bypass
        } else {
            ProxyAction::Mask
        },
        None => ProxyAction::Mask,
    }
}

} // verus!
