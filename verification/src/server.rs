//! The registration surface the host runtime drives, and the server
//! options. The socket work itself (bind, accept, shutdown) lives with the
//! embedder; the decisions here are what it runs on.

use crate::methods::Methods;
use crate::read_only::Router;
use crate::store::RouterError;
use vstd::prelude::*;

verus! {

/// Where the server should listen.
pub struct ServerOptions {
    pub host: String,
    pub port: u16,
}

/// The decimal digits of a number, most significant first.
pub open spec fn spec_dec(n: int) -> Seq<char>
    decreases n,
{
    if n <= 0 {
        Seq::empty()
    } else {
        spec_dec(n / 10).push((((n % 10) + 48) as u8) as char)
    }
}

/// A port as text: its decimal digits, and `0` for zero.
pub open spec fn spec_port_text(n: u16) -> Seq<char> {
    if n == 0 {
        "0"@
    } else {
        spec_dec(n as int)
    }
}

/// The address a server with these options binds: `host:port`.
pub open spec fn spec_bind_address(o: &ServerOptions) -> Seq<char> {
    o.host@ + ":"@ + spec_port_text(o.port)
}

/// Render a port number as decimal text.
#[verifier::loop_isolation(false)]
pub fn port_text(n: u16) -> (r: String)
    ensures
        r@ == spec_port_text(n),
{
    if n == 0 {
        return String::from_str("0");
    }
    let mut digits: Vec<char> = Vec::new();
    let mut rest: u16 = n;
    while rest > 0
        invariant
            0 <= rest <= n,
            spec_dec(n as int) =~= spec_dec(rest as int) + digits@.reverse(),
        decreases rest,
    {
        let d: u16 = rest % 10;
        let c: char = ((d + 48) as u8) as char;
        let ghost prev = digits@;
        digits.push(c);
        rest = rest / 10;
        proof {
            assert(digits@.reverse() =~= seq![c] + prev.reverse());
            assert(spec_dec((rest as int) * 10 + d) == spec_dec(rest as int).push(c));
            assert(spec_dec(n as int) =~= spec_dec(rest as int) + digits@.reverse());
        }
    }
    let mut out = String::new();
    let mut i: usize = digits.len();
    while i > 0
        invariant
            0 <= i <= digits@.len(),
            out@ =~= digits@.subrange(i as int, digits@.len() as int).reverse(),
        decreases i,
    {
        i = i - 1;
        crate::strutil::string_push(&mut out, digits[i]);
        proof {
            assert(out@ =~= digits@.subrange(i as int, digits@.len() as int).reverse());
        }
    }
    assert(digits@.subrange(0, digits@.len() as int) =~= digits@);
    assert(out@ =~= spec_dec(n as int));
    out
}

/// The `host:port` string the listener binds.
pub fn bind_address(options: &ServerOptions) -> (r: String)
    ensures
        r@ == spec_bind_address(options),
{
    let mut out = options.host.clone();
    out.append(":");
    let p = port_text(options.port);
    out.append(p.as_str());
    out
}

/// The sum of two numbers; kept as the surface's self-test hook.
pub fn sum(a: i32, b: i32) -> (r: i32)
    requires
        i32::MIN <= a + b <= i32::MAX,
    ensures
        r == a + b,
{
    a + b
}

/// Register a route with its callback handle.
pub fn new_route_async(router: &mut Router, route: String, method: Methods, callback: u64) -> (r:
    Result<(), RouterError>)
    requires
        old(router).wf(),
    ensures
        final(router).wf(),
        crate::read_only::register_transition(
            *old(router),
            *final(router),
            route@,
            method,
            callback,
            r,
        ),
{
    router.add_new_route(route.as_str(), method, callback)
}

/// The pre-callback-handle registration surface; refused, the async
/// surface replaces it.
pub fn new_route(router: &mut Router, route: String, method: Methods, callback: u64) -> (r: Result<
    (),
    RouterError,
>)
    ensures
        *final(router) == *old(router),
        r matches Err(e) && e == RouterError::LegacyRoute,
{
    let _ = route;
    let _ = method;
    let _ = callback;
    Err(RouterError::LegacyRoute)
}

/// Drop every route.
pub fn cleanup_router(router: &mut Router)
    requires
        old(router).wf(),
    ensures
        final(router).wf(),
        final(router).published(),
        forall|m: Methods| #[trigger] final(router).store.routes(m).len() == 0,
{
    router.cleanup_route();
}

/// Register a GET route.
pub fn get_async(router: &mut Router, route: String, callback: u64) -> (r: Result<(), RouterError>)
    requires
        old(router).wf(),
    ensures
        final(router).wf(),
        crate::read_only::register_transition(
            *old(router),
            *final(router),
            route@,
            Methods::GET,
            callback,
            r,
        ),
{
    router.add_new_route(route.as_str(), Methods::GET, callback)
}

/// Register a POST route.
pub fn post_async(router: &mut Router, route: String, callback: u64) -> (r: Result<(), RouterError>)
    requires
        old(router).wf(),
    ensures
        final(router).wf(),
        crate::read_only::register_transition(
            *old(router),
            *final(router),
            route@,
            Methods::POST,
            callback,
            r,
        ),
{
    router.add_new_route(route.as_str(), Methods::POST, callback)
}

/// Register a PUT route.
pub fn put_async(router: &mut Router, route: String, callback: u64) -> (r: Result<(), RouterError>)
    requires
        old(router).wf(),
    ensures
        final(router).wf(),
        crate::read_only::register_transition(
            *old(router),
            *final(router),
            route@,
            Methods::PUT,
            callback,
            r,
        ),
{
    router.add_new_route(route.as_str(), Methods::PUT, callback)
}

/// Register a PATCH route.
pub fn patch_async(router: &mut Router, route: String, callback: u64) -> (r: Result<
    (),
    RouterError,
>)
    requires
        old(router).wf(),
    ensures
        final(router).wf(),
        crate::read_only::register_transition(
            *old(router),
            *final(router),
            route@,
            Methods::PATCH,
            callback,
            r,
        ),
{
    router.add_new_route(route.as_str(), Methods::PATCH, callback)
}

/// Register a DELETE route.
pub fn del_async(router: &mut Router, route: String, callback: u64) -> (r: Result<(), RouterError>)
    requires
        old(router).wf(),
    ensures
        final(router).wf(),
        crate::read_only::register_transition(
            *old(router),
            *final(router),
            route@,
            Methods::DELETE,
            callback,
            r,
        ),
{
    router.add_new_route(route.as_str(), Methods::DELETE, callback)
}

} // verus!
