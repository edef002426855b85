//! The declaration tree: the data a caller writes down to describe an
//! application, and the ghost model that the contracts speak of.
//!
//! A declaration is pure data. Handlers, middleware units and mount
//! factories are opaque to the composition algorithm: only their identity
//! and their declared order matter, so they are carried as plain `u64`
//! identifiers chosen by the caller.

use vstd::prelude::*;

verus! {

/// The HTTP method a route answers: a closed set.
#[derive(Clone, Copy, Debug, PartialEq, Eq, Structural)]
pub enum Method {
    Get,
    Post,
    Any,
}

/// A single route: method, path (as bytes), handler identity, and the
/// route's own middleware, innermost wrapping, in declared order.
#[derive(Debug, PartialEq, Eq)]
pub struct RouteDecl {
    pub method: Method,
    pub path: Vec<u8>,
    pub handler: u64,
    pub middleware: Vec<u64>,
}

/// One entry of a service list.
#[derive(Debug, PartialEq, Eq)]
pub enum ServiceNode {
    /// An individual route.
    Route(RouteDecl),
    /// An opaque self-dispatching sub-service (for example a static file
    /// server), registered at the enclosing scope's prefix.
    Mount(u64),
    /// A nested module with its own prefix, middleware and service lists.
    Module(Box<ModuleDecl>),
}

/// A service list entry together with its optional build-time condition:
/// the identifier of a feature flag that decides inclusion.
#[derive(Debug, PartialEq, Eq)]
pub struct ServiceDecl {
    pub cond: Option<u64>,
    pub node: ServiceNode,
}

/// A module: a prefixed sub-scope. `inner` services are registered under
/// `prefix` with `middleware` appended to the ancestor chain; `outer`
/// services are registered on the parent scope, untouched by either.
#[derive(Debug, PartialEq, Eq)]
pub struct ModuleDecl {
    pub prefix: Vec<u8>,
    pub middleware: Vec<u64>,
    pub outer: Vec<ServiceDecl>,
    pub inner: Vec<ServiceDecl>,
}

/// The top-level application declaration: no prefix, one service list.
#[derive(Debug, PartialEq, Eq)]
pub struct AppDecl {
    pub middleware: Vec<u64>,
    pub services: Vec<ServiceDecl>,
}

/// Ghost image of `RouteDecl`.
pub ghost struct RouteView {
    pub method: Method,
    pub path: Seq<u8>,
    pub handler: u64,
    pub middleware: Seq<u64>,
}

/// Ghost image of `ServiceNode`.
pub ghost enum NodeView {
    Route(RouteView),
    Mount(u64),
    Module(ModuleView),
}

/// Ghost image of `ServiceDecl`.
pub ghost struct ServiceView {
    pub cond: Option<u64>,
    pub node: NodeView,
}

/// Ghost image of `ModuleDecl`.
pub ghost struct ModuleView {
    pub prefix: Seq<u8>,
    pub middleware: Seq<u64>,
    pub outer: Seq<ServiceView>,
    pub inner: Seq<ServiceView>,
}

/// Ghost image of `AppDecl`.
pub ghost struct AppView {
    pub middleware: Seq<u64>,
    pub services: Seq<ServiceView>,
}

pub open spec fn route_view(r: RouteDecl) -> RouteView {
    RouteView {
        method: r.method,
        path: r.path@,
        handler: r.handler,
        middleware: r.middleware@,
    }
}

pub open spec fn node_view(n: ServiceNode) -> NodeView
    decreases n,
{
    match n {
        ServiceNode::Route(r) => NodeView::Route(route_view(r)),
        ServiceNode::Mount(f) => NodeView::Mount(f),
        ServiceNode::Module(m) => NodeView::Module(module_view(*m)),
    }
}

pub open spec fn service_view(d: ServiceDecl) -> ServiceView
    decreases d,
{
    ServiceView { cond: d.cond, node: node_view(d.node) }
}

pub open spec fn services_view(s: Seq<ServiceDecl>) -> Seq<ServiceView>
    decreases s,
{
    if s.len() == 0 {
        Seq::empty()
    } else {
        seq![service_view(s[0])] + services_view(s.subrange(1, s.len() as int))
    }
}

/// `services_view` maps the list elementwise.
pub proof fn lemma_services_view_index(s: Seq<ServiceDecl>)
    ensures
        services_view(s).len() == s.len(),
        forall|i: int| 0 <= i < s.len() ==> (#[trigger] services_view(s)[i]) == service_view(s[i]),
    decreases s,
{
    if s.len() > 0 {
        let rest = s.subrange(1, s.len() as int);
        lemma_services_view_index(rest);
        assert forall|i: int| 0 <= i < s.len() implies (#[trigger] services_view(s)[i])
            == service_view(s[i]) by {
            if i > 0 {
                assert(services_view(s)[i] == services_view(rest)[i - 1]);
                assert(rest[i - 1] == s[i]);
            }
        }
    }
}

pub open spec fn module_view(m: ModuleDecl) -> ModuleView
    decreases m,
{
    ModuleView {
        prefix: m.prefix@,
        middleware: m.middleware@,
        outer: services_view(m.outer@),
        inner: services_view(m.inner@),
    }
}

pub open spec fn app_view(a: AppDecl) -> AppView {
    AppView { middleware: a.middleware@, services: services_view(a.services@) }
}

impl View for ServiceDecl {
    type V = ServiceView;

    open spec fn view(&self) -> ServiceView {
        service_view(*self)
    }
}

impl View for ModuleDecl {
    type V = ModuleView;

    open spec fn view(&self) -> ModuleView {
        module_view(*self)
    }
}

impl View for AppDecl {
    type V = AppView;

    open spec fn view(&self) -> AppView {
        app_view(*self)
    }
}

} // verus!
