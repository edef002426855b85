//! The composition algorithm: filtering conditional services, walking the
//! declaration tree depth-first, and emitting the ordered sequence of
//! registration calls that the external router is asked to perform.
//!
//! Composition runs in three steps, each pinned to a spec function of the
//! same shape: `filter_list` drops the services whose build-time flag is
//! off, `walk_list` turns the surviving tree into registration calls with
//! the right prefixes and middleware chains, and `find_conflict` rejects a
//! tree that registers the same method and path twice.

use vstd::prelude::*;

use crate::decl::AppDecl;
use crate::decl::Method;
use crate::decl::ModuleDecl;
use crate::decl::ModuleView;
use crate::decl::NodeView;
use crate::decl::RouteView;
use crate::decl::ServiceDecl;
use crate::decl::ServiceNode;
use crate::decl::ServiceView;
use crate::decl::app_view;
use crate::decl::node_view;
use crate::decl::route_view;
use crate::decl::service_view;
use crate::decl::services_view;
use crate::paths::join_paths;
use crate::paths::join_spec;
use crate::paths::path_is_valid;
use crate::paths::path_ok;

verus! {

/// One registration handed to the external router, in emission order.
#[derive(Debug, PartialEq, Eq)]
pub enum Call {
    /// `registerRoute(method, path, handler, middlewareChain)`: the chain
    /// is outermost-first.
    Route { method: Method, path: Vec<u8>, handler: u64, chain: Vec<u64> },
    /// `mount(prefix, factory)`: an opaque sub-service at the enclosing
    /// scope's prefix (empty at the application root).
    Mount { prefix: Vec<u8>, factory: u64 },
}

/// Ghost image of `Call`.
pub ghost enum CallView {
    Route { method: Method, path: Seq<u8>, handler: u64, chain: Seq<u64> },
    Mount { prefix: Seq<u8>, factory: u64 },
}

impl View for Call {
    type V = CallView;

    open spec fn view(&self) -> CallView {
        match *self {
            Call::Route { method, path, handler, chain } => CallView::Route {
                method,
                path: path@,
                handler,
                chain: chain@,
            },
            Call::Mount { prefix, factory } => CallView::Mount { prefix: prefix@, factory },
        }
    }
}

pub open spec fn calls_view(s: Seq<Call>) -> Seq<CallView> {
    s.map_values(|c: Call| c@)
}

/// A fatal configuration error: composition reports it and stops.
#[derive(Debug, PartialEq, Eq)]
pub enum ComposeError {
    /// A declared path is empty or holds a double slash; the offending
    /// path is carried along.
    InvalidPath(Vec<u8>),
    /// A service's build-time flag is not known to the resolver.
    UnknownFlag(u64),
    /// Two surviving routes registered the same method and path; the
    /// offending pair is carried along.
    RouteConflict(Method, Vec<u8>),
}

/// Ghost image of `ComposeError`.
pub ghost enum ErrView {
    InvalidPath(Seq<u8>),
    UnknownFlag(u64),
    RouteConflict(Method, Seq<u8>),
}

impl View for ComposeError {
    type V = ErrView;

    open spec fn view(&self) -> ErrView {
        match *self {
            ComposeError::InvalidPath(p) => ErrView::InvalidPath(p@),
            ComposeError::UnknownFlag(f) => ErrView::UnknownFlag(f),
            ComposeError::RouteConflict(m, p) => ErrView::RouteConflict(m, p@),
        }
    }
}

/// The build-time predicate resolver: an ordered list of flag settings,
/// where the first entry for a flag decides it.
pub struct FlagSet {
    pub entries: Vec<(u64, bool)>,
}

impl View for FlagSet {
    type V = Seq<(u64, bool)>;

    open spec fn view(&self) -> Seq<(u64, bool)> {
        self.entries@
    }
}

/// The value of `flag` under `entries`: the first matching entry wins,
/// and `None` means the resolver does not know the flag.
pub open spec fn flag_value(entries: Seq<(u64, bool)>, flag: u64) -> Option<bool>
    decreases entries.len(),
{
    if entries.len() == 0 {
        None
    } else if entries[0].0 == flag {
        Some(entries[0].1)
    } else {
        flag_value(entries.subrange(1, entries.len() as int), flag)
    }
}

impl FlagSet {
    /// A resolver that knows no flag.
    pub fn new() -> (r: FlagSet)
        ensures
            r@ == Seq::<(u64, bool)>::empty(),
    {
        FlagSet { entries: Vec::new() }
    }

    /// Appends a setting; a flag already present keeps its first value.
    pub fn set(&mut self, flag: u64, value: bool)
        ensures
            final(self)@ == old(self)@.push((flag, value)),
    {
        self.entries.push((flag, value));
    }

    /// Looks a flag up, exactly as `flag_value` says.
    pub fn get(&self, flag: u64) -> (r: Option<bool>)
        ensures
            r == flag_value(self@, flag),
    {
        let mut i: usize = 0;
        proof {
            assert(self@.subrange(0, self@.len() as int) =~= self@);
        }
        while i < self.entries.len()
            invariant
                i <= self.entries.len(),
                flag_value(self@, flag) == flag_value(
                    self@.subrange(i as int, self@.len() as int),
                    flag,
                ),
            decreases self.entries.len() - i,
        {
            let pair = self.entries[i];
            proof {
                let suffix = self@.subrange(i as int, self@.len() as int);
                assert(suffix[0] == self@[i as int]);
                assert(suffix.subrange(1, suffix.len() as int) =~= self@.subrange(
                    i + 1,
                    self@.len() as int,
                ));
            }
            if pair.0 == flag {
                return Some(pair.1);
            }
            i = i + 1;
        }
        proof {
            assert(self@.subrange(i as int, self@.len() as int) =~= Seq::<(u64, bool)>::empty());
        }
        None
    }
}

/// The registration a route produces in a scope whose accumulated prefix
/// is `prefix` and whose accumulated middleware chain is `mw`: the path
/// is the normalized join, and the chain is the ancestors' middleware,
/// outermost first, followed by the route's own.
pub open spec fn route_call(r: RouteView, prefix: Seq<u8>, mw: Seq<u64>) -> CallView {
    CallView::Route {
        method: r.method,
        path: join_spec(prefix, r.path),
        handler: r.handler,
        chain: mw + r.middleware,
    }
}

/// The calls one service produces, or the first error met.
pub open spec fn walk_service_spec(d: ServiceView, prefix: Seq<u8>, mw: Seq<u64>) -> Result<
    Seq<CallView>,
    ErrView,
>
    decreases d,
{
    match d.node {
        NodeView::Route(r) => if path_ok(r.path) {
            Ok(seq![route_call(r, prefix, mw)])
        } else {
            Err(ErrView::InvalidPath(r.path))
        },
        NodeView::Mount(f) => Ok(seq![CallView::Mount { prefix: prefix, factory: f }]),
        NodeView::Module(m) => walk_module_spec(m, prefix, mw),
    }
}

/// The calls a module produces: first its outer services, registered on
/// the parent scope with the parent's prefix and chain untouched; then
/// its inner services, under the joined prefix with the module's
/// middleware appended to the chain.
pub open spec fn walk_module_spec(m: ModuleView, prefix: Seq<u8>, mw: Seq<u64>) -> Result<
    Seq<CallView>,
    ErrView,
>
    decreases m,
{
    if !path_ok(m.prefix) {
        Err(ErrView::InvalidPath(m.prefix))
    } else {
        match walk_list_spec(m.outer, prefix, mw) {
            Err(e) => Err(e),
            Ok(oc) => match walk_list_spec(
                m.inner,
                join_spec(prefix, m.prefix),
                mw + m.middleware,
            ) {
                Err(e) => Err(e),
                Ok(ic) => Ok(oc + ic),
            },
        }
    }
}

/// The calls a service list produces, in declared order.
pub open spec fn walk_list_spec(list: Seq<ServiceView>, prefix: Seq<u8>, mw: Seq<u64>) -> Result<
    Seq<CallView>,
    ErrView,
>
    decreases list,
{
    if list.len() == 0 {
        Ok(Seq::empty())
    } else {
        match walk_service_spec(list[0], prefix, mw) {
            Err(e) => Err(e),
            Ok(c0) => match walk_list_spec(list.subrange(1, list.len() as int), prefix, mw) {
                Err(e) => Err(e),
                Ok(cs) => Ok(c0 + cs),
            },
        }
    }
}

/// Mapping a concatenation is concatenating the mappings.
proof fn lemma_calls_view_add(a: Seq<Call>, b: Seq<Call>)
    ensures
        calls_view(a + b) == calls_view(a) + calls_view(b),
{
    assert(calls_view(a + b) =~= calls_view(a) + calls_view(b));
}

/// The middleware chain builder: ancestors' chain, outermost first, then
/// the route's own middleware, innermost.
pub fn middleware_chain(ancestor: &Vec<u64>, route_mw: &Vec<u64>) -> (r: Vec<u64>)
    ensures
        r@ == ancestor@ + route_mw@,
{
    let mut r: Vec<u64> = Vec::new();
    let mut i: usize = 0;
    while i < ancestor.len()
        invariant
            i <= ancestor.len(),
            r@ == ancestor@.take(i as int),
        decreases ancestor.len() - i,
    {
        r.push(ancestor[i]);
        assert(r@ =~= ancestor@.take(i + 1));
        i = i + 1;
    }
    let mut j: usize = 0;
    while j < route_mw.len()
        invariant
            j <= route_mw.len(),
            r@ == ancestor@.take(ancestor@.len() as int) + route_mw@.take(j as int),
        decreases route_mw.len() - j,
    {
        r.push(route_mw[j]);
        assert(r@ =~= ancestor@.take(ancestor@.len() as int) + route_mw@.take(j + 1));
        j = j + 1;
    }
    proof {
        assert(r@ =~= ancestor@ + route_mw@);
    }
    r
}

/// Registers one service: routes and mounts become single calls, a
/// module is walked recursively.
pub fn walk_service(d: ServiceDecl, prefix: &Vec<u8>, mw: &Vec<u64>) -> (r: Result<
    Vec<Call>,
    ComposeError,
>)
    ensures
        match r {
            Ok(cs) => walk_service_spec(d@, prefix@, mw@) == Ok::<Seq<CallView>, ErrView>(
                calls_view(cs@),
            ),
            Err(e) => walk_service_spec(d@, prefix@, mw@) == Err::<Seq<CallView>, ErrView>(e@),
        },
    decreases d,
{
    let ghost gd = d;
    match d.node {
        ServiceNode::Route(route) => {
            if path_is_valid(&route.path) {
                let path = join_paths(prefix, &route.path);
                let chain = middleware_chain(mw, &route.middleware);
                let mut cs: Vec<Call> = Vec::new();
                cs.push(Call::Route { method: route.method, path, handler: route.handler, chain });
                proof {
                    assert(calls_view(cs@) =~= seq![route_call(route_view(route), prefix@, mw@)]);
                }
                Ok(cs)
            } else {
                Err(ComposeError::InvalidPath(route.path))
            }
        },
        ServiceNode::Mount(factory) => {
            let mut cs: Vec<Call> = Vec::new();
            let p = copy_bytes(prefix);
            cs.push(Call::Mount { prefix: p, factory });
            proof {
                assert(calls_view(cs@) =~= seq![
                    CallView::Mount { prefix: prefix@, factory: factory },
                ]);
            }
            Ok(cs)
        },
        ServiceNode::Module(m) => walk_module(*m, prefix, mw),
    }
}

/// Registers a whole module, outer services first, then the prefixed and
/// wrapped inner services.
pub fn walk_module(m: ModuleDecl, prefix: &Vec<u8>, mw: &Vec<u64>) -> (r: Result<
    Vec<Call>,
    ComposeError,
>)
    ensures
        match r {
            Ok(cs) => walk_module_spec(m@, prefix@, mw@) == Ok::<Seq<CallView>, ErrView>(
                calls_view(cs@),
            ),
            Err(e) => walk_module_spec(m@, prefix@, mw@) == Err::<Seq<CallView>, ErrView>(e@),
        },
    decreases m,
{
    let ghost gm = m;
    let ModuleDecl { prefix: own_prefix, middleware: own_mw, outer, inner } = m;
    if !path_is_valid(&own_prefix) {
        return Err(ComposeError::InvalidPath(own_prefix));
    }
    let sub_prefix = join_paths(prefix, &own_prefix);
    let sub_mw = middleware_chain(mw, &own_mw);
    let mut out = match walk_list(outer, prefix, mw) {
        Ok(cs) => cs,
        Err(e) => { return Err(e); },
    };
    let mut in_calls = match walk_list(inner, &sub_prefix, &sub_mw) {
        Ok(cs) => cs,
        Err(e) => { return Err(e); },
    };
    proof {
        lemma_calls_view_add(out@, in_calls@);
    }
    out.append(&mut in_calls);
    Ok(out)
}

/// Registers a service list in declared order.
pub fn walk_list(list: Vec<ServiceDecl>, prefix: &Vec<u8>, mw: &Vec<u64>) -> (r: Result<
    Vec<Call>,
    ComposeError,
>)
    ensures
        match r {
            Ok(cs) => walk_list_spec(services_view(list@), prefix@, mw@) == Ok::<
                Seq<CallView>,
                ErrView,
            >(calls_view(cs@)),
            Err(e) => walk_list_spec(services_view(list@), prefix@, mw@) == Err::<
                Seq<CallView>,
                ErrView,
            >(e@),
        },
    decreases list@,
{
    let ghost orig = list@;
    let mut list = list;
    if list.len() == 0 {
        let cs: Vec<Call> = Vec::new();
        proof {
            assert(calls_view(cs@) =~= Seq::<CallView>::empty());
        }
        return Ok(cs);
    }
    let head = list.remove(0);
    proof {
        assert(list@ =~= orig.subrange(1, orig.len() as int));
        assert(decreases_to!(orig => orig.subrange(1, orig.len() as int)));
        crate::decl::lemma_services_view_index(orig);
        crate::decl::lemma_services_view_index(orig.subrange(1, orig.len() as int));
        assert(services_view(orig)[0] == service_view(orig[0]));
        assert(services_view(orig).subrange(1, services_view(orig).len() as int) =~= services_view(
            orig.subrange(1, orig.len() as int),
        ));
    }
    let mut head_calls = match walk_service(head, prefix, mw) {
        Ok(cs) => cs,
        Err(e) => { return Err(e); },
    };
    let mut tail_calls = match walk_list(list, prefix, mw) {
        Ok(cs) => cs,
        Err(e) => { return Err(e); },
    };
    proof {
        lemma_calls_view_add(head_calls@, tail_calls@);
    }
    head_calls.append(&mut tail_calls);
    Ok(head_calls)
}

/// What a node's condition resolves to: whether the node stays. An
/// unconditional node stays.
pub open spec fn cond_on(cond: Option<u64>, flags: Seq<(u64, bool)>) -> bool {
    match cond {
        Option::None => true,
        Option::Some(f) => flag_value(flags, f) == Some(true),
    }
}

/// A node's inside with its conditions resolved: a module's own lists
/// are filtered, any other node is kept as it stands.
pub open spec fn filter_node_spec(n: NodeView, flags: Seq<(u64, bool)>) -> Result<NodeView, ErrView>
    decreases n,
{
    match n {
        NodeView::Module(m) => match filter_module_spec(m, flags) {
            Ok(m2) => Ok(NodeView::Module(m2)),
            Err(e) => Err(e),
        },
        NodeView::Route(r) => Ok(NodeView::Route(r)),
        NodeView::Mount(f) => Ok(NodeView::Mount(f)),
    }
}

/// A module with both of its service lists filtered.
pub open spec fn filter_module_spec(m: ModuleView, flags: Seq<(u64, bool)>) -> Result<
    ModuleView,
    ErrView,
>
    decreases m,
{
    match filter_list_spec(m.outer, flags) {
        Err(e) => Err(e),
        Ok(o2) => match filter_list_spec(m.inner, flags) {
            Err(e) => Err(e),
            Ok(i2) => Ok(
                ModuleView { prefix: m.prefix, middleware: m.middleware, outer: o2, inner: i2 },
            ),
        },
    }
}

/// A service list with every condition resolved once: a node whose flag
/// is off disappears, with the rest keeping their relative order; a node
/// whose flag the resolver does not know is a fatal error; a dropped
/// module's subtree is never visited.
pub open spec fn filter_list_spec(list: Seq<ServiceView>, flags: Seq<(u64, bool)>) -> Result<
    Seq<ServiceView>,
    ErrView,
>
    decreases list,
{
    if list.len() == 0 {
        Ok(Seq::empty())
    } else {
        let rest = list.subrange(1, list.len() as int);
        match list[0].cond {
            Option::Some(f) => match flag_value(flags, f) {
                Option::None => Err(ErrView::UnknownFlag(f)),
                Option::Some(false) => filter_list_spec(rest, flags),
                Option::Some(true) => match filter_node_spec(list[0].node, flags) {
                    Err(e) => Err(e),
                    Ok(n2) => match filter_list_spec(rest, flags) {
                        Err(e) => Err(e),
                        Ok(tail) => Ok(seq![ServiceView { cond: Option::None, node: n2 }] + tail),
                    },
                },
            },
            Option::None => match filter_node_spec(list[0].node, flags) {
                Err(e) => Err(e),
                Ok(n2) => match filter_list_spec(rest, flags) {
                    Err(e) => Err(e),
                    Ok(tail) => Ok(seq![ServiceView { cond: Option::None, node: n2 }] + tail),
                },
            },
        }
    }
}

/// Resolves one node in executable form.
pub fn filter_node(n: ServiceNode, flags: &FlagSet) -> (r: Result<ServiceNode, ComposeError>)
    ensures
        match r {
            Ok(n2) => filter_node_spec(node_view(n), flags@) == Ok::<NodeView, ErrView>(
                node_view(n2),
            ),
            Err(e) => filter_node_spec(node_view(n), flags@) == Err::<NodeView, ErrView>(e@),
        },
    decreases n,
{
    match n {
        ServiceNode::Module(m) => match filter_module(*m, flags) {
            Ok(m2) => Ok(ServiceNode::Module(Box::new(m2))),
            Err(e) => Err(e),
        },
        ServiceNode::Route(r) => Ok(ServiceNode::Route(r)),
        ServiceNode::Mount(f) => Ok(ServiceNode::Mount(f)),
    }
}

/// Filters a module's two lists in executable form.
pub fn filter_module(m: ModuleDecl, flags: &FlagSet) -> (r: Result<ModuleDecl, ComposeError>)
    ensures
        match r {
            Ok(m2) => filter_module_spec(m@, flags@) == Ok::<ModuleView, ErrView>(m2@),
            Err(e) => filter_module_spec(m@, flags@) == Err::<ModuleView, ErrView>(e@),
        },
    decreases m,
{
    let ModuleDecl { prefix: own_prefix, middleware: own_mw, outer, inner } = m;
    let o2 = match filter_list(outer, flags) {
        Ok(l) => l,
        Err(e) => { return Err(e); },
    };
    let i2 = match filter_list(inner, flags) {
        Ok(l) => l,
        Err(e) => { return Err(e); },
    };
    Ok(ModuleDecl { prefix: own_prefix, middleware: own_mw, outer: o2, inner: i2 })
}

/// Filters a service list in executable form.
pub fn filter_list(list: Vec<ServiceDecl>, flags: &FlagSet) -> (r: Result<
    Vec<ServiceDecl>,
    ComposeError,
>)
    ensures
        match r {
            Ok(l2) => filter_list_spec(services_view(list@), flags@) == Ok::<
                Seq<ServiceView>,
                ErrView,
            >(services_view(l2@)),
            Err(e) => filter_list_spec(services_view(list@), flags@) == Err::<
                Seq<ServiceView>,
                ErrView,
            >(e@),
        },
    decreases list@,
{
    let ghost orig = list@;
    let mut list = list;
    if list.len() == 0 {
        let l2: Vec<ServiceDecl> = Vec::new();
        return Ok(l2);
    }
    let head = list.remove(0);
    proof {
        assert(list@ =~= orig.subrange(1, orig.len() as int));
        assert(decreases_to!(orig => orig.subrange(1, orig.len() as int)));
        crate::decl::lemma_services_view_index(orig);
        crate::decl::lemma_services_view_index(orig.subrange(1, orig.len() as int));
        assert(services_view(orig)[0] == service_view(orig[0]));
        assert(services_view(orig).subrange(1, services_view(orig).len() as int) =~= services_view(
            orig.subrange(1, orig.len() as int),
        ));
    }
    let ServiceDecl { cond, node } = head;
    let keep: bool = match cond {
        Option::Some(f) => match flags.get(f) {
            Option::None => { return Err(ComposeError::UnknownFlag(f)); },
            Option::Some(on) => on,
        },
        Option::None => true,
    };
    if !keep {
        return filter_list(list, flags);
    }
    let n2 = match filter_node(node, flags) {
        Ok(n2) => n2,
        Err(e) => { return Err(e); },
    };
    let tail = match filter_list(list, flags) {
        Ok(l) => l,
        Err(e) => { return Err(e); },
    };
    let ghost gtail = tail@;
    let mut l2: Vec<ServiceDecl> = Vec::new();
    l2.push(ServiceDecl { cond: Option::None, node: n2 });
    let mut tail = tail;
    l2.append(&mut tail);
    proof {
        crate::decl::lemma_services_view_index(l2@);
        crate::decl::lemma_services_view_index(gtail);
        assert(services_view(l2@) =~= seq![
            ServiceView { cond: Option::None, node: node_view(n2) },
        ] + services_view(gtail));
    }
    Ok(l2)
}

/// Whether a call is a route registration.
pub open spec fn is_route(c: CallView) -> bool {
    c is Route
}

/// The method of a route call (the mounts never conflict).
pub open spec fn call_method(c: CallView) -> Method {
    match c {
        CallView::Route { method, .. } => method,
        CallView::Mount { .. } => Method::Any,
    }
}

/// The registered path of a call.
pub open spec fn call_path(c: CallView) -> Seq<u8> {
    match c {
        CallView::Route { path, .. } => path,
        CallView::Mount { prefix, .. } => prefix,
    }
}

/// The middleware chain of a route call (a mount carries none).
pub open spec fn call_chain(c: CallView) -> Seq<u64> {
    match c {
        CallView::Route { chain, .. } => chain,
        CallView::Mount { .. } => Seq::empty(),
    }
}

/// The calls of a successful walk, the empty sequence otherwise.
pub open spec fn ok_calls(r: Result<Seq<CallView>, ErrView>) -> Seq<CallView> {
    match r {
        Ok(cs) => cs,
        Err(_) => Seq::empty(),
    }
}

/// The list of a successful filtering, the empty sequence otherwise.
pub open spec fn ok_services(r: Result<Seq<ServiceView>, ErrView>) -> Seq<ServiceView> {
    match r {
        Ok(l) => l,
        Err(_) => Seq::empty(),
    }
}

/// Call `i` repeats the exact method and path of an earlier route.
pub open spec fn conflict_at(cs: Seq<CallView>, i: int) -> bool {
    is_route(cs[i]) && exists|j: int|
        0 <= j < i && is_route(cs[j]) && call_method(cs[j]) == call_method(cs[i]) && call_path(
            cs[j],
        ) == call_path(cs[i])
}

/// The first route that repeats an earlier method-and-path pair, if any,
/// scanning from position `i`.
pub open spec fn find_conflict_spec(cs: Seq<CallView>, i: int) -> Option<(Method, Seq<u8>)>
    decreases cs.len() - i,
{
    if i < 0 || i >= cs.len() {
        None
    } else if conflict_at(cs, i) {
        Some((call_method(cs[i]), call_path(cs[i])))
    } else {
        find_conflict_spec(cs, i + 1)
    }
}

/// Byte equality of two paths.
fn bytes_eq(a: &Vec<u8>, b: &Vec<u8>) -> (r: bool)
    ensures
        r == (a@ == b@),
{
    if a.len() != b.len() {
        return false;
    }
    let mut i: usize = 0;
    while i < a.len()
        invariant
            i <= a.len(),
            a.len() == b.len(),
            forall|k: int| 0 <= k < i ==> a@[k] == b@[k],
        decreases a.len() - i,
    {
        if a[i] != b[i] {
            return false;
        }
        i = i + 1;
    }
    proof {
        assert(a@ =~= b@);
    }
    true
}

/// Finds the first route registration that repeats the exact method and
/// path of an earlier one, and returns the offending pair.
pub fn find_conflict(calls: &Vec<Call>) -> (r: Option<(Method, Vec<u8>)>)
    ensures
        match r {
            Option::Some(pair) => find_conflict_spec(calls_view(calls@), 0) == Some(
                (pair.0, pair.1@),
            ),
            Option::None => find_conflict_spec(calls_view(calls@), 0) is None,
        },
{
    let ghost cs = calls_view(calls@);
    let mut i: usize = 0;
    while i < calls.len()
        invariant
            i <= calls.len(),
            cs == calls_view(calls@),
            cs.len() == calls@.len(),
            find_conflict_spec(cs, 0) == find_conflict_spec(cs, i as int),
        decreases calls.len() - i,
    {
        match &calls[i] {
            Call::Route { method, path, .. } => {
                proof {
                    assert(cs[i as int] == calls@[i as int]@);
                    assert(is_route(cs[i as int]));
                    assert(call_method(cs[i as int]) == *method);
                    assert(call_path(cs[i as int]) == path@);
                }
                let mut j: usize = 0;
                while j < i
                    invariant
                        j <= i < calls.len(),
                        cs == calls_view(calls@),
                        cs.len() == calls@.len(),
                        find_conflict_spec(cs, 0) == find_conflict_spec(cs, i as int),
                        is_route(cs[i as int]),
                        call_method(cs[i as int]) == *method,
                        call_path(cs[i as int]) == path@,
                        forall|k: int|
                            0 <= k < j ==> !(is_route(#[trigger] cs[k]) && call_method(cs[k])
                                == call_method(cs[i as int]) && call_path(cs[k]) == call_path(
                                cs[i as int],
                            )),
                    decreases i - j,
                {
                    match &calls[j] {
                        Call::Route { method: m2, path: p2, .. } => {
                            let same_method = *m2 == *method;
                            let same_path = bytes_eq(p2, path);
                            if same_method && same_path {
                                proof {
                                    assert(cs[j as int] == calls@[j as int]@);
                                    assert(is_route(cs[j as int]));
                                    assert(call_method(cs[j as int]) == *m2);
                                    assert(call_path(cs[j as int]) == p2@);
                                    assert(conflict_at(cs, i as int));
                                    assert(find_conflict_spec(cs, i as int) == Some(
                                        (call_method(cs[i as int]), call_path(cs[i as int])),
                                    ));
                                }
                                return Some((*method, copy_bytes(path)));
                            }
                            proof {
                                assert(cs[j as int] == calls@[j as int]@);
                                assert(call_method(cs[j as int]) == *m2);
                                assert(call_path(cs[j as int]) == p2@);
                            }
                        },
                        Call::Mount { .. } => {
                            proof {
                                assert(cs[j as int] == calls@[j as int]@);
                                assert(!is_route(cs[j as int]));
                            }
                        },
                    }
                    j = j + 1;
                }
                proof {
                    assert(!conflict_at(cs, i as int));
                    assert(find_conflict_spec(cs, i as int) == find_conflict_spec(cs, i + 1));
                }
            },
            Call::Mount { .. } => {
                proof {
                    assert(cs[i as int] == calls@[i as int]@);
                    assert(!is_route(cs[i as int]));
                    assert(!conflict_at(cs, i as int));
                    assert(find_conflict_spec(cs, i as int) == find_conflict_spec(cs, i + 1));
                }
            },
        }
        i = i + 1;
    }
    None
}

/// The whole composition, as one deterministic function of the
/// declaration and the resolved flags: filter the tree, walk it from an
/// empty prefix with the application's middleware as the root chain, and
/// reject a tree that registers one method-and-path pair twice.
pub open spec fn compose_spec(a: crate::decl::AppView, flags: Seq<(u64, bool)>) -> Result<
    Seq<CallView>,
    ErrView,
> {
    match filter_list_spec(a.services, flags) {
        Err(e) => Err(e),
        Ok(fl) => match walk_list_spec(fl, Seq::empty(), a.middleware) {
            Err(e) => Err(e),
            Ok(cs) => match find_conflict_spec(cs, 0) {
                Option::Some(pair) => Err(ErrView::RouteConflict(pair.0, pair.1)),
                Option::None => Ok(cs),
            },
        },
    }
}

/// Composes an application declaration into the ordered sequence of
/// registration calls, or reports the first fatal configuration error.
pub fn compose(app: AppDecl, flags: &FlagSet) -> (r: Result<Vec<Call>, ComposeError>)
    ensures
        match r {
            Ok(cs) => compose_spec(app_view(app), flags@) == Ok::<Seq<CallView>, ErrView>(
                calls_view(cs@),
            ),
            Err(e) => compose_spec(app_view(app), flags@) == Err::<Seq<CallView>, ErrView>(e@),
        },
{
    let AppDecl { middleware, services } = app;
    let filtered = match filter_list(services, flags) {
        Ok(fl) => fl,
        Err(e) => { return Err(e); },
    };
    let root: Vec<u8> = Vec::new();
    proof {
        assert(root@ =~= Seq::<u8>::empty());
    }
    let calls = match walk_list(filtered, &root, &middleware) {
        Ok(cs) => cs,
        Err(e) => { return Err(e); },
    };
    match find_conflict(&calls) {
        Option::Some(pair) => Err(ComposeError::RouteConflict(pair.0, pair.1)),
        Option::None => Ok(calls),
    }
}

/// Byte-for-byte copy of a path.
fn copy_bytes(v: &Vec<u8>) -> (r: Vec<u8>)
    ensures
        r@ == v@,
{
    let mut r: Vec<u8> = Vec::new();
    let mut i: usize = 0;
    while i < v.len()
        invariant
            i <= v.len(),
            r@ == v@.take(i as int),
        decreases v.len() - i,
    {
        r.push(v[i]);
        assert(r@ =~= v@.take(i + 1));
        i = i + 1;
    }
    proof {
        assert(r@ =~= v@);
    }
    r
}

} // verus!
