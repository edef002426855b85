//! The guarantees the composition engine gives its callers, each proved
//! once and for all over the spec functions that `compose` is pinned to.

use vstd::prelude::*;

use crate::compose::call_chain;
use crate::compose::call_path;
use crate::compose::compose_spec;
use crate::compose::cond_on;
use crate::compose::filter_list_spec;
use crate::compose::filter_node_spec;
use crate::compose::ok_calls;
use crate::compose::ok_services;
use crate::compose::route_call;
use crate::compose::walk_list_spec;
use crate::compose::walk_module_spec;
use crate::compose::walk_service_spec;
use crate::decl::AppView;
use crate::decl::ModuleView;
use crate::decl::NodeView;
use crate::decl::RouteView;
use crate::decl::ServiceView;
use crate::paths::clean;
use crate::paths::join_spec;
use crate::paths::lemma_join_clean;
use crate::paths::path_ok;

verus! {

/// Composition is reproducible: two runs over the same declaration tree
/// and the same resolved flags produce the same sequence of registration
/// calls, call for call. `compose` is pinned to `compose_spec` by its
/// contract, and `compose_spec` is a function of its two arguments alone.
pub proof fn lemma_compose_deterministic(
    a1: AppView,
    f1: Seq<(u64, bool)>,
    a2: AppView,
    f2: Seq<(u64, bool)>,
)
    requires
        a1 == a2,
        f1 == f2,
    ensures
        compose_spec(a1, f1) == compose_spec(a2, f2),
{
}

/// A route declared at position `i` of a service list that walks without
/// error is registered: the calls hold its registration, with the path
/// joined under the scope's prefix and the chain being the scope's
/// middleware followed by the route's own.
pub proof fn lemma_route_registered(
    list: Seq<ServiceView>,
    prefix: Seq<u8>,
    mw: Seq<u64>,
    i: int,
    r: RouteView,
)
    requires
        0 <= i < list.len(),
        list[i].node == NodeView::Route(r),
        walk_list_spec(list, prefix, mw) is Ok,
    ensures
        path_ok(r.path),
        exists|k: int|
            0 <= k < ok_calls(walk_list_spec(list, prefix, mw)).len() && ok_calls(
                walk_list_spec(list, prefix, mw),
            )[k] == route_call(r, prefix, mw),
    decreases list.len(),
{
    let rest = list.subrange(1, list.len() as int);
    let c0 = ok_calls(walk_service_spec(list[0], prefix, mw));
    let cs = ok_calls(walk_list_spec(rest, prefix, mw));
    assert(walk_service_spec(list[0], prefix, mw) is Ok);
    assert(walk_list_spec(rest, prefix, mw) is Ok);
    assert(ok_calls(walk_list_spec(list, prefix, mw)) == c0 + cs);
    if i == 0 {
        assert(c0 == seq![route_call(r, prefix, mw)]);
        assert((c0 + cs)[0] == route_call(r, prefix, mw));
    } else {
        assert(rest[i - 1] == list[i]);
        lemma_route_registered(rest, prefix, mw, i - 1, r);
        let k0 = choose|k0: int|
            0 <= k0 < cs.len() && cs[k0] == route_call(r, prefix, mw);
        assert((c0 + cs)[c0.len() + k0] == route_call(r, prefix, mw));
    }
}

/// Outer bypass: a route in a module's outer list is registered on the
/// parent scope — at the parent's prefix, with the parent's middleware
/// chain — untouched by the module's own prefix and middleware.
pub proof fn lemma_outer_bypass(
    m: ModuleView,
    prefix: Seq<u8>,
    mw: Seq<u64>,
    i: int,
    r: RouteView,
)
    requires
        0 <= i < m.outer.len(),
        m.outer[i].node == NodeView::Route(r),
        walk_module_spec(m, prefix, mw) is Ok,
    ensures
        path_ok(r.path),
        exists|k: int|
            0 <= k < ok_calls(walk_module_spec(m, prefix, mw)).len() && ok_calls(
                walk_module_spec(m, prefix, mw),
            )[k] == route_call(r, prefix, mw),
{
    let oc = ok_calls(walk_list_spec(m.outer, prefix, mw));
    let ic = ok_calls(
        walk_list_spec(m.inner, join_spec(prefix, m.prefix), mw + m.middleware),
    );
    assert(walk_list_spec(m.outer, prefix, mw) is Ok);
    assert(ok_calls(walk_module_spec(m, prefix, mw)) == oc + ic);
    lemma_route_registered(m.outer, prefix, mw, i, r);
    let k0 = choose|k0: int| 0 <= k0 < oc.len() && oc[k0] == route_call(r, prefix, mw);
    assert((oc + ic)[k0] == route_call(r, prefix, mw));
}

/// Inner scope: a route in a module's inner list is registered under the
/// joined prefix — the parent's prefix with the module's laid under it —
/// and wrapped by the parent's chain, then the module's middleware, then
/// its own, outermost first.
pub proof fn lemma_inner_scope(
    m: ModuleView,
    prefix: Seq<u8>,
    mw: Seq<u64>,
    i: int,
    r: RouteView,
)
    requires
        0 <= i < m.inner.len(),
        m.inner[i].node == NodeView::Route(r),
        walk_module_spec(m, prefix, mw) is Ok,
    ensures
        path_ok(r.path),
        exists|k: int|
            0 <= k < ok_calls(walk_module_spec(m, prefix, mw)).len() && ok_calls(
                walk_module_spec(m, prefix, mw),
            )[k] == route_call(r, join_spec(prefix, m.prefix), mw + m.middleware),
{
    let sub_prefix = join_spec(prefix, m.prefix);
    let sub_mw = mw + m.middleware;
    let oc = ok_calls(walk_list_spec(m.outer, prefix, mw));
    let ic = ok_calls(walk_list_spec(m.inner, sub_prefix, sub_mw));
    assert(walk_list_spec(m.inner, sub_prefix, sub_mw) is Ok);
    assert(ok_calls(walk_module_spec(m, prefix, mw)) == oc + ic);
    lemma_route_registered(m.inner, sub_prefix, sub_mw, i, r);
    let k0 = choose|k0: int|
        0 <= k0 < ic.len() && ic[k0] == route_call(r, sub_prefix, sub_mw);
    assert((oc + ic)[oc.len() + k0] == route_call(r, sub_prefix, sub_mw));
}

/// Onion order: a registered chain is the ancestors' middleware in
/// declared order, outermost first, followed by the route's own, so the
/// first ancestor sees the request first and the response last.
pub proof fn lemma_onion_order(r: RouteView, prefix: Seq<u8>, mw: Seq<u64>)
    ensures
        call_chain(route_call(r, prefix, mw)) == mw + r.middleware,
        call_chain(route_call(r, prefix, mw)).len() == mw.len() + r.middleware.len(),
        forall|j: int|
            0 <= j < mw.len() ==> call_chain(#[trigger] route_call(r, prefix, mw))[j] == mw[j],
        forall|j: int|
            0 <= j < r.middleware.len() ==> call_chain(route_call(r, prefix, mw))[mw.len() + j]
                == r.middleware[j],
{
}

/// The surviving entries of a service list: those whose condition is on,
/// in their declared order.
pub open spec fn survivors(list: Seq<ServiceView>, flags: Seq<(u64, bool)>) -> Seq<ServiceView>
    decreases list,
{
    if list.len() == 0 {
        Seq::empty()
    } else {
        let rest = survivors(list.subrange(1, list.len() as int), flags);
        if cond_on(list[0].cond, flags) {
            seq![list[0]] + rest
        } else {
            rest
        }
    }
}

/// A node once its conditions are resolved, where that succeeds.
pub open spec fn resolved_node(n: NodeView, flags: Seq<(u64, bool)>) -> NodeView {
    match filter_node_spec(n, flags) {
        Ok(n2) => n2,
        Err(_) => n,
    }
}

/// Conditional removal preserves order: a filtering that succeeds keeps
/// exactly the services whose condition is on, in their declared order
/// with no gap, each with its condition resolved once and for all.
pub proof fn lemma_filter_preserves_order(list: Seq<ServiceView>, flags: Seq<(u64, bool)>)
    requires
        filter_list_spec(list, flags) is Ok,
    ensures
        ({
            let fl = ok_services(filter_list_spec(list, flags));
            let sv = survivors(list, flags);
            fl.len() == sv.len() && forall|i: int|
                0 <= i < sv.len() ==> (#[trigger] fl[i]).cond is None && filter_node_spec(
                    sv[i].node,
                    flags,
                ) is Ok && fl[i].node == resolved_node(sv[i].node, flags)
        }),
    decreases list.len(),
{
    if list.len() > 0 {
        let rest = list.subrange(1, list.len() as int);
        let fl = ok_services(filter_list_spec(list, flags));
        let sv = survivors(list, flags);
        if !cond_on(list[0].cond, flags) {
            lemma_filter_preserves_order(rest, flags);
        } else {
            assert(filter_list_spec(rest, flags) is Ok);
            lemma_filter_preserves_order(rest, flags);
            let tail = ok_services(filter_list_spec(rest, flags));
            let svr = survivors(rest, flags);
            assert forall|i: int|
                0 <= i < sv.len() implies (#[trigger] fl[i]).cond is None && filter_node_spec(
                    sv[i].node,
                    flags,
                ) is Ok && fl[i].node == resolved_node(sv[i].node, flags) by {
                if i > 0 {
                    assert(fl[i] == tail[i - 1]);
                    assert(sv[i] == svr[i - 1]);
                }
            }
        }
    }
}

/// Every path a successful walk registers — route paths and mount
/// prefixes alike — is free of double slashes, provided the scope's own
/// accumulated prefix is.
pub proof fn lemma_walk_list_paths_clean(list: Seq<ServiceView>, prefix: Seq<u8>, mw: Seq<u64>)
    requires
        clean(prefix),
        walk_list_spec(list, prefix, mw) is Ok,
    ensures
        forall|k: int|
            0 <= k < ok_calls(walk_list_spec(list, prefix, mw)).len() ==> clean(
                call_path(#[trigger] ok_calls(walk_list_spec(list, prefix, mw))[k]),
            ),
    decreases list, 1int,
{
    if list.len() > 0 {
        let rest = list.subrange(1, list.len() as int);
        let c0 = ok_calls(walk_service_spec(list[0], prefix, mw));
        let cs = ok_calls(walk_list_spec(rest, prefix, mw));
        assert(walk_service_spec(list[0], prefix, mw) is Ok);
        assert(walk_list_spec(rest, prefix, mw) is Ok);
        lemma_walk_service_paths_clean(list[0], prefix, mw);
        lemma_walk_list_paths_clean(rest, prefix, mw);
        assert forall|k: int|
            0 <= k < ok_calls(walk_list_spec(list, prefix, mw)).len() implies clean(
            call_path(#[trigger] ok_calls(walk_list_spec(list, prefix, mw))[k]),
        ) by {
            if k < c0.len() {
                assert(ok_calls(walk_list_spec(list, prefix, mw))[k] == c0[k]);
            } else {
                assert(ok_calls(walk_list_spec(list, prefix, mw))[k] == cs[k - c0.len()]);
            }
        }
    }
}

/// The single-service case of `lemma_walk_list_paths_clean`.
pub proof fn lemma_walk_service_paths_clean(d: ServiceView, prefix: Seq<u8>, mw: Seq<u64>)
    requires
        clean(prefix),
        walk_service_spec(d, prefix, mw) is Ok,
    ensures
        forall|k: int|
            0 <= k < ok_calls(walk_service_spec(d, prefix, mw)).len() ==> clean(
                call_path(#[trigger] ok_calls(walk_service_spec(d, prefix, mw))[k]),
            ),
    decreases d, 1int,
{
    match d.node {
        NodeView::Route(r) => {
            lemma_join_clean(prefix, r.path);
        },
        NodeView::Mount(_) => {
        },
        NodeView::Module(m) => {
            lemma_walk_module_paths_clean(m, prefix, mw);
        },
    }
}

/// The module case of `lemma_walk_list_paths_clean`.
pub proof fn lemma_walk_module_paths_clean(m: ModuleView, prefix: Seq<u8>, mw: Seq<u64>)
    requires
        clean(prefix),
        walk_module_spec(m, prefix, mw) is Ok,
    ensures
        forall|k: int|
            0 <= k < ok_calls(walk_module_spec(m, prefix, mw)).len() ==> clean(
                call_path(#[trigger] ok_calls(walk_module_spec(m, prefix, mw))[k]),
            ),
    decreases m, 2int,
{
    let sub_prefix = join_spec(prefix, m.prefix);
    let sub_mw = mw + m.middleware;
    let oc = ok_calls(walk_list_spec(m.outer, prefix, mw));
    let ic = ok_calls(walk_list_spec(m.inner, sub_prefix, sub_mw));
    assert(walk_list_spec(m.outer, prefix, mw) is Ok);
    assert(walk_list_spec(m.inner, sub_prefix, sub_mw) is Ok);
    lemma_join_clean(prefix, m.prefix);
    lemma_walk_list_paths_clean(m.outer, prefix, mw);
    lemma_walk_list_paths_clean(m.inner, sub_prefix, sub_mw);
    assert forall|k: int|
        0 <= k < ok_calls(walk_module_spec(m, prefix, mw)).len() implies clean(
        call_path(#[trigger] ok_calls(walk_module_spec(m, prefix, mw))[k]),
    ) by {
        if k < oc.len() {
            assert(ok_calls(walk_module_spec(m, prefix, mw))[k] == oc[k]);
        } else {
            assert(ok_calls(walk_module_spec(m, prefix, mw))[k] == ic[k - oc.len()]);
        }
    }
}

/// End to end: every path a successful composition registers is free of
/// double slashes.
pub proof fn lemma_composed_paths_clean(a: AppView, flags: Seq<(u64, bool)>)
    requires
        compose_spec(a, flags) is Ok,
    ensures
        forall|k: int|
            0 <= k < ok_calls(compose_spec(a, flags)).len() ==> clean(
                call_path(#[trigger] ok_calls(compose_spec(a, flags))[k]),
            ),
{
    let fl = ok_services(filter_list_spec(a.services, flags));
    assert(filter_list_spec(a.services, flags) is Ok);
    assert(walk_list_spec(fl, Seq::empty(), a.middleware) is Ok);
    lemma_walk_list_paths_clean(fl, Seq::empty(), a.middleware);
    assert(ok_calls(compose_spec(a, flags)) == ok_calls(
        walk_list_spec(fl, Seq::empty(), a.middleware),
    ));
}

} // verus!
