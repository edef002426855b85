use route_composer::compose::Call;
use route_composer::compose::ComposeError;
use route_composer::compose::FlagSet;
use route_composer::compose::compose;
use route_composer::compose::middleware_chain;
use route_composer::decl::AppDecl;
use route_composer::decl::Method;
use route_composer::decl::ModuleDecl;
use route_composer::decl::RouteDecl;
use route_composer::decl::ServiceDecl;
use route_composer::decl::ServiceNode;

const LOG: u64 = 1;
const ERR: u64 = 2;
const MW_A: u64 = 11;
const MW_B: u64 = 12;
const MW_C: u64 = 13;
const H: u64 = 100;

fn route(method: Method, path: &str, handler: u64, middleware: Vec<u64>) -> ServiceDecl {
    ServiceDecl {
        cond: None,
        node: ServiceNode::Route(RouteDecl {
            method,
            path: path.as_bytes().to_vec(),
            handler,
            middleware,
        }),
    }
}

fn module(prefix: &str, middleware: Vec<u64>, outer: Vec<ServiceDecl>, inner: Vec<ServiceDecl>) -> ServiceDecl {
    ServiceDecl {
        cond: None,
        node: ServiceNode::Module(Box::new(ModuleDecl {
            prefix: prefix.as_bytes().to_vec(),
            middleware,
            outer,
            inner,
        })),
    }
}

fn route_call(method: Method, path: &str, handler: u64, chain: Vec<u64>) -> Call {
    Call::Route { method, path: path.as_bytes().to_vec(), handler, chain }
}

fn scenario_app() -> AppDecl {
    AppDecl {
        middleware: vec![LOG],
        services: vec![
            route(Method::Post, "/test/abc", H, vec![]),
            module(
                "/collection",
                vec![ERR],
                vec![route(Method::Any, "/outer", H, vec![])],
                vec![route(Method::Any, "/inner", H, vec![])],
            ),
        ],
    }
}

#[test]
fn end_to_end_scenario() {
    let calls = compose(scenario_app(), &FlagSet::new()).unwrap();
    assert_eq!(
        calls,
        vec![
            route_call(Method::Post, "/test/abc", H, vec![LOG]),
            route_call(Method::Any, "/outer", H, vec![LOG]),
            route_call(Method::Any, "/collection/inner", H, vec![LOG, ERR]),
        ]
    );
}

#[test]
fn composition_is_reproducible() {
    let first = compose(scenario_app(), &FlagSet::new()).unwrap();
    let second = compose(scenario_app(), &FlagSet::new()).unwrap();
    assert_eq!(first, second);
}

#[test]
fn prefixes_concatenate_without_double_slash() {
    // Trailing slash on the module prefix, no leading slash on the route.
    let app = AppDecl {
        middleware: vec![],
        services: vec![module(
            "/collection/",
            vec![],
            vec![],
            vec![route(Method::Get, "inner", H, vec![])],
        )],
    };
    let calls = compose(app, &FlagSet::new()).unwrap();
    assert_eq!(calls, vec![route_call(Method::Get, "/collection/inner", H, vec![])]);
}

#[test]
fn outer_routes_bypass_module_prefix_and_middleware() {
    let app = AppDecl {
        middleware: vec![MW_A],
        services: vec![module(
            "/m",
            vec![MW_B],
            vec![route(Method::Get, "/outer", H, vec![MW_C])],
            vec![],
        )],
    };
    let calls = compose(app, &FlagSet::new()).unwrap();
    // Parent prefix, parent chain: the module's own middleware is absent.
    assert_eq!(calls, vec![route_call(Method::Get, "/outer", H, vec![MW_A, MW_C])]);
}

#[test]
fn middleware_chain_is_ancestors_then_route() {
    let chain = middleware_chain(&vec![MW_A, MW_B], &vec![MW_C]);
    assert_eq!(chain, vec![MW_A, MW_B, MW_C]);
}

#[test]
fn onion_order_through_nested_modules() {
    let app = AppDecl {
        middleware: vec![MW_A],
        services: vec![module(
            "/p1",
            vec![MW_B],
            vec![],
            vec![module(
                "/p2",
                vec![MW_C],
                vec![route(Method::Any, "/o", H, vec![])],
                vec![route(Method::Any, "/i", H, vec![LOG])],
            )],
        )],
    };
    let calls = compose(app, &FlagSet::new()).unwrap();
    assert_eq!(
        calls,
        vec![
            // The grandchild's outer list lands one level up, on /p1.
            route_call(Method::Any, "/p1/o", H, vec![MW_A, MW_B]),
            route_call(Method::Any, "/p1/p2/i", H, vec![MW_A, MW_B, MW_C, LOG]),
        ]
    );
}

#[test]
fn conditional_removal_preserves_order() {
    let off: u64 = 7;
    let mut flags = FlagSet::new();
    flags.set(off, false);
    let app = AppDecl {
        middleware: vec![],
        services: vec![
            route(Method::Get, "/x", 1, vec![]),
            ServiceDecl {
                cond: Some(off),
                node: ServiceNode::Route(RouteDecl {
                    method: Method::Get,
                    path: b"/y".to_vec(),
                    handler: 2,
                    middleware: vec![],
                }),
            },
            route(Method::Get, "/z", 3, vec![]),
        ],
    };
    let calls = compose(app, &flags).unwrap();
    assert_eq!(
        calls,
        vec![
            route_call(Method::Get, "/x", 1, vec![]),
            route_call(Method::Get, "/z", 3, vec![]),
        ]
    );
}

#[test]
fn excluded_module_subtree_is_never_visited() {
    let off: u64 = 7;
    let mut flags = FlagSet::new();
    flags.set(off, false);
    // The excluded module holds an unknown flag and an invalid path;
    // neither is ever looked at.
    let app = AppDecl {
        middleware: vec![],
        services: vec![
            ServiceDecl {
                cond: Some(off),
                node: ServiceNode::Module(Box::new(ModuleDecl {
                    prefix: b"/a//b".to_vec(),
                    middleware: vec![],
                    outer: vec![],
                    inner: vec![ServiceDecl {
                        cond: Some(999),
                        node: ServiceNode::Mount(5),
                    }],
                })),
            },
            route(Method::Get, "/kept", H, vec![]),
        ],
    };
    let calls = compose(app, &flags).unwrap();
    assert_eq!(calls, vec![route_call(Method::Get, "/kept", H, vec![])]);
}

#[test]
fn mounts_register_at_their_scope_prefix() {
    let app = AppDecl {
        middleware: vec![LOG],
        services: vec![
            ServiceDecl { cond: None, node: ServiceNode::Mount(41) },
            module(
                "/files",
                vec![],
                vec![],
                vec![ServiceDecl { cond: None, node: ServiceNode::Mount(42) }],
            ),
        ],
    };
    let calls = compose(app, &FlagSet::new()).unwrap();
    assert_eq!(
        calls,
        vec![
            Call::Mount { prefix: b"".to_vec(), factory: 41 },
            Call::Mount { prefix: b"/files".to_vec(), factory: 42 },
        ]
    );
}

#[test]
fn unknown_flag_is_a_fatal_error() {
    let app = AppDecl {
        middleware: vec![],
        services: vec![ServiceDecl {
            cond: Some(99),
            node: ServiceNode::Mount(1),
        }],
    };
    assert_eq!(compose(app, &FlagSet::new()), Err(ComposeError::UnknownFlag(99)));
}

#[test]
fn empty_path_is_a_fatal_error() {
    let app = AppDecl {
        middleware: vec![],
        services: vec![route(Method::Get, "", H, vec![])],
    };
    assert_eq!(compose(app, &FlagSet::new()), Err(ComposeError::InvalidPath(b"".to_vec())));
}

#[test]
fn double_slash_path_is_a_fatal_error() {
    let app = AppDecl {
        middleware: vec![],
        services: vec![route(Method::Get, "/a//b", H, vec![])],
    };
    assert_eq!(
        compose(app, &FlagSet::new()),
        Err(ComposeError::InvalidPath(b"/a//b".to_vec()))
    );
}

#[test]
fn invalid_module_prefix_is_a_fatal_error() {
    let app = AppDecl {
        middleware: vec![],
        services: vec![module("", vec![], vec![], vec![])],
    };
    assert_eq!(compose(app, &FlagSet::new()), Err(ComposeError::InvalidPath(b"".to_vec())));
}

#[test]
fn duplicate_method_and_path_is_a_fatal_error() {
    let app = AppDecl {
        middleware: vec![],
        services: vec![
            route(Method::Get, "/dup", 1, vec![]),
            route(Method::Get, "/dup", 2, vec![]),
        ],
    };
    assert_eq!(
        compose(app, &FlagSet::new()),
        Err(ComposeError::RouteConflict(Method::Get, b"/dup".to_vec()))
    );
}

#[test]
fn same_path_different_method_is_no_conflict() {
    let app = AppDecl {
        middleware: vec![],
        services: vec![
            route(Method::Get, "/same", 1, vec![]),
            route(Method::Post, "/same", 2, vec![]),
        ],
    };
    let calls = compose(app, &FlagSet::new()).unwrap();
    assert_eq!(calls.len(), 2);
}

#[test]
fn conflict_found_through_joined_prefixes() {
    // "/a/b" at the root collides with "/b" inside a module at "/a".
    let app = AppDecl {
        middleware: vec![],
        services: vec![
            route(Method::Any, "/a/b", 1, vec![]),
            module("/a", vec![], vec![], vec![route(Method::Any, "/b", 2, vec![])]),
        ],
    };
    assert_eq!(
        compose(app, &FlagSet::new()),
        Err(ComposeError::RouteConflict(Method::Any, b"/a/b".to_vec()))
    );
}
