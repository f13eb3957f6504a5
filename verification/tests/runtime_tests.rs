use oxidase::builder::{build_from_parsed, compile_match, BuildCache};
use oxidase::config_types::{
    default_file_404, default_file_500, default_file_index, default_index_strategy,
    EvilDirStrategy, HeaderCond, OnMatch, RedirectCode, RouterMatch, RouterOp, RouterRule,
    RouterService, Service, ServiceRef, StaticService,
};
use oxidase::httptypes::HttpMethod;
use oxidase::kvlist::{MultiMap, StrMap};
use oxidase::parse::{parse_service_ref, DocStore, ParseCache};
use oxidase::route::{route_request, RouteOutcome};
use oxidase::router_ctx::{parse_cookies, parse_query, RouterCtx};

fn static_service(path: &str) -> Service {
    Service::Static(StaticService {
        source_dir: path.to_string(),
        file_index: default_file_index(),
        file_404: default_file_404(),
        file_500: default_file_500(),
        index_strategy: default_index_strategy(),
        evil_dir_strategy: EvilDirStrategy::default(),
    })
}

fn base_ctx(path: &str) -> RouterCtx {
    RouterCtx {
        method: Some(HttpMethod::Get),
        scheme: Some("http".to_string()),
        host: "example.com".to_string(),
        port: Some(8080),
        path: path.to_string(),
        query: MultiMap::new(),
        headers: MultiMap::new(),
        cookies: StrMap::new(),
        captures: StrMap::new(),
    }
}

fn build_router(rules: Vec<RouterRule>, max_steps: Option<u32>) -> (BuildCache, usize) {
    let router = Service::Router(RouterService { rules, next: None, max_steps });
    let docs = DocStore::new();
    let mut parse_cache = ParseCache::new();
    let mut build_cache = BuildCache::new();
    let root = parse_service_ref(&ServiceRef::Inline(router), "/srv", &mut parse_cache, &docs)
        .unwrap();
    let idx = build_from_parsed(&parse_cache, &root, &mut build_cache).unwrap();
    (build_cache, idx)
}

#[test]
fn restart_rules_hit_the_step_bound() {
    let rules = vec![RouterRule { when: None, ops: Vec::new(), on_match: OnMatch::Restart }];
    let (bc, idx) = build_router(rules, Some(3));
    match route_request(&bc, idx, base_ctx("/")) {
        RouteOutcome::Response(resp) => {
            assert_eq!(resp.status, 508);
            assert_eq!(resp.body, "router steps exceeded");
        }
        other => panic!("unexpected outcome: {:?}", other),
    }
}

fn respond_rule(when_path: Option<&str>, status: u16, body: &str, on_match: OnMatch) -> RouterRule {
    let when = when_path.map(|p| RouterMatch {
        host: None,
        path: Some(p.to_string()),
        methods: Vec::new(),
        headers: Vec::new(),
        queries: Vec::new(),
        cookies: Vec::new(),
        scheme: None,
    });
    RouterRule {
        when,
        ops: vec![RouterOp::Respond {
            status,
            body: Some(body.to_string()),
            headers: Vec::new(),
        }],
        on_match,
    }
}

#[test]
fn first_matching_rule_wins() {
    let rules = vec![
        respond_rule(Some("/a"), 201, "one", OnMatch::Stop),
        respond_rule(None, 202, "two", OnMatch::Stop),
    ];
    let (bc, idx) = build_router(rules, None);
    match route_request(&bc, idx, base_ctx("/a")) {
        RouteOutcome::Response(resp) => {
            assert_eq!(resp.status, 201);
            assert_eq!(resp.body, "one");
        }
        other => panic!("unexpected outcome: {:?}", other),
    }
    match route_request(&bc, idx, base_ctx("/b")) {
        RouteOutcome::Response(resp) => {
            assert_eq!(resp.status, 202);
            assert_eq!(resp.body, "two");
        }
        other => panic!("unexpected outcome: {:?}", other),
    }
}

#[test]
fn no_matching_rule_is_not_found() {
    let rules = vec![respond_rule(Some("/only"), 200, "x", OnMatch::Stop)];
    let (bc, idx) = build_router(rules, None);
    match route_request(&bc, idx, base_ctx("/other")) {
        RouteOutcome::Response(resp) => {
            assert_eq!(resp.status, 404);
            assert_eq!(resp.body, "no route matched");
        }
        other => panic!("unexpected outcome: {:?}", other),
    }
}

#[test]
fn templates_render_request_values() {
    let rules = vec![RouterRule {
        when: None,
        ops: vec![RouterOp::Respond {
            status: 200,
            body: Some("{method} {path} {port}".to_string()),
            headers: Vec::new(),
        }],
        on_match: OnMatch::Stop,
    }];
    let (bc, idx) = build_router(rules, None);
    match route_request(&bc, idx, base_ctx("/hello")) {
        RouteOutcome::Response(resp) => {
            assert_eq!(resp.status, 200);
            assert_eq!(resp.body, "GET /hello 8080");
        }
        other => panic!("unexpected outcome: {:?}", other),
    }
}

#[test]
fn captures_feed_templates() {
    let rules = vec![RouterRule {
        when: Some(RouterMatch {
            host: None,
            path: Some("/post/<slug:slug>".to_string()),
            methods: Vec::new(),
            headers: Vec::new(),
            queries: Vec::new(),
            cookies: Vec::new(),
            scheme: None,
        }),
        ops: vec![RouterOp::Respond {
            status: 200,
            body: Some("slug={slug}".to_string()),
            headers: Vec::new(),
        }],
        on_match: OnMatch::Stop,
    }];
    let (bc, idx) = build_router(rules, None);
    match route_request(&bc, idx, base_ctx("/post/hello-world")) {
        RouteOutcome::Response(resp) => {
            assert_eq!(resp.body, "slug=hello-world");
        }
        other => panic!("unexpected outcome: {:?}", other),
    }
}

#[test]
fn redirect_builds_location_header() {
    let rules = vec![RouterRule {
        when: None,
        ops: vec![RouterOp::Redirect {
            status: RedirectCode::Temporary307,
            location: "https://other{path}".to_string(),
        }],
        on_match: OnMatch::Stop,
    }];
    let (bc, idx) = build_router(rules, None);
    match route_request(&bc, idx, base_ctx("/p")) {
        RouteOutcome::Response(resp) => {
            assert_eq!(resp.status, 307);
            assert_eq!(resp.headers.len(), 1);
            assert_eq!(resp.headers[0].0, "location");
            assert_eq!(resp.headers[0].1, "https://other/p");
        }
        other => panic!("unexpected outcome: {:?}", other),
    }
}

#[test]
fn set_path_requires_leading_slash() {
    let rules = vec![RouterRule {
        when: None,
        ops: vec![RouterOp::SetPath("no-slash".to_string())],
        on_match: OnMatch::Stop,
    }];
    let (bc, idx) = build_router(rules, None);
    match route_request(&bc, idx, base_ctx("/p")) {
        RouteOutcome::Response(resp) => {
            assert_eq!(resp.status, 400);
            assert_eq!(resp.body, "path must start with '/'");
        }
        other => panic!("unexpected outcome: {:?}", other),
    }
}

#[test]
fn header_condition_is_case_insensitive() {
    let mut ctx = base_ctx("/p");
    ctx.headers.add("x-kind".to_string(), "beta".to_string());
    let rules = vec![RouterRule {
        when: Some(RouterMatch {
            host: None,
            path: None,
            methods: Vec::new(),
            headers: vec![HeaderCond {
                name: "X-Kind".to_string(),
                pattern: "beta".to_string(),
                not: false,
            }],
            queries: Vec::new(),
            cookies: Vec::new(),
            scheme: None,
        }),
        ops: vec![RouterOp::Respond {
            status: 204,
            body: None,
            headers: Vec::new(),
        }],
        on_match: OnMatch::Stop,
    }];
    let (bc, idx) = build_router(rules, None);
    match route_request(&bc, idx, ctx) {
        RouteOutcome::Response(resp) => assert_eq!(resp.status, 204),
        other => panic!("unexpected outcome: {:?}", other),
    }
}

#[test]
fn continue_policy_reaches_later_rules() {
    let rules = vec![
        RouterRule {
            when: None,
            ops: vec![RouterOp::SetPort(9999)],
            on_match: OnMatch::Continue,
        },
        RouterRule {
            when: None,
            ops: vec![RouterOp::Respond {
                status: 200,
                body: Some("{port}".to_string()),
                headers: Vec::new(),
            }],
            on_match: OnMatch::Stop,
        },
    ];
    let (bc, idx) = build_router(rules, None);
    match route_request(&bc, idx, base_ctx("/p")) {
        RouteOutcome::Response(resp) => assert_eq!(resp.body, "9999"),
        other => panic!("unexpected outcome: {:?}", other),
    }
}

#[test]
fn use_dispatches_to_nested_service() {
    let rules = vec![RouterRule {
        when: None,
        ops: vec![RouterOp::Use(Box::new(ServiceRef::Inline(static_service(
            "/srv/files",
        ))))],
        on_match: OnMatch::Stop,
    }];
    let router = Service::Router(RouterService { rules, next: None, max_steps: None });
    let docs = DocStore::new();
    let mut parse_cache = ParseCache::new();
    let mut build_cache = BuildCache::new();
    let root = parse_service_ref(&ServiceRef::Inline(router), "/srv", &mut parse_cache, &docs)
        .unwrap();
    let idx = build_from_parsed(&parse_cache, &root, &mut build_cache).unwrap();
    match route_request(&build_cache, idx, base_ctx("/f")) {
        RouteOutcome::Dispatch(target, ctx) => {
            assert!(target < build_cache.len());
            assert_eq!(ctx.path, "/f");
        }
        other => panic!("unexpected outcome: {:?}", other),
    }
}

#[test]
fn compile_simple_rule() {
    let when = RouterMatch {
        host: Some("example.com".to_string()),
        path: None,
        methods: Vec::new(),
        headers: Vec::new(),
        queries: Vec::new(),
        cookies: Vec::new(),
        scheme: None,
    };
    let compiled = compile_match(&when).unwrap();
    assert!(compiled.host.is_some());
}

#[test]
fn query_parsing_keeps_values_in_order() {
    let q = parse_query("a=1&b=2&a=3&&c");
    let a = q.get_all("a").unwrap();
    assert_eq!(a.len(), 2);
    assert_eq!(a[0], "1");
    assert_eq!(a[1], "3");
    assert_eq!(q.get_first("b").unwrap(), "2");
    assert_eq!(q.get_first("c").unwrap(), "");
    assert!(q.get_all("d").is_none());
}

#[test]
fn cookie_parsing_decodes_and_overrides() {
    let raws = vec![
        "x=1; y=%20z".to_string(),
        "x=2".to_string(),
    ];
    let cookies = parse_cookies(&raws);
    assert_eq!(cookies.get("x").unwrap(), "2");
    assert_eq!(cookies.get("y").unwrap(), " z");
    assert!(cookies.get("nope").is_none());
}

#[test]
fn next_dispatch_flushes_context() {
    let router = Service::Router(RouterService {
        rules: Vec::new(),
        next: Some(Box::new(ServiceRef::Inline(static_service("/srv/files")))),
        max_steps: None,
    });
    let docs = DocStore::new();
    let mut parse_cache = ParseCache::new();
    let mut build_cache = BuildCache::new();
    let root = parse_service_ref(&ServiceRef::Inline(router), "/srv", &mut parse_cache, &docs)
        .unwrap();
    let idx = build_from_parsed(&parse_cache, &root, &mut build_cache).unwrap();
    let mut ctx = base_ctx("/f");
    ctx.captures.set("left".to_string(), "over".to_string());
    match route_request(&build_cache, idx, ctx) {
        RouteOutcome::Dispatch(target, newctx) => {
            assert!(target < build_cache.len());
            assert_eq!(newctx.host, "example.com");
            assert_eq!(
                newctx.headers.get_first("host").unwrap().as_str(),
                "example.com"
            );
            assert!(newctx.captures.is_empty());
        }
        other => panic!("unexpected outcome: {:?}", other),
    }
}

#[test]
fn empty_match_clause_reports_empty() {
    let empty = RouterMatch {
        host: None,
        path: None,
        methods: Vec::new(),
        headers: Vec::new(),
        queries: Vec::new(),
        cookies: Vec::new(),
        scheme: None,
    };
    assert!(empty.is_empty());
    let with_host = RouterMatch {
        host: Some("example.com".to_string()),
        path: None,
        methods: Vec::new(),
        headers: Vec::new(),
        queries: Vec::new(),
        cookies: Vec::new(),
        scheme: None,
    };
    assert!(!with_host.is_empty());
}
