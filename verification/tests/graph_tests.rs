use oxidase::builder::{build_from_parsed, BuildCache};
use oxidase::config_types::{
    default_file_404, default_file_500, default_file_index, default_index_strategy,
    validate_service, EvilDirStrategy, OnMatch, RouterOp, RouterRule, RouterService, Service,
    ServiceRef, StaticService,
};
use oxidase::parse::{
    dedup_deps, parse_service_ref, ConfigError, DocStore, ParseCache, ParsedService, ServiceDep,
};
use oxidase::paths::canonicalize;

fn static_service(path: &str) -> Service {
    Service::Static(StaticService {
        source_dir: path.to_string(),
        file_index: default_file_index(),
        file_404: default_file_404(),
        file_500: default_file_500(),
        index_strategy: default_index_strategy(),
        evil_dir_strategy: EvilDirStrategy::default(),
    })
}

fn empty_rule() -> RouterRule {
    RouterRule { when: None, ops: Vec::new(), on_match: OnMatch::Stop }
}

#[test]
fn parse_cache_dedupes_inline_by_hash_and_base() {
    let svc = ServiceRef::Inline(static_service("/tmp/a"));
    let docs = DocStore::new();
    let mut cache = ParseCache::new();

    let first = parse_service_ref(&svc, "/tmp", &mut cache, &docs).unwrap();
    let second = parse_service_ref(&svc, "/tmp", &mut cache, &docs).unwrap();

    assert_eq!(cache.key_to_parsed.len(), 1);
    assert!(first == second);
}

#[test]
fn parse_collects_inline_child_dependency() {
    let next_ref = ServiceRef::Inline(static_service("/tmp/child"));
    let router = ServiceRef::Inline(Service::Router(RouterService {
        rules: vec![empty_rule()],
        next: Some(Box::new(next_ref)),
        max_steps: None,
    }));
    let docs = DocStore::new();
    let mut cache = ParseCache::new();

    let root = parse_service_ref(&router, "/tmp", &mut cache, &docs).unwrap();
    let mut found = false;
    for (k, p) in cache.key_to_parsed.iter() {
        if *k == root {
            match p {
                ParsedService::Router(r) => {
                    assert_eq!(r.deps.len(), 1);
                    assert!(matches!(r.deps[0], ServiceDep::Inline(_)));
                    assert!(r.next.is_some());
                    found = true;
                }
                _ => panic!("expected router"),
            }
        }
    }
    assert!(found);
}

#[test]
fn import_dedup_by_canonical_path() {
    let mut docs = DocStore::new();
    docs.docs.push((
        canonicalize("/conf/svc.yaml"),
        ServiceRef::Inline(static_service("/tmp/b")),
    ));
    let svc = ServiceRef::Import { import: "svc.yaml".to_string() };
    let mut cache = ParseCache::new();

    let first = parse_service_ref(&svc, "/conf", &mut cache, &docs).unwrap();
    let second = parse_service_ref(&svc, "/conf", &mut cache, &docs).unwrap();

    assert_eq!(cache.key_to_parsed.len(), 1);
    assert_eq!(cache.import_to_key.len(), 1);
    assert!(first == second);
}

#[test]
fn import_cycle_detected() {
    let mut docs = DocStore::new();
    docs.docs.push((
        canonicalize("/x/a.yaml"),
        ServiceRef::Import { import: "b.yaml".to_string() },
    ));
    docs.docs.push((
        canonicalize("/x/b.yaml"),
        ServiceRef::Import { import: "a.yaml".to_string() },
    ));
    let svc = ServiceRef::Import { import: "a.yaml".to_string() };
    let mut cache = ParseCache::new();
    let err = parse_service_ref(&svc, "/x", &mut cache, &docs).unwrap_err();
    assert!(matches!(err, ConfigError::ImportCycle(_)));
}

#[test]
fn missing_import_reports_needed_file() {
    let docs = DocStore::new();
    let svc = ServiceRef::Import { import: "absent.yaml".to_string() };
    let mut cache = ParseCache::new();
    let err = parse_service_ref(&svc, "/x", &mut cache, &docs).unwrap_err();
    match err {
        ConfigError::NeedsFile(p) => assert_eq!(p, canonicalize("/x/absent.yaml")),
        other => panic!("unexpected error: {:?}", other),
    }
}

#[test]
fn build_cache_dedupes_inline_service() {
    let svc = static_service("/tmp/c");
    let docs = DocStore::new();
    let mut parse_cache = ParseCache::new();
    let mut build_cache = BuildCache::new();

    let root = parse_service_ref(
        &ServiceRef::Inline(svc),
        "/tmp",
        &mut parse_cache,
        &docs,
    )
    .unwrap();
    let _ = build_from_parsed(&parse_cache, &root, &mut build_cache).unwrap();
    let compiled_after_first = build_cache.len();
    let _ = build_from_parsed(&parse_cache, &root, &mut build_cache).unwrap();

    assert_eq!(compiled_after_first, 1);
    assert_eq!(build_cache.len(), 1);
}

#[test]
fn build_cache_reused_for_router_and_next() {
    let next_ref = ServiceRef::Inline(static_service("/tmp/d"));
    let router = Service::Router(RouterService {
        rules: vec![empty_rule()],
        next: Some(Box::new(next_ref)),
        max_steps: None,
    });
    let docs = DocStore::new();
    let mut parse_cache = ParseCache::new();
    let mut build_cache = BuildCache::new();

    let root = parse_service_ref(
        &ServiceRef::Inline(router),
        "/tmp",
        &mut parse_cache,
        &docs,
    )
    .unwrap();
    let _ = build_from_parsed(&parse_cache, &root, &mut build_cache).unwrap();
    let compiled_after_first = build_cache.len();
    let _ = build_from_parsed(&parse_cache, &root, &mut build_cache).unwrap();

    assert_eq!(compiled_after_first, 2);
    assert_eq!(build_cache.len(), 2);
}

#[test]
fn build_from_parsed_respects_cache_cross_roots() {
    let svc_a = static_service("/tmp/a");
    let svc_b = static_service("/tmp/a");
    let docs = DocStore::new();
    let mut parse_cache = ParseCache::new();
    let mut build_cache = BuildCache::new();

    let root_a = parse_service_ref(
        &ServiceRef::Inline(svc_a),
        "/tmp/base_a",
        &mut parse_cache,
        &docs,
    )
    .unwrap();
    let root_b = parse_service_ref(
        &ServiceRef::Inline(svc_b),
        "/tmp/base_b",
        &mut parse_cache,
        &docs,
    )
    .unwrap();

    let _ = build_from_parsed(&parse_cache, &root_a, &mut build_cache).unwrap();
    let _ = build_from_parsed(&parse_cache, &root_b, &mut build_cache).unwrap();

    assert_eq!(build_cache.len(), 2);
}

#[test]
fn shared_sub_service_compiles_once() {
    let shared = static_service("/srv/shared");
    let router = Service::Router(RouterService {
        rules: vec![RouterRule {
            when: None,
            ops: vec![RouterOp::Use(Box::new(ServiceRef::Inline(static_service(
                "/srv/shared",
            ))))],
            on_match: OnMatch::Stop,
        }],
        next: Some(Box::new(ServiceRef::Inline(shared))),
        max_steps: None,
    });
    let docs = DocStore::new();
    let mut parse_cache = ParseCache::new();
    let mut build_cache = BuildCache::new();
    let root = parse_service_ref(
        &ServiceRef::Inline(router),
        "/srv",
        &mut parse_cache,
        &docs,
    )
    .unwrap();
    let idx = build_from_parsed(&parse_cache, &root, &mut build_cache).unwrap();
    // the shared static appears twice in the declared graph but holds
    // one arena slot beside the router itself
    assert_eq!(build_cache.len(), 2);
    assert!(idx < build_cache.len());
}

#[test]
fn canonicalize_normalizes_lexically() {
    assert_eq!(canonicalize("/a/./b/../c"), "/a/c");
    assert_eq!(canonicalize("/a//b/"), "/a/b");
    assert_eq!(canonicalize("a/../.."), "..");
    assert_eq!(canonicalize("."), ".");
    assert_eq!(canonicalize("/.."), "/");
}

#[test]
fn import_dependency_recorded_on_router() {
    let router_doc = ServiceRef::Inline(Service::Router(RouterService {
        rules: vec![empty_rule()],
        next: Some(Box::new(ServiceRef::Inline(static_service("/tmp/inner")))),
        max_steps: None,
    }));
    let mut docs = DocStore::new();
    docs.docs.push((canonicalize("/x/svc_dep.yaml"), router_doc));
    let svc = ServiceRef::Import { import: "svc_dep.yaml".to_string() };
    let mut cache = ParseCache::new();

    let root = parse_service_ref(&svc, "/x", &mut cache, &docs).unwrap();
    let mut has_import = false;
    let mut has_inline = false;
    for (k, p) in cache.key_to_parsed.iter() {
        if *k == root {
            if let ParsedService::Router(r) = p {
                for dep in r.deps.iter() {
                    match dep {
                        ServiceDep::ImportPath(pth) => {
                            if pth.ends_with("svc_dep.yaml") {
                                has_import = true;
                            }
                        }
                        ServiceDep::Inline(_) => has_inline = true,
                    }
                }
            }
        }
    }
    assert!(has_import);
    assert!(has_inline);
}

#[test]
fn validate_rejects_bad_definitions() {
    assert!(validate_service(&static_service("/tmp/ok")).is_none());
    assert!(validate_service(&static_service("   ")).is_some());
    let empty_router = Service::Router(RouterService {
        rules: Vec::new(),
        next: None,
        max_steps: None,
    });
    assert!(validate_service(&empty_router).is_some());
}

#[test]
fn dedup_deps_keeps_first_occurrences_in_order() {
    let deps = vec![
        ServiceDep::ImportPath("/a/x.yml".to_string()),
        ServiceDep::ImportPath("/b/y.yml".to_string()),
        ServiceDep::ImportPath("/a/x.yml".to_string()),
        ServiceDep::ImportPath("/b/y.yml".to_string()),
    ];
    let out = dedup_deps(deps);
    assert_eq!(out.len(), 2);
    match &out[0] {
        ServiceDep::ImportPath(p) => assert_eq!(p, "/a/x.yml"),
        other => panic!("unexpected dep: {:?}", other),
    }
    match &out[1] {
        ServiceDep::ImportPath(p) => assert_eq!(p, "/b/y.yml"),
        other => panic!("unexpected dep: {:?}", other),
    }
}

#[test]
fn import_free_router_parses_without_documents() {
    let svc = ServiceRef::Inline(Service::Router(RouterService {
        rules: vec![empty_rule()],
        next: None,
        max_steps: None,
    }));
    let docs = DocStore::new();
    let mut cache = ParseCache::new();
    let key = parse_service_ref(&svc, "/srv", &mut cache, &docs).expect("parse");
    assert_eq!(cache.key_to_parsed.len(), 1);
    assert_eq!(key.base_dir, canonicalize("/srv"));
    match &cache.key_to_parsed[0].1 {
        ParsedService::Router(r) => {
            assert_eq!(r.rules.len(), 1);
            assert!(r.next.is_none());
            assert_eq!(r.deps.len(), 0);
        }
        other => panic!("unexpected node: {:?}", other),
    }
}
