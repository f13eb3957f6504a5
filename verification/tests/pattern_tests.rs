use oxidase::pattern_match::{compile_host, compile_path, compile_value};
use oxidase::pattern_types::PatternError;

#[test]
fn path_and_captures() {
    let p = compile_path("/post/<slug:slug>").unwrap();
    assert!(p.is_match("/post/hello-world"));
    assert_eq!(
        p.captures_map("/post/hello-world").unwrap().get("slug").unwrap().as_str(),
        "hello-world"
    );
    assert!(!p.is_match("/post/"));
}

#[test]
fn host_labels_ok() {
    let p = compile_host("<sub:labels>.example.com").unwrap();
    assert!(p.is_match("x.example.com"));
    assert!(p.is_match("a.b.c.example.com"));
    assert_eq!(
        p.captures_map("x.example.com").unwrap().get("sub").unwrap().as_str(),
        "x"
    );
}

#[test]
fn value_lazy_then_greedy() {
    let p = compile_value("<:any>bot<:any>").unwrap();
    assert!(p.is_match("xxbotyy"));
    let p2 = compile_value("<:any>\\.json").unwrap();
    assert!(p2.is_match("report.json"));
    assert!(!p2.is_match("report.json.bak"));
}

#[test]
fn regex_inside() {
    let p = compile_path("/u/<id:regex(\"[1-9]\\\\d*\")>").unwrap();
    assert!(p.is_match("/u/42"));
    assert!(!p.is_match("/u/0"));
}

#[test]
fn tail_only_rule() {
    let err = compile_path("/docs/<rest:path>.html").unwrap_err();
    assert!(matches!(err, PatternError::TailOnlyMustBeLast));
}

#[test]
fn non_capturing_value() {
    let p = compile_value("curl/<:any>").unwrap();
    assert!(p.is_match("curl/7.86.0"));
    assert!(p.captures_map("curl/7.86.0").unwrap().is_empty());
}

#[test]
fn literal_pattern_is_anchored() {
    let p = compile_value("abc").unwrap();
    assert!(p.is_match("abc"));
    assert!(!p.is_match("xabc"));
    assert!(!p.is_match("abcx"));
    assert!(!p.is_match("ab"));
    assert!(!p.is_match(""));
}

#[test]
fn host_labels_capture_many() {
    let p = compile_host("<sub:labels>.example.com").unwrap();
    assert_eq!(
        p.captures_map("a.b.c.example.com").unwrap().get("sub").unwrap().as_str(),
        "a.b.c"
    );
}

#[test]
fn pattern_error_variants() {
    assert!(matches!(compile_value("<abc"), Err(PatternError::Unclosed)));
    assert!(matches!(compile_value("<>"), Err(PatternError::Empty)));
    assert!(matches!(
        compile_path("/<a:int>/<a:int>"),
        Err(PatternError::DupName(_))
    ));
    assert!(matches!(
        compile_value("<x:path>"),
        Err(PatternError::BadTypeForCtx(_))
    ));
    assert!(matches!(
        compile_value("<x:bogus>"),
        Err(PatternError::BadPlaceholder(_))
    ));
    assert!(matches!(
        compile_value("<x:regex(\"[\")>"),
        Err(PatternError::Regex(_))
    ));
}

#[test]
fn escaped_literals_match_literally() {
    let p = compile_value("a\\.b").unwrap();
    assert!(p.is_match("a.b"));
    assert!(!p.is_match("axb"));
}

#[test]
fn asterisk_shorthand_by_context() {
    let p = compile_path("/files/<rest:*>").unwrap();
    assert!(p.is_match("/files/a/b/c"));
    let h = compile_host("<s:*>.example.com").unwrap();
    assert!(h.is_match("a.b.example.com"));
    let v = compile_value("<:*>").unwrap();
    assert!(v.is_match(""));
    assert!(v.is_match("anything"));
}

#[test]
fn uuid_and_int_types() {
    let p = compile_path("/o/<id:uuid>").unwrap();
    assert!(p.is_match("/o/123e4567-e89b-42d3-a456-426614174000"));
    assert!(!p.is_match("/o/nope"));
    let q = compile_path("/n/<k:int>").unwrap();
    assert!(q.is_match("/n/123"));
    assert!(!q.is_match("/n/x1"));
}
