use oxidase::httptypes::HttpMethod;
use oxidase::kvlist::{MultiMap, StrMap};
use oxidase::router_ctx::RouterCtx;
use oxidase::template::{compile_template, expand_template, TemplateError};

fn ctx() -> RouterCtx {
    let mut headers = MultiMap::new();
    headers.add("accept".to_string(), "text/plain".to_string());
    let mut query = MultiMap::new();
    query.add("page".to_string(), "3".to_string());
    let mut cookies = StrMap::new();
    cookies.set("sid".to_string(), "abc".to_string());
    let mut captures = StrMap::new();
    captures.set("slug".to_string(), "hello".to_string());
    RouterCtx {
        method: Some(HttpMethod::Post),
        scheme: Some("https".to_string()),
        host: "example.com".to_string(),
        port: Some(443),
        path: "/p".to_string(),
        query,
        headers,
        cookies,
        captures,
    }
}

#[test]
fn literals_and_variables_interpolate() {
    let t = compile_template("m={method} h={host}:{port}{path}").unwrap();
    assert_eq!(expand_template(&t, &ctx()), "m=POST h=example.com:443/p");
}

#[test]
fn dotted_lookups_resolve() {
    let t = compile_template("{header.Accept}|{query.page}|{cookie.sid}|{slug}").unwrap();
    assert_eq!(expand_template(&t, &ctx()), "text/plain|3|abc|hello");
}

#[test]
fn missing_variables_render_empty() {
    let t = compile_template("[{nope}][{query.absent}]").unwrap();
    assert_eq!(expand_template(&t, &ctx()), "[][]");
}

#[test]
fn escapes_make_braces_literal() {
    let t = compile_template("\\{not-a-var} {path}").unwrap();
    assert_eq!(expand_template(&t, &ctx()), "{not-a-var} /p");
}

#[test]
fn template_error_variants() {
    assert!(matches!(compile_template("a{open"), Err(TemplateError::Unclosed)));
    assert!(matches!(compile_template("x{}y"), Err(TemplateError::EmptyVar)));
}
