use nanoaios::tool::{
    rejected_call, default_timeout, default_tools_dir, is_manifest_file, query_pairs, HttpMethod, ToolError,
    ToolKind, ToolManifest, ToolRegistry,
};

fn manifest(name: &str, kind: ToolKind, base: Option<&str>, method: Option<&str>, path: Option<&str>) -> ToolManifest {
    ToolManifest {
        name: name.to_string(),
        description: format!("{name} tool"),
        kind,
        base_url: base.map(|s| s.to_string()),
        method: method.map(|s| s.to_string()),
        path: path.map(|s| s.to_string()),
        timeout_secs: default_timeout(),
    }
}

fn names(reg: &ToolRegistry) -> Vec<String> {
    reg.list().iter().map(|m| m.name.clone()).collect()
}

#[test]
fn defaults() {
    assert_eq!(default_timeout(), 30);
    assert_eq!(default_tools_dir(b"/home/u/.nanoaios"), b"/home/u/.nanoaios/tools");
}

#[test]
fn add_then_get_and_list_sorted() {
    let mut reg = ToolRegistry::new(b"/t".to_vec());
    assert!(reg.list().is_empty());
    let w = reg.add(manifest("weather", ToolKind::Http, Some("https://w"), Some("GET"), Some("/v1")));
    assert_eq!(w.name, "weather");
    reg.add(manifest("alpha", ToolKind::Mcp, None, None, None));
    reg.add(manifest("mid", ToolKind::Http, Some("http://m"), None, None));
    assert_eq!(names(&reg), vec!["alpha", "mid", "weather"]);
    assert_eq!(reg.get("weather").unwrap().base_url.as_deref(), Some("https://w"));
    assert!(reg.get("nope").is_none());
}

#[test]
fn add_replaces_same_name() {
    let mut reg = ToolRegistry::new(b"/t".to_vec());
    reg.add(manifest("a", ToolKind::Http, Some("http://one"), None, None));
    reg.add(manifest("a", ToolKind::Http, Some("http://two"), None, None));
    assert_eq!(names(&reg), vec!["a"]);
    assert_eq!(reg.get("a").unwrap().base_url.as_deref(), Some("http://two"));
}

#[test]
fn remove_then_not_found() {
    let mut reg = ToolRegistry::new(b"/t".to_vec());
    reg.add(manifest("a", ToolKind::Http, Some("http://one"), None, None));
    reg.add(manifest("b", ToolKind::Http, Some("http://two"), None, None));
    assert!(reg.remove("a").is_ok());
    assert!(reg.get("a").is_none());
    assert_eq!(names(&reg), vec!["b"]);
    match reg.remove("a") {
        Err(ToolError::NotFound(n)) => assert_eq!(n, "a"),
        other => panic!("unexpected: {other:?}"),
    }
    assert_eq!(names(&reg), vec!["b"]);
}

#[test]
fn load_all_last_wins_and_clears() {
    let mut reg = ToolRegistry::new(b"/t".to_vec());
    reg.add(manifest("old", ToolKind::Http, Some("http://o"), None, None));
    reg.load_all(vec![
        manifest("z", ToolKind::Http, Some("http://1"), None, None),
        manifest("y", ToolKind::Http, Some("http://2"), None, None),
        manifest("z", ToolKind::Http, Some("http://3"), None, None),
    ]);
    assert_eq!(names(&reg), vec!["y", "z"]);
    assert_eq!(reg.get("z").unwrap().base_url.as_deref(), Some("http://3"));
    assert!(reg.get("old").is_none());
    assert_eq!(reg.tools_dir(), b"/t");
}

#[test]
fn manifest_file_paths() {
    let reg = ToolRegistry::new(b"/home/u/.nanoaios/tools".to_vec());
    assert_eq!(reg.manifest_path("weather"), b"/home/u/.nanoaios/tools/weather.toml");
}

#[test]
fn manifest_file_names() {
    assert!(is_manifest_file("weather.toml"));
    assert!(is_manifest_file("a.b.toml"));
    assert!(is_manifest_file("x..toml"));
    assert!(!is_manifest_file(".toml"));
    assert!(!is_manifest_file("toml"));
    assert!(!is_manifest_file("weather.toml.bak"));
    assert!(!is_manifest_file("weather.TOML"));
    assert!(!is_manifest_file("weather."));
    assert!(!is_manifest_file(""));
}

#[test]
fn plan_http_get_and_post() {
    let mut reg = ToolRegistry::new(b"/t".to_vec());
    reg.add(manifest("weather", ToolKind::Http, Some("https://api.weather.example.com//"), Some("get"), Some("/v1/current")));
    reg.add(manifest("poster", ToolKind::Http, Some("http://p"), None, None));
    reg.add(manifest("putter", ToolKind::Http, Some("http://p/"), Some("PUT"), Some("/x")));
    let w = reg.plan_invocation("weather").unwrap();
    assert_eq!(w.url, "https://api.weather.example.com/v1/current");
    assert_eq!(w.method, HttpMethod::Get);
    assert_eq!(w.timeout_secs, 30);
    let p = reg.plan_invocation("poster").unwrap();
    assert_eq!(p.url, "http://p");
    assert_eq!(p.method, HttpMethod::Post);
    let u = reg.plan_invocation("putter").unwrap();
    assert_eq!(u.url, "http://p/x");
    assert_eq!(u.method, HttpMethod::Post);
}

#[test]
fn plan_refusals() {
    let mut reg = ToolRegistry::new(b"/t".to_vec());
    reg.add(manifest("m", ToolKind::Mcp, None, None, None));
    reg.add(manifest("h", ToolKind::Http, None, None, None));
    match reg.plan_invocation("m") {
        Err(e @ ToolError::McpNotImplemented(_)) => assert_eq!(
            e.message(),
            "MCP tool 'm' invocation not yet implemented (planned for v0.3)"
        ),
        other => panic!("unexpected: {other:?}"),
    }
    match reg.plan_invocation("h") {
        Err(e @ ToolError::MissingBaseUrl(_)) => assert_eq!(e.message(), "http tool 'h' missing base_url"),
        other => panic!("unexpected: {other:?}"),
    }
    match reg.plan_invocation("none") {
        Err(e @ ToolError::NotFound(_)) => assert_eq!(e.message(), "tool not found: none"),
        other => panic!("unexpected: {other:?}"),
    }
}

#[test]
fn query_pairs_from_params() {
    let q = query_pairs(&vec![
        ("city".to_string(), Some("Shanghai".to_string())),
        ("days".to_string(), None),
    ]);
    assert_eq!(
        q,
        vec![("city".to_string(), "Shanghai".to_string()), ("days".to_string(), String::new())]
    );
}

#[test]
fn tool_replies() {
    let e = rejected_call("weather", "404 Not Found".to_string(), "nope".to_string());
    match &e {
        ToolError::Rejected { name, status, body } => {
            assert_eq!(name, "weather");
            assert_eq!(status, "404 Not Found");
            assert_eq!(body, "nope");
        }
        other => panic!("unexpected: {other:?}"),
    }
    assert_eq!(e.message(), "tool 'weather' returned 404 Not Found: nope");
}
