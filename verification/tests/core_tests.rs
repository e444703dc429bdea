use nanoaios::config::{
    config_dir, config_dir_from_home, config_file_path, config_path, should_write_config,
    AppConfig, ConfigError, MemoryConfig, ProviderConfig, ProviderKind,
};
use nanoaios::kernel::{Kernel, KernelStats};
use nanoaios::runtime::{completion_answer, is_success_status, Completion, ModelReply, RemoteError, Runtime};
use nanoaios::text::{compare_text, join_path, same_text, trim_trailing_slashes, TextOrder};
use nanoaios::tool::{ToolKind, ToolManifest};

#[test]
fn default_config_values() {
    let c = AppConfig::default();
    assert_eq!(c.node_name, "nanoaios-local");
    assert_eq!(c.api_host, "127.0.0.1");
    assert_eq!(c.api_port, 4242);
    assert_eq!(c.provider.kind, ProviderKind::Mock);
    assert_eq!(c.provider.model, "nanoaios/mock-v1");
    assert_eq!(c.provider.base_url.as_deref(), Some("https://api.openai.com/v1"));
    assert_eq!(c.provider.api_key_env.as_deref(), Some("OPENAI_API_KEY"));
    let m = MemoryConfig::default();
    assert!(m.enabled);
    assert_eq!(m.max_messages_per_session, 50);
}

#[test]
fn config_locations() {
    assert_eq!(config_dir_from_home(Some(b"/home/u".to_vec())).unwrap(), b"/home/u/.nanoaios");
    assert_eq!(config_dir_from_home(Some(b"/home/\xff".to_vec())).unwrap(), b"/home/\xff/.nanoaios");
    assert_eq!(config_dir_from_home(None), Err(ConfigError::HomeNotFound));
    assert_eq!(ConfigError::HomeNotFound.message(), "failed to resolve HOME directory");
    assert_eq!(config_file_path(Some(b"/etc/n.toml")).unwrap(), b"/etc/n.toml");
    if let Ok(dir) = config_dir() {
        assert!(dir.ends_with(b"/.nanoaios"));
        assert!(dir.len() > b"/.nanoaios".len());
        let mut file = dir.clone();
        file.extend_from_slice(b"/config.toml");
        assert_eq!(config_path().unwrap(), file);
        assert_eq!(config_file_path(None).unwrap(), file);
    }
}

#[test]
fn init_writes_unless_present() {
    assert!(should_write_config(false, false));
    assert!(should_write_config(false, true));
    assert!(should_write_config(true, true));
    assert!(!should_write_config(true, false));
}

#[test]
fn path_joining() {
    assert_eq!(join_path(b"/a", b"b"), b"/a/b");
    assert_eq!(join_path(b"/a/", b"b"), b"/a/b");
    assert_eq!(join_path(b"", b"b"), b"b");
    assert_eq!(join_path(b"/a", b"/etc/x"), b"/etc/x");
    assert_eq!(join_path(b"a", b""), b"a/");
    assert_eq!(trim_trailing_slashes("http://x///"), "http://x");
    assert_eq!(trim_trailing_slashes("///"), "");
    assert_eq!(trim_trailing_slashes("a/b"), "a/b");
}

#[test]
fn text_order() {
    assert_eq!(compare_text("abc", "abd"), TextOrder::Before);
    assert_eq!(compare_text("ab", "abc"), TextOrder::Before);
    assert_eq!(compare_text("b", "abc"), TextOrder::After);
    assert_eq!(compare_text("Z", "a"), TextOrder::Before);
    assert_eq!(compare_text("x", "x"), TextOrder::Same);
    assert!(same_text("", ""));
    assert!(!same_text("a", "b"));
}

fn provider(kind: ProviderKind, base: Option<&str>, key: Option<&str>) -> ProviderConfig {
    ProviderConfig {
        kind,
        model: "gpt-4o-mini".to_string(),
        base_url: base.map(|s| s.to_string()),
        api_key_env: key.map(|s| s.to_string()),
    }
}

#[test]
fn mock_runtime_answers() {
    let rt = Runtime::new(provider(ProviderKind::Mock, None, None));
    match rt.plan_completion("smoke test") {
        Completion::Answer(a) => assert_eq!(a, "mock-response: smoke test"),
        other => panic!("unexpected: {other:?}"),
    }
}

#[test]
fn openai_runtime_requests() {
    let rt = Runtime::new(provider(ProviderKind::OpenaiCompatible, Some("https://h/v1/"), Some("MY_KEY")));
    match rt.plan_completion("hi") {
        Completion::Remote(q) => {
            assert_eq!(q.url, "https://h/v1/chat/completions");
            assert_eq!(q.api_key_env, "MY_KEY");
            assert_eq!(q.model, "gpt-4o-mini");
            assert_eq!(q.prompt, "hi");
        }
        other => panic!("unexpected: {other:?}"),
    }
    let rt = Runtime::new(provider(ProviderKind::OpenaiCompatible, None, None));
    match rt.plan_completion("hi") {
        Completion::Remote(q) => {
            assert_eq!(q.url, "https://api.openai.com/v1/chat/completions");
            assert_eq!(q.api_key_env, "OPENAI_API_KEY");
        }
        other => panic!("unexpected: {other:?}"),
    }
}

fn tool(name: &str) -> ToolManifest {
    ToolManifest {
        name: name.to_string(),
        description: String::new(),
        kind: ToolKind::Http,
        base_url: Some("http://x".to_string()),
        method: None,
        path: None,
        timeout_secs: 30,
    }
}

#[test]
fn kernel_counts_turns_and_routes_memory() {
    let mut k = Kernel::with_config_dir(AppConfig::default(), b"/home/u/.nanoaios", 77);
    assert_eq!(k.stats(), KernelStats { boot_unix_ms: 77, turns: 0 });
    match k.begin_turn("hello") {
        Completion::Answer(a) => assert_eq!(a, "mock-response: hello"),
        other => panic!("unexpected: {other:?}"),
    }
    k.begin_turn("again");
    assert_eq!(k.stats(), KernelStats { boot_unix_ms: 77, turns: 2 });
    let (store, max) = k.turn_memory(Some("demo")).unwrap();
    assert_eq!(store.root_dir(), b"/home/u/.nanoaios/sessions");
    assert_eq!(max, 50);
    assert!(k.turn_memory(None).is_none());
    assert_eq!(k.tool_registry().tools_dir(), b"/home/u/.nanoaios/tools");
    assert_eq!(k.config().api_port, 4242);
}

#[test]
fn kernel_without_memory() {
    let mut c = AppConfig::default();
    c.memory.enabled = false;
    let k = Kernel::with_config_dir(c, b"/d", 0);
    assert!(k.turn_memory(Some("demo")).is_none());
    assert!(k.memory_store().is_none());
}

#[test]
fn kernel_tools() {
    let mut k = Kernel::with_config_dir(AppConfig::default(), b"/d", 0);
    k.load_tools(vec![tool("b"), tool("a")]);
    k.tool_add(tool("c"));
    let names: Vec<String> = k.tool_list().into_iter().map(|t| t.name).collect();
    assert_eq!(names, vec!["a", "b", "c"]);
    assert!(k.tool_remove("b").is_ok());
    assert!(k.tool_remove("b").is_err());
    let names: Vec<String> = k.tool_list().into_iter().map(|t| t.name).collect();
    assert_eq!(names, vec!["a", "c"]);
}

#[test]
fn kernel_new_uses_home() {
    if let Ok(k) = Kernel::new(AppConfig::default(), 5) {
        assert_eq!(k.stats().turns, 0);
        assert!(k.tool_registry().tools_dir().ends_with(b"/.nanoaios/tools"));
    }
}

#[test]
fn model_replies() {
    assert_eq!(
        completion_answer(ModelReply::Succeeded { content: Some("hi".to_string()) }),
        Ok("hi".to_string())
    );
    assert_eq!(
        completion_answer(ModelReply::Succeeded { content: None }),
        Err(RemoteError::MissingContent)
    );
    let e = completion_answer(ModelReply::Failed {
        status: "500 Internal Server Error".to_string(),
        body: "<empty>".to_string(),
    })
    .unwrap_err();
    assert_eq!(e.message(), "模型请求失败: 500 Internal Server Error <empty>");
    assert_eq!(RemoteError::MissingContent.message(), "响应缺少 choices[0].message.content");
}

#[test]
fn turns_counted_after_many_calls() {
    let mut k = Kernel::with_config_dir(AppConfig::default(), b"/d", 9);
    for _ in 0..25 {
        k.begin_turn("p");
        k.tool_list();
        k.stats();
    }
    k.tool_add(tool("t"));
    assert_eq!(k.stats(), KernelStats { boot_unix_ms: 9, turns: 25 });
}

#[test]
fn success_statuses() {
    assert!(is_success_status(200));
    assert!(is_success_status(204));
    assert!(is_success_status(299));
    assert!(!is_success_status(199));
    assert!(!is_success_status(300));
    assert!(!is_success_status(404));
    assert!(!is_success_status(500));
}

#[test]
fn kernel_keeps_provider() {
    let mut c = AppConfig::default();
    c.provider.kind = ProviderKind::OpenaiCompatible;
    let mut k = Kernel::with_config_dir(c, b"/d", 0);
    k.tool_add(tool("a"));
    let _ = k.tool_remove("a");
    assert_eq!(k.config().provider.kind, ProviderKind::OpenaiCompatible);
    match k.begin_turn("x") {
        Completion::Remote(q) => assert_eq!(q.model, "nanoaios/mock-v1"),
        other => panic!("unexpected: {other:?}"),
    }
}
