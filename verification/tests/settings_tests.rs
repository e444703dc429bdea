use nanoaios::config::{AppConfig, ConfigError, ProviderKind};
use nanoaios::settings::{
    apply_overrides, overrides_from_vars, parse_env_file, parse_env_line, parse_port,
    parse_provider_kind, trim_blank_text, use_default_config, ConfigOverrides,
};

fn none() -> ConfigOverrides {
    ConfigOverrides {
        api_host: None,
        api_port: None,
        provider_kind: None,
        provider_model: None,
        provider_base_url: None,
    }
}

fn pairs(v: &[(&str, &str)]) -> Vec<(String, String)> {
    v.iter().map(|(k, v)| (k.to_string(), v.to_string())).collect()
}

#[test]
fn ports() {
    assert_eq!(parse_port("4242"), Some(4242));
    assert_eq!(parse_port("0"), Some(0));
    assert_eq!(parse_port("65535"), Some(65535));
    assert_eq!(parse_port("+80"), Some(80));
    assert_eq!(parse_port("0080"), Some(80));
    assert_eq!(parse_port("65536"), None);
    assert_eq!(parse_port("999999999999"), None);
    assert_eq!(parse_port(""), None);
    assert_eq!(parse_port("+"), None);
    assert_eq!(parse_port("-1"), None);
    assert_eq!(parse_port("80a"), None);
    assert_eq!(parse_port(" 80"), None);
    for p in [0u16, 1, 9, 10, 255, 4242, 65535] {
        assert_eq!(parse_port(&p.to_string()), Some(p));
        assert_eq!(parse_port(&p.to_string()), p.to_string().parse::<u16>().ok());
    }
}

#[test]
fn provider_kinds() {
    assert_eq!(parse_provider_kind("mock"), Some(ProviderKind::Mock));
    assert_eq!(parse_provider_kind("openai_compatible"), Some(ProviderKind::OpenaiCompatible));
    assert_eq!(parse_provider_kind("Mock"), None);
    assert_eq!(parse_provider_kind(""), None);
}

#[test]
fn overrides_apply_over_file_values() {
    let o = ConfigOverrides {
        api_host: Some("0.0.0.0".to_string()),
        api_port: Some("8080".to_string()),
        provider_kind: Some("openai_compatible".to_string()),
        provider_model: Some("gpt-4o-mini".to_string()),
        provider_base_url: Some("https://api.openai.com/v1".to_string()),
    };
    let c = apply_overrides(AppConfig::default(), &o).unwrap();
    assert_eq!(c.api_host, "0.0.0.0");
    assert_eq!(c.api_port, 8080);
    assert_eq!(c.provider.kind, ProviderKind::OpenaiCompatible);
    assert_eq!(c.provider.model, "gpt-4o-mini");
    assert_eq!(c.provider.base_url.as_deref(), Some("https://api.openai.com/v1"));
    assert_eq!(c.node_name, "nanoaios-local");
    assert_eq!(c.provider.api_key_env.as_deref(), Some("OPENAI_API_KEY"));

    let same = apply_overrides(AppConfig::default(), &none()).unwrap();
    assert_eq!(same.api_host, "127.0.0.1");
    assert_eq!(same.api_port, 4242);
}

#[test]
fn overrides_refused() {
    let mut o = none();
    o.api_port = Some("70000".to_string());
    o.provider_kind = Some("bogus".to_string());
    let e = apply_overrides(AppConfig::default(), &o).unwrap_err();
    assert_eq!(e, ConfigError::InvalidPort("70000".to_string()));
    assert_eq!(e.message(), "invalid NANOAIOS_API_PORT: 70000");
    o.api_port = None;
    let e = apply_overrides(AppConfig::default(), &o).unwrap_err();
    assert_eq!(e, ConfigError::InvalidProviderKind("bogus".to_string()));
    assert_eq!(
        e.message(),
        "invalid NANOAIOS_PROVIDER_KIND (expected mock or openai_compatible): bogus"
    );
}

#[test]
fn later_entries_win() {
    let vars = pairs(&[
        ("NANOAIOS_API_HOST", "from-dotenv"),
        ("NANOAIOS_PROVIDER_KIND", "mock"),
        ("PATH", "/bin"),
        ("NANOAIOS_API_HOST", "from-env"),
    ]);
    let o = overrides_from_vars(&vars);
    assert_eq!(o.api_host.as_deref(), Some("from-env"));
    assert_eq!(o.provider_kind.as_deref(), Some("mock"));
    assert_eq!(o.api_port, None);
    assert_eq!(o.provider_model, None);
    assert_eq!(o.provider_base_url, None);
}

#[test]
fn dotenv_lines() {
    assert_eq!(
        parse_env_line("  NANOAIOS_API_HOST = 0.0.0.0  "),
        Some(("NANOAIOS_API_HOST".to_string(), "0.0.0.0".to_string()))
    );
    assert_eq!(parse_env_line("# comment"), None);
    assert_eq!(parse_env_line("   "), None);
    assert_eq!(parse_env_line("no_equals"), None);
    assert_eq!(parse_env_line("=value"), None);
    assert_eq!(parse_env_line("K=\"quoted value\""), Some(("K".to_string(), "quoted value".to_string())));
    assert_eq!(parse_env_line("K='x'"), Some(("K".to_string(), "x".to_string())));
    assert_eq!(parse_env_line("K=a=b"), Some(("K".to_string(), "a=b".to_string())));
    assert_eq!(parse_env_line("K="), Some(("K".to_string(), String::new())));
    assert_eq!(parse_env_line("K=\"unbalanced"), Some(("K".to_string(), "\"unbalanced".to_string())));
    assert_eq!(trim_blank_text("\t a b \r"), "a b");
}

#[test]
fn dotenv_file() {
    let content = "NANOAIOS_API_HOST=0.0.0.0\r\n# provider\nNANOAIOS_PROVIDER_KIND=mock\n\nOPENAI_API_KEY=sk-your-api-key-here";
    assert_eq!(
        parse_env_file(content),
        pairs(&[
            ("NANOAIOS_API_HOST", "0.0.0.0"),
            ("NANOAIOS_PROVIDER_KIND", "mock"),
            ("OPENAI_API_KEY", "sk-your-api-key-here"),
        ])
    );
    assert_eq!(parse_env_file(""), Vec::<(String, String)>::new());
}

#[test]
fn defaults_only_without_file() {
    assert!(use_default_config(false, false));
    assert!(!use_default_config(false, true));
    assert!(!use_default_config(true, false));
    assert!(!use_default_config(true, true));
}
