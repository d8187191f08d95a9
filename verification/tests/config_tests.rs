use opencrab::config::{
    default_config_path, default_connection_mode, default_domain, default_host,
    default_log_level, default_port, default_true, default_true_opt, expand_config_path,
    join_path, substitute_env_vars, ChannelsConfig, ConfigPathError, FeishuConfig,
    GatewayConfig,
};

fn feishu_with_domain(domain: Option<&str>) -> FeishuConfig {
    FeishuConfig {
        enabled: true,
        app_id: String::new(),
        app_secret: String::new(),
        encrypt_key: None,
        verification_token: None,
        domain: domain.map(|d| d.to_string()),
        connection_mode: None,
        webhook_port: None,
        require_mention: None,
    }
}

#[test]
fn feishu_base_url_defaults() {
    let cfg = FeishuConfig {
        enabled: true,
        app_id: String::new(),
        app_secret: String::new(),
        encrypt_key: None,
        verification_token: None,
        domain: Some("feishu".to_string()),
        connection_mode: None,
        webhook_port: None,
        require_mention: None,
    };
    assert_eq!(cfg.base_url(), "https://open.feishu.cn/open-apis");
}

#[test]
fn feishu_base_url_lark() {
    let cfg = FeishuConfig {
        enabled: true,
        app_id: String::new(),
        app_secret: String::new(),
        encrypt_key: None,
        verification_token: None,
        domain: Some("lark".to_string()),
        connection_mode: None,
        webhook_port: None,
        require_mention: None,
    };
    assert_eq!(cfg.base_url(), "https://open.larksuite.com/open-apis");
}

#[test]
fn feishu_base_url_other_domains() {
    assert_eq!(feishu_with_domain(None).base_url(), "https://open.feishu.cn/open-apis");
    assert_eq!(
        feishu_with_domain(Some("https://proxy.example.com/api")).base_url(),
        "https://proxy.example.com/api"
    );
    assert_eq!(
        feishu_with_domain(Some("open.example.com")).base_url(),
        "https://open.example.com/open-apis"
    );
}

#[test]
fn feishu_ws_endpoint_urls() {
    assert_eq!(
        feishu_with_domain(Some("feishu")).ws_endpoint_url(),
        "https://open.feishu.cn/callback/ws/endpoint"
    );
    assert_eq!(
        feishu_with_domain(Some("lark")).ws_endpoint_url(),
        "https://open.larksuite.com/callback/ws/endpoint"
    );
    assert_eq!(
        feishu_with_domain(Some("http://localhost:9000//")).ws_endpoint_url(),
        "http://localhost:9000/callback/ws/endpoint"
    );
    assert_eq!(
        feishu_with_domain(Some("open.example.com")).ws_endpoint_url(),
        "https://open.example.com/callback/ws/endpoint"
    );
}

#[test]
fn require_mention_defaults_to_true() {
    let mut cfg = feishu_with_domain(None);
    assert!(cfg.requires_mention());
    cfg.require_mention = Some(false);
    assert!(!cfg.requires_mention());
}

#[test]
fn env_var_substitution() {
    let env = vec![("OPENCRAB_TEST_KEY".to_string(), "secret123".to_string())];
    let input = "api_key = \"${OPENCRAB_TEST_KEY}\"";
    let result = substitute_env_vars(input, &env);
    assert_eq!(result, "api_key = \"secret123\"");
}

#[test]
fn unset_env_var_becomes_empty() {
    let env: Vec<(String, String)> = Vec::new();
    let input = "api_key = \"${OPENCRAB_NONEXISTENT_VAR}\"";
    let result = substitute_env_vars(input, &env);
    assert_eq!(result, "api_key = \"\"");
}

#[test]
fn substitution_edge_cases() {
    let env = vec![
        ("A".to_string(), "1".to_string()),
        ("B".to_string(), "2".to_string()),
        ("A".to_string(), "shadowed".to_string()),
    ];
    assert_eq!(substitute_env_vars("${A}${B}-${A}", &env), "12-1");
    assert_eq!(substitute_env_vars("${}", &env), "${}");
    assert_eq!(substitute_env_vars("${A", &env), "${A");
    assert_eq!(substitute_env_vars("$${A}", &env), "$1");
    assert_eq!(substitute_env_vars("${A${B}", &env), "");
    assert_eq!(substitute_env_vars("no placeholders", &env), "no placeholders");
}

#[test]
fn paths_join_like_pathbuf() {
    assert_eq!(join_path("/home/u", "x"), "/home/u/x");
    assert_eq!(join_path("/home/u/", "x"), "/home/u/x");
    assert_eq!(join_path("/home/u", "/etc/x"), "/etc/x");
    assert_eq!(join_path("", "x"), "x");
    assert_eq!(join_path("/home/u", ""), "/home/u/");
}

#[test]
fn config_paths() {
    match default_config_path(Some("/home/u".to_string())) {
        Ok(p) => assert_eq!(p, "/home/u/.opencrab/config.toml"),
        Err(_) => panic!("home is known"),
    }
    assert!(matches!(default_config_path(None), Err(ConfigPathError::NoHomeDir)));
    match expand_config_path("~/.opencrab/config.toml", Some("/root".to_string())) {
        Ok(p) => assert_eq!(p, "/root/.opencrab/config.toml"),
        Err(_) => panic!("home is known"),
    }
    match expand_config_path("./my-config.toml", None) {
        Ok(p) => assert_eq!(p, "./my-config.toml"),
        Err(_) => panic!("no home needed"),
    }
    assert!(matches!(expand_config_path("~/x", None), Err(ConfigPathError::NoHomeDir)));
}

#[test]
fn defaults() {
    assert_eq!(default_host(), "127.0.0.1");
    assert_eq!(default_port(), 18789);
    assert!(default_true());
    assert_eq!(default_true_opt(), Some(true));
    assert_eq!(default_domain(), Some("feishu".to_string()));
    assert_eq!(default_connection_mode(), Some("websocket".to_string()));
    assert_eq!(default_log_level(), "info");
    let g = GatewayConfig::default();
    assert_eq!(g.host, "127.0.0.1");
    assert_eq!(g.port, 18789);
    assert!(g.auth_token.is_none());
    assert!(ChannelsConfig::default().feishu.is_none());
}
