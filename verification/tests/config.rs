use agentx::config::{
    default_upload_dir, AgentProcessConfig, CommandConfig, Config, McpServerConfig, ModelConfig,
};
use agentx::string_map::StringMap;

#[test]
fn what_is_left_out_takes_its_default() {
    let mut servers = StringMap::new();
    servers.insert("Iflow", AgentProcessConfig::new("iflow"));
    let config = Config::new(servers);
    assert_eq!(config.upload_dir, ".");
    assert_eq!(default_upload_dir(), ".");
    assert_eq!(config.agent_servers.len(), 1);
    assert_eq!(config.models.len(), 0);
    assert_eq!(config.mcp_servers.len(), 0);
    assert_eq!(config.commands.len(), 0);
    let agent = config.agent_servers.get("Iflow").unwrap();
    assert_eq!(agent.command, "iflow");
    assert!(agent.args.is_empty());
    assert_eq!(agent.env.len(), 0);
}

#[test]
fn the_tables_hold_what_is_put_into_them() {
    let mut config = Config::new(StringMap::new());
    config.models.insert(
        "fast",
        ModelConfig {
            enabled: true,
            provider: "acme".to_string(),
            base_url: "https://example.invalid".to_string(),
            api_key: "SECRET-REDACTED".to_string(),
            model_name: "fast-1".to_string(),
        },
    );
    config.mcp_servers.insert("files", McpServerConfig::new(false, "file access"));
    config.commands.insert(
        "review",
        CommandConfig { description: "Review".to_string(), template: "Review {file}".to_string() },
    );
    assert!(config.models.get("fast").unwrap().enabled);
    assert_eq!(config.models.get("fast").unwrap().model_name, "fast-1");
    let files = config.mcp_servers.get("files").unwrap();
    assert!(!files.enabled);
    assert_eq!(files.description, "file access");
    assert_eq!(files.config.len(), 0);
    assert_eq!(config.commands.get("review").unwrap().template, "Review {file}");
    assert!(config.commands.get("missing").is_none());
}

#[test]
fn a_string_map_keeps_one_value_per_key() {
    let mut map: StringMap<u32> = StringMap::new();
    assert_eq!(map.len(), 0);
    assert!(!map.contains("a"));
    map.insert("a", 1);
    map.insert("b", 2);
    map.insert("a", 3);
    assert_eq!(map.len(), 2);
    assert_eq!(map.get("a"), Some(&3));
    assert_eq!(map.get("b"), Some(&2));
    assert_eq!(map.get("c"), None);
    assert_eq!(map.remove("a"), Some(3));
    assert_eq!(map.remove("a"), None);
    assert!(!map.contains("a"));
    assert_eq!(map.len(), 1);
    assert_eq!(map.id_at(0), "b");
    assert_eq!(map.value_at(0), &2);
    assert_eq!(map.pop(), Some(("b".to_string(), 2)));
    assert_eq!(map.pop(), None);
    assert_eq!(map.len(), 0);
}

#[test]
fn the_empty_string_is_a_key_like_any_other() {
    let mut map: StringMap<&str> = StringMap::new();
    map.insert("", "empty");
    map.insert("é", "accent");
    assert_eq!(map.get(""), Some(&"empty"));
    assert_eq!(map.get("é"), Some(&"accent"));
    assert_eq!(map.get("e"), None);
}
