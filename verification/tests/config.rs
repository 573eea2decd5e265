use announce_au::config::default_config;

#[test]
fn default_config_values() {
    let c = default_config();
    assert_eq!(c.endpoint.ip, "127.0.0.1");
    assert_eq!(c.endpoint.port, Some(22023));
    assert_eq!(c.message.unique_id, 0);
    assert_eq!(c.message.default_message, "Change this message in config.toml and restart!");
    assert_eq!(c.message.message.len(), 5);
    for s in &c.message.message {
        assert!(s.is_empty());
    }
}
