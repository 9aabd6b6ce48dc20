use besinveri::config::get_default_config;

#[test]
fn default_config_has_correct_base_url() {
    let config = get_default_config();
    assert_eq!(config.api.base_url, "https://api.besinveri.com");
}

#[test]
fn default_config_is_valid() {
    let config = get_default_config();
    let mut api = toml::Table::new();
    api.insert("base_url".to_owned(), toml::Value::String(config.api.base_url.clone()));
    api.insert("static_url".to_owned(), toml::Value::String(config.api.static_url.clone()));
    let mut root = toml::Table::new();
    root.insert("api".to_owned(), toml::Value::Table(api));
    let toml_str = toml::to_string_pretty(&root).unwrap();
    assert!(!toml_str.is_empty());

    let deserialized: toml::Table = toml::from_str(&toml_str).unwrap();
    assert_eq!(
        deserialized["api"]["base_url"].as_str(),
        Some("https://api.besinveri.com")
    );
}

#[test]
fn default_config_has_the_static_url() {
    let config = get_default_config();
    assert_eq!(config.api.static_url, "https://besinveri.com/static");
}
