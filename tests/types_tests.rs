use arbitrage_engine::types::{generate_route_id, SheetsConfig};

#[test]
fn test_sheets_config_creation() {
    let config = SheetsConfig {
        spreadsheet_id: "test_id".to_string(),
        api_key: Some("test_key".to_string()),
        service_account_json: None,
        cache_ttl_seconds: 300,
    };

    assert_eq!(config.spreadsheet_id, "test_id");
    assert_eq!(config.cache_ttl_seconds, 300);
}

#[test]
fn test_generate_route_id() {
    let path = vec!["uniswap".to_string(), "sushiswap".to_string()];
    let tokens = vec!["ETH".to_string(), "USDT".to_string(), "ETH".to_string()];

    let id1 = generate_route_id(&path, &tokens);
    let id2 = generate_route_id(&path, &tokens);

    assert_eq!(id1, id2);
    assert!(id1.starts_with("route_"));
}

#[test]
fn route_id_is_lower_hex_after_prefix() {
    let path = vec!["uniswap".to_string()];
    let tokens = vec!["ETH".to_string(), "ETH".to_string()];
    let id = generate_route_id(&path, &tokens);
    let digits = &id["route_".len()..];
    assert!(!digits.is_empty());
    assert!(digits.len() <= 16);
    assert!(digits.chars().all(|c| c.is_ascii_digit() || ('a'..='f').contains(&c)));
}

#[test]
fn route_id_depends_on_tokens() {
    let path = vec!["uniswap".to_string(), "sushiswap".to_string()];
    let a = vec!["ETH".to_string(), "USDT".to_string(), "ETH".to_string()];
    let b = vec!["ETH".to_string(), "DAI".to_string(), "ETH".to_string()];
    assert_ne!(generate_route_id(&path, &a), generate_route_id(&path, &b));
}
