use dotctor::config::{config_candidates, explicit_config, find_config};
use dotctor::string_map::StringMap;
use std::path::Path;

#[test]
fn candidates_in_search_order() {
    assert_eq!(
        config_candidates(Some("/home/me")),
        vec!["dotctor.toml", "/home/me/.dotctor.toml"]
    );
    assert_eq!(
        config_candidates(Some("/home/me/")),
        vec!["dotctor.toml", "/home/me/.dotctor.toml"]
    );
    assert_eq!(config_candidates(None), vec!["dotctor.toml", "/.dotctor.toml"]);
    assert_eq!(config_candidates(Some("")), vec!["dotctor.toml", ".dotctor.toml"]);
}

#[test]
fn find_config_takes_first_existing() {
    let c = config_candidates(Some("/h"));
    assert_eq!(find_config(&c, &vec![true, true]), Ok("dotctor.toml".to_string()));
    assert_eq!(find_config(&c, &vec![false, true]), Ok("/h/.dotctor.toml".to_string()));
    assert_eq!(
        find_config(&c, &vec![false, false]),
        Err("No config file found. Create dotctor.toml or ~/.dotctor.toml".to_string())
    );
}

#[test]
fn explicit_config_must_exist() {
    assert_eq!(explicit_config("a.toml", true), Ok("a.toml".to_string()));
    assert_eq!(
        explicit_config("/nonexistent/path.toml", false),
        Err("Config file not found: /nonexistent/path.toml".to_string())
    );
}

#[test]
fn string_map_keeps_keys_sorted_and_unique() {
    let mut m = StringMap::new();
    assert_eq!(m.len(), 0);
    assert_eq!(m.get("a"), None);
    m.insert("node".to_string(), ">= 22".to_string());
    m.insert("git".to_string(), ">= 2".to_string());
    m.insert("nvim".to_string(), ">= 0.10".to_string());
    m.insert("git".to_string(), ">= 3".to_string());
    assert_eq!(m.len(), 3);
    assert_eq!((m.key(0), m.value(0)), ("git", ">= 3"));
    assert_eq!((m.key(1), m.value(1)), ("node", ">= 22"));
    assert_eq!((m.key(2), m.value(2)), ("nvim", ">= 0.10"));
    assert_eq!(m.get("git"), Some(">= 3"));
    assert_eq!(m.get("gi"), None);
}

#[test]
fn string_map_orders_like_btreemap() {
    let keys = ["~/.zshrc", "~/.gitconfig", "Z", "a", "ä", "ab", "", "~"];
    let mut m = StringMap::new();
    let mut b = std::collections::BTreeMap::new();
    for (i, k) in keys.iter().enumerate() {
        m.insert(k.to_string(), i.to_string());
        b.insert(k.to_string(), i.to_string());
    }
    let ours: Vec<(String, String)> =
        (0..m.len()).map(|i| (m.key(i).to_string(), m.value(i).to_string())).collect();
    let theirs: Vec<(String, String)> = b.into_iter().collect();
    assert_eq!(ours, theirs);
}

#[test]
fn load_nonexistent_file() {
    let path = "/nonexistent/path.toml";
    let result = explicit_config(path, Path::new(path).exists());
    assert!(result.is_err());
}
