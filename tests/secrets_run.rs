use std::collections::HashMap;

use vault_secrets::{join_lines, render, Config, ConfigError, FetchSession, RenderError, SecretsMap};

fn names(list: &[&str]) -> Vec<String> {
    list.iter().map(|s| s.to_string()).collect()
}

fn config(filter: &[&str], only_value: bool) -> Config {
    Config::from_options(
        Some("https://example.vault.azure.net".to_string()),
        Some(names(filter)),
        None,
        only_value,
    )
    .unwrap()
}

/// Runs a session against a store given as a list of answers, one per
/// request; `None` stands for a failed fetch. Returns the requests made.
fn run(session: &mut FetchSession, answers: &[Option<&str>]) -> Vec<String> {
    let mut asked = Vec::new();
    let mut k = 0;
    while let Some(name) = session.next_request() {
        asked.push(name);
        match answers[k] {
            Some(v) => session.record_value(v.to_string()),
            None => session.record_failure(),
        }
        k += 1;
    }
    asked
}

fn fetch_all(filter: &[&str], values: &[&str]) -> SecretsMap {
    let mut session = FetchSession::new(names(filter));
    let answers: Vec<Option<&str>> = values.iter().map(|v| Some(*v)).collect();
    let asked = run(&mut session, &answers);
    assert_eq!(asked, names(filter));
    session.into_secrets().unwrap()
}

#[test]
fn missing_keyvault_url_is_rejected() {
    let r = Config::from_options(None, Some(names(&["a"])), None, false);
    assert!(matches!(r, Err(ConfigError::MissingKeyvaultUrl)));
    let r = Config::from_options(None, None, Some("sub".to_string()), true);
    assert!(matches!(r, Err(ConfigError::MissingKeyvaultUrl)));
}

#[test]
fn missing_secrets_filter_is_rejected() {
    let r = Config::from_options(Some("https://v".to_string()), None, None, false);
    assert!(matches!(r, Err(ConfigError::MissingSecretsFilter)));
}

#[test]
fn options_fill_the_configuration() {
    let c = Config::from_options(
        Some("https://v".to_string()),
        Some(names(&["x", "y"])),
        Some("sub-1".to_string()),
        true,
    )
    .unwrap();
    assert_eq!(c.keyvault_url, "https://v");
    assert_eq!(c.secrets_filter, names(&["x", "y"]));
    assert_eq!(c.subscription, "sub-1");
    assert!(c.only_value);
    let d = config(&["x"], false);
    assert_eq!(d.subscription, "");
    assert!(!d.only_value);
}

#[test]
fn distinct_names_give_one_entry_each() {
    let m = fetch_all(&["db-pass", "api-key", "token"], &["p1", "k2", "t3"]);
    assert_eq!(m.len(), 3);
    assert_eq!(m.get(&"db-pass".to_string()), Some("p1".to_string()));
    assert_eq!(m.get(&"api-key".to_string()), Some("k2".to_string()));
    assert_eq!(m.get(&"token".to_string()), Some("t3".to_string()));
    assert_eq!(m.get(&"other".to_string()), None);
}

#[test]
fn duplicate_names_keep_the_last_value() {
    let m = fetch_all(&["a", "b", "a", "c", "a"], &["1", "2", "3", "4", "5"]);
    assert_eq!(m.len(), 3);
    assert_eq!(m.get(&"a".to_string()), Some("5".to_string()));
    assert_eq!(m.get(&"b".to_string()), Some("2".to_string()));
    assert_eq!(m.get(&"c".to_string()), Some("4".to_string()));
}

#[test]
fn insert_replaces_an_earlier_value() {
    let mut m = SecretsMap::new();
    assert_eq!(m.len(), 0);
    m.insert("k".to_string(), "old".to_string());
    m.insert("j".to_string(), "other".to_string());
    m.insert("k".to_string(), "new".to_string());
    assert_eq!(m.len(), 2);
    assert_eq!(m.get(&"k".to_string()), Some("new".to_string()));
    assert_eq!(m.value_lines(), names(&["new", "other"]));
}

#[test]
fn empty_filter_fetches_nothing_and_prints_nothing() {
    let mut session = FetchSession::new(Vec::new());
    assert_eq!(session.next_request(), None);
    let asked = run(&mut session, &[]);
    assert!(asked.is_empty());
    let m = session.into_secrets().unwrap();
    assert_eq!(m.len(), 0);
    assert_eq!(render(&config(&[], false), &m).unwrap(), "");
    assert_eq!(render(&config(&[], true), &m).unwrap(), "");
}

#[test]
fn only_value_prints_one_value_per_line() {
    let filter = ["a", "b", "a", "c"];
    let m = fetch_all(&filter, &["va", "vb", "va2", "vc"]);
    let out = render(&config(&filter, true), &m).unwrap();
    let lines: Vec<&str> = out.lines().collect();
    assert_eq!(lines.len(), m.len());
    assert_eq!(lines.len(), 3);
    let mut sorted = lines.clone();
    sorted.sort();
    assert_eq!(sorted, vec!["va2", "vb", "vc"]);
    assert!(out.ends_with('\n'));
    assert!(!out.contains('{'));
    assert!(!out.contains('"'));
    assert!(!out.contains(':'));
}

#[test]
fn json_output_parses_back_to_the_map() {
    let filter = ["zeta", "alpha", "quote\"d", "alpha"];
    let m = fetch_all(&filter, &["z", "a1", "q\nline", "a2"]);
    let out = render(&config(&filter, false), &m).unwrap();
    assert!(out.ends_with("}\n"));
    let parsed: HashMap<String, String> = serde_json::from_str(&out).unwrap();
    let mut expected = HashMap::new();
    expected.insert("zeta".to_string(), "z".to_string());
    expected.insert("alpha".to_string(), "a2".to_string());
    expected.insert("quote\"d".to_string(), "q\nline".to_string());
    assert_eq!(parsed, expected);
}

#[test]
fn json_output_is_pretty_printed() {
    let m = fetch_all(&["b", "a"], &["2", "1"]);
    let out = render(&config(&["b", "a"], false), &m).unwrap();
    assert_eq!(out, "{\n  \"a\": \"1\",\n  \"b\": \"2\"\n}\n");
    let json = m.to_json().unwrap();
    assert_eq!(json, "{\n  \"a\": \"1\",\n  \"b\": \"2\"\n}");
}

#[test]
fn json_of_an_empty_map_when_names_were_requested() {
    let m = SecretsMap::new();
    let out = render(&config(&["x"], false), &m).unwrap();
    assert_eq!(out, "{}\n");
    assert_ne!(render(&config(&["x"], false), &m), Err(RenderError::Json));
}

#[test]
fn failure_on_second_of_three_aborts_everything() {
    let mut session = FetchSession::new(names(&["first", "second", "third"]));
    let asked = run(&mut session, &[Some("v1"), None, Some("v3")]);
    assert_eq!(asked, names(&["first", "second"]));
    assert_eq!(session.next_request(), None);
    assert!(session.into_secrets().is_none());
}

#[test]
fn failure_on_first_request_stops_at_once() {
    let mut session = FetchSession::new(names(&["only"]));
    let asked = run(&mut session, &[None]);
    assert_eq!(asked, names(&["only"]));
    assert!(session.into_secrets().is_none());
}

#[test]
fn unfinished_session_hands_out_nothing() {
    let mut session = FetchSession::new(names(&["a", "b"]));
    assert_eq!(session.next_request(), Some("a".to_string()));
    session.record_value("1".to_string());
    assert_eq!(session.next_request(), Some("b".to_string()));
    assert!(session.into_secrets().is_none());
}

#[test]
fn join_lines_ends_each_line() {
    assert_eq!(join_lines(&names(&["x", "", "yz"])), "x\n\nyz\n");
    assert_eq!(join_lines(&Vec::new()), "");
}
