use ssh_agent_router::cli::SocketConfig;
use ssh_agent_router::config::Config;
use ssh_agent_router::error::ErrorKind;

fn strings(items: &[&str]) -> Vec<String> {
    items.iter().map(|s| s.to_string()).collect()
}

#[test]
fn parse_stops_the_path_at_the_first_colon() {
    let config = SocketConfig::parse("/tmp/a.sock:SHA256:x:y").unwrap();
    assert_eq!(config.path, "/tmp/a.sock");
    assert_eq!(config.allowed_fingerprints, strings(&["SHA256:x:y"]));
    assert!(config.denied_fingerprints.is_empty());
}

#[test]
fn parse_trims_entries_and_strips_the_hyphen() {
    let config = SocketConfig::parse("p: SHA256:a ,\t-SHA256:b\u{3000}, - c").unwrap();
    assert_eq!(config.path, "p");
    assert_eq!(config.allowed_fingerprints, strings(&["SHA256:a"]));
    assert_eq!(config.denied_fingerprints, strings(&["SHA256:b", " c"]));
}

#[test]
fn parse_keeps_empty_entries() {
    let config = SocketConfig::parse("/tmp/a.sock:").unwrap();
    assert_eq!(config.allowed_fingerprints, strings(&[""]));
    let config = SocketConfig::parse(":a,,-").unwrap();
    assert_eq!(config.path, "");
    assert_eq!(config.allowed_fingerprints, strings(&["a", ""]));
    assert_eq!(config.denied_fingerprints, strings(&[""]));
}

#[test]
fn parse_agrees_with_the_standard_library() {
    for text in ["a:b", "päth:  x , -y ,z ", "::", "no colon", "p:\u{a0}q\u{2003}"] {
        let expected = text.split_once(':').map(|(path, list)| {
            let entries: Vec<&str> = list.split(',').map(|e| e.trim()).collect();
            let allowed: Vec<String> = entries
                .iter()
                .filter(|e| !e.starts_with('-'))
                .map(|e| e.to_string())
                .collect();
            let denied: Vec<String> = entries
                .iter()
                .filter(|e| e.starts_with('-'))
                .map(|e| e[1..].to_string())
                .collect();
            (path.to_string(), allowed, denied)
        });
        let got = SocketConfig::parse(text)
            .ok()
            .map(|c| (c.path, c.allowed_fingerprints, c.denied_fingerprints));
        assert_eq!(got, expected);
    }
}

#[test]
fn parse_without_colon_is_config_invalid() {
    assert_eq!(SocketConfig::parse("").unwrap_err(), ErrorKind::ConfigInvalid);
    assert_eq!(SocketConfig::parse("/tmp/test.sock").unwrap_err(), ErrorKind::ConfigInvalid);
}

#[test]
fn parse_spaced_passes_over_empty_groups() {
    let configs = SocketConfig::parse_spaced(&strings(&["--", "--", "p", "a,-b", "--"])).unwrap();
    assert_eq!(configs.len(), 1);
    assert_eq!(configs[0].path, "p");
    assert_eq!(configs[0].allowed_fingerprints, strings(&["a"]));
    assert_eq!(configs[0].denied_fingerprints, strings(&["b"]));
    assert!(SocketConfig::parse_spaced(&Vec::new()).unwrap().is_empty());
}

#[test]
fn parse_spaced_refuses_groups_of_other_sizes() {
    assert_eq!(
        SocketConfig::parse_spaced(&strings(&["--", "p"])).unwrap_err(),
        ErrorKind::ConfigInvalid
    );
    assert_eq!(
        SocketConfig::parse_spaced(&strings(&["p", "a", "b", "--", "q", "c"])).unwrap_err(),
        ErrorKind::ConfigInvalid
    );
}

#[test]
fn parse_args_picks_the_form_by_the_separator() {
    let spaced = SocketConfig::parse_args(&strings(&["--", "/w.sock", "SHA256:a"])).unwrap();
    assert_eq!(spaced.len(), 1);
    assert_eq!(spaced[0].path, "/w.sock");
    assert_eq!(spaced[0].allowed_fingerprints, strings(&["SHA256:a"]));
    let colon = SocketConfig::parse_args(&strings(&["/w.sock:SHA256:a", "/h.sock:-SHA256:b"]))
        .unwrap();
    assert_eq!(colon.len(), 2);
    assert_eq!(colon[1].path, "/h.sock");
    assert_eq!(colon[1].denied_fingerprints, strings(&["SHA256:b"]));
    assert_eq!(
        SocketConfig::parse_args(&strings(&["/w.sock:SHA256:a", "oops"])).unwrap_err(),
        ErrorKind::ConfigInvalid
    );
    assert!(SocketConfig::parse_args(&Vec::new()).unwrap().is_empty());
}

#[test]
fn config_from_args_resolves_the_upstream() {
    let args = strings(&["/w.sock:SHA256:a"]);
    let given = Config::from_args("/run/agent".to_string(), Some("/env".to_string()), &args);
    assert_eq!(given.unwrap().upstream, "/run/agent");
    let designated = Config::from_args(String::new(), Some("/env".to_string()), &args).unwrap();
    assert_eq!(designated.upstream, "/env");
    assert_eq!(designated.sockets.len(), 1);
    assert_eq!(designated.sockets[0].path, "/w.sock");
    assert_eq!(designated.sockets[0].allowed, strings(&["SHA256:a"]));
    let none = Config::from_args(String::new(), None, &args).unwrap();
    assert_eq!(none.upstream, "");
    assert_eq!(
        Config::from_args(String::new(), None, &strings(&["oops"])).unwrap_err(),
        ErrorKind::ConfigInvalid
    );
}

#[test]
fn config_endpoints_need_an_upstream_and_an_endpoint() {
    let args = strings(&["/w.sock:SHA256:a,-SHA256:b", "/h.sock:"]);
    let config = Config::from_args("/run/agent".to_string(), None, &args).unwrap();
    let endpoints = config.endpoints().unwrap();
    assert_eq!(endpoints.len(), 2);
    assert_eq!(endpoints[0].path(), "/w.sock");
    assert_eq!(endpoints[0].agent().upstream_path(), "/run/agent");
    assert!(endpoints[0].admits("SHA256:a"));
    assert!(!endpoints[0].admits("SHA256:b"));
    assert!(!endpoints[0].admits("SHA256:c"));
    assert_eq!(endpoints[1].path(), "/h.sock");
    let no_upstream = Config::from_args(String::new(), None, &args).unwrap();
    assert_eq!(no_upstream.endpoints().unwrap_err(), ErrorKind::ConfigInvalid);
    let no_endpoint = Config::with_upstream("/run/agent".to_string());
    assert_eq!(no_endpoint.endpoints().unwrap_err(), ErrorKind::ConfigInvalid);
}
