use codex_github_bridge::link::{
    github_pull_request_key, parses_as_u64, pull_request_link_key, LinkError,
};
use codex_github_bridge::paths::{default_relay_dir, default_state_file, join_path};
use codex_github_bridge::state::{Link, State};

fn link(state: &mut State, url: &str, thread_id: &str, cwd: &str) -> Result<String, LinkError> {
    let key = pull_request_link_key(url, thread_id)?;
    state.insert_link(key.clone(), Link { thread_id: thread_id.into(), cwd: cwd.into() });
    Ok(key)
}

#[test]
fn link_stores_the_current_codex_session_for_a_pull_request() {
    let mut state = State::new();
    let key = link(&mut state, "https://github.com/WashizuRyo/menu/pull/27", "thread-27", "/tmp/menu")
        .ok()
        .unwrap();
    assert_eq!(key, "WashizuRyo/menu#27");
    let stored = state.link("WashizuRyo/menu#27").unwrap();
    assert_eq!(stored.thread_id, "thread-27");
    assert_eq!(stored.cwd, "/tmp/menu");
    assert!(state.deliveries.is_empty());
}

#[test]
fn link_accepts_a_pull_request_url_with_a_trailing_slash() {
    let key = pull_request_link_key("https://github.com/WashizuRyo/menu/pull/27/", "thread-27");
    assert_eq!(key.ok(), Some("WashizuRyo/menu#27".to_string()));
}

#[test]
fn linking_again_replaces_the_session() {
    let mut state = State::new();
    link(&mut state, "https://github.com/o/r/pull/1", "first", "/a").ok().unwrap();
    link(&mut state, "https://github.com/o/r/pull/1", "second", "/b").ok().unwrap();
    assert_eq!(state.links.len(), 1);
    assert_eq!(state.link("o/r#1").unwrap().thread_id, "second");
    assert!(state.link("o/r#2").is_none());
}

#[test]
fn link_refuses_a_missing_session_or_a_wrong_url() {
    assert!(matches!(
        pull_request_link_key("https://github.com/o/r/pull/1", ""),
        Err(LinkError::MissingThreadId)
    ));
    for url in [
        "not a url",
        "https://gitlab.com/o/r/pull/1",
        "https://github.com/o/r/pulls/1",
        "https://github.com/o/r/pull/one",
        "https://github.com/o/r/pull/1/files",
        "https://github.com/o/r/pull/-1",
        "https://github.com/o/r/pull/18446744073709551616",
        "https://github.com/o/r/pull/1//",
    ] {
        assert!(
            matches!(pull_request_link_key(url, "thread"), Err(LinkError::NotPullRequestUrl)),
            "{url}"
        );
    }
}

#[test]
fn link_keeps_the_number_as_written() {
    assert_eq!(
        pull_request_link_key("https://github.com//o/r/pull/+027", "t").ok(),
        Some("o/r#+027".to_string())
    );
    assert_eq!(
        pull_request_link_key("https://github.com/o/r/pull/18446744073709551615", "t").ok(),
        Some("o/r#18446744073709551615".to_string())
    );
}

#[test]
fn pull_request_key_from_host_and_path() {
    assert_eq!(
        github_pull_request_key(Some("github.com"), "/o/r/pull/5"),
        Some("o/r#5".to_string())
    );
    assert_eq!(github_pull_request_key(Some("github.com"), "///o/r/pull/5/"), Some("o/r#5".to_string()));
    assert_eq!(github_pull_request_key(None, "/o/r/pull/5"), None);
    assert_eq!(github_pull_request_key(Some("api.github.com"), "/o/r/pull/5"), None);
    assert_eq!(github_pull_request_key(Some("github.com"), "/o/r/pull/"), None);
}

#[test]
fn unsigned_numbers_parse_as_std_does() {
    let chars = |s: &str| s.chars().collect::<Vec<char>>();
    for (text, ok) in [
        ("0", true),
        ("+7", true),
        ("007", true),
        ("18446744073709551615", true),
        ("18446744073709551616", false),
        ("99999999999999999999", false),
        ("", false),
        ("+", false),
        ("-1", false),
        ("1a", false),
        ("++1", false),
    ] {
        assert_eq!(parses_as_u64(&chars(text)), ok, "{text}");
        assert_eq!(text.parse::<u64>().is_ok(), ok, "{text}");
    }
}

#[test]
fn default_locations_follow_the_home_directory() {
    assert_eq!(
        default_state_file("/Users/me"),
        "/Users/me/Library/Application Support/codex-github-bridge/state.json"
    );
    assert_eq!(
        default_relay_dir("/Users/me/"),
        "/Users/me/Library/Application Support/codex-github-bridge/relays"
    );
    assert_eq!(default_relay_dir(""), "Library/Application Support/codex-github-bridge/relays");
    for home in ["/Users/me", "/Users/me/", "", "relative/home"] {
        let state_file = default_state_file(home);
        let beside = std::path::Path::new(&state_file).parent().unwrap().join("relays");
        assert_eq!(beside.to_str().unwrap(), default_relay_dir(home), "{home}");
    }
    assert_eq!(join_path("/a", "/b"), "/b");
    assert_eq!(join_path("/a", "b"), "/a/b");
}
