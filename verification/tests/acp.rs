use codex_github_bridge::json::Json;
use codex_github_bridge::relay::{
    agent_command, relay_socket_file, message_session_id, relay_mapping, relay_request, relay_request_fields, relay_response_error,
    relay_socket_path, review_comments_endpoint, review_has_comments_in, session_prompt_message,
    session_update_message, valid_session_id, AcpActions, BridgeIds, PublishedSessions,
    RelayRequestError,
};
use codex_github_bridge::state::Link;
use codex_github_bridge::text::{chars_of, push_decimal, string_of, text_eq};

fn text(s: &str) -> Json {
    Json::Str(s.to_string())
}

fn object(entries: Vec<(&str, Json)>) -> Json {
    Json::Object(entries.into_iter().map(|(k, v)| (k.to_string(), v)).collect())
}

fn get<'a>(value: &'a Json, key: &str) -> &'a Json {
    value.member(key).unwrap()
}

fn str_at<'a>(value: &'a Json, path: &[&str]) -> &'a str {
    let mut v = value;
    for key in path {
        v = get(v, key);
    }
    v.as_str().unwrap()
}

#[test]
fn acp_action_sends_a_prompt_to_the_linked_relay() {
    let actions = AcpActions::new("/tmp/relays".into());
    assert_eq!(actions.timeout_millis(), 5000);
    assert_eq!(actions.mapping_path("thread-27"), "/tmp/relays/thread-27.json");
    let mapping = relay_mapping("/tmp/relays/relay.sock");
    assert_eq!(relay_socket_path(&mapping), Some("/tmp/relays/relay.sock".to_string()));
    assert_eq!(relay_socket_path(&object(vec![])), None);

    let request = relay_request(
        &Link { thread_id: "thread-27".into(), cwd: "/workspace/menu".into() },
        "Webhook prompt",
    );
    assert_eq!(str_at(&request, &["sessionId"]), "thread-27");
    assert_eq!(str_at(&request, &["prompt"]), "Webhook prompt");
    assert_eq!(relay_response_error(&object(vec![("status", text("accepted"))])), None);
    assert_eq!(
        relay_response_error(&object(vec![("error", text("No session"))])),
        Some("No session".to_string())
    );
}

#[test]
fn relay_registers_a_session_and_displays_a_webhook_prompt() {
    let update = session_update_message("thread-27", "Webhook prompt");
    assert_eq!(str_at(&update, &["method"]), "session/update");
    assert_eq!(str_at(&update, &["params", "sessionId"]), "thread-27");
    assert_eq!(str_at(&update, &["params", "update", "sessionUpdate"]), "user_message_chunk");
    assert_eq!(str_at(&update, &["params", "update", "content", "text"]), "Webhook prompt");

    let prompt = session_prompt_message("bridge:1", "thread-27", "Webhook prompt");
    assert_eq!(str_at(&prompt, &["jsonrpc"]), "2.0");
    assert_eq!(str_at(&prompt, &["id"]), "bridge:1");
    assert_eq!(str_at(&prompt, &["method"]), "session/prompt");
    let block = get(get(&prompt, "params"), "prompt").at(0).unwrap();
    assert_eq!(str_at(block, &["type"]), "text");
    assert_eq!(str_at(block, &["text"]), "Webhook prompt");

    let message = object(vec![("id", Json::Number(Some(1))), ("params", object(vec![("sessionId", text("thread-27"))]))]);
    assert_eq!(message_session_id(&message).ok(), Some(Some("thread-27".to_string())));
}

#[test]
fn session_ids_that_could_escape_the_relay_directory_are_refused() {
    for (id, ok) in [("thread-27", true), ("a_B-9", true), ("", true), ("../x", false), ("a b", false), ("é", false)] {
        assert_eq!(valid_session_id(id), ok, "{id}");
        let message = object(vec![("params", object(vec![("sessionId", text(id))]))]);
        assert_eq!(message_session_id(&message).is_ok(), ok);
    }
    assert_eq!(message_session_id(&object(vec![("params", object(vec![]))])).ok(), Some(None));
    let numeric = object(vec![("params", object(vec![("sessionId", Json::Number(Some(3)))]))]);
    assert_eq!(message_session_id(&numeric).ok(), Some(None));
}

#[test]
fn relay_requests_need_a_session_and_a_prompt() {
    assert!(matches!(
        relay_request_fields(&object(vec![("prompt", text("p"))])),
        Err(RelayRequestError::MissingSessionId)
    ));
    assert!(matches!(
        relay_request_fields(&object(vec![("sessionId", text("s"))])),
        Err(RelayRequestError::MissingPrompt)
    ));
    match relay_request_fields(&object(vec![("sessionId", text("s")), ("prompt", text("p"))])) {
        Ok((s, p)) => {
            assert_eq!(s, "s");
            assert_eq!(p, "p");
        }
        Err(_) => panic!("expected the fields"),
    }
}

#[test]
fn relay_publishes_a_session_mapping_only_once() {
    let message = object(vec![
        ("id", Json::Number(Some(1))),
        ("params", object(vec![("sessionId", text("thread-once"))])),
    ]);
    let mut sessions = PublishedSessions::new();
    assert!(!sessions.contains("thread-once"));
    match sessions.on_client_message(&message) {
        Ok(Some(id)) => assert_eq!(id, "thread-once"),
        _ => panic!("the first message publishes the session"),
    }
    assert!(sessions.contains("thread-once"));
    assert!(matches!(sessions.on_client_message(&message), Ok(None)));
    assert_eq!(sessions.ids(), vec!["thread-once".to_string()]);

    let other = object(vec![("params", object(vec![("sessionId", text("thread-two"))]))]);
    assert!(matches!(sessions.on_client_message(&other), Ok(Some(_))));
    assert_eq!(sessions.ids().len(), 2);
    let invalid = object(vec![("params", object(vec![("sessionId", text("../escape"))]))]);
    assert!(sessions.on_client_message(&invalid).is_err());
    assert!(!sessions.contains("../escape"));
    assert!(matches!(sessions.on_client_message(&object(vec![("id", Json::Number(Some(2)))])), Ok(None)));
    assert_eq!(sessions.ids().len(), 2);
}

#[test]
fn relay_passes_on_every_agent_message_but_its_own_answers() {
    let mut ids = BridgeIds::new();
    let id = ids.register();
    assert!(id.starts_with("bridge:"));
    assert_eq!(id.len(), 43);
    let uuid: Vec<char> = id["bridge:".len()..].chars().collect();
    for (i, c) in uuid.iter().enumerate() {
        if [8, 13, 18, 23].contains(&i) {
            assert_eq!(*c, '-');
        } else {
            assert!(c.is_ascii_digit() || ('a'..='f').contains(c), "{id}");
        }
    }
    assert_eq!(uuid[14], '4');
    assert!(['8', '9', 'a', 'b'].contains(&uuid[19]));
    assert!(ids.contains(&id));
    let other = ids.register();
    assert_ne!(id, other);

    let answer = object(vec![("id", text(&id)), ("result", object(vec![]))]);
    assert!(ids.take_response(&answer));
    assert!(!ids.contains(&id));
    assert!(!ids.take_response(&answer));
    assert!(ids.contains(&other));
    assert!(!ids.take_response(&object(vec![("id", Json::Number(Some(1)))])));
}

#[test]
fn review_comments_are_looked_up_one_at_a_time() {
    assert_eq!(
        review_comments_endpoint("WashizuRyo/menu", 27, 5254559716),
        "repos/WashizuRyo/menu/pulls/27/reviews/5254559716/comments?per_page=1"
    );
    assert_eq!(review_has_comments_in(&Json::Array(vec![])), Some(false));
    assert_eq!(review_has_comments_in(&Json::Array(vec![object(vec![])])), Some(true));
    assert_eq!(review_has_comments_in(&object(vec![])), None);
}

#[test]
fn text_helpers_build_and_compare() {
    let mut s = String::from("n=");
    push_decimal(&mut s, 0);
    push_decimal(&mut s, 18446744073709551615);
    assert_eq!(s, "n=018446744073709551615");
    assert_eq!(string_of(&chars_of("héllo")), "héllo");
    assert!(text_eq("a", "a"));
    assert!(!text_eq("a", "A"));
}

#[test]
fn relay_runs_the_given_agent_on_its_own_socket() {
    assert!(agent_command(vec![]).is_none());
    let (program, args) = agent_command(vec!["codex-acp".into(), "--x".into(), "y".into()]).unwrap();
    assert_eq!(program, "codex-acp");
    assert_eq!(args, vec!["--x".to_string(), "y".to_string()]);
    assert_eq!(relay_socket_file("/tmp/relays", 4242), "/tmp/relays/relay-4242.sock");
    assert_eq!(relay_socket_file("/tmp/relays/", 0), "/tmp/relays/relay-0.sock");
}
