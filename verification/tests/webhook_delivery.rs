use codex_github_bridge::delivery::{
    begin_delivery, on_payload, on_resumed, on_review_checked, on_state_loaded,
    on_state_loaded_at, response_status, Action, Delivery, DeliveryResult,
};
use codex_github_bridge::json::Json;
use codex_github_bridge::signature::valid_signature;
use codex_github_bridge::state::{prune_deliveries, Link, State, DELIVERY_RETENTION_SECONDS};
use hmac::{Hmac, Mac};
use sha2::Sha256;

const SECRET: &str = "webhook-secret";
const NOW: u64 = 1_750_000_000;

fn text(s: &str) -> Json {
    Json::Str(s.to_string())
}

fn object(entries: Vec<(&str, Json)>) -> Json {
    Json::Object(entries.into_iter().map(|(k, v)| (k.to_string(), v)).collect())
}

fn sign(body: &[u8]) -> String {
    let mut mac = Hmac::<Sha256>::new_from_slice(SECRET.as_bytes()).unwrap();
    mac.update(body);
    format!("sha256={}", hex::encode(mac.finalize().into_bytes()))
}

fn linked_state() -> State {
    let mut state = State::new();
    state.insert_link(
        "WashizuRyo/menu#27".to_string(),
        Link { thread_id: "thread-27".into(), cwd: "/workspace/menu".into() },
    );
    state
}

fn failed_run_payload(url: &str) -> Json {
    object(vec![
        ("action", text("completed")),
        ("repository", object(vec![("full_name", text("WashizuRyo/menu"))])),
        (
            "workflow_run",
            object(vec![
                ("id", Json::Number(Some(1234))),
                ("conclusion", text("failure")),
                ("html_url", text(url)),
                ("pull_requests", Json::Array(vec![object(vec![("number", Json::Number(Some(27)))])])),
            ]),
        ),
    ])
}

fn coderabbit_payload(review_id: u64) -> Json {
    object(vec![
        ("action", text("submitted")),
        ("repository", object(vec![("full_name", text("WashizuRyo/menu"))])),
        (
            "pull_request",
            object(vec![
                ("number", Json::Number(Some(27))),
                ("html_url", text("https://github.com/WashizuRyo/menu/pull/27")),
            ]),
        ),
        (
            "review",
            object(vec![
                ("id", Json::Number(Some(review_id))),
                ("user", object(vec![("login", text("coderabbitai[bot]"))])),
            ]),
        ),
    ])
}

/// The JSON text of a value, as GitHub would send it.
fn body_of(value: &Json) -> Vec<u8> {
    fn to_value(value: &Json) -> serde_json::Value {
        match value {
            Json::Null => serde_json::Value::Null,
            Json::Bool(b) => serde_json::Value::Bool(*b),
            Json::Number(Some(n)) => serde_json::Value::from(*n),
            Json::Number(None) => serde_json::Value::from(-1),
            Json::Str(s) => serde_json::Value::String(s.clone()),
            Json::Array(items) => serde_json::Value::Array(items.iter().map(to_value).collect()),
            Json::Object(entries) => serde_json::Value::Object(
                entries.iter().map(|(k, v)| (k.clone(), to_value(v))).collect(),
            ),
        }
    }
    serde_json::to_vec(&to_value(value)).unwrap()
}

/// The value of a JSON text, as the service parses a delivery's body.
fn parse(body: &[u8]) -> Json {
    fn from_value(value: &serde_json::Value) -> Json {
        match value {
            serde_json::Value::Null => Json::Null,
            serde_json::Value::Bool(b) => Json::Bool(*b),
            serde_json::Value::Number(n) => Json::Number(n.as_u64()),
            serde_json::Value::String(s) => Json::Str(s.clone()),
            serde_json::Value::Array(items) => Json::Array(items.iter().map(from_value).collect()),
            serde_json::Value::Object(entries) => Json::Object(
                entries.iter().map(|(k, v)| (k.clone(), from_value(v))).collect(),
            ),
        }
    }
    from_value(&serde_json::from_slice(body).unwrap())
}

/// A delivery of `payload`, signed with the shared secret.
fn delivery(event: &str, id: &str, payload: &Json) -> Delivery {
    let body = body_of(payload);
    Delivery { event: event.into(), delivery_id: id.into(), signature: sign(&body), body }
}

/// What the caller of the steps saw: the reviews it checked and the sessions it resumed.
#[derive(Default)]
struct Outside {
    reviews: Vec<(String, u64, u64)>,
    resumed: Vec<(String, String)>,
    has_comments: bool,
    fail_resume: bool,
}

/// Drives one delivery through the steps, as the service does, with `state`
/// standing for the state file and `now` for the clock.
fn run(
    delivery: &Delivery,
    state: &mut State,
    now: u64,
    outside: &mut Outside,
) -> Result<DeliveryResult, String> {
    let mut action = begin_delivery(delivery, SECRET);
    loop {
        action = match action {
            Action::Reply(result) => return Ok(result),
            Action::ParsePayload => on_payload(delivery, &parse(&delivery.body)),
            Action::CheckReview { repository, pull_number, review_id, key, prompt } => {
                outside.reviews.push((repository, pull_number, review_id));
                on_review_checked(outside.has_comments, key, prompt)
            }
            Action::LoadState { key, prompt } => {
                let loaded = State {
                    links: state.links.clone(),
                    deliveries: state.deliveries.clone(),
                    delivery_timestamps: state.delivery_timestamps.clone(),
                };
                on_state_loaded_at(&delivery.delivery_id, &key, prompt, loaded, now)
            }
            Action::Resume { link, prompt, state: next, now } => {
                outside.resumed.push((link.thread_id.clone(), prompt));
                if outside.fail_resume {
                    return Err("Codex failed".to_string());
                }
                on_resumed(delivery.delivery_id.clone(), next, now)
            }
            Action::Save { state: next, result } => {
                *state = next;
                return Ok(result);
            }
        }
    }
}

#[test]
fn coderabbit_review_with_inline_comments_resumes_the_linked_session() {
    let mut state = linked_state();
    let mut outside = Outside { has_comments: true, ..Default::default() };
    let result = run(&delivery("pull_request_review", "delivery-2", &coderabbit_payload(5254559716)), &mut state,
        NOW,
        &mut outside,
    )
    .unwrap();

    assert_eq!(result.status, "processed");
    assert_eq!(outside.reviews, vec![("WashizuRyo/menu".to_string(), 27, 5254559716)]);
    assert_eq!(outside.resumed[0].0, "thread-27");
    assert!(outside.resumed[0].1.contains("CodeRabbit review 5254559716"));
}

#[test]
fn signed_failed_ci_resumes_the_linked_session() {
    let mut state = linked_state();
    let mut outside = Outside::default();
    let result = run(&delivery("workflow_run", "delivery-1", &failed_run_payload("https://github.com/WashizuRyo/menu/actions/runs/1234")), &mut state,
        NOW,
        &mut outside,
    )
    .unwrap();

    assert_eq!(result.status, "processed");
    assert_eq!(outside.resumed.len(), 1);
    assert_eq!(outside.resumed[0].0, "thread-27");
    assert!(outside.resumed[0].1.contains("1234"));
    assert_eq!(state.deliveries, vec!["delivery-1".to_string()]);
}

#[test]
fn failed_ci_prompt_is_exact() {
    let action = on_payload(
        &delivery("workflow_run", "d", &object(vec![])),
        &failed_run_payload("https://github.com/WashizuRyo/menu/actions/runs/1234"),
    );
    match action {
        Action::LoadState { key, prompt } => {
            assert_eq!(key, "WashizuRyo/menu#27");
            assert_eq!(
                prompt,
                "GitHub Actions run 1234 failed for WashizuRyo/menu#27. Inspect https://github.com/WashizuRyo/menu/actions/runs/1234, fix the failure, run the relevant tests, commit, and push the fix."
            );
        }
        _ => panic!("expected the state to be loaded"),
    }
}

#[test]
fn coderabbit_prompt_is_exact() {
    let action = on_payload(&delivery("pull_request_review", "d", &object(vec![])), &coderabbit_payload(99));
    match action {
        Action::CheckReview { repository, pull_number, review_id, key, prompt } => {
            assert_eq!(repository, "WashizuRyo/menu");
            assert_eq!(pull_number, 27);
            assert_eq!(review_id, 99);
            assert_eq!(key, "WashizuRyo/menu#27");
            assert_eq!(
                prompt,
                "CodeRabbit review 99 has inline comments on https://github.com/WashizuRyo/menu/pull/27. Verify the comments against the current code, fix valid findings, run the relevant tests, commit, and push the fix."
            );
        }
        _ => panic!("expected a review check"),
    }
}

#[test]
fn invalid_webhook_signature_is_rejected_without_resuming() {
    let mut outside = Outside::default();
    let mut state = State::new();
    let mut bad = delivery("workflow_run", "delivery-invalid", &failed_run_payload("https://example.test/run"));
    bad.signature = "sha256=invalid".into();
    let result = run(&bad, &mut state, NOW, &mut outside).unwrap();

    assert_eq!(result.status, "rejected");
    assert_eq!(result.reason, Some("invalid signature"));
    assert!(outside.resumed.is_empty());
    assert_eq!(response_status(&result), 401);
}

#[test]
fn the_same_delivery_is_processed_only_once() {
    let payload = failed_run_payload("https://example.test/run");
    let mut state = linked_state();
    let mut outside = Outside::default();
    for expected in ["processed", "ignored"] {
        let result =
            run(&delivery("workflow_run", "same-delivery", &payload), &mut state, NOW, &mut outside)
                .unwrap();
        assert_eq!(result.status, expected);
    }
    assert_eq!(outside.resumed.len(), 1);
}

#[test]
fn duplicate_delivery_reports_its_reason() {
    let payload = failed_run_payload("https://example.test/run");
    let mut state = linked_state();
    let mut outside = Outside::default();
    run(&delivery("workflow_run", "again", &payload), &mut state, NOW, &mut outside).unwrap();
    let result = run(&delivery("workflow_run", "again", &payload), &mut state, NOW + 60, &mut outside)
        .unwrap();
    assert_eq!(result.status, "ignored");
    assert_eq!(result.reason, Some("duplicate delivery"));
    assert_eq!(response_status(&result), 202);
}

#[test]
fn delivery_ids_are_not_evicted_after_one_hundred_newer_deliveries() {
    let payload = failed_run_payload("https://example.test/run");
    let mut state = linked_state();
    state.deliveries = (0..100).map(|index| format!("delivery-{index}")).collect();
    let mut outside = Outside::default();
    for (delivery_id, expected) in [("delivery-100", "processed"), ("delivery-0", "ignored")] {
        let result =
            run(&delivery("workflow_run", delivery_id, &payload), &mut state, NOW, &mut outside)
                .unwrap();
        assert_eq!(result.status, expected);
    }
    assert_eq!(outside.resumed.len(), 1);
}

#[test]
fn delivery_ids_older_than_three_days_are_pruned() {
    let payload = failed_run_payload("https://example.test/run");
    let mut state = linked_state();
    state.deliveries = vec!["expired-delivery".into()];
    state.delivery_timestamps = vec![("expired-delivery".into(), NOW - (3 * 24 * 60 * 60 + 1))];
    let mut outside = Outside::default();
    let result =
        run(&delivery("workflow_run", "expired-delivery", &payload), &mut state, NOW, &mut outside)
            .unwrap();

    assert_eq!(result.status, "processed");
    assert_eq!(outside.resumed.len(), 1);
}

#[test]
fn a_failed_resume_leaves_the_delivery_retryable() {
    let payload = failed_run_payload("https://example.test/run");
    let mut state = linked_state();
    let mut outside = Outside { fail_resume: true, ..Default::default() };
    let error =
        run(&delivery("workflow_run", "delivery-retryable", &payload), &mut state, NOW, &mut outside)
            .unwrap_err();

    assert!(error.contains("Codex failed"));
    assert!(state.deliveries.is_empty());
    outside.fail_resume = false;
    let retry =
        run(&delivery("workflow_run", "delivery-retryable", &payload), &mut state, NOW + 5, &mut outside)
            .unwrap();
    assert_eq!(retry.status, "processed");
}

#[test]
fn coderabbit_review_without_inline_comments_is_ignored() {
    let mut state = linked_state();
    let mut outside = Outside::default();
    let result = run(&delivery("pull_request_review", "delivery-no-comments", &coderabbit_payload(99)), &mut state,
        NOW,
        &mut outside,
    )
    .unwrap();

    assert_eq!(result.status, "ignored");
    assert_eq!(result.reason, Some("review has no comments"));
    assert!(outside.resumed.is_empty());
}

#[test]
fn unlinked_pull_request_is_ignored() {
    let mut state = State::new();
    let mut outside = Outside::default();
    let result = run(&delivery("workflow_run", "delivery-unlinked", &failed_run_payload("https://example.test/run")), &mut state,
        NOW,
        &mut outside,
    )
    .unwrap();
    assert_eq!(result.status, "ignored");
    assert_eq!(result.reason, Some("PR is not linked"));
    assert!(outside.resumed.is_empty());
}

#[test]
fn other_events_are_ignored_without_reason() {
    let mut state = linked_state();
    let mut outside = Outside::default();
    let result = run(&delivery("push", "delivery-push", &failed_run_payload("https://example.test/run")), &mut state,
        NOW,
        &mut outside,
    )
    .unwrap();
    assert_eq!(result.status, "ignored");
    assert_eq!(result.reason, None);

    let mut succeeded = failed_run_payload("https://example.test/run");
    if let Json::Object(entries) = &mut succeeded {
        entries[0].1 = text("requested");
    }
    let result =
        run(&delivery("workflow_run", "delivery-requested", &succeeded), &mut state, NOW, &mut outside)
            .unwrap();
    assert_eq!(result.status, "ignored");

    let human = object(vec![
        ("action", text("submitted")),
        ("review", object(vec![("id", Json::Number(Some(1))), ("user", object(vec![("login", text("someone"))]))])),
    ]);
    let result =
        run(&delivery("pull_request_review", "delivery-human", &human), &mut state, NOW, &mut outside)
            .unwrap();
    assert_eq!(result.status, "ignored");
    assert!(outside.resumed.is_empty() && outside.reviews.is_empty());
}

#[test]
fn signature_accepts_upper_case_hex_and_refuses_tampering() {
    let body = b"{\"zen\":\"hello\"}";
    let signature = sign(body);
    assert!(valid_signature(SECRET, body, &signature));
    let upper = format!("sha256={}", signature["sha256=".len()..].to_uppercase());
    assert!(valid_signature(SECRET, body, &upper));
    assert!(!valid_signature(SECRET, b"{\"zen\":\"other\"}", &signature));
    assert!(!valid_signature("other-secret", body, &signature));
    assert!(!valid_signature(SECRET, body, &signature["sha256=".len()..]));
    assert!(!valid_signature(SECRET, body, &format!("{}0", signature)));
    assert!(!valid_signature(SECRET, body, &format!("{}00", signature)));
    assert!(!valid_signature(SECRET, body, "sha256="));
}

#[test]
fn pruning_is_reported_and_idempotent() {
    let mut state = State::new();
    state.deliveries = vec!["old".into(), "fresh".into(), "unstamped".into()];
    state.delivery_timestamps = vec![
        ("old".into(), NOW - DELIVERY_RETENTION_SECONDS - 1),
        ("fresh".into(), NOW - DELIVERY_RETENTION_SECONDS),
        ("gone".into(), NOW),
    ];
    assert!(prune_deliveries(&mut state, NOW));
    assert_eq!(state.deliveries, vec!["fresh".to_string(), "unstamped".to_string()]);
    let mut stamps = state.delivery_timestamps.clone();
    stamps.sort();
    assert_eq!(
        stamps,
        vec![("fresh".to_string(), NOW - DELIVERY_RETENTION_SECONDS), ("unstamped".to_string(), NOW)]
    );
    assert!(!prune_deliveries(&mut state, NOW));
    assert_eq!(state.deliveries.len(), 2);
}

#[test]
fn loading_uses_the_clock() {
    let mut state = linked_state();
    state.deliveries = vec!["earlier".into()];
    match on_state_loaded("new-delivery", "WashizuRyo/menu#27", "prompt".into(), state) {
        Action::Resume { link, prompt, state, now } => {
            assert_eq!(link.thread_id, "thread-27");
            assert_eq!(prompt, "prompt");
            assert!(now > 1_700_000_000);
            assert_eq!(state.delivery_timestamps, vec![("earlier".to_string(), now)]);
        }
        _ => panic!("expected a resume"),
    }
}
