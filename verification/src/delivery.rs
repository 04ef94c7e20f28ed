//! What the bridge does with one webhook delivery. Handling a delivery
//! alternates decisions, made here, with outside work (parsing the body,
//! asking GitHub about a review, reading and writing the state file, resuming
//! the Codex session), which the caller performs between the steps.
use vstd::prelude::*;
use crate::json::{element, field, str_of, str_or_empty, u64_of, u64_or_zero, Json};
use crate::signature::{signature_matches, valid_signature};
use crate::state::{
    is_fresh, prune_deliveries, prune_forgets_old_deliveries, prune_keeps_recent_deliveries, pruned,
    Link, LinkView, State, StateView, DELIVERY_RETENTION_SECONDS,
};
use crate::text::{decimal, push_decimal, text_eq};
use vstd::utf8::encode_utf8;

verus! {

/// One webhook delivery as GitHub sends it.
#[derive(Debug)]
pub struct Delivery {
    /// The `X-GitHub-Event` header.
    pub event: String,
    /// The `X-GitHub-Delivery` header.
    pub delivery_id: String,
    /// The `X-Hub-Signature-256` header.
    pub signature: String,
    /// The request body.
    pub body: Vec<u8>,
}

/// The answer to a delivery: `processed`, `ignored` or `rejected`, and why.
#[derive(Debug)]
pub struct DeliveryResult {
    pub status: &'static str,
    pub reason: Option<&'static str>,
}

/// Whether `r` has the status `status` and the reason `reason`.
pub open spec fn result_is(r: DeliveryResult, status: Seq<char>, reason: Option<Seq<char>>) -> bool {
    &&& r.status@ == status
    &&& match r.reason {
        Some(text) => reason == Some(text@),
        None => reason is None,
    }
}

/// The repository of a payload: `repository.full_name`, or the empty text.
pub open spec fn payload_repository(p: Json) -> Seq<char> {
    str_or_empty(field(field(p, "repository"@), "full_name"@))
}

/// The run of a `workflow_run` payload.
pub open spec fn workflow_run(p: Json) -> Json {
    field(p, "workflow_run"@)
}

/// The first pull request that a workflow run belongs to.
pub open spec fn first_pull_request(p: Json) -> Json {
    element(field(workflow_run(p), "pull_requests"@), 0)
}

/// A failed workflow run of a pull request: the event is `workflow_run`, the
/// action `completed`, the conclusion `failure`, and the run's first pull
/// request has a number.
pub open spec fn is_failed_workflow_run(event: Seq<char>, p: Json) -> bool {
    &&& event == "workflow_run"@
    &&& str_of(field(p, "action"@)) == Some("completed"@)
    &&& str_of(field(workflow_run(p), "conclusion"@)) == Some("failure"@)
    &&& u64_of(field(first_pull_request(p), "number"@)) is Some
}

/// The login of the author of a submitted review.
pub open spec fn review_author_login(p: Json) -> Option<Seq<char>> {
    str_of(field(field(field(p, "review"@), "user"@), "login"@))
}

/// A review that CodeRabbit submitted: the event is `pull_request_review`, the
/// action `submitted`, the review's author `coderabbitai` or `coderabbitai[bot]`.
pub open spec fn is_coderabbit_review(event: Seq<char>, p: Json) -> bool {
    &&& event == "pull_request_review"@
    &&& str_of(field(p, "action"@)) == Some("submitted"@)
    &&& (review_author_login(p) == Some("coderabbitai"@) || review_author_login(p) == Some(
        "coderabbitai[bot]"@,
    ))
}

/// The prompt for a failed workflow run.
pub open spec fn workflow_prompt(run_id: u64, repository: Seq<char>, pull_number: u64, url: Seq<char>) -> Seq<char> {
    "GitHub Actions run "@ + decimal(run_id as nat) + " failed for "@ + repository + "#"@
        + decimal(pull_number as nat) + ". Inspect "@ + url
        + ", fix the failure, run the relevant tests, commit, and push the fix."@
}

/// The prompt for a CodeRabbit review with inline comments.
pub open spec fn review_prompt(review_id: u64, url: Seq<char>) -> Seq<char> {
    "CodeRabbit review "@ + decimal(review_id as nat) + " has inline comments on "@ + url
        + ". Verify the comments against the current code, fix valid findings, run the relevant tests, commit, and push the fix."@
}

/// The key under which a pull request is linked: `OWNER/REPO#NUMBER`.
pub open spec fn pull_request_key(repository: Seq<char>, pull_number: u64) -> Seq<char> {
    repository + "#"@ + decimal(pull_number as nat)
}

/// What a delivery asks for.
pub enum Trigger {
    /// A workflow run of the pull request failed.
    FailedWorkflow { pull_number: u64, prompt: String },
    /// CodeRabbit submitted a review of the pull request.
    CodeRabbitReview { repository: String, pull_number: u64, review_id: u64, prompt: String },
    /// Nothing the bridge acts on.
    Other,
}

/// What the delivery of `event` with payload `p` asks for: `t` is the trigger.
pub open spec fn trigger_of(event: Seq<char>, p: Json, t: Trigger) -> bool {
    if is_failed_workflow_run(event, p) {
        &&& t matches Trigger::FailedWorkflow { pull_number, prompt }
        &&& pull_number == u64_or_zero(field(first_pull_request(p), "number"@))
        &&& prompt@ == workflow_prompt(
            u64_or_zero(field(workflow_run(p), "id"@)),
            payload_repository(p),
            pull_number,
            str_or_empty(field(workflow_run(p), "html_url"@)),
        )
    } else if is_coderabbit_review(event, p) {
        &&& t matches Trigger::CodeRabbitReview { repository, pull_number, review_id, prompt }
        &&& repository@ == payload_repository(p)
        &&& pull_number == u64_or_zero(field(field(p, "pull_request"@), "number"@))
        &&& review_id == u64_or_zero(field(field(p, "review"@), "id"@))
        &&& prompt@ == review_prompt(
            review_id,
            str_or_empty(field(field(p, "pull_request"@), "html_url"@)),
        )
    } else {
        t is Other
    }
}

/// The text of `value`, or the empty text.
fn text_or_empty(value: Option<&Json>) -> (r: String)
    ensures
        r@ == match value {
            Some(v) => str_or_empty(*v),
            None => Seq::<char>::empty(),
        },
{
    match value {
        Some(v) => match v.as_str() {
            Some(s) => String::from_str(s),
            None => String::new(),
        },
        None => String::new(),
    }
}

/// The member `key` of `value`, where there is a value.
fn member_of<'a>(value: Option<&'a Json>, key: &str) -> (r: Option<&'a Json>)
    ensures
        r matches Some(v) ==> value matches Some(w) && *v == field(*w, key@),
        r is None ==> (value matches Some(w) ==> field(*w, key@) == Json::Null),
{
    match value {
        Some(v) => v.member(key),
        None => None,
    }
}

/// Whether `value` is the string `text`.
fn is_text(value: Option<&Json>, text: &str) -> (r: bool)
    ensures
        r == (value matches Some(v) && str_of(*v) == Some(text@)),
{
    match value {
        Some(v) => match v.as_str() {
            Some(s) => text_eq(s, text),
            None => false,
        },
        None => false,
    }
}

/// Decides what the delivery of `event` with payload `payload` asks for.
pub fn classify_delivery(event: &str, payload: &Json) -> (t: Trigger)
    ensures
        trigger_of(event@, *payload, t),
        event@ == "workflow_run"@ && str_of(field(field(*payload, "workflow_run"@), "conclusion"@))
            != Some("failure"@) ==> t is Other,
        event@ == "pull_request_review"@ && str_of(field(*payload, "action"@)) != Some(
            "submitted"@,
        ) ==> t is Other,
{
    proof {
        reveal_strlit("workflow_run");
        reveal_strlit("pull_request_review");
        assert("workflow_run"@[0] != "pull_request_review"@[0]);
    }
    let p = Some(payload);
    let repository = text_or_empty(member_of(member_of(p, "repository"), "full_name"));
    if text_eq(event, "workflow_run") {
        let run = member_of(p, "workflow_run");
        let first = match member_of(run, "pull_requests") {
            Some(list) => list.at(0),
            None => None,
        };
        let number = match member_of(first, "number") {
            Some(v) => v.as_u64(),
            None => None,
        };
        assert(field(Json::Null, "number"@) == Json::Null);
        assert(element(Json::Null, 0) == Json::Null);
        assert(field(Json::Null, "pull_requests"@) == Json::Null);
        if is_text(member_of(p, "action"), "completed")
            && is_text(member_of(run, "conclusion"), "failure") && number.is_some() {
            let pull_number = number.unwrap();
            let run_id = match member_of(run, "id") {
                Some(v) => match v.as_u64() {
                    Some(n) => n,
                    None => 0,
                },
                None => 0,
            };
            let url = text_or_empty(member_of(run, "html_url"));
            let mut prompt = String::from_str("GitHub Actions run ");
            push_decimal(&mut prompt, run_id);
            prompt.append(" failed for ");
            prompt.append(repository.as_str());
            prompt.append("#");
            push_decimal(&mut prompt, pull_number);
            prompt.append(". Inspect ");
            prompt.append(url.as_str());
            prompt.append(", fix the failure, run the relevant tests, commit, and push the fix.");
            return Trigger::FailedWorkflow { pull_number, prompt };
        }
        return Trigger::Other;
    }
    if text_eq(event, "pull_request_review") && is_text(member_of(p, "action"), "submitted") {
        let login = member_of(member_of(member_of(p, "review"), "user"), "login");
        assert(field(Json::Null, "user"@) == Json::Null);
        assert(field(Json::Null, "login"@) == Json::Null);
        if is_text(login, "coderabbitai") || is_text(login, "coderabbitai[bot]") {
            let pr = member_of(p, "pull_request");
            let pull_number = match member_of(pr, "number") {
                Some(v) => match v.as_u64() {
                    Some(n) => n,
                    None => 0,
                },
                None => 0,
            };
            let review_id = match member_of(member_of(p, "review"), "id") {
                Some(v) => match v.as_u64() {
                    Some(n) => n,
                    None => 0,
                },
                None => 0,
            };
            let url = text_or_empty(member_of(pr, "html_url"));
            let mut prompt = String::from_str("CodeRabbit review ");
            push_decimal(&mut prompt, review_id);
            prompt.append(" has inline comments on ");
            prompt.append(url.as_str());
            prompt.append(
                ". Verify the comments against the current code, fix valid findings, run the relevant tests, commit, and push the fix.",
            );
            return Trigger::CodeRabbitReview { repository, pull_number, review_id, prompt };
        }
    }
    Trigger::Other
}

/// Only a failed run asks for a fix: a `workflow_run` delivery whose run did
/// not conclude with `failure` (it succeeded, was cancelled, has no
/// conclusion) asks for nothing.
pub proof fn unfailed_workflow_run_asks_for_nothing(p: Json, t: Trigger)
    requires
        str_of(field(field(p, "workflow_run"@), "conclusion"@)) != Some("failure"@),
    ensures
        trigger_of("workflow_run"@, p, t) <==> t is Other,
        !is_failed_workflow_run("workflow_run"@, p),
        !is_coderabbit_review("workflow_run"@, p),
{
    reveal_strlit("workflow_run");
    reveal_strlit("pull_request_review");
    assert("workflow_run"@ != "pull_request_review"@) by {
        assert("workflow_run"@[0] != "pull_request_review"@[0]);
    }
}

/// Only a submitted review asks for a look: a `pull_request_review` delivery
/// whose action is not `submitted` (it was edited or dismissed) asks for
/// nothing, whoever wrote the review.
pub proof fn unsubmitted_review_asks_for_nothing(p: Json, t: Trigger)
    requires
        str_of(field(p, "action"@)) != Some("submitted"@),
    ensures
        trigger_of("pull_request_review"@, p, t) <==> t is Other,
        !is_failed_workflow_run("pull_request_review"@, p),
        !is_coderabbit_review("pull_request_review"@, p),
{
    reveal_strlit("workflow_run");
    reveal_strlit("pull_request_review");
    assert("workflow_run"@ != "pull_request_review"@) by {
        assert("workflow_run"@[0] != "pull_request_review"@[0]);
    }
}

/// What the caller does next with a delivery.
pub enum Action {
    /// Answer the delivery with this result; nothing else is to be done.
    Reply(DeliveryResult),
    /// Parse the body as JSON and hand the value to `on_payload`; a body that
    /// is not JSON fails the delivery.
    ParsePayload,
    /// Ask GitHub whether the review has inline comments and hand the answer
    /// to `on_review_checked`; a failed request fails the delivery.
    CheckReview { repository: String, pull_number: u64, review_id: u64, key: String, prompt: String },
    /// Lock and read the state and hand it to `on_state_loaded`; a failed
    /// read fails the delivery.
    LoadState { key: String, prompt: String },
    /// Resume the linked Codex session with the prompt and, once it has taken
    /// it, hand the state to `on_resumed`; a failed resume fails the delivery
    /// and writes nothing.
    Resume { link: Link, prompt: String, state: State, now: u64 },
    /// Write the state, then answer with the result; a failed write fails the
    /// delivery.
    Save { state: State, result: DeliveryResult },
}

/// The first step: a delivery whose signature does not match is rejected;
/// any other goes on to have its body parsed.
pub fn begin_delivery(delivery: &Delivery, secret: &str) -> (a: Action)
    ensures
        signature_matches(encode_utf8(secret@), delivery.body@, encode_utf8(delivery.signature@))
            ==> a is ParsePayload,
        !signature_matches(encode_utf8(secret@), delivery.body@, encode_utf8(delivery.signature@))
            ==> (a matches Action::Reply(r) && result_is(
            r,
            "rejected"@,
            Some("invalid signature"@),
        )),
{
    if valid_signature(secret, delivery.body.as_slice(), delivery.signature.as_str()) {
        Action::ParsePayload
    } else {
        Action::Reply(DeliveryResult { status: "rejected", reason: Some("invalid signature") })
    }
}

/// The key of the pull request `pull_number` of `repository`.
fn key_of(repository: &str, pull_number: u64) -> (key: String)
    ensures
        key@ == pull_request_key(repository@, pull_number),
{
    let mut key = String::from_str(repository);
    key.append("#");
    push_decimal(&mut key, pull_number);
    key
}

/// The step after parsing: a failed workflow run goes on to the state, a
/// CodeRabbit review to the check for inline comments, and anything else is
/// ignored.
pub fn on_payload(delivery: &Delivery, payload: &Json) -> (a: Action)
    ensures
        delivery.event@ == "workflow_run"@ && str_of(
            field(field(*payload, "workflow_run"@), "conclusion"@),
        ) != Some("failure"@) ==> (a matches Action::Reply(r) && result_is(r, "ignored"@, None)),
        delivery.event@ == "pull_request_review"@ && str_of(field(*payload, "action"@)) != Some(
            "submitted"@,
        ) ==> (a matches Action::Reply(r) && result_is(r, "ignored"@, None)),
        is_failed_workflow_run(delivery.event@, *payload) ==> ({
            &&& a matches Action::LoadState { key, prompt }
            &&& key@ == pull_request_key(
                payload_repository(*payload),
                u64_or_zero(field(first_pull_request(*payload), "number"@)),
            )
            &&& prompt@ == workflow_prompt(
                u64_or_zero(field(workflow_run(*payload), "id"@)),
                payload_repository(*payload),
                u64_or_zero(field(first_pull_request(*payload), "number"@)),
                str_or_empty(field(workflow_run(*payload), "html_url"@)),
            )
        }),
        !is_failed_workflow_run(delivery.event@, *payload) && is_coderabbit_review(
            delivery.event@,
            *payload,
        ) ==> ({
            let pull_number = u64_or_zero(field(field(*payload, "pull_request"@), "number"@));
            let review_id = u64_or_zero(field(field(*payload, "review"@), "id"@));
            &&& a matches Action::CheckReview { repository, pull_number: n, review_id: r, key, prompt }
            &&& repository@ == payload_repository(*payload)
            &&& n == pull_number
            &&& r == review_id
            &&& key@ == pull_request_key(payload_repository(*payload), pull_number)
            &&& prompt@ == review_prompt(
                review_id,
                str_or_empty(field(field(*payload, "pull_request"@), "html_url"@)),
            )
        }),
        !is_failed_workflow_run(delivery.event@, *payload) && !is_coderabbit_review(
            delivery.event@,
            *payload,
        ) ==> (a matches Action::Reply(r) && result_is(r, "ignored"@, None)),
{
    match classify_delivery(delivery.event.as_str(), payload) {
        Trigger::FailedWorkflow { pull_number, prompt } => {
            let repository = text_or_empty(member_of(member_of(Some(payload), "repository"), "full_name"));
            let key = key_of(repository.as_str(), pull_number);
            Action::LoadState { key, prompt }
        },
        Trigger::CodeRabbitReview { repository, pull_number, review_id, prompt } => {
            let key = key_of(repository.as_str(), pull_number);
            Action::CheckReview { repository, pull_number, review_id, key, prompt }
        },
        Trigger::Other => Action::Reply(DeliveryResult { status: "ignored", reason: None }),
    }
}

/// The step after the review check: a review without inline comments is
/// ignored; one with comments goes on to the state.
pub fn on_review_checked(has_comments: bool, key: String, prompt: String) -> (a: Action)
    ensures
        has_comments ==> (a matches Action::LoadState { key: k, prompt: q } && k@ == key@ && q@
            == prompt@),
        !has_comments ==> (a matches Action::Reply(r) && result_is(
            r,
            "ignored"@,
            Some("review has no comments"@),
        )),
{
    if has_comments {
        Action::LoadState { key, prompt }
    } else {
        Action::Reply(DeliveryResult { status: "ignored", reason: Some("review has no comments") })
    }
}

/// What the state decides for delivery `id` of pull request `key` at `now`,
/// once pruned.
pub enum StateDecision {
    /// The delivery was already processed.
    Duplicate,
    /// No session is linked to the pull request.
    NotLinked,
    /// Resume the linked session.
    Resume(LinkView),
}

/// The decision of the state `s` for delivery `id` of pull request `key` at `now`.
pub open spec fn state_decision(s: StateView, id: Seq<char>, key: Seq<char>, now: u64) -> StateDecision {
    let p = pruned(s, now);
    if p.deliveries.contains(id) {
        StateDecision::Duplicate
    } else if !p.links.contains_key(key) {
        StateDecision::NotLinked
    } else {
        StateDecision::Resume(p.links[key])
    }
}

/// The action that loading `state` decides for delivery `id` of pull request
/// `key` with `prompt` at `now`: the state is pruned; a delivery already
/// processed is ignored (the pruned state is written first where pruning
/// changed it); a pull request without a link is ignored (and nothing is
/// written); otherwise the linked session is to be resumed.
pub open spec fn loaded_action(
    id: Seq<char>,
    key: Seq<char>,
    prompt: Seq<char>,
    state: StateView,
    now: u64,
    a: Action,
) -> bool {
    let p = pruned(state, now);
    match state_decision(state, id, key, now) {
        StateDecision::Duplicate => if p != state {
            &&& a matches Action::Save { state: s, result: r }
            &&& s@ == p
            &&& result_is(r, "ignored"@, Some("duplicate delivery"@))
        } else {
            a matches Action::Reply(r) && result_is(r, "ignored"@, Some("duplicate delivery"@))
        },
        StateDecision::NotLinked => a matches Action::Reply(r) && result_is(
            r,
            "ignored"@,
            Some("PR is not linked"@),
        ),
        StateDecision::Resume(link) => {
            &&& a matches Action::Resume { link: l, prompt: q, state: s, now: t }
            &&& l@ == link
            &&& q@ == prompt
            &&& s@ == p
            &&& t == now
        },
    }
}

/// The step after reading the state, at time `now`.
pub fn on_state_loaded_at(delivery_id: &str, key: &str, prompt: String, state: State, now: u64) -> (a: Action)
    ensures
        loaded_action(delivery_id@, key@, prompt@, state@, now, a),
{
    let mut state = state;
    let changed = prune_deliveries(&mut state, now);
    if state.contains_delivery(delivery_id) {
        let result = DeliveryResult { status: "ignored", reason: Some("duplicate delivery") };
        if changed {
            return Action::Save { state, result };
        }
        return Action::Reply(result);
    }
    match state.link(key) {
        None => Action::Reply(DeliveryResult { status: "ignored", reason: Some("PR is not linked") }),
        Some(link) => Action::Resume { link, prompt, state, now },
    }
}

/// The current time in seconds since the Unix epoch, zero for a clock set
/// before it. Calls `SystemTime::now` (then `duration_since(UNIX_EPOCH)` and
/// `as_secs`); the result rests on the clock, so nothing is claimed of it.
#[verifier::external_body]
pub(crate) fn unix_timestamp() -> u64 {
    std::time::SystemTime::now()
        .duration_since(std::time::UNIX_EPOCH)
        .unwrap_or_default()
        .as_secs()
}

/// The step after reading the state, at the current time.
pub fn on_state_loaded(delivery_id: &str, key: &str, prompt: String, state: State) -> (a: Action)
    ensures
        exists|now: u64| loaded_action(delivery_id@, key@, prompt@, state@, now, a),
{
    let now = unix_timestamp();
    on_state_loaded_at(delivery_id, key, prompt, state, now)
}

/// The state after recording delivery `id` as processed at `now`.
pub open spec fn recorded(s: StateView, id: Seq<char>, now: u64) -> StateView {
    StateView {
        deliveries: s.deliveries.push(id),
        delivery_timestamps: s.delivery_timestamps.insert(id, now),
        ..s
    }
}

/// The step after a successful resume: the delivery is recorded as processed
/// at `now`, and the state is to be written before answering `processed`.
pub fn on_resumed(delivery_id: String, state: State, now: u64) -> (a: Action)
    ensures
        a matches Action::Save { state: s, result: r } && s@ == recorded(state@, delivery_id@, now)
            && result_is(r, "processed"@, None),
{
    let mut state = state;
    state.record_delivery(delivery_id, now);
    Action::Save { state, result: DeliveryResult { status: "processed", reason: None } }
}

/// A delivery recorded as processed at `now` is a duplicate for any pull
/// request when it arrives again up to three days later (or with a clock set
/// back), however many deliveries came in between.
pub proof fn processed_delivery_is_not_resumed_again(
    s: StateView,
    id: Seq<char>,
    key: Seq<char>,
    now: u64,
    later: u64,
)
    requires
        later - now <= DELIVERY_RETENTION_SECONDS,
    ensures
        state_decision(recorded(s, id, now), id, key, later) is Duplicate,
{
    let r = recorded(s, id, now);
    assert(r.deliveries[r.deliveries.len() - 1] == id);
    prune_keeps_recent_deliveries(r, later, id);
}

/// After a failed resume nothing is written, so the delivery is resumed again
/// when it is retried at the same time or later with the same state.
pub proof fn failed_resume_is_retried(
    s: StateView,
    id: Seq<char>,
    key: Seq<char>,
    now: u64,
    later: u64,
)
    requires
        state_decision(s, id, key, now) is Resume,
        now <= later,
    ensures
        state_decision(s, id, key, later) == state_decision(s, id, key, now),
{
    if s.deliveries.contains(id) {
        if is_fresh(s.delivery_timestamps, id, now) {
            prune_keeps_recent_deliveries(s, now, id);
        }
        assert(!is_fresh(s.delivery_timestamps, id, later));
        prune_forgets_old_deliveries(s, later, id);
    } else {
        if pruned(s, later).deliveries.contains(id) {
            s.deliveries.lemma_filter_contains_rev(
                |x: Seq<char>| is_fresh(s.delivery_timestamps, x, later),
                id,
            );
        }
    }
}

/// A delivery for a linked pull request that was not processed in the last
/// three days resumes the linked session.
pub proof fn linked_pull_request_is_resumed(
    s: StateView,
    id: Seq<char>,
    key: Seq<char>,
    link: LinkView,
    now: u64,
)
    requires
        !s.deliveries.contains(id) || !is_fresh(s.delivery_timestamps, id, now),
    ensures
        state_decision(StateView { links: s.links.insert(key, link), ..s }, id, key, now)
            == StateDecision::Resume(link),
{
    let t = StateView { links: s.links.insert(key, link), ..s };
    if s.deliveries.contains(id) {
        prune_forgets_old_deliveries(t, now, id);
    } else if pruned(t, now).deliveries.contains(id) {
        t.deliveries.lemma_filter_contains_rev(
            |x: Seq<char>| is_fresh(t.delivery_timestamps, x, now),
            id,
        );
    }
}

/// The HTTP status that answers a handled delivery: 401 Unauthorized for a
/// rejected one, 202 Accepted for any other.
pub fn response_status(result: &DeliveryResult) -> (code: u16)
    ensures
        code == (if result.status@ == "rejected"@ {
            401u16
        } else {
            202u16
        }),
{
    if text_eq(result.status, "rejected") {
        401
    } else {
        202
    }
}

} // verus!
