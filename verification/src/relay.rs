//! The ACP relay: how the bridge hands a prompt to the relay that wraps a
//! Codex session, and the decisions the relay makes on the messages it sees.
use vstd::prelude::*;
use crate::json::{element, entry_value, field, lemma_entry_value_at, str_of, text, Json};
use crate::paths::{join_path, path_join};
use crate::state::{contains_text, texts, Link};
use crate::text::{chars_of, decimal, push_decimal, text_eq};

verus! {

/// How the bridge reaches the relays: the directory where each relay
/// publishes its sessions, and how long it waits for a relay to answer.
pub struct AcpActions {
    relay_dir: String,
    timeout_millis: u64,
}

impl AcpActions {
    /// Actions through the relays that publish their sessions in `relay_dir`,
    /// waiting at most five seconds for an answer.
    pub fn new(relay_dir: String) -> (a: AcpActions)
        ensures
            a.relay_dir_view() == relay_dir@,
            a.timeout_view() == 5000,
    {
        AcpActions { relay_dir, timeout_millis: 5000 }
    }

    /// The relay directory.
    pub closed spec fn relay_dir_view(&self) -> Seq<char> {
        self.relay_dir@
    }

    /// How long to wait for a relay, in milliseconds.
    pub closed spec fn timeout_view(&self) -> u64 {
        self.timeout_millis
    }

    /// The relay directory.
    pub fn relay_dir(&self) -> (r: &str)
        ensures
            r@ == self.relay_dir_view(),
    {
        self.relay_dir.as_str()
    }

    /// How long to wait for a relay, in milliseconds.
    pub fn timeout_millis(&self) -> (r: u64)
        ensures
            r == self.timeout_view(),
    {
        self.timeout_millis
    }

    /// The file where the relay of session `thread_id` publishes its socket:
    /// `THREAD_ID.json` in the relay directory.
    pub fn mapping_path(&self, thread_id: &str) -> (r: String)
        ensures
            r@ == path_join(self.relay_dir_view(), thread_id@ + ".json"@),
    {
        let mut name = String::from_str(thread_id);
        name.append(".json");
        join_path(self.relay_dir.as_str(), name.as_str())
    }
}

/// The socket that a relay mapping names: its member `socketPath`.
pub fn relay_socket_path(mapping: &Json) -> (r: Option<String>)
    ensures
        match r {
            Some(p) => str_of(field(*mapping, "socketPath"@)) == Some(p@),
            None => str_of(field(*mapping, "socketPath"@)) is None,
        },
{
    match mapping.member("socketPath") {
        Some(v) => match v.as_str() {
            Some(s) => Some(String::from_str(s)),
            None => None,
        },
        None => None,
    }
}

/// The error that a relay answered with: its member `error`, where it is text.
pub fn relay_response_error(response: &Json) -> (r: Option<String>)
    ensures
        match r {
            Some(e) => str_of(field(*response, "error"@)) == Some(e@),
            None => str_of(field(*response, "error"@)) is None,
        },
{
    match response.member("error") {
        Some(v) => match v.as_str() {
            Some(s) => Some(String::from_str(s)),
            None => None,
        },
        None => None,
    }
}

/// The request the bridge sends a relay: the session of `link` and the prompt.
pub fn relay_request(link: &Link, prompt: &str) -> (r: Json)
    ensures
        r matches Json::Object(entries) && entries@.len() == 2,
        str_of(field(r, "sessionId"@)) == Some(link.thread_id@),
        str_of(field(r, "prompt"@)) == Some(prompt@),
{
    let mut entries: Vec<(String, Json)> = Vec::new();
    entries.push((String::from_str("sessionId"), Json::Str(link.thread_id.clone())));
    entries.push((String::from_str("prompt"), Json::Str(String::from_str(prompt))));
    proof {
        reveal_strlit("sessionId");
        reveal_strlit("prompt");
        assert(entries@.drop_first()[0] == entries@[1]);
        assert("sessionId"@[0] != "prompt"@[0]);
        assert(entry_value(entries@.drop_first(), "prompt"@) == entries@[1].1);
    }
    Json::Object(entries)
}

/// The GitHub API endpoint that lists the first inline comment of review
/// `review_id` on pull request `pull_number` of `repository`.
pub fn review_comments_endpoint(repository: &str, pull_number: u64, review_id: u64) -> (r: String)
    ensures
        r@ == "repos/"@ + repository@ + "/pulls/"@ + decimal(pull_number as nat) + "/reviews/"@
            + decimal(review_id as nat) + "/comments?per_page=1"@,
{
    let mut r = String::from_str("repos/");
    r.append(repository);
    r.append("/pulls/");
    push_decimal(&mut r, pull_number);
    r.append("/reviews/");
    push_decimal(&mut r, review_id);
    r.append("/comments?per_page=1");
    r
}

/// Whether a review has inline comments, given the API's answer: the answer
/// must be an array, and the review has comments where it is not empty.
pub fn review_has_comments_in(response: &Json) -> (r: Option<bool>)
    ensures
        match *response {
            Json::Array(items) => r == Some(items@.len() > 0),
            _ => r is None,
        },
{
    match response {
        Json::Array(items) => Some(items.len() > 0),
        _ => None,
    }
}

/// A character allowed in an ACP session ID: ASCII letter or digit, `_` or `-`.
pub open spec fn is_session_id_char(c: char) -> bool {
    ||| ('a' <= c <= 'z')
    ||| ('A' <= c <= 'Z')
    ||| ('0' <= c <= '9')
    ||| c == '_'
    ||| c == '-'
}

/// Whether `id` may name a session (and so a mapping file).
pub open spec fn is_valid_session_id(id: Seq<char>) -> bool {
    forall|i: int| 0 <= i < id.len() ==> is_session_id_char(#[trigger] id[i])
}

/// Whether `id` may name a session.
pub fn valid_session_id(id: &str) -> (ok: bool)
    ensures
        ok == is_valid_session_id(id@),
        ok == forall|i: int|
            0 <= i < id@.len() ==> {
                let c = #[trigger] id@[i];
                ||| ('a' <= c && c <= 'z')
                ||| ('A' <= c && c <= 'Z')
                ||| ('0' <= c && c <= '9')
                ||| c == '_'
                ||| c == '-'
            },
{
    let chars = chars_of(id);
    let mut i: usize = 0;
    while i < chars.len()
        invariant
            i <= chars@.len(),
            chars@ == id@,
            forall|j: int| 0 <= j < i ==> is_session_id_char(#[trigger] chars@[j]),
        decreases chars@.len() - i,
    {
        let c = chars[i];
        if !(('a' <= c && c <= 'z') || ('A' <= c && c <= 'Z') || ('0' <= c && c <= '9') || c == '_'
            || c == '-') {
            assert(!is_session_id_char(chars@[i as int]));
            return false;
        }
        i = i + 1;
    }
    true
}

/// A session ID is allowed exactly when each of its characters is an ASCII
/// letter, an ASCII digit, `_` or `-`; so no allowed ID holds `/` or `.` and
/// none can name a file outside the relay directory.
pub proof fn session_id_rule(id: Seq<char>)
    ensures
        is_valid_session_id(id) <==> forall|i: int|
            0 <= i < id.len() ==> {
                let c = #[trigger] id[i];
                ||| ('a' <= c && c <= 'z')
                ||| ('A' <= c && c <= 'Z')
                ||| ('0' <= c && c <= '9')
                ||| c == '_'
                ||| c == '-'
            },
        is_valid_session_id(id) ==> !id.contains('/') && !id.contains('.'),
{
    if is_valid_session_id(id) && id.contains('/') {
        let i = choose|i: int| 0 <= i < id.len() && id[i] == '/';
        assert(is_session_id_char(id[i]));
    }
    if is_valid_session_id(id) && id.contains('.') {
        let i = choose|i: int| 0 <= i < id.len() && id[i] == '.';
        assert(is_session_id_char(id[i]));
    }
}

/// A message from the client names an ACP session whose ID is not allowed.
pub struct InvalidSessionId;

/// The session that a message from the client names (`params.sessionId`),
/// which the relay then publishes; a message naming a session whose ID is
/// not allowed is refused.
pub fn message_session_id(message: &Json) -> (r: Result<Option<String>, InvalidSessionId>)
    ensures
        match str_of(field(field(*message, "params"@), "sessionId"@)) {
            None => r matches Ok(None),
            Some(id) => if is_valid_session_id(id) {
                r matches Ok(Some(s)) && s@ == id
            } else {
                r is Err
            },
        },
{
    let params = message.member("params");
    assert(field(Json::Null, "sessionId"@) == Json::Null);
    let id = match params {
        Some(p) => p.member("sessionId"),
        None => None,
    };
    match id {
        Some(v) => match v.as_str() {
            Some(s) => if valid_session_id(s) {
                Ok(Some(String::from_str(s)))
            } else {
                Err(InvalidSessionId)
            },
            None => Ok(None),
        },
        None => Ok(None),
    }
}

/// The mapping a relay publishes for a session: its socket.
pub fn relay_mapping(socket_path: &str) -> (r: Json)
    ensures
        r matches Json::Object(entries) && entries@.len() == 1,
        str_of(field(r, "socketPath"@)) == Some(socket_path@),
{
    let mut entries: Vec<(String, Json)> = Vec::new();
    entries.push((String::from_str("socketPath"), Json::Str(String::from_str(socket_path))));
    Json::Object(entries)
}

/// The agent a relay runs, from the relay's arguments: the program and its
/// arguments; `None` where no program is given.
pub fn agent_command(args: Vec<String>) -> (r: Option<(String, Vec<String>)>)
    ensures
        r is None <==> args@.len() == 0,
        r matches Some((program, rest)) ==> program == args@[0] && rest@ == args@.skip(1),
{
    if args.len() == 0 {
        return None;
    }
    let mut rest = args;
    let program = rest.remove(0);
    assert(rest@ == args@.skip(1));
    Some((program, rest))
}

/// The socket of the relay that runs as process `pid`: `relay-PID.sock` in
/// the relay directory.
pub fn relay_socket_file(relay_dir: &str, pid: u32) -> (r: String)
    ensures
        r@ == path_join(relay_dir@, "relay-"@ + decimal(pid as nat) + ".sock"@),
{
    let mut name = String::from_str("relay-");
    push_decimal(&mut name, pid as u64);
    name.append(".sock");
    join_path(relay_dir, name.as_str())
}

/// The session that a message from the client names by text (`params.sessionId`).
pub open spec fn named_session(message: Json) -> Option<Seq<char>> {
    str_of(field(field(message, "params"@), "sessionId"@))
}

/// Whether a message from the client names a session whose ID is not allowed.
pub open spec fn names_invalid_session(message: Json) -> bool {
    match named_session(message) {
        Some(id) => !is_valid_session_id(id),
        None => false,
    }
}

/// The session whose mapping a relay that has published the sessions
/// `published` publishes on `message`: the one the message names, where that
/// is allowed and not published yet.
pub open spec fn session_to_publish(published: Set<Seq<char>>, message: Json) -> Option<Seq<char>> {
    match named_session(message) {
        Some(id) => if is_valid_session_id(id) && !published.contains(id) {
            Some(id)
        } else {
            None
        },
        None => None,
    }
}

/// The published sessions after `message`.
pub open spec fn published_after(published: Set<Seq<char>>, message: Json) -> Set<Seq<char>> {
    match session_to_publish(published, message) {
        Some(id) => published.insert(id),
        None => published,
    }
}

/// The published sessions after each of `messages` in turn.
pub open spec fn published_after_all(published: Set<Seq<char>>, messages: Seq<Json>) -> Set<Seq<char>>
    decreases messages.len(),
{
    if messages.len() == 0 {
        published
    } else {
        published_after_all(published_after(published, messages[0]), messages.drop_first())
    }
}

/// The sessions whose mappings a relay has published.
pub struct PublishedSessions {
    ids: Vec<String>,
}

impl View for PublishedSessions {
    type V = Set<Seq<char>>;

    closed spec fn view(&self) -> Set<Seq<char>> {
        texts(self.ids@).to_set()
    }
}

impl PublishedSessions {
    /// No session published yet.
    pub fn new() -> (r: PublishedSessions)
        ensures
            r@ == Set::<Seq<char>>::empty(),
    {
        let r = PublishedSessions { ids: Vec::new() };
        assert(texts(r.ids@).to_set() =~= Set::<Seq<char>>::empty());
        r
    }

    /// Whether the mapping of session `id` was published.
    pub fn contains(&self, id: &str) -> (r: bool)
        ensures
            r == self@.contains(id@),
    {
        contains_text(&self.ids, id)
    }

    /// The published sessions, each once.
    pub fn ids(&self) -> (r: Vec<String>)
        ensures
            texts(r@).to_set() == self@,
            texts(r@).no_duplicates(),
    {
        proof {
            use_type_invariant(self);
        }
        self.ids.clone()
    }

    /// Each published session is held once.
    #[verifier::type_invariant]
    spec fn held_once(&self) -> bool {
        texts(self.ids@).no_duplicates()
    }

    /// Notes a message from the client. A message naming a session whose ID
    /// is not allowed is refused and changes nothing; otherwise the result
    /// is the session whose mapping is to be published now: the one the
    /// message names, the first time it is named.
    pub fn on_client_message(&mut self, message: &Json) -> (r: Result<Option<String>, InvalidSessionId>)
        ensures
            names_invalid_session(*message) ==> r is Err && final(self)@ == old(self)@,
            !names_invalid_session(*message) ==> {
                &&& final(self)@ == published_after(old(self)@, *message)
                &&& match session_to_publish(old(self)@, *message) {
                    Some(id) => r matches Ok(Some(s)) && s@ == id,
                    None => r matches Ok(None),
                }
            },
    {
        proof {
            use_type_invariant(&*self);
        }
        match message_session_id(message) {
            Err(e) => Err(e),
            Ok(None) => Ok(None),
            Ok(Some(id)) => {
                if contains_text(&self.ids, id.as_str()) {
                    Ok(None)
                } else {
                    let ghost before = texts(self.ids@);
                    let ghost after = before.push(id@);
                    assert(after.no_duplicates()) by {
                        assert forall|i: int, j: int|
                            0 <= i < after.len() && 0 <= j < after.len() && i != j implies after[i]
                            != after[j] by {
                            if i < before.len() && j < before.len() {
                                assert(after[i] == before[i] && after[j] == before[j]);
                            } else if i == before.len() {
                                assert(after[j] == before[j]);
                            } else {
                                assert(after[i] == before[i]);
                            }
                        }
                    }
                    assert(after.to_set() =~= before.to_set().insert(id@)) by {
                        assert forall|x: Seq<char>| after.to_set().contains(x) == before.to_set().insert(
                            id@,
                        ).contains(x) by {
                            if after.contains(x) {
                                let j = choose|j: int| 0 <= j < after.len() && after[j] == x;
                                if j < before.len() {
                                    assert(before[j] == x);
                                }
                            }
                            if before.contains(x) {
                                let j = choose|j: int| 0 <= j < before.len() && before[j] == x;
                                assert(after[j] == x);
                            }
                            if x == id@ {
                                assert(after[before.len() as int] == x);
                            }
                        }
                    }
                    let mut ids: Vec<String> = Vec::new();
                    std::mem::swap(&mut ids, &mut self.ids);
                    ids.push(id.clone());
                    assert(texts(ids@) == after);
                    self.ids = ids;
                    Ok(Some(id))
                }
            },
        }
    }
}

/// A session once published stays published, whatever the messages after.
pub proof fn published_session_stays_published(
    published: Set<Seq<char>>,
    messages: Seq<Json>,
    id: Seq<char>,
)
    requires
        published.contains(id),
    ensures
        published_after_all(published, messages).contains(id),
    decreases messages.len(),
{
    if messages.len() > 0 {
        published_session_stays_published(
            published_after(published, messages[0]),
            messages.drop_first(),
            id,
        );
    }
}

/// A relay publishes the mapping of a session at most once: after the message
/// that published it, no later message publishes it again.
pub proof fn session_is_published_at_most_once(
    published: Set<Seq<char>>,
    first: Json,
    messages: Seq<Json>,
    next: Json,
)
    requires
        session_to_publish(published, first) is Some,
    ensures
        session_to_publish(published_after_all(published_after(published, first), messages), next)
            != session_to_publish(published, first),
{
    let id = session_to_publish(published, first)->0;
    published_session_stays_published(published_after(published, first), messages, id);
}

/// Why a relay refuses a request from the bridge.
pub enum RelayRequestError {
    /// `sessionId is required`
    MissingSessionId,
    /// `prompt is required`
    MissingPrompt,
}

/// The session and the prompt of a request from the bridge.
pub fn relay_request_fields(request: &Json) -> (r: Result<(String, String), RelayRequestError>)
    ensures
        match (str_of(field(*request, "sessionId"@)), str_of(field(*request, "prompt"@))) {
            (None, _) => r matches Err(RelayRequestError::MissingSessionId),
            (Some(_), None) => r matches Err(RelayRequestError::MissingPrompt),
            (Some(s), Some(p)) => r matches Ok((session, prompt)) && session@ == s && prompt@ == p,
        },
{
    let session = match request.member("sessionId") {
        Some(v) => v.as_str(),
        None => None,
    };
    let session = match session {
        Some(s) => String::from_str(s),
        None => {
            return Err(RelayRequestError::MissingSessionId);
        },
    };
    let prompt = match request.member("prompt") {
        Some(v) => v.as_str(),
        None => None,
    };
    match prompt {
        Some(p) => Ok((session, String::from_str(p))),
        None => Err(RelayRequestError::MissingPrompt),
    }
}

/// A lower-case hexadecimal digit.
pub open spec fn is_lower_hex_digit(c: char) -> bool {
    ('0' <= c <= '9') || ('a' <= c <= 'f')
}

/// Whether `s` is a random (version 4, RFC 4122 variant) UUID in its
/// hyphenated lower-case form: 32 lower-case hexadecimal digits in groups of
/// 8, 4, 4, 4 and 12 joined by `-`, the version digit `4` opening the third
/// group and one of `8`, `9`, `a`, `b` opening the fourth.
pub open spec fn is_uuid_v4_text(s: Seq<char>) -> bool {
    &&& s.len() == 36
    &&& forall|i: int|
        0 <= i < 36 ==> if i == 8 || i == 13 || i == 18 || i == 23 {
            s[i] == '-'
        } else {
            is_lower_hex_digit(#[trigger] s[i])
        }
    &&& s[14] == '4'
    &&& (s[19] == '8' || s[19] == '9' || s[19] == 'a' || s[19] == 'b')
}

/// A fresh random UUID in its hyphenated lower-case form. Calls
/// `uuid::Uuid::new_v4`, which draws 128 random bits and sets the version
/// nibble to 4 and the variant bits to `10`, and formats it with `Display`,
/// which writes the hyphenated lower-case form. Which UUID comes out is left
/// open: only its shape is claimed.
#[verifier::external_body]
fn random_uuid_text() -> (r: String)
    ensures
        is_uuid_v4_text(r@),
{
    uuid::Uuid::new_v4().to_string()
}

/// The requests that the relay sent to the agent on the bridge's behalf and
/// whose answers it has not seen yet, by request ID.
pub struct BridgeIds {
    ids: Vec<String>,
}

impl View for BridgeIds {
    type V = Set<Seq<char>>;

    closed spec fn view(&self) -> Set<Seq<char>> {
        texts(self.ids@).to_set()
    }
}

impl BridgeIds {
    /// No pending requests.
    pub fn new() -> (r: BridgeIds)
        ensures
            r@ == Set::<Seq<char>>::empty(),
    {
        let r = BridgeIds { ids: Vec::new() };
        assert(texts(r.ids@).to_set() =~= Set::<Seq<char>>::empty());
        r
    }

    /// Whether `id` is pending.
    pub fn contains(&self, id: &str) -> (r: bool)
        ensures
            r == self@.contains(id@),
    {
        contains_text(&self.ids, id)
    }

    /// A new request ID, `bridge:` and a random UUID, now pending.
    pub fn register(&mut self) -> (id: String)
        ensures
            id@.len() == 43,
            id@ == "bridge:"@ + id@.skip(7),
            is_uuid_v4_text(id@.skip(7)),
            final(self)@ == old(self)@.insert(id@),
    {
        let mut id = String::from_str("bridge:");
        let uuid = random_uuid_text();
        id.append(uuid.as_str());
        proof {
            reveal_strlit("bridge:");
            assert(id@.skip(7) == uuid@);
        }
        let ghost before = texts(self.ids@);
        self.ids.push(id.clone());
        assert(texts(self.ids@) == before.push(id@));
        assert(texts(self.ids@).to_set() =~= before.to_set().insert(id@)) by {
            assert forall|x: Seq<char>| texts(self.ids@).to_set().contains(x) == before.to_set().insert(
                id@,
            ).contains(x) by {
                if texts(self.ids@).contains(x) {
                    let j = choose|j: int| 0 <= j < texts(self.ids@).len() && texts(self.ids@)[j] == x;
                    if j < before.len() {
                        assert(before[j] == x);
                    }
                }
                if before.contains(x) {
                    let j = choose|j: int| 0 <= j < before.len() && before[j] == x;
                    assert(texts(self.ids@)[j] == x);
                }
                if x == id@ {
                    assert(texts(self.ids@)[before.len() as int] == x);
                }
            }
        }
        id
    }

    /// Takes the answer to a pending request out of the stream of agent
    /// messages: where `message` answers a pending request (its `id` is one),
    /// the request is no longer pending and the message is not passed on.
    pub fn take_response(&mut self, message: &Json) -> (is_bridge_response: bool)
        ensures
            match str_of(field(*message, "id"@)) {
                Some(id) => {
                    &&& is_bridge_response == old(self)@.contains(id)
                    &&& final(self)@ == old(self)@.remove(id)
                },
                None => !is_bridge_response && final(self)@ == old(self)@,
            },
    {
        let id = match message.member("id") {
            Some(v) => v.as_str(),
            None => None,
        };
        match id {
            None => false,
            Some(id) => {
                let found = contains_text(&self.ids, id);
                let ghost before = texts(self.ids@);
                let mut kept: Vec<String> = Vec::new();
                let mut i: usize = 0;
                while i < self.ids.len()
                    invariant
                        i <= self.ids@.len(),
                        before == texts(self.ids@),
                        forall|x: Seq<char>| #[trigger] texts(kept@).contains(x) <==> (x != id@
                            && before.take(i as int).contains(x)),
                    decreases self.ids@.len() - i,
                {
                    let ghost old_kept = texts(kept@);
                    let ghost t0 = before.take(i as int);
                    let ghost t1 = before.take(i + 1);
                    let ghost b = before[i as int];
                    assert(t1 == t0.push(b));
                    assert(b == self.ids@[i as int]@);
                    assert(forall|x: Seq<char>| old_kept.contains(x) <==> (x != id@ && t0.contains(x)));
                    assert forall|x: Seq<char>| t1.contains(x) <==> (t0.contains(x) || x == b) by {
                        if t1.contains(x) {
                            let j = choose|j: int| 0 <= j < t1.len() && t1[j] == x;
                            if j < i {
                                assert(t0[j] == x);
                            }
                        }
                        if t0.contains(x) {
                            let j = choose|j: int| 0 <= j < t0.len() && t0[j] == x;
                            assert(t1[j] == x);
                        }
                        if x == b {
                            assert(t1[i as int] == x);
                        }
                    }
                    if !text_eq(self.ids[i].as_str(), id) {
                        kept.push(self.ids[i].clone());
                        let ghost nk = texts(kept@);
                        assert(nk == old_kept.push(b));
                        assert forall|x: Seq<char>| nk.contains(x) <==> (old_kept.contains(x) || x == b) by {
                            if nk.contains(x) {
                                let j = choose|j: int| 0 <= j < nk.len() && nk[j] == x;
                                if j < old_kept.len() {
                                    assert(old_kept[j] == x);
                                }
                            }
                            if old_kept.contains(x) {
                                let j = choose|j: int| 0 <= j < old_kept.len() && old_kept[j] == x;
                                assert(nk[j] == x);
                            }
                            if x == b {
                                assert(nk[old_kept.len() as int] == x);
                            }
                        }
                    }
                    i = i + 1;
                }
                assert(before.take(i as int) == before);
                self.ids = kept;
                assert(self@ =~= old(self)@.remove(id@));
                found
            },
        }
    }
}

/// The notice the relay shows the client when the bridge sends `prompt` to
/// session `session_id`: a `session/update` with a user message chunk.
pub fn session_update_message(session_id: &str, prompt: &str) -> (m: Json)
    ensures
        m matches Json::Object(e) && e@.len() == 3,
        field(m, "params"@) matches Json::Object(e) && e@.len() == 2,
        field(field(m, "params"@), "update"@) matches Json::Object(e) && e@.len() == 2,
        field(field(field(m, "params"@), "update"@), "content"@) matches Json::Object(e) && e@.len()
            == 2,
        str_of(field(m, "jsonrpc"@)) == Some("2.0"@),
        str_of(field(m, "method"@)) == Some("session/update"@),
        str_of(field(field(m, "params"@), "sessionId"@)) == Some(session_id@),
        str_of(field(field(field(m, "params"@), "update"@), "sessionUpdate"@)) == Some(
            "user_message_chunk"@,
        ),
        str_of(field(field(field(field(m, "params"@), "update"@), "content"@), "type"@)) == Some(
            "text"@,
        ),
        str_of(field(field(field(field(m, "params"@), "update"@), "content"@), "text"@)) == Some(
            prompt@,
        ),
{
    proof {
        reveal_strlit("jsonrpc");
        reveal_strlit("method");
        reveal_strlit("params");
        reveal_strlit("sessionId");
        reveal_strlit("update");
        reveal_strlit("sessionUpdate");
        reveal_strlit("content");
        reveal_strlit("type");
        reveal_strlit("text");
    }
    let mut content: Vec<(String, Json)> = Vec::new();
    content.push((String::from_str("type"), text("text")));
    content.push((String::from_str("text"), text(prompt)));
    proof {
        lemma_entry_value_at(content@, 0, "type"@);
        assert("type"@[1] != "text"@[1]);
        lemma_entry_value_at(content@, 1, "text"@);
    }
    let mut update: Vec<(String, Json)> = Vec::new();
    update.push((String::from_str("sessionUpdate"), text("user_message_chunk")));
    update.push((String::from_str("content"), Json::Object(content)));
    proof {
        lemma_entry_value_at(update@, 0, "sessionUpdate"@);
        assert("sessionUpdate"@[0] != "content"@[0]);
        lemma_entry_value_at(update@, 1, "content"@);
    }
    let mut params: Vec<(String, Json)> = Vec::new();
    params.push((String::from_str("sessionId"), text(session_id)));
    params.push((String::from_str("update"), Json::Object(update)));
    proof {
        lemma_entry_value_at(params@, 0, "sessionId"@);
        assert("sessionId"@[0] != "update"@[0]);
        lemma_entry_value_at(params@, 1, "update"@);
    }
    let mut message: Vec<(String, Json)> = Vec::new();
    message.push((String::from_str("jsonrpc"), text("2.0")));
    message.push((String::from_str("method"), text("session/update")));
    message.push((String::from_str("params"), Json::Object(params)));
    proof {
        assert("jsonrpc"@[0] != "method"@[0]);
        assert("jsonrpc"@[0] != "params"@[0]);
        assert("method"@[0] != "params"@[0]);
        lemma_entry_value_at(message@, 0, "jsonrpc"@);
        lemma_entry_value_at(message@, 1, "method"@);
        lemma_entry_value_at(message@, 2, "params"@);
    }
    Json::Object(message)
}

/// The prompt the relay sends the agent on the bridge's behalf: a
/// `session/prompt` request with ID `id` for session `session_id`, whose
/// prompt is one text block.
pub fn session_prompt_message(id: &str, session_id: &str, prompt: &str) -> (m: Json)
    ensures
        m matches Json::Object(e) && e@.len() == 4,
        field(m, "params"@) matches Json::Object(e) && e@.len() == 2,
        element(field(field(m, "params"@), "prompt"@), 0) matches Json::Object(e) && e@.len() == 2,
        str_of(field(m, "jsonrpc"@)) == Some("2.0"@),
        str_of(field(m, "id"@)) == Some(id@),
        str_of(field(m, "method"@)) == Some("session/prompt"@),
        str_of(field(field(m, "params"@), "sessionId"@)) == Some(session_id@),
        field(field(m, "params"@), "prompt"@) matches Json::Array(blocks) && blocks@.len() == 1,
        str_of(field(element(field(field(m, "params"@), "prompt"@), 0), "type"@)) == Some("text"@),
        str_of(field(element(field(field(m, "params"@), "prompt"@), 0), "text"@)) == Some(prompt@),
{
    proof {
        reveal_strlit("jsonrpc");
        reveal_strlit("id");
        reveal_strlit("method");
        reveal_strlit("params");
        reveal_strlit("sessionId");
        reveal_strlit("prompt");
        reveal_strlit("type");
        reveal_strlit("text");
    }
    let mut block: Vec<(String, Json)> = Vec::new();
    block.push((String::from_str("type"), text("text")));
    block.push((String::from_str("text"), text(prompt)));
    proof {
        lemma_entry_value_at(block@, 0, "type"@);
        assert("type"@[1] != "text"@[1]);
        lemma_entry_value_at(block@, 1, "text"@);
    }
    let mut blocks: Vec<Json> = Vec::new();
    blocks.push(Json::Object(block));
    let mut params: Vec<(String, Json)> = Vec::new();
    params.push((String::from_str("sessionId"), text(session_id)));
    params.push((String::from_str("prompt"), Json::Array(blocks)));
    proof {
        lemma_entry_value_at(params@, 0, "sessionId"@);
        assert("sessionId"@[0] != "prompt"@[0]);
        lemma_entry_value_at(params@, 1, "prompt"@);
    }
    let mut message: Vec<(String, Json)> = Vec::new();
    message.push((String::from_str("jsonrpc"), text("2.0")));
    message.push((String::from_str("id"), text(id)));
    message.push((String::from_str("method"), text("session/prompt")));
    message.push((String::from_str("params"), Json::Object(params)));
    proof {
        assert("jsonrpc"@[0] != "id"@[0]);
        assert("jsonrpc"@[0] != "method"@[0]);
        assert("jsonrpc"@[0] != "params"@[0]);
        assert("id"@[0] != "method"@[0]);
        assert("id"@[0] != "params"@[0]);
        assert("method"@[0] != "params"@[0]);
        lemma_entry_value_at(message@, 0, "jsonrpc"@);
        lemma_entry_value_at(message@, 1, "id"@);
        lemma_entry_value_at(message@, 2, "method"@);
        lemma_entry_value_at(message@, 3, "params"@);
    }
    Json::Object(message)
}

} // verus!
