//! File locations, as text: where the state and the relay mappings live.
use vstd::prelude::*;
use crate::text::chars_of;

verus! {

/// `base` joined with `rel` as `Path::join` does on Unix: an absolute `rel`
/// replaces `base`; otherwise `rel` follows `base` after one `/`, which is not
/// doubled where `base` ends with one, and is left out where `base` is empty.
pub open spec fn path_join(base: Seq<char>, rel: Seq<char>) -> Seq<char> {
    if rel.len() > 0 && rel[0] == '/' {
        rel
    } else if base.len() == 0 {
        rel
    } else if base.last() == '/' {
        base + rel
    } else {
        base + "/"@ + rel
    }
}

/// Joins `rel` onto `base` as `Path::join` does on Unix.
pub fn join_path(base: &str, rel: &str) -> (r: String)
    ensures
        r@ == path_join(base@, rel@),
{
    let b = chars_of(base);
    let r = chars_of(rel);
    if r.len() > 0 && r[0] == '/' {
        return String::from_str(rel);
    }
    if b.len() == 0 {
        return String::from_str(rel);
    }
    let mut joined = String::from_str(base);
    if b[b.len() - 1] != '/' {
        joined.append("/");
    }
    joined.append(rel);
    joined
}

/// The state file under the home directory `home`.
pub open spec fn default_state_file_path(home: Seq<char>) -> Seq<char> {
    path_join(home, "Library/Application Support/codex-github-bridge/state.json"@)
}

/// The relay directory under the home directory `home`, beside the state file.
pub open spec fn default_relay_dir_path(home: Seq<char>) -> Seq<char> {
    path_join(home, "Library/Application Support/codex-github-bridge/relays"@)
}

/// The default relay directory is `relays` in the directory of the default
/// state file, whatever the home directory.
pub proof fn default_relay_dir_is_beside_state_file(home: Seq<char>)
    ensures
        default_state_file_path(home) == path_join(
            home,
            "Library/Application Support/codex-github-bridge"@,
        ) + "/state.json"@,
        default_relay_dir_path(home) == path_join(
            home,
            "Library/Application Support/codex-github-bridge"@,
        ) + "/relays"@,
{
    reveal_strlit("Library/Application Support/codex-github-bridge");
    reveal_strlit("Library/Application Support/codex-github-bridge/state.json");
    reveal_strlit("Library/Application Support/codex-github-bridge/relays");
    reveal_strlit("/state.json");
    reveal_strlit("/relays");
    let dir = "Library/Application Support/codex-github-bridge"@;
    assert("Library/Application Support/codex-github-bridge/state.json"@ == dir + "/state.json"@);
    assert("Library/Application Support/codex-github-bridge/relays"@ == dir + "/relays"@);
}

/// Where the state is kept by default, for the home directory `home`.
pub fn default_state_file(home: &str) -> (r: String)
    ensures
        r@ == default_state_file_path(home@),
{
    join_path(home, "Library/Application Support/codex-github-bridge/state.json")
}

/// Where relays publish their sessions by default, for the home directory
/// `home`: the directory `relays` beside the default state file.
pub fn default_relay_dir(home: &str) -> (r: String)
    ensures
        r@ == default_relay_dir_path(home@),
{
    proof {
        reveal_strlit("Library/Application Support/codex-github-bridge/relays");
    }
    join_path(home, "Library/Application Support/codex-github-bridge/relays")
}

} // verus!
