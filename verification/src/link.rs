//! Linking a pull request to the current Codex session: the pull request URL
//! gives the key `OWNER/REPO#NUMBER`.
use vstd::prelude::*;
use crate::text::{chars_of, string_of, text_eq};

verus! {

/// Whether `url::Url::parse` accepts `input` as an absolute URL.
pub uninterp spec fn url_parses(input: Seq<char>) -> bool;

/// The host (`Url::host_str`) of the URL that `url::Url::parse` makes of `input`.
pub uninterp spec fn url_host(input: Seq<char>) -> Option<Seq<char>>;

/// The percent-encoded path (`Url::path`) of the URL that `url::Url::parse`
/// makes of `input`.
pub uninterp spec fn url_path(input: Seq<char>) -> Seq<char>;

/// Parses `input` as a URL and gives its host and path. Calls `url::Url::parse`,
/// then `Url::host_str` and `Url::path` on the result; the claim is only that
/// the results are those of these functions on `input`, which the names stand for.
#[verifier::external_body]
fn parse_url(input: &str) -> (r: Option<(Option<String>, String)>)
    ensures
        r is Some <==> url_parses(input@),
        r matches Some((host, path)) ==> {
            &&& path@ == url_path(input@)
            &&& match host {
                Some(h) => url_host(input@) == Some(h@),
                None => url_host(input@) is None,
            }
        },
{
    match url::Url::parse(input) {
        Ok(url) => {
            let host = match url.host_str() {
                Some(h) => Some(h.to_string()),
                None => None,
            };
            Some((host, url.path().to_string()))
        },
        Err(_) => None,
    }
}

/// The path without one trailing slash.
pub open spec fn strip_trailing_slash(path: Seq<char>) -> Seq<char> {
    if path.len() > 0 && path.last() == '/' {
        path.drop_last()
    } else {
        path
    }
}

/// The path without its leading slashes.
pub open spec fn trim_leading_slashes(path: Seq<char>) -> Seq<char>
    decreases path.len(),
{
    if path.len() > 0 && path[0] == '/' {
        trim_leading_slashes(path.drop_first())
    } else {
        path
    }
}

/// The pieces of `s` between the occurrences of `sep` (`str::split`).
pub open spec fn split_on(s: Seq<char>, sep: char) -> Seq<Seq<char>>
    decreases s.len(),
{
    if s.len() == 0 {
        seq![Seq::empty()]
    } else {
        let pieces = split_on(s.drop_last(), sep);
        if s.last() == sep {
            pieces.push(Seq::empty())
        } else {
            pieces.update(pieces.len() - 1, pieces.last().push(s.last()))
        }
    }
}

/// Whether `c` is an ASCII digit.
pub open spec fn is_digit(c: char) -> bool {
    '0' <= c <= '9'
}

/// The value of a text of decimal digits.
pub open spec fn digits_value(s: Seq<char>) -> nat
    decreases s.len(),
{
    if s.len() == 0 {
        0
    } else {
        digits_value(s.drop_last()) * 10 + (s.last() as nat - 48) as nat
    }
}

/// The text without one leading `+`.
pub open spec fn unsigned_digits(s: Seq<char>) -> Seq<char> {
    if s.len() > 0 && s[0] == '+' {
        s.drop_first()
    } else {
        s
    }
}

/// Whether `s.parse::<u64>()` succeeds: an optional `+`, then one or more
/// decimal digits whose value fits in 64 bits.
pub open spec fn is_u64_text(s: Seq<char>) -> bool {
    let digits = unsigned_digits(s);
    &&& digits.len() > 0
    &&& forall|i: int| 0 <= i < digits.len() ==> is_digit(#[trigger] digits[i])
    &&& digits_value(digits) <= u64::MAX
}

/// The key of the pull request at a GitHub URL with host `host` and path
/// `path` (`/OWNER/REPO/pull/NUMBER`, leading slashes and one trailing slash
/// aside): `OWNER/REPO#NUMBER`, with the number as written.
pub open spec fn github_pull_key(host: Option<Seq<char>>, path: Seq<char>) -> Option<Seq<char>> {
    let pieces = split_on(trim_leading_slashes(strip_trailing_slash(path)), '/');
    if host == Some("github.com"@) && pieces.len() == 4 && pieces[2] == "pull"@ && is_u64_text(
        pieces[3],
    ) {
        Some(pieces[0] + "/"@ + pieces[1] + "#"@ + pieces[3])
    } else {
        None
    }
}

/// Splitting always gives at least one piece.
proof fn lemma_split_nonempty(s: Seq<char>, sep: char)
    ensures
        split_on(s, sep).len() >= 1,
    decreases s.len(),
{
    if s.len() > 0 {
        lemma_split_nonempty(s.drop_last(), sep);
    }
}

/// The pieces joined, with `sep` between each two.
pub open spec fn join_on(pieces: Seq<Seq<char>>, sep: char) -> Seq<char>
    decreases pieces.len(),
{
    if pieces.len() == 0 {
        Seq::empty()
    } else if pieces.len() == 1 {
        pieces[0]
    } else {
        join_on(pieces.drop_last(), sep) + seq![sep] + pieces.last()
    }
}

/// Splitting on `sep` gives pieces that hold no `sep` and that, joined with
/// `sep`, give the text back.
pub proof fn split_pieces_join_back(s: Seq<char>, sep: char)
    ensures
        join_on(split_on(s, sep), sep) == s,
        forall|i: int|
            0 <= i < split_on(s, sep).len() ==> !(#[trigger] split_on(s, sep)[i]).contains(sep),
    decreases s.len(),
{
    if s.len() > 0 {
        let rest = s.drop_last();
        let pieces = split_on(rest, sep);
        split_pieces_join_back(rest, sep);
        lemma_split_nonempty(rest, sep);
        let c = s.last();
        let out = split_on(s, sep);
        if c == sep {
            assert(out == pieces.push(Seq::empty()));
            assert(out.drop_last() == pieces);
            assert(join_on(out, sep) == rest + seq![sep] + Seq::<char>::empty());
            assert(s == rest + seq![sep]);
            assert forall|i: int| 0 <= i < out.len() implies !(#[trigger] out[i]).contains(sep) by {
                if i < pieces.len() {
                    assert(out[i] == pieces[i]);
                } else {
                    assert(out[i] == Seq::<char>::empty());
                }
            }
        } else {
            let k = pieces.len() - 1;
            assert(out == pieces.update(k, pieces.last().push(c)));
            if pieces.len() == 1 {
                assert(join_on(out, sep) == pieces[0].push(c));
                assert(pieces[0] == rest);
            } else {
                assert(out.drop_last() == pieces.drop_last());
                assert(join_on(out, sep) == join_on(pieces.drop_last(), sep) + seq![sep]
                    + pieces.last().push(c));
                assert(join_on(pieces, sep) == join_on(pieces.drop_last(), sep) + seq![sep]
                    + pieces.last());
            }
            assert(s == rest.push(c));
            assert forall|i: int| 0 <= i < out.len() implies !(#[trigger] out[i]).contains(sep) by {
                if i < k {
                    assert(out[i] == pieces[i]);
                } else {
                    let piece = pieces.last().push(c);
                    assert(out[i] == piece);
                    assert(!pieces[k].contains(sep));
                    if piece.contains(sep) {
                        let j = choose|j: int| 0 <= j < piece.len() && piece[j] == sep;
                        if j < pieces.last().len() {
                            assert(pieces.last()[j] == sep);
                        }
                    }
                }
            }
        }
    }
}

/// A text without `sep` is one piece.
proof fn lemma_split_single(a: Seq<char>, sep: char)
    requires
        !a.contains(sep),
    ensures
        split_on(a, sep) == seq![a],
    decreases a.len(),
{
    if a.len() > 0 {
        let rest = a.drop_last();
        if rest.contains(sep) {
            let j = choose|j: int| 0 <= j < rest.len() && rest[j] == sep;
            assert(a[j] == sep);
        }
        lemma_split_single(rest, sep);
        assert(a.last() != sep) by {
            if a.last() == sep {
                assert(a[a.len() - 1] == sep);
            }
        }
        assert(rest.push(a.last()) == a);
    } else {
        assert(a == Seq::<char>::empty());
    }
}

/// Splitting `x`, `sep`, `b` gives the pieces of `x`, then those of `b`.
proof fn lemma_split_concat(x: Seq<char>, b: Seq<char>, sep: char)
    ensures
        split_on(x + seq![sep] + b, sep) == split_on(x, sep) + split_on(b, sep),
    decreases b.len(),
{
    let y = x + seq![sep] + b;
    if b.len() == 0 {
        assert(y.drop_last() == x);
        assert(split_on(b, sep) == seq![Seq::<char>::empty()]);
        assert(split_on(x, sep).push(Seq::empty()) == split_on(x, sep) + seq![Seq::<char>::empty()]);
    } else {
        let b1 = b.drop_last();
        lemma_split_concat(x, b1, sep);
        assert(y.drop_last() == x + seq![sep] + b1);
        assert(y.last() == b.last());
        lemma_split_nonempty(b1, sep);
        let px = split_on(x, sep);
        let pb = split_on(b1, sep);
        if b.last() == sep {
            assert((px + pb).push(Seq::empty()) == px + pb.push(Seq::empty()));
        } else {
            let c = b.last();
            let whole = px + pb;
            assert(whole.last() == pb.last());
            assert(whole.update(whole.len() - 1, whole.last().push(c)) == px + pb.update(
                pb.len() - 1,
                pb.last().push(c),
            ));
        }
    }
}

/// A text that `parse::<u64>` accepts holds only an optional `+` and digits,
/// so no `/`, and it does not end with one.
proof fn lemma_number_has_no_slash(n: Seq<char>)
    requires
        is_u64_text(n),
    ensures
        !n.contains('/'),
        n.len() > 0 && n.last() != '/',
{
    let digits = unsigned_digits(n);
    if n.contains('/') {
        let j = choose|j: int| 0 <= j < n.len() && n[j] == '/';
        if n.len() > 0 && n[0] == '+' {
            assert(digits[j - 1] == n[j]);
            assert(is_digit(digits[j - 1]));
        } else {
            assert(is_digit(digits[j]));
        }
    }
    assert(n[n.len() - 1] == n.last());
}

/// Linking works for any owner and repository: the URL path
/// `/OWNER/REPO/pull/NUMBER` of `github.com`, for an owner and a repository
/// that are not empty and hold no `/` and a number that parses, gives the key
/// `OWNER/REPO#NUMBER`, whatever other characters (`-`, `.`, `_`) they hold.
pub proof fn pull_request_url_gives_its_key(owner: Seq<char>, repo: Seq<char>, number: Seq<char>)
    requires
        owner.len() > 0,
        repo.len() > 0,
        !owner.contains('/'),
        !repo.contains('/'),
        is_u64_text(number),
    ensures
        github_pull_key(
            Some("github.com"@),
            "/"@ + owner + "/"@ + repo + "/pull/"@ + number,
        ) == Some(owner + "/"@ + repo + "#"@ + number),
{
    reveal_strlit("/");
    reveal_strlit("/pull/");
    reveal_strlit("pull");
    let path = "/"@ + owner + "/"@ + repo + "/pull/"@ + number;
    lemma_number_has_no_slash(number);
    let trimmed = owner + seq!['/'] + (repo + seq!['/'] + ("pull"@ + seq!['/'] + number));
    assert(path == seq!['/'] + trimmed);
    assert(path.last() == number.last());
    assert(strip_trailing_slash(path) == path);
    assert(path.drop_first() == trimmed);
    assert(trimmed[0] == owner[0]);
    assert(owner[0] != '/') by {
        if owner[0] == '/' {
            assert(owner.contains('/'));
        }
    }
    assert(trim_leading_slashes(trimmed) == trimmed);
    assert(trim_leading_slashes(path) == trimmed);
    assert(!"pull"@.contains('/')) by {
        if "pull"@.contains('/') {
            let j = choose|j: int| 0 <= j < "pull"@.len() && "pull"@[j] == '/';
        }
    }
    lemma_split_concat(owner, repo + seq!['/'] + ("pull"@ + seq!['/'] + number), '/');
    lemma_split_concat(repo, "pull"@ + seq!['/'] + number, '/');
    lemma_split_concat("pull"@, number, '/');
    lemma_split_single(owner, '/');
    lemma_split_single(repo, '/');
    lemma_split_single("pull"@, '/');
    lemma_split_single(number, '/');
    let pieces = split_on(trimmed, '/');
    assert(pieces == seq![owner, repo, "pull"@, number]);
    assert(pieces[0] + "/"@ + pieces[1] + "#"@ + pieces[3] == owner + "/"@ + repo + "#"@ + number);
}

/// The pieces of `s` between the occurrences of `sep`.
fn split_chars(s: &Vec<char>, sep: char) -> (pieces: Vec<Vec<char>>)
    ensures
        pieces@.map_values(|p: Vec<char>| p@) == split_on(s@, sep),
{
    let mut pieces: Vec<Vec<char>> = Vec::new();
    pieces.push(Vec::new());
    let mut i: usize = 0;
    assert(s@.take(0) == Seq::<char>::empty());
    assert(pieces@.map_values(|p: Vec<char>| p@) == split_on(s@.take(0), sep));
    while i < s.len()
        invariant
            i <= s@.len(),
            pieces@.map_values(|p: Vec<char>| p@) == split_on(s@.take(i as int), sep),
        decreases s@.len() - i,
    {
        proof {
            lemma_split_nonempty(s@.take(i as int), sep);
        }
        let ghost before = pieces@.map_values(|p: Vec<char>| p@);
        let c = s[i];
        assert(s@.take(i + 1).drop_last() == s@.take(i as int));
        assert(s@.take(i + 1).last() == c);
        if c == sep {
            pieces.push(Vec::new());
            assert(pieces@.map_values(|p: Vec<char>| p@) == before.push(Seq::empty()));
        } else {
            let last = pieces.len() - 1;
            let mut piece = pieces.pop().unwrap();
            piece.push(c);
            pieces.push(piece);
            assert(pieces@.map_values(|p: Vec<char>| p@) == before.update(
                last as int,
                before.last().push(c),
            ));
        }
        i = i + 1;
    }
    assert(s@.take(s@.len() as int) == s@);
    pieces
}

/// Whether digits that are a prefix of `s` have no greater value than `s`.
proof fn lemma_digits_value_grows(s: Seq<char>, n: int)
    requires
        0 <= n <= s.len(),
    ensures
        digits_value(s.take(n)) <= digits_value(s),
    decreases s.len() - n,
{
    if n < s.len() {
        lemma_digits_value_grows(s, n + 1);
        assert(s.take(n + 1).drop_last() == s.take(n));
    } else {
        assert(s.take(n) == s);
    }
}

/// Whether `s.parse::<u64>()` would succeed.
pub fn parses_as_u64(s: &Vec<char>) -> (ok: bool)
    ensures
        ok == is_u64_text(s@),
{
    let start: usize = if s.len() > 0 && s[0] == '+' {
        1
    } else {
        0
    };
    let ghost digits = unsigned_digits(s@);
    assert(digits == s@.skip(start as int));
    if start >= s.len() {
        return false;
    }
    let mut value: u64 = 0;
    let mut i: usize = start;
    assert(digits.take(0) == Seq::<char>::empty());
    while i < s.len()
        invariant
            start <= i <= s@.len(),
            digits == s@.skip(start as int),
            is_u64_text(s@) == (digits.len() > 0 && (forall|j: int|
                0 <= j < digits.len() ==> is_digit(#[trigger] digits[j])) && digits_value(digits)
                <= u64::MAX),
            forall|j: int| 0 <= j < i - start ==> is_digit(#[trigger] digits[j]),
            value == digits_value(digits.take(i - start)),
        decreases s@.len() - i,
    {
        let c = s[i];
        assert(digits[i - start] == c);
        if !('0' <= c && c <= '9') {
            assert(!is_digit(digits[i - start]));
            return false;
        }
        let d: u64 = (c as u32 - 48) as u64;
        assert(digits.take(i - start + 1).drop_last() == digits.take(i - start));
        assert(digits.take(i - start + 1).last() == c);
        if value > (u64::MAX - d) / 10 {
            proof {
                assert(digits_value(digits.take(i - start + 1)) > u64::MAX);
                lemma_digits_value_grows(digits, i - start + 1);
            }
            return false;
        }
        value = value * 10 + d;
        i = i + 1;
    }
    assert(digits.take(i - start) == digits);
    true
}

/// The key of the pull request at a URL with host `host` and path `path`,
/// where that URL is a GitHub pull request URL.
pub fn github_pull_request_key(host: Option<&str>, path: &str) -> (key: Option<String>)
    ensures
        match key {
            Some(k) => github_pull_key(
                match host {
                    Some(h) => Some(h@),
                    None => None,
                },
                path@,
            ) == Some(k@),
            None => github_pull_key(
                match host {
                    Some(h) => Some(h@),
                    None => None,
                },
                path@,
            ) is None,
        },
{
    let ghost host_view: Option<Seq<char>> = match host {
        Some(h) => Some(h@),
        None => None,
    };
    let chars = chars_of(path);
    let mut end = chars.len();
    if end > 0 && chars[end - 1] == '/' {
        end = end - 1;
    }
    let mut start: usize = 0;
    assert(chars@.subrange(0, end as int) == strip_trailing_slash(chars@));
    assert(chars@.subrange(start as int, end as int) == strip_trailing_slash(chars@));
    while start < end && chars[start] == '/'
        invariant
            start <= end <= chars@.len(),
            end == strip_trailing_slash(chars@).len(),
            chars@.subrange(0, end as int) == strip_trailing_slash(chars@),
            trim_leading_slashes(strip_trailing_slash(chars@)) == trim_leading_slashes(
                chars@.subrange(start as int, end as int),
            ),
        decreases end - start,
    {
        assert(chars@.subrange(start as int, end as int).drop_first() == chars@.subrange(
            start + 1,
            end as int,
        ));
        start = start + 1;
    }
    let mut trimmed: Vec<char> = Vec::new();
    let mut i = start;
    while i < end
        invariant
            start <= i <= end <= chars@.len(),
            trimmed@ == chars@.subrange(start as int, i as int),
        decreases end - i,
    {
        trimmed.push(chars[i]);
        i = i + 1;
    }
    assert(trimmed@ == trim_leading_slashes(strip_trailing_slash(path@)));
    let pieces = split_chars(&trimmed, '/');
    let ghost views = pieces@.map_values(|p: Vec<char>| p@);
    let github = match host {
        Some(h) => text_eq(h, "github.com"),
        None => false,
    };
    if !github || pieces.len() != 4 {
        return None;
    }
    assert(views[2] == pieces@[2]@);
    assert(views[3] == pieces@[3]@);
    let pull = string_of(pieces[2].as_slice());
    if !text_eq(pull.as_str(), "pull") || !parses_as_u64(&pieces[3]) {
        return None;
    }
    let mut key = string_of(pieces[0].as_slice());
    key.append("/");
    let repo = string_of(pieces[1].as_slice());
    key.append(repo.as_str());
    key.append("#");
    let number = string_of(pieces[3].as_slice());
    key.append(number.as_str());
    assert(views[0] == pieces@[0]@);
    assert(views[1] == pieces@[1]@);
    Some(key)
}

/// Why a pull request cannot be linked.
pub enum LinkError {
    /// No Codex session ID was given (`CODEX_THREAD_ID is required`).
    MissingThreadId,
    /// The URL is not a GitHub pull request URL (`Expected a GitHub pull request URL`).
    NotPullRequestUrl,
}

/// The key under which the pull request at `pull_request_url` is linked to
/// the session `thread_id`: refused without a session ID, or where the URL is
/// not one of a GitHub pull request.
pub fn pull_request_link_key(pull_request_url: &str, thread_id: &str) -> (r: Result<String, LinkError>)
    ensures
        thread_id@.len() == 0 ==> r matches Err(LinkError::MissingThreadId),
        thread_id@.len() > 0 && !url_parses(pull_request_url@) ==> r matches Err(
            LinkError::NotPullRequestUrl,
        ),
        thread_id@.len() > 0 && url_parses(pull_request_url@) ==> match github_pull_key(
            url_host(pull_request_url@),
            url_path(pull_request_url@),
        ) {
            Some(k) => r matches Ok(key) && key@ == k,
            None => r matches Err(LinkError::NotPullRequestUrl),
        },
{
    if thread_id.is_empty() {
        return Err(LinkError::MissingThreadId);
    }
    match parse_url(pull_request_url) {
        None => Err(LinkError::NotPullRequestUrl),
        Some((host, path)) => {
            let host_text: Option<&str> = match &host {
                Some(h) => Some(h.as_str()),
                None => None,
            };
            match github_pull_request_key(host_text, path.as_str()) {
                Some(key) => Ok(key),
                None => Err(LinkError::NotPullRequestUrl),
            }
        },
    }
}

} // verus!
