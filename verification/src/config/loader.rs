//! Where a profile comes from: local paths (with `~` expansion) and `https://`
//! URLs (with GitHub Gist conveniences).
//!
//! The rules, in order:
//!
//! 1. `https://` is downloaded.
//! 2. `http://` is rejected outright: profiles drive your keyboard, so we are
//!    not willing to take one off an unauthenticated transport.
//! 3. anything else is a local path, with `~` expanded.

use super::LoadedProfile;
use crate::errors::{
    in_context, user_error, wrapped_system_error, wrapped_user_error, Error, ErrorView, FileError,
    FileErrorKind, HumanizableError, Kind,
};
use crate::path::{expand_tilde, expands_to};
use crate::text::{
    a_part_occurs, ascii_lower, chars_between, chars_of, eq_ignoring_case, fields, find,
    first_occurs_at, lemma_separator_at, lower_chars, lower_chars_of, matches_at, occurs_in,
    same_but_for_case, separator_at, starts_with, text_between, trim_start, trimmed_start,
    white_space,
};
use vstd::prelude::*;

verus! {

/// Whether a text starts with a URL scheme, whatever its case.
pub open spec fn in_scheme(url: Seq<char>, scheme: Seq<char>) -> bool {
    url.len() >= scheme.len() && same_but_for_case(url.take(scheme.len() as int), scheme)
}

/// Whether a text starts with a URL scheme, whatever its case.
pub fn has_scheme(url: &str, scheme: &str) -> (has: bool)
    ensures
        has == in_scheme(url@, scheme@),
{
    let chars = chars_of(url);
    let n: usize = chars_of(scheme).len();
    if chars.len() < n {
        return false;
    }
    assert(chars@.subrange(0, n as int) == url@.take(n as int));
    eq_ignoring_case(text_between(&chars, 0, n).as_str(), scheme)
}

/// Whether a character ends the host of a URL.
pub open spec fn ends_host(c: char) -> bool {
    c == '/' || c == '?' || c == '#'
}

/// Whether a URL's host stands from one index up to another: it follows the
/// first `://`, and goes on to the first of `/`, `?` and `#`, or to the end.
pub open spec fn host_at(url: Seq<char>, from: int, to: int) -> bool {
    &&& 3 <= from <= to <= url.len()
    &&& first_occurs_at(url, "://"@, from - 3)
    &&& forall|i: int| from <= i < to ==> !ends_host(#[trigger] url[i])
    &&& to < url.len() ==> ends_host(url[to])
}

/// Where a URL's host stands. Gives `None` when the URL has no `://`.
pub fn split_host(url: &[char]) -> (host: Option<(usize, usize)>)
    ensures
        match host {
            Some((from, to)) => host_at(url@, from as int, to as int),
            None => !occurs_in("://"@, url@),
        },
{
    proof {
        reveal_strlit("://");
    }
    let separator = chars_of("://");
    let len: usize = url.len();
    match find(url, &separator) {
        None => None,
        Some(at) => {
            let from: usize = at + 3;
            let mut to: usize = from;
            while to < len && url[to] != '/' && url[to] != '?' && url[to] != '#'
                invariant
                    len == url.len(),
                    from <= to <= len,
                    forall|i: int| from <= i < to ==> !ends_host(#[trigger] url@[i]),
                decreases len - to,
            {
                to = to + 1;
            }
            Some((from, to))
        },
    }
}

/// Whether one of a path's segments, between one `/` and the next, is `raw`,
/// and starts at an index.
pub open spec fn raw_at(path: Seq<char>, at: int) -> bool {
    &&& 0 <= at <= path.len() - 3
    &&& path.subrange(at, at + 3) == "raw"@
    &&& at == 0 || path[at - 1] == '/'
    &&& at + 3 == path.len() || path[at + 3] == '/'
}

/// Whether one of a path's segments is `raw`.
pub open spec fn has_raw(path: Seq<char>) -> bool {
    exists|at: int| #[trigger] raw_at(path, at)
}

/// Whether one of a path's segments is `raw`.
fn has_raw_segment(path: &[char]) -> (has: bool)
    ensures
        has == has_raw(path@),
{
    proof {
        reveal_strlit("raw");
    }
    let raw = chars_of("raw");
    if path.len() < 3 {
        return false;
    }
    let last: usize = path.len() - 3;
    let mut at: usize = 0;
    while at <= last
        invariant
            last == path.len() - 3,
            at <= last + 1,
            raw@ == "raw"@,
            raw@.len() == 3,
            forall|i: int| 0 <= i < at ==> !#[trigger] raw_at(path@, i),
        decreases last + 1 - at,
    {
        if matches_at(path, &raw, at) && (at == 0 || path[at - 1] == '/') && (at == last || path[at
            + 3] == '/') {
            assert(raw_at(path@, at as int));
            return true;
        }
        assert(!raw_at(path@, at as int));
        if at == last {
            return false;
        }
        at = at + 1;
    }
    false
}

/// A text without the slashes at its end.
pub open spec fn without_slashes(text: Seq<char>) -> Seq<char>
    decreases text.len(),
{
    if text.len() > 0 && text.last() == '/' {
        without_slashes(text.drop_last())
    } else {
        text
    }
}

/// A text without the slashes at its end.
fn trim_slashes(chars: &[char]) -> (text: String)
    ensures
        text@ == without_slashes(chars@),
{
    let mut to: usize = chars.len();
    assert(chars@.subrange(0, to as int) == chars@);
    while to > 0 && chars[to - 1] == '/'
        invariant
            to <= chars.len(),
            without_slashes(chars@) == without_slashes(chars@.subrange(0, to as int)),
        decreases to,
    {
        assert(chars@.subrange(0, to as int).drop_last() == chars@.subrange(0, to - 1));
        to = to - 1;
    }
    text_between(chars, 0, to)
}

/// What a URL becomes, given where its host stands.
pub open spec fn rewritten(url: Seq<char>, from: int, to: int) -> Seq<char> {
    if !same_but_for_case(url.subrange(from, to), "gist.github.com"@) {
        url
    } else if has_raw(url.skip(to)) {
        url
    } else {
        without_slashes(url) + "/raw"@
    }
}

/// Whether one URL is what another becomes.
pub open spec fn rewrites_to(url: Seq<char>, result: Seq<char>) -> bool {
    if occurs_in("://"@, url) {
        exists|from: int, to: int|
            #[trigger] host_at(url, from, to) && result == rewritten(url, from, to)
    } else {
        result == url
    }
}

/// Rewrites a `gist.github.com` URL to its `/raw` equivalent.
///
/// Pasting the address bar of a Gist is the obvious thing to do and gets you
/// an HTML page, so a `gist.github.com` URL whose path has no `raw` segment
/// gains one (which GitHub resolves to the first file of the latest revision).
/// URLs on `gist.githubusercontent.com` / `raw.githubusercontent.com`, URLs
/// which already name a `raw` segment, and every non-Gist URL pass through
/// unchanged.
pub fn rewrite_gist_url(url: &str) -> (result: String)
    ensures
        rewrites_to(url@, result@),
{
    let chars = chars_of(url);
    let (from, to) = match split_host(&chars) {
        Some(host) => host,
        None => {
            return url.to_owned();
        },
    };
    proof {
        reveal_strlit("://");
        assert(occurs_in("://"@, url@)) by {
            assert(url@.subrange(from - 3, from - 3 + "://"@.len()) == "://"@);
        }
        assert(host_at(url@, from as int, to as int));
    }
    let host = text_between(&chars, from, to);
    if !eq_ignoring_case(host.as_str(), "gist.github.com") {
        return url.to_owned();
    }
    let path = chars_between(&chars, to, chars.len());
    assert(path@ == url@.skip(to as int));
    if has_raw_segment(&path) {
        return url.to_owned();
    }
    let mut result = trim_slashes(&chars);
    result.append("/raw");
    result
}

/// Where a URL's host stands is determined, and so is what it becomes.
pub proof fn rewriting_is_determined(url: Seq<char>, a: Seq<char>, b: Seq<char>)
    requires
        rewrites_to(url, a),
        rewrites_to(url, b),
    ensures
        a == b,
{
    assert forall|from: int, to: int, from2: int, to2: int|
        host_at(url, from, to) && host_at(url, from2, to2) implies from == from2 && to == to2 by {
        if from < from2 {
            assert(url.subrange(from - 3, from - 3 + "://"@.len()) == "://"@);
        } else if from2 < from {
            assert(url.subrange(from2 - 3, from2 - 3 + "://"@.len()) == "://"@);
        }
        if to < to2 {
            assert(ends_host(url[to]));
        } else if to2 < to {
            assert(ends_host(url[to2]));
        }
    }
}

/// A text without the slashes at its end begins the text, and slashes follow.
proof fn lemma_without_slashes(text: Seq<char>, keep: int)
    requires
        0 < keep <= text.len(),
        text[keep - 1] != '/',
    ensures
        ({
            let k = without_slashes(text).len() as int;
            &&& keep <= k <= text.len()
            &&& without_slashes(text) == text.take(k)
            &&& text[k - 1] != '/'
            &&& forall|i: int| k <= i < text.len() ==> text[i] == '/'
        }),
    decreases text.len(),
{
    if text.last() == '/' {
        lemma_without_slashes(text.drop_last(), keep);
        let k = without_slashes(text).len() as int;
        assert(text.drop_last().take(k) == text.take(k));
        assert forall|i: int| k <= i < text.len() implies text[i] == '/' by {
            if i < text.len() - 1 {
                assert(text.drop_last()[i] == '/');
            }
        }
    } else {
        assert(text.take(text.len() as int) == text);
    }
}

/// A rewritten URL is left alone: rewriting twice is rewriting once.
pub proof fn rewriting_settles(url: Seq<char>, result: Seq<char>)
    requires
        rewrites_to(url, result),
    ensures
        rewrites_to(result, result),
{
    reveal_strlit("://");
    reveal_strlit("raw");
    reveal_strlit("/raw");
    reveal_strlit("gist.github.com");
    if occurs_in("://"@, url) {
        let (from, to) = choose|from: int, to: int|
            #[trigger] host_at(url, from, to) && result == rewritten(url, from, to);
        let host = url.subrange(from, to);
        if same_but_for_case(host, "gist.github.com"@) && !has_raw(url.skip(to)) {
            assert(ascii_lower(host[14]) == ascii_lower("gist.github.com"@[14]));
            assert(url[to - 1] == host[14]);
            assert(url[to - 1] != '/');
            lemma_without_slashes(url, to);
            assert(result.subrange(from, to) == host);
            assert(result.subrange(from - 3, from) == url.subrange(from - 3, from));
            assert forall|i: int| 0 <= i < from - 3 implies #[trigger] result.subrange(i, i + 3)
                != "://"@ by {
                assert(result.subrange(i, i + 3) == url.subrange(i, i + 3));
            }
            assert(host_at(result, from, to));
            assert(occurs_in("://"@, result)) by {
                assert(result.subrange(from - 3, from - 3 + "://"@.len()) == "://"@);
            }
            let path = result.skip(to);
            let at = path.len() - 3;
            assert(path.subrange(at, at + 3) == "raw"@);
            assert(raw_at(path, at));
        }
    }
}

/// Where a profile argument points.
#[derive(Debug, Clone, PartialEq, Eq)]
pub enum Location {
    /// A URL to download it from.
    Remote(String),
    /// A path to read it from.
    Local(String),
}

/// What is said of a profile which is only offered over plain HTTP.
pub open spec fn plain_http(profile: Seq<char>) -> ErrorView {
    user_error(
        "We only download profiles over HTTPS, but '"@ + profile
            + "' uses plain, unencrypted HTTP."@,
        seq![
            "Use an 'https://' URL instead — GitHub, Gists and every other common profile host serve HTTPS."@,
            "If the profile is only available over HTTP, download it yourself and pass the path to the local file instead."@,
        ],
    )
}

/// Resolves a profile argument (a path or an `https://` URL) to where it
/// points.
pub fn locate(profile: &str) -> (location: Result<Location, Error>)
    ensures
        match location {
            Ok(Location::Remote(url)) => {
                &&& in_scheme(profile@, "https://"@)
                &&& rewrites_to(profile@, url@)
            },
            Ok(Location::Local(path)) => {
                &&& !in_scheme(profile@, "https://"@)
                &&& !in_scheme(profile@, "http://"@)
                &&& expands_to(profile@, path@)
            },
            Err(error) => {
                &&& !in_scheme(profile@, "https://"@)
                &&& in_scheme(profile@, "http://"@)
                &&& error@ == plain_http(profile@)
            },
        },
{
    if has_scheme(profile, "https://") {
        Ok(Location::Remote(rewrite_gist_url(profile)))
    } else if has_scheme(profile, "http://") {
        let mut description = "We only download profiles over HTTPS, but '".to_owned();
        description.append(profile);
        description.append("' uses plain, unencrypted HTTP.");
        Err(
            Error::user(
                description,
                vec![
                    "Use an 'https://' URL instead — GitHub, Gists and every other common profile host serve HTTPS.",
                    "If the profile is only available over HTTP, download it yourself and pass the path to the local file instead.",
                ],
            ),
        )
    } else {
        Ok(Location::Local(expand_tilde(profile)))
    }
}

/// Whether a downloaded text starts as a web page does.
pub open spec fn web_page(body: Seq<char>) -> bool {
    let text = trimmed_start(body);
    let head = lower_chars(text.take(if text.len() < 9 { text.len() as int } else { 9 }));
    "<!doctype"@.is_prefix_of(head) || "<html"@.is_prefix_of(head)
}

/// Detects the classic "I pasted the pretty Gist page" mistake.
pub fn looks_like_html(body: &str) -> (is: bool)
    ensures
        is == web_page(body@),
{
    let text = trim_start(body);
    let n: usize = if text.len() < 9 { text.len() } else { 9 };
    let start = chars_between(&text, 0, n);
    assert(start@ == trimmed_start(body@).take(n as int));
    let head = lower_chars_of(&start);
    starts_with(head.as_str(), "<!doctype") || starts_with(head.as_str(), "<html")
}

/// What is said of a response which is not a success.
pub open spec fn refused(status: Seq<char>, source: Seq<char>) -> ErrorView {
    user_error(
        "We received a '"@ + status + "' response when downloading the profile from '"@ + source
            + "'."@,
        seq![
            "Check that the URL is correct and that the profile is publicly accessible — we do not send any credentials, so private Gists and repositories will not work."@,
            "If you are pointing at a GitHub Gist, use the 'Raw' button on the file to get its raw URL."@,
        ],
    )
}

/// What is said of a download which is a web page.
pub open spec fn not_a_profile(source: Seq<char>) -> ErrorView {
    user_error(
        "The profile we downloaded from '"@ + source
            + "' looks like a web page, not a YAML profile."@,
        seq![
            "Use the raw file URL rather than the page you see in your browser — on a GitHub Gist, the 'Raw' button gives you it."@,
            "Open the URL in your browser to check that it serves the profile itself and not a login or error page."@,
        ],
    )
}

/// Checks a response's status before its body is read. A success is a status
/// from 200 up to 299.
pub fn check_status(code: u16, status: &str, source: &str) -> (checked: Result<(), Error>)
    ensures
        match checked {
            Ok(()) => 200 <= code < 300,
            Err(error) => !(200 <= code < 300) && error@ == refused(status@, source@),
        },
{
    if code >= 200 && code < 300 {
        return Ok(());
    }
    let mut description = "We received a '".to_owned();
    description.append(status);
    description.append("' response when downloading the profile from '");
    description.append(source);
    description.append("'.");
    Err(
        Error::user(
            description,
            vec![
                "Check that the URL is correct and that the profile is publicly accessible — we do not send any credentials, so private Gists and repositories will not work.",
                "If you are pointing at a GitHub Gist, use the 'Raw' button on the file to get its raw URL.",
            ],
        ),
    )
}

/// What a downloaded body comes to: the profile, unless it is a web page.
pub fn accept_body(source: String, content: String) -> (loaded: Result<LoadedProfile, Error>)
    ensures
        match loaded {
            Ok(loaded) => {
                &&& !web_page(content@)
                &&& loaded.source@ == source@
                &&& loaded.content@ == content@
            },
            Err(error) => web_page(content@) && error@ == not_a_profile(source@),
        },
{
    if looks_like_html(content.as_str()) {
        let mut description = "The profile we downloaded from '".to_owned();
        description.append(source.as_str());
        description.append("' looks like a web page, not a YAML profile.");
        return Err(
            Error::user(
                description,
                vec![
                    "Use the raw file URL rather than the page you see in your browser — on a GitHub Gist, the 'Raw' button gives you it.",
                    "Open the URL in your browser to check that it serves the profile itself and not a login or error page.",
                ],
            ),
        );
    }
    Ok(LoadedProfile { source, content })
}

/// What is said of a local profile which could not be read.
pub open spec fn unreadable_file(path: Seq<char>, failure: FileError) -> ErrorView {
    let description = "We could not read the profile at '"@ + path + "'."@;
    if failure.kind == FileErrorKind::NotFound || failure.kind == FileErrorKind::PermissionDenied {
        in_context(
            failure.humanized(),
            Kind::User,
            description,
            seq![
                "Check that the path is spelled correctly and that the file exists."@,
                "You can also pass an 'https://' URL to load a profile which is published online."@,
            ],
        )
    } else {
        in_context(
            failure.humanized(),
            Kind::System,
            description,
            seq!["Please report this issue on GitHub so that we can investigate."@],
        )
    }
}

/// What reading a local profile comes to.
pub fn accept_file(path: String, content: Result<String, FileError>) -> (loaded: Result<
    LoadedProfile,
    Error,
>)
    ensures
        match (content, loaded) {
            (Ok(content), Ok(loaded)) => loaded.source@ == path@ && loaded.content@ == content@,
            (Err(failure), Err(error)) => error@ == unreadable_file(path@, failure),
            _ => false,
        },
{
    match content {
        Ok(content) => Ok(LoadedProfile { source: path, content }),
        Err(failure) => {
            let kind = failure.kind;
            let mut description = "We could not read the profile at '".to_owned();
            description.append(path.as_str());
            description.append("'.");
            let inner = failure.to_human_error();
            Err(
                if kind == FileErrorKind::NotFound || kind == FileErrorKind::PermissionDenied {
                    inner.in_context(
                        Kind::User,
                        description,
                        vec![
                            "Check that the path is spelled correctly and that the file exists.",
                            "You can also pass an 'https://' URL to load a profile which is published online.",
                        ],
                    )
                } else {
                    inner.in_context(
                        Kind::System,
                        description,
                        vec!["Please report this issue on GitHub so that we can investigate."],
                    )
                },
            )
        },
    }
}

/// A failure to make a web request.
#[derive(Debug, Clone, PartialEq, Eq)]
pub struct FetchError {
    /// Whether the connection could not be made.
    pub connect: bool,
    /// Whether it took too long.
    pub timeout: bool,
    /// The failure in the client's own words.
    pub detail: String,
}

impl HumanizableError for FetchError {
    open spec fn humanized(&self) -> ErrorView {
        if self.connect {
            wrapped_user_error(
                self.detail@,
                "We could not connect to the remote server to download the profile."@,
                seq![
                    "Make sure that your internet connection is working correctly and that the server is not blocked by your firewall."@,
                    "If the network is unreliable, download the profile to a local file and pass its path instead."@,
                ],
            )
        } else if self.timeout {
            wrapped_user_error(
                self.detail@,
                "We timed out while making a web request."@,
                seq![
                    "This is usually caused by a slow or unreliable network connection, or a remote server which is temporarily overloaded. Please try again later."@,
                    "If the network is unreliable, download the profile to a local file and pass its path instead."@,
                ],
            )
        } else {
            wrapped_system_error(
                self.detail@,
                "An unexpected error occurred while making a web request."@,
                seq![
                    "Please read the error above and decide whether there is something you can do to fix the problem, or report it to us on GitHub."@,
                ],
            )
        }
    }

    fn to_human_error(self) -> (error: Error) {
        if self.connect {
            Error::wrap_user(
                self.detail,
                "We could not connect to the remote server to download the profile.".to_owned(),
                vec![
                    "Make sure that your internet connection is working correctly and that the server is not blocked by your firewall.",
                    "If the network is unreliable, download the profile to a local file and pass its path instead.",
                ],
            )
        } else if self.timeout {
            Error::wrap_user(
                self.detail,
                "We timed out while making a web request.".to_owned(),
                vec![
                    "This is usually caused by a slow or unreliable network connection, or a remote server which is temporarily overloaded. Please try again later.",
                    "If the network is unreliable, download the profile to a local file and pass its path instead.",
                ],
            )
        } else {
            Error::wrap_system(
                self.detail,
                "An unexpected error occurred while making a web request.".to_owned(),
                vec![
                    "Please read the error above and decide whether there is something you can do to fix the problem, or report it to us on GitHub.",
                ],
            )
        }
    }
}

/// Whether a URL has a `raw` segment is whether one of the parts its path is
/// made of is `raw`.
proof fn lemma_raw_is_a_segment(path: Seq<char>)
    ensures
        has_raw(path) <==> fields(path, '/').contains("raw"@),
    decreases path.len(),
{
    reveal_strlit("raw");
    let end = separator_at(path, '/');
    let all = fields(path, '/');
    lemma_separator_at(path, '/');
    if end < path.len() {
        let head = path.take(end);
        let rest = path.skip(end + 1);
        lemma_raw_is_a_segment(rest);
        assert(all == seq![head] + fields(rest, '/'));
        if has_raw(path) {
            let at = choose|at: int| #[trigger] raw_at(path, at);
            let found = path.subrange(at, at + 3);
            assert(found[0] == 'r' && found[1] == 'a' && found[2] == 'w');
            if at <= end {
                assert(at == 0) by {
                    if at > 0 {
                        assert(path[at - 1] == '/');
                    }
                }
                assert(end == 3) by {
                    assert(path[end] == '/');
                    if end > 3 {
                        assert(path[3] == '/');
                    }
                    if end < 3 {
                        assert(path[end] == found[end]);
                    }
                }
                assert(head =~= "raw"@);
                assert(all[0] == "raw"@);
            } else {
                let there = at - end - 1;
                assert(rest.subrange(there, there + 3) =~= found);
                assert(there == 0 || rest[there - 1] == path[at - 1]);
                assert(raw_at(rest, there));
                let k = choose|k: int| 0 <= k < fields(rest, '/').len() && fields(rest, '/')[k]
                    == "raw"@;
                assert(all[k + 1] == "raw"@);
            }
        }
        if all.contains("raw"@) {
            let k = choose|k: int| 0 <= k < all.len() && all[k] == "raw"@;
            if k == 0 {
                assert(head == "raw"@);
                assert(path.subrange(0, 3) =~= head);
                assert(raw_at(path, 0));
            } else {
                assert(fields(rest, '/')[k - 1] == "raw"@);
                let there = choose|there: int| #[trigger] raw_at(rest, there);
                let at = there + end + 1;
                assert(path.subrange(at, at + 3) =~= rest.subrange(there, there + 3));
                assert(raw_at(path, at));
            }
        }
    } else {
        assert(all == seq![path]);
        if has_raw(path) {
            let at = choose|at: int| #[trigger] raw_at(path, at);
            assert(at == 0) by {
                if at > 0 {
                    assert(path[at - 1] == '/');
                }
            }
            if path.len() > 3 {
                assert(path[3] == '/');
            }
            assert(path.subrange(0, 3) =~= path);
            assert(all[0] == "raw"@);
        }
        if all.contains("raw"@) {
            assert(all[0] == "raw"@);
            assert(path.subrange(0, 3) =~= path);
            assert(raw_at(path, 0));
        }
    }
}

/// Where a URL points is only ever changed for a Gist's page: whatever is not on
/// `gist.github.com`, or has a `raw` segment already, stays what it is, and any
/// other gains one, in place of the slashes at its end.
pub proof fn only_a_gists_page_is_rewritten(url: Seq<char>, result: Seq<char>, from: int, to: int)
    requires
        rewrites_to(url, result),
        host_at(url, from, to),
    ensures
        ({
            let on_gist = same_but_for_case(url.subrange(from, to), "gist.github.com"@);
            let raw = fields(url.skip(to), '/').contains("raw"@);
            &&& !on_gist || raw ==> result == url
            &&& on_gist && !raw ==> exists|page: Seq<char>, slashes: Seq<char>|
                {
                    &&& url == #[trigger] (page + slashes)
                    &&& forall|i: int| 0 <= i < slashes.len() ==> #[trigger] slashes[i] == '/'
                    &&& page.len() > 0 && page.last() != '/'
                    &&& result == page + "/raw"@
                }
        }),
{
    reveal_strlit("://");
    reveal_strlit("gist.github.com");
    lemma_raw_is_a_segment(url.skip(to));
    assert(occurs_in("://"@, url)) by {
        assert(url.subrange(from - 3, from - 3 + "://"@.len()) == "://"@);
    }
    let other = rewritten(url, from, to);
    assert(rewrites_to(url, other));
    rewriting_is_determined(url, result, other);
    let host = url.subrange(from, to);
    if same_but_for_case(host, "gist.github.com"@) && !has_raw(url.skip(to)) {
        assert(ascii_lower(host[14]) == ascii_lower("gist.github.com"@[14]));
        assert(url[to - 1] == host[14]);
        lemma_without_slashes(url, to);
        let page = without_slashes(url);
        let slashes = url.skip(page.len() as int);
        assert(url =~= page + slashes);
        assert(page.last() == url[page.len() - 1]);
    }
}

/// What is not a URL is left alone.
pub proof fn what_is_no_url_is_left_alone(url: Seq<char>, result: Seq<char>)
    requires
        rewrites_to(url, result),
        !occurs_in("://"@, url),
    ensures
        result == url,
{
}

/// A web page is one whatever white space stands before it, and whatever follows
/// where its start is.
pub proof fn a_web_page_is_known_by_its_start(before: Seq<char>, start: Seq<char>, rest: Seq<char>)
    requires
        forall|i: int| 0 <= i < before.len() ==> white_space(#[trigger] before[i]),
        start.len() == 9,
        !white_space(start[0]),
    ensures
        web_page(before + start + rest) <==> {
            ||| lower_chars(start).len() >= 9 && lower_chars(start).take(9) == "<!doctype"@
            ||| lower_chars(start).len() >= 5 && lower_chars(start).take(5) == "<html"@
        },
    decreases before.len(),
{
    reveal_strlit("<!doctype");
    reveal_strlit("<html");
    let body = before + start + rest;
    if before.len() > 0 {
        let fewer = before.drop_first();
        assert forall|i: int| 0 <= i < fewer.len() implies white_space(#[trigger] fewer[i]) by {
            assert(fewer[i] == before[i + 1]);
        }
        a_web_page_is_known_by_its_start(fewer, start, rest);
        assert(white_space(before[0]));
        assert(body[0] == before[0]);
        assert(body.drop_first() =~= fewer + start + rest);
    } else {
        assert(body[0] == start[0]);
        assert(trimmed_start(body) == body);
        assert(body.take(9) =~= start);
        let head = lower_chars(start);
        if "<!doctype"@.is_prefix_of(head) {
            assert(head.take(9) =~= "<!doctype"@);
        }
        if "<html"@.is_prefix_of(head) {
            assert(head.take(5) =~= "<html"@);
        }
    }
}

/// Only a profile from `https://` is downloaded, whatever the case it is written
/// in, and one from `http://` never is: the two never are the same.
pub proof fn a_scheme_is_told_apart(url: Seq<char>)
    ensures
        !(in_scheme(url, "https://"@) && in_scheme(url, "http://"@)),
{
    reveal_strlit("https://");
    reveal_strlit("http://");
    if in_scheme(url, "https://"@) && in_scheme(url, "http://"@) {
        assert(ascii_lower(url.take(8)[4]) == ascii_lower("https://"@[4]));
        assert(ascii_lower(url.take(7)[4]) == ascii_lower("http://"@[4]));
        assert(url.take(8)[4] == url.take(7)[4]);
    }
}

/// A file which cannot be read is named, with the system's own words as a cause,
/// and is the user's to act on just where they can.
pub proof fn an_unreadable_file_is_named(path: Seq<char>, failure: FileError)
    ensures
        ({
            let error = unreadable_file(path, failure);
            &&& occurs_in(path, error.description)
            &&& error.causes.last().text == failure.detail@
            &&& (error.kind == Kind::User) == (failure.kind == FileErrorKind::NotFound
                || failure.kind == FileErrorKind::PermissionDenied)
            &&& error.causes[0].kind == Some(error.kind)
        }),
{
    a_part_occurs("We could not read the profile at '"@, path, "'."@);
    let told = failure.humanized();
    let causes = unreadable_file(path, failure).causes;
    assert(told.causes.len() == 1);
    assert(causes[1] == told.causes[0]);
}

/// A scheme is one in whatever case it is written.
pub proof fn the_case_of_a_scheme_makes_no_difference(
    url: Seq<char>,
    other: Seq<char>,
    scheme: Seq<char>,
)
    requires
        same_but_for_case(url, other),
    ensures
        in_scheme(url, scheme) == in_scheme(other, scheme),
        in_scheme(scheme + url, scheme),
{
    assert((scheme + url).take(scheme.len() as int) =~= scheme);
    assert forall|a: Seq<char>, b: Seq<char>|
        same_but_for_case(a, b) && #[trigger] in_scheme(a, scheme) implies #[trigger] in_scheme(
        b,
        scheme,
    ) by {
        let start = a.take(scheme.len() as int);
        let begin = b.take(scheme.len() as int);
        assert forall|i: int| 0 <= i < begin.len() implies ascii_lower(#[trigger] begin[i])
            == ascii_lower(scheme[i]) by {
            assert(ascii_lower(a[i]) == ascii_lower(b[i]));
            assert(start[i] == a[i]);
        }
    }
    assert(same_but_for_case(other, url));
}

/// A profile is fetched just where it is at an `https://` URL, refused where it
/// is at an `http://` one, and read from a file otherwise.
pub proof fn only_https_is_fetched(profile: &str, location: Result<Location, Error>)
    requires
        call_ensures(locate, (profile,), location),
    ensures
        location matches Ok(Location::Remote(_)) <==> in_scheme(profile@, "https://"@),
        location is Err <==> in_scheme(profile@, "http://"@),
        location matches Err(error) ==> error@.kind == Kind::User && occurs_in(
            profile@,
            error@.description,
        ),
        location matches Ok(Location::Local(path)) ==> expands_to(profile@, path@),
{
    a_scheme_is_told_apart(profile@);
    a_part_occurs(
        "We only download profiles over HTTPS, but '"@,
        profile@,
        "' uses plain, unencrypted HTTP."@,
    );
}

/// What was read is handed on as it was read, with where it came from, and a
/// failure says where that was.
pub proof fn what_was_read_is_handed_on(
    source: String,
    content: String,
    downloaded: Result<LoadedProfile, Error>,
    read: Result<LoadedProfile, Error>,
)
    requires
        call_ensures(accept_body, (source, content), downloaded),
        call_ensures(accept_file, (source, Ok(content)), read),
    ensures
        read is Ok,
        read matches Ok(loaded) ==> loaded.source@ == source@ && loaded.content@ == content@,
        downloaded matches Ok(loaded) ==> loaded.source@ == source@ && loaded.content@ == content@,
        downloaded matches Err(error) ==> occurs_in(source@, error@.description) && web_page(
            content@,
        ),
{
    a_part_occurs(
        "The profile we downloaded from '"@,
        source@,
        "' looks like a web page, not a YAML profile."@,
    );
}

/// A web request which failed is told in the client's own words, as the cause,
/// and is the user's to act on where the network is at fault.
pub proof fn a_failed_request_keeps_its_own_words(failure: FetchError)
    ensures
        failure.humanized().causes.len() == 1,
        failure.humanized().causes[0].text == failure.detail@,
        (failure.humanized().kind == Kind::User) == (failure.connect || failure.timeout),
{
}

} // verus!
