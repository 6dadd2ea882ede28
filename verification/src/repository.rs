//! Repository remotes: recognising the supported GitHub and GitLab.com remote
//! forms, the pinned repository identity derived from them, and change-request
//! URLs that belong to a pinned repository.
use vstd::prelude::*;

use crate::text::{
    is_alphanumeric,    all_digits, all_digits_chars, chars_of, concat, contains_char, ends_with, eq_chars,
    eq_ignore_case, eq_ignore_case_chars, find_first, find_last, first_from, last_index,
    lemma_first_from, lemma_last_before, lemma_lower_seq_idempotent, lemma_split_without_separator, lemma_first_from_at, lemma_last_before_absent,
    lemma_trim_end_char_prefix, lemma_split_concat, lemma_split_single, lemma_split_lower,
    lemma_lower_concat, is_digit, lower_seq, lower_vec, slice, split, split_chars,
    starts_with, string_from_chars, trim_end_char, trim_end_chars, views,
};

verus! {

/// The remote forms this library accepts, quoted in every malformed-remote
/// message.
pub const SUPPORTED_REMOTE_HELP: &'static str = "supported repository remotes are git@github.com:owner/repository.git, https://github.com/owner/repository.git, ssh://git@github.com/owner/repository.git, git@gitlab.com:group/repository.git, https://gitlab.com/group/repository.git, or ssh://git@gitlab.com/group/repository.git";

/// The hosting service of a repository.
#[derive(Debug, Clone, Copy, PartialEq, Eq, Structural)]
pub enum RepositoryProvider {
    GitHub,
    GitLab,
}

impl RepositoryProvider {
    /// The configuration name of the provider.
    pub open spec fn spec_name(self) -> Seq<char> {
        match self {
            RepositoryProvider::GitHub => "github"@,
            RepositoryProvider::GitLab => "gitlab"@,
        }
    }

    /// The configuration name of the provider (`github` or `gitlab`).
    pub fn name(&self) -> (r: &'static str)
        ensures
            r@ == self.spec_name(),
    {
        match self {
            RepositoryProvider::GitHub => "github",
            RepositoryProvider::GitLab => "gitlab",
        }
    }
}

/// A parsed repository remote.
#[derive(Debug, Clone, PartialEq, Eq)]
pub struct RepositoryRef {
    pub provider: RepositoryProvider,
    pub host: String,
    pub namespace: String,
    pub name: String,
}

/// The mathematical value of a [`RepositoryRef`].
pub struct RepositoryRefView {
    pub provider: RepositoryProvider,
    pub host: Seq<char>,
    pub namespace: Seq<char>,
    pub name: Seq<char>,
}

impl View for RepositoryRef {
    type V = RepositoryRefView;

    open spec fn view(&self) -> RepositoryRefView {
        RepositoryRefView {
            provider: self.provider,
            host: self.host@,
            namespace: self.namespace@,
            name: self.name@,
        }
    }
}

/// Why a remote was refused.
#[derive(Debug, Clone, PartialEq, Eq)]
pub enum RemoteError {
    /// The remote is not one of the supported forms.
    Malformed,
    /// The remote names a host other than github.com or gitlab.com; the host
    /// is kept without any user information.
    UnsupportedHost { host: String },
}

/// The mathematical value of a [`RemoteError`].
pub enum RemoteErrorView {
    Malformed,
    UnsupportedHost(Seq<char>),
}

impl View for RemoteError {
    type V = RemoteErrorView;

    open spec fn view(&self) -> RemoteErrorView {
        match self {
            RemoteError::Malformed => RemoteErrorView::Malformed,
            RemoteError::UnsupportedHost { host } => RemoteErrorView::UnsupportedHost(host@),
        }
    }
}

/// The text of `s` as `{:?}` writes it: quoted, with special characters
/// escaped.
pub uninterp spec fn debug_quoted(s: Seq<char>) -> Seq<char>;

/// A character that `{:?}` writes unchanged: an ASCII letter or digit, `.`,
/// `-`, `_` or `@`.
pub open spec fn is_plain_debug_char(c: char) -> bool {
    is_alphanumeric(c) || c == '.' || c == '-' || c == '_' || c == '@'
}

/// Quotes `s` as `{:?}` does.
///
/// Calls std's `Debug` for `str` through `format!`, which writes `s` between
/// double quotes, each character either as itself or as a backslash escape
/// (such as `\n`, `\"` or `\u{..}`) made of `\`, letters, digits, quotes and
/// braces. ASCII letters, digits, `.`, `-`, `_` and `@` need no escape. The
/// contract names the result as a function of the characters of `s` and
/// states two consequences: an `@` in the result comes from `s`, and a string
/// made only of characters that need no escape is written unchanged between
/// quotes. The full escaping rules are not stated.
#[verifier::external_body]
pub(crate) fn quote_debug(s: &str) -> (r: String)
    ensures
        r@ == debug_quoted(s@),
        r@.contains('@') ==> s@.contains('@'),
        (forall|i: int| 0 <= i < s@.len() ==> is_plain_debug_char(#[trigger] s@[i])) ==> r@
            == seq!['"'] + s@ + seq!['"'],
{
    format!("{s:?}")
}

/// The message of a refused remote.
pub open spec fn remote_error_message(e: RemoteErrorView) -> Seq<char> {
    match e {
        RemoteErrorView::Malformed => "invalid repository remote; "@ + SUPPORTED_REMOTE_HELP@,
        RemoteErrorView::UnsupportedHost(host) => "unsupported repository host "@ + debug_quoted(
            host,
        ) + "; supported hosts are github.com and gitlab.com; "@ + SUPPORTED_REMOTE_HELP@,
    }
}

impl RemoteError {
    /// A message for the operator, naming the supported remote forms.
    pub fn message(&self) -> (r: String)
        ensures
            r@ == remote_error_message(self@),
            self@ matches RemoteErrorView::UnsupportedHost(host) ==> (debug_quoted(host).contains(
                '@',
            ) ==> host.contains('@')),
            self@ matches RemoteErrorView::UnsupportedHost(host) ==> ((forall|i: int|
                0 <= i < host.len() ==> is_plain_debug_char(#[trigger] host[i])) ==> debug_quoted(
                host,
            ) == seq!['"'] + host + seq!['"']),
    {
        match self {
            RemoteError::Malformed => {
                let mut m = "invalid repository remote; ".to_owned();
                m.append(SUPPORTED_REMOTE_HELP);
                m
            },
            RemoteError::UnsupportedHost { host } => {
                let mut m = "unsupported repository host ".to_owned();
                let quoted = quote_debug(host.as_str());
                m.append(quoted.as_str());
                m.append("; supported hosts are github.com and gitlab.com; ");
                m.append(SUPPORTED_REMOTE_HELP);
                m
            },
        }
    }
}

// ---------------------------------------------------------------------------
// The remote grammar
// ---------------------------------------------------------------------------

/// `host` without any user information before its last `@`.
pub open spec fn sanitize_host(host: Seq<char>) -> Seq<char> {
    let at = last_index(host, '@');
    if at < 0 {
        host
    } else {
        host.subrange(at + 1, host.len() as int)
    }
}

/// Whether `host` is, up to ASCII case, GitHub's SSH-over-HTTPS host.
pub open spec fn is_ssh_github(host: Seq<char>) -> bool {
    eq_ignore_case(host, "ssh.github.com"@)
}

/// The authority and path of an `https://` or `ssh://` remote, after its
/// scheme; `ssh` demands the user `git`.
pub open spec fn url_remote_spec(remote: Seq<char>, ssh: bool) -> Result<
    (Seq<char>, Seq<char>),
    RemoteErrorView,
> {
    let slash = first_from(remote, '/', 0);
    if slash >= remote.len() {
        Err(RemoteErrorView::Malformed)
    } else {
        let authority = remote.subrange(0, slash);
        let path = remote.subrange(slash + 1, remote.len() as int);
        let at = last_index(authority, '@');
        let host_and_port = if at < 0 {
            authority
        } else {
            authority.subrange(at + 1, authority.len() as int)
        };
        let user_is_git = at >= 0 && authority.subrange(0, at) == "git"@;
        let colon = last_index(host_and_port, ':');
        let host = if colon < 0 {
            host_and_port
        } else {
            host_and_port.subrange(0, colon)
        };
        let port = host_and_port.subrange(colon + 1, host_and_port.len() as int);
        if authority.len() == 0 || path.len() == 0 {
            Err(RemoteErrorView::Malformed)
        } else if ssh && !user_is_git {
            Err(RemoteErrorView::Malformed)
        } else if host.len() == 0 || (colon >= 0 && (port.len() == 0 || !all_digits(port))) {
            Err(RemoteErrorView::Malformed)
        } else if is_ssh_github(host) && colon >= 0 && port != "443"@ {
            Err(RemoteErrorView::UnsupportedHost(sanitize_host(host)))
        } else if !ssh && is_ssh_github(host) {
            Err(RemoteErrorView::UnsupportedHost(sanitize_host(host)))
        } else {
            Ok((host, path))
        }
    }
}

/// The host and path of an scp-like remote `git@host:path`.
pub open spec fn scp_remote_spec(remote: Seq<char>) -> Result<
    (Seq<char>, Seq<char>),
    RemoteErrorView,
> {
    let colon = first_from(remote, ':', 0);
    if colon >= remote.len() {
        Err(RemoteErrorView::Malformed)
    } else {
        let authority = remote.subrange(0, colon);
        let path = remote.subrange(colon + 1, remote.len() as int);
        let at = first_from(authority, '@', 0);
        if at >= authority.len() {
            Err(RemoteErrorView::Malformed)
        } else {
            let user = authority.subrange(0, at);
            let host = authority.subrange(at + 1, authority.len() as int);
            if user != "git"@ || host.len() == 0 || path.len() == 0 {
                Err(RemoteErrorView::Malformed)
            } else if is_ssh_github(host) {
                Err(RemoteErrorView::UnsupportedHost(sanitize_host(host)))
            } else {
                Ok((host, path))
            }
        }
    }
}

/// The transport host and repository path of any supported remote form.
pub open spec fn transport_spec(remote: Seq<char>) -> Result<
    (Seq<char>, Seq<char>),
    RemoteErrorView,
> {
    if "https://"@.is_prefix_of(remote) {
        url_remote_spec(remote.subrange("https://"@.len() as int, remote.len() as int), false)
    } else if "ssh://"@.is_prefix_of(remote) {
        url_remote_spec(remote.subrange("ssh://"@.len() as int, remote.len() as int), true)
    } else {
        scp_remote_spec(remote)
    }
}

/// A path segment that cannot name a namespace or repository.
pub open spec fn bad_segment(s: Seq<char>) -> bool {
    s.len() == 0 || s == "."@ || s == ".."@ || ".git"@.is_suffix_of(s)
}

/// The repository path with trailing slashes and one `.git` suffix removed.
pub open spec fn repository_path(path: Seq<char>) -> Seq<char> {
    let trimmed = trim_end_char(path, '/');
    if ".git"@.is_suffix_of(trimmed) {
        trimmed.subrange(0, trimmed.len() - ".git"@.len())
    } else {
        trimmed
    }
}

/// The provider that serves a transport host, compared without ASCII case.
pub open spec fn provider_of_host(host: Seq<char>) -> Option<RepositoryProvider> {
    let lowered = lower_seq(host);
    if lowered == "github.com"@ || lowered == "ssh.github.com"@ {
        Some(RepositoryProvider::GitHub)
    } else if lowered == "gitlab.com"@ {
        Some(RepositoryProvider::GitLab)
    } else {
        None
    }
}

/// The canonical host of a provider.
pub open spec fn provider_host(provider: RepositoryProvider) -> Seq<char> {
    match provider {
        RepositoryProvider::GitHub => "github.com"@,
        RepositoryProvider::GitLab => "gitlab.com"@,
    }
}

/// Whether the segments of a repository path are acceptable for `provider`:
/// no empty, `.` or `..` segment, none ending in `.git`, no GitLab `-`
/// segment, exactly two segments on GitHub and at least two on GitLab.
pub open spec fn segments_ok(provider: RepositoryProvider, segments: Seq<Seq<char>>) -> bool {
    &&& forall|k: int| 0 <= k < segments.len() ==> !bad_segment(#[trigger] segments[k])
    &&& provider == RepositoryProvider::GitLab ==> !segments.contains("-"@)
    &&& segments.len() >= 2
    &&& provider == RepositoryProvider::GitHub ==> segments.len() == 2
}

/// What `parse_repository_ref` makes of a remote.
pub open spec fn parse_spec(remote: Seq<char>) -> Result<RepositoryRefView, RemoteErrorView> {
    if remote.len() == 0 || remote.contains('?') || remote.contains('#') {
        Err(RemoteErrorView::Malformed)
    } else {
        match transport_spec(remote) {
            Err(e) => Err(e),
            Ok((transport_host, path)) => match provider_of_host(transport_host) {
                None => Err(RemoteErrorView::UnsupportedHost(sanitize_host(transport_host))),
                Some(provider) => {
                    let p = repository_path(path);
                    if !segments_ok(provider, split(p, '/')) {
                        Err(RemoteErrorView::Malformed)
                    } else {
                        let last = last_index(p, '/');
                        Ok(
                            RepositoryRefView {
                                provider,
                                host: provider_host(provider),
                                namespace: p.subrange(0, last),
                                name: p.subrange(last + 1, p.len() as int),
                            },
                        )
                    }
                },
            },
        }
    }
}

/// The pinned identity of a repository: `owner/name` on GitHub and
/// `gitlab.com/namespace/name` on GitLab.com, ASCII lower-cased.
pub open spec fn identity_spec(r: RepositoryRefView) -> Seq<char> {
    match r.provider {
        RepositoryProvider::GitHub => lower_seq(r.namespace + seq!['/'] + r.name),
        RepositoryProvider::GitLab => lower_seq(
            r.host + seq!['/'] + r.namespace + seq!['/'] + r.name,
        ),
    }
}

/// The views of a pair of character vectors in a result.
pub open spec fn pair_view(r: Result<(Vec<char>, Vec<char>), RemoteError>) -> Result<
    (Seq<char>, Seq<char>),
    RemoteErrorView,
> {
    match r {
        Ok((a, b)) => Ok((a@, b@)),
        Err(e) => Err(e@),
    }
}

/// A one-character vector.
pub fn single(c: char) -> (r: Vec<char>)
    ensures
        r@ == seq![c],
{
    let mut r: Vec<char> = Vec::new();
    r.push(c);
    assert(r@ =~= seq![c]);
    r
}

fn unsupported_host(host: &Vec<char>) -> (e: RemoteError)
    ensures
        e@ == RemoteErrorView::UnsupportedHost(sanitize_host(host@)),
{
    let sanitized = match find_last(host, '@') {
        None => slice(host, 0, host.len()),
        Some(at) => {
            proof {
                lemma_last_before(host@, '@', host@.len() as int);
                assert(at < host@.len());
                assert(host@.len() == host.len());
            }
            assert(at + 1 <= host.len());
            slice(host, at + 1, host.len())
        },
    };
    proof {
        assert(host@.subrange(0, host@.len() as int) == host@);
    }
    RemoteError::UnsupportedHost { host: string_from_chars(&sanitized) }
}

fn parse_url_remote(remote: &Vec<char>, ssh: bool) -> (r: Result<
    (Vec<char>, Vec<char>),
    RemoteError,
>)
    ensures
        pair_view(r) == url_remote_spec(remote@, ssh),
{
    let slash = find_first(remote, '/', 0);
    proof {
        lemma_first_from(remote@, '/', 0);
    }
    if slash >= remote.len() {
        return Err(RemoteError::Malformed);
    }
    let authority = slice(remote, 0, slash);
    let path = slice(remote, slash + 1, remote.len());
    let at = find_last(&authority, '@');
    proof {
        lemma_last_before(authority@, '@', authority@.len() as int);
    }
    let host_and_port = match at {
        None => slice(&authority, 0, authority.len()),
        Some(a) => slice(&authority, a + 1, authority.len()),
    };
    proof {
        assert(authority@.subrange(0, authority@.len() as int) == authority@);
    }
    let user_is_git = match at {
        None => false,
        Some(a) => {
            let user = slice(&authority, 0, a);
            let git = chars_of("git");
            eq_chars(&user, &git)
        },
    };
    let colon = find_last(&host_and_port, ':');
    proof {
        lemma_last_before(host_and_port@, ':', host_and_port@.len() as int);
        assert(host_and_port@.subrange(0, host_and_port@.len() as int) == host_and_port@);
    }
    let host = match colon {
        None => slice(&host_and_port, 0, host_and_port.len()),
        Some(c) => slice(&host_and_port, 0, c),
    };
    let port_start: usize = match colon {
        None => 0,
        Some(c) => c + 1,
    };
    let port = slice(&host_and_port, port_start, host_and_port.len());
    if authority.len() == 0 || path.len() == 0 {
        return Err(RemoteError::Malformed);
    }
    if ssh && !user_is_git {
        return Err(RemoteError::Malformed);
    }
    let has_port = colon.is_some();
    if host.len() == 0 || (has_port && (port.len() == 0 || !all_digits_chars(&port))) {
        return Err(RemoteError::Malformed);
    }
    let ssh_github = chars_of("ssh.github.com");
    let is_ssh_github = eq_ignore_case_chars(&host, &ssh_github);
    let https_port = chars_of("443");
    if is_ssh_github && has_port && !eq_chars(&port, &https_port) {
        return Err(unsupported_host(&host));
    }
    if !ssh && is_ssh_github {
        return Err(unsupported_host(&host));
    }
    Ok((host, path))
}

fn parse_scp_remote(remote: &Vec<char>) -> (r: Result<(Vec<char>, Vec<char>), RemoteError>)
    ensures
        pair_view(r) == scp_remote_spec(remote@),
{
    let colon = find_first(remote, ':', 0);
    proof {
        lemma_first_from(remote@, ':', 0);
    }
    if colon >= remote.len() {
        return Err(RemoteError::Malformed);
    }
    let authority = slice(remote, 0, colon);
    let path = slice(remote, colon + 1, remote.len());
    let at = find_first(&authority, '@', 0);
    proof {
        lemma_first_from(authority@, '@', 0);
    }
    if at >= authority.len() {
        return Err(RemoteError::Malformed);
    }
    let user = slice(&authority, 0, at);
    let host = slice(&authority, at + 1, authority.len());
    let git = chars_of("git");
    if !eq_chars(&user, &git) || host.len() == 0 || path.len() == 0 {
        return Err(RemoteError::Malformed);
    }
    let ssh_github = chars_of("ssh.github.com");
    if eq_ignore_case_chars(&host, &ssh_github) {
        return Err(unsupported_host(&host));
    }
    Ok((host, path))
}

/// Whether any of `segments` is unusable as a path segment.
fn any_bad_segment(segments: &Vec<Vec<char>>) -> (r: bool)
    ensures
        r == exists|k: int| 0 <= k < segments@.len() && bad_segment(#[trigger] views(segments@)[k]),
{
    let dot = chars_of(".");
    let dot_dot = chars_of("..");
    let git = chars_of(".git");
    let mut k: usize = 0;
    while k < segments.len()
        invariant
            k <= segments@.len(),
            dot@ == "."@,
            dot_dot@ == ".."@,
            git@ == ".git"@,
            forall|j: int| 0 <= j < k ==> !bad_segment(#[trigger] views(segments@)[j]),
        decreases segments@.len() - k,
    {
        let s = &segments[k];
        if s.len() == 0 || eq_chars(s, &dot) || eq_chars(s, &dot_dot) || ends_with(s, &git) {
            assert(bad_segment(views(segments@)[k as int]));
            return true;
        }
        k = k + 1;
    }
    false
}

/// Whether any of `segments` is exactly `-`.
fn any_dash_segment(segments: &Vec<Vec<char>>) -> (r: bool)
    ensures
        r == views(segments@).contains("-"@),
{
    let dash = chars_of("-");
    let mut k: usize = 0;
    while k < segments.len()
        invariant
            k <= segments@.len(),
            dash@ == "-"@,
            forall|j: int| 0 <= j < k ==> views(segments@)[j] != "-"@,
        decreases segments@.len() - k,
    {
        if eq_chars(&segments[k], &dash) {
            assert(views(segments@)[k as int] == "-"@);
            return true;
        }
        k = k + 1;
    }
    false
}

/// Parses a repository remote in one of the supported forms:
/// `git@host:path`, `https://[user@]host[:port]/path` and
/// `ssh://git@host[:port]/path`, for github.com (also GitHub's
/// `ssh.github.com` on port 443 over SSH) and gitlab.com.
#[verifier::spinoff_prover]
pub fn parse_repository_ref(remote: &str) -> (r: Result<RepositoryRef, RemoteError>)
    ensures
        match r {
            Ok(v) => parse_spec(remote@) == Ok::<RepositoryRefView, RemoteErrorView>(v@),
            Err(e) => parse_spec(remote@) == Err::<RepositoryRefView, RemoteErrorView>(e@),
        },
        r matches Err(RemoteError::UnsupportedHost { host }) ==> !host@.contains('@'),
{
    proof {
        law_unsupported_host_is_sanitized(remote@);
    }
    let r = chars_of(remote);
    if r.len() == 0 || contains_char(&r, '?') || contains_char(&r, '#') {
        return Err(RemoteError::Malformed);
    }
    let https = chars_of("https://");
    let ssh = chars_of("ssh://");
    let transport = if starts_with(&r, &https) {
        let rest = slice(&r, https.len(), r.len());
        parse_url_remote(&rest, false)
    } else if starts_with(&r, &ssh) {
        let rest = slice(&r, ssh.len(), r.len());
        parse_url_remote(&rest, true)
    } else {
        parse_scp_remote(&r)
    };
    assert(pair_view(transport) == transport_spec(r@));
    let (transport_host, path) = match transport {
        Ok(pair) => pair,
        Err(e) => {
            return Err(e);
        },
    };
    let lowered = lower_vec(&transport_host);
    let github = chars_of("github.com");
    let ssh_github = chars_of("ssh.github.com");
    let gitlab = chars_of("gitlab.com");
    let provider = if eq_chars(&lowered, &github) || eq_chars(&lowered, &ssh_github) {
        RepositoryProvider::GitHub
    } else if eq_chars(&lowered, &gitlab) {
        RepositoryProvider::GitLab
    } else {
        return Err(unsupported_host(&transport_host));
    };
    assert(provider_of_host(transport_host@) == Some(provider));
    let trimmed = trim_end_chars(&path, '/');
    let git = chars_of(".git");
    let p = if ends_with(&trimmed, &git) {
        slice(&trimmed, 0, trimmed.len() - git.len())
    } else {
        trimmed
    };
    assert(p@ == repository_path(path@));
    let segments = split_chars(&p, '/');
    if any_bad_segment(&segments) {
        return Err(RemoteError::Malformed);
    }
    if provider == RepositoryProvider::GitLab && any_dash_segment(&segments) {
        return Err(RemoteError::Malformed);
    }
    if segments.len() < 2 || (provider == RepositoryProvider::GitHub && segments.len() != 2) {
        return Err(RemoteError::Malformed);
    }
    assert(segments_ok(provider, split(p@, '/')));
    let last = match find_last(&p, '/') {
        Some(i) => i,
        None => {
            proof {
                lemma_split_without_separator(p@, '/');
            }
            return Err(RemoteError::Malformed);
        },
    };
    proof {
        lemma_last_before(p@, '/', p@.len() as int);
        assert(last < p@.len());
    }
    assert(last + 1 <= p.len());
    let host = match provider {
        RepositoryProvider::GitHub => "github.com".to_owned(),
        RepositoryProvider::GitLab => "gitlab.com".to_owned(),
    };
    let namespace = string_from_chars(&slice(&p, 0, last));
    let name = string_from_chars(&slice(&p, last + 1, p.len()));
    Ok(RepositoryRef { provider, host, namespace, name })
}

impl RepositoryRef {
    /// Parses a repository remote; see [`parse_repository_ref`].
    pub fn parse(remote: &str) -> (r: Result<RepositoryRef, RemoteError>)
        ensures
            match r {
                Ok(v) => parse_spec(remote@) == Ok::<RepositoryRefView, RemoteErrorView>(v@),
                Err(e) => parse_spec(remote@) == Err::<RepositoryRefView, RemoteErrorView>(e@),
            },
            r matches Err(RemoteError::UnsupportedHost { host }) ==> !host@.contains('@'),
    {
        parse_repository_ref(remote)
    }

    /// The pinned identity of the repository: `owner/name` on GitHub and
    /// `gitlab.com/namespace/name` on GitLab.com, ASCII lower-cased.
    pub fn identity(&self) -> (r: String)
        ensures
            r@ == identity_spec(self@),
            lower_seq(r@) == r@,
    {
        let slash = single('/');
        let namespace = chars_of(self.namespace.as_str());
        let name = chars_of(self.name.as_str());
        let tail = concat(&concat(&namespace, &slash), &name);
        let full = match self.provider {
            RepositoryProvider::GitHub => tail,
            RepositoryProvider::GitLab => {
                let host = chars_of(self.host.as_str());
                let full = concat(&concat(&host, &slash), &tail);
                assert(full@ =~= self.host@ + seq!['/'] + self.namespace@ + seq!['/']
                    + self.name@);
                full
            },
        };
        proof {
            lemma_lower_seq_idempotent(full@);
        }
        string_from_chars(&lower_vec(&full))
    }
}

// ---------------------------------------------------------------------------
// Change requests
// ---------------------------------------------------------------------------

/// The project path that change-request URLs of `identity` carry: the whole
/// identity on GitHub, and the identity after `gitlab.com/` on GitLab.com.
pub open spec fn expected_project(provider: RepositoryProvider, identity: Seq<char>) -> Option<
    Seq<char>,
> {
    match provider {
        RepositoryProvider::GitHub => Some(identity),
        RepositoryProvider::GitLab => if "gitlab.com/"@.is_prefix_of(identity) {
            Some(identity.subrange("gitlab.com/"@.len() as int, identity.len() as int))
        } else {
            None
        },
    }
}

/// The path segment that introduces a change-request number.
pub open spec fn change_request_marker(provider: RepositoryProvider) -> Seq<char> {
    match provider {
        RepositoryProvider::GitHub => "pull"@,
        RepositoryProvider::GitLab => "merge_requests"@,
    }
}

/// How many path segments follow the project path in a change-request URL
/// (`pull/N`, or `-/merge_requests/N`).
pub open spec fn change_request_suffix(provider: RepositoryProvider) -> int {
    match provider {
        RepositoryProvider::GitHub => 2,
        RepositoryProvider::GitLab => 3,
    }
}

/// Whether `candidate` is the https URL of a change request (pull request or
/// merge request) of the repository pinned as `identity`: the host matches
/// the provider's host and the project path matches the identity, both
/// without ASCII case, followed by `pull/N` on GitHub or `-/merge_requests/N`
/// on GitLab.com, where `N` is a non-empty decimal number and nothing else
/// follows.
pub open spec fn is_change_request_url(
    provider: RepositoryProvider,
    identity: Seq<char>,
    candidate: Seq<char>,
) -> bool {
    let rest = candidate.subrange("https://"@.len() as int, candidate.len() as int);
    let slash = first_from(rest, '/', 0);
    let host = rest.subrange(0, slash);
    let segments = split(rest.subrange(slash + 1, rest.len() as int), '/');
    &&& "https://"@.is_prefix_of(candidate)
    &&& slash < rest.len()
    &&& expected_project(provider, identity) is Some
    &&& eq_ignore_case(host, provider_host(provider))
    &&& {
        let project = split(expected_project(provider, identity)->0, '/');
        &&& segments.len() == project.len() + change_request_suffix(provider)
        &&& forall|k: int| 0 <= k < project.len() ==> eq_ignore_case(#[trigger] segments[k], project[k])
        &&& provider == RepositoryProvider::GitLab ==> segments[project.len() as int] == "-"@
        &&& segments[segments.len() - 2] == change_request_marker(provider)
        &&& segments.last().len() > 0
        &&& all_digits(segments.last())
    }
}

/// Whether the first `n` of `a` equal those of `b` up to ASCII case.
fn segments_match(a: &Vec<Vec<char>>, b: &Vec<Vec<char>>, n: usize) -> (r: bool)
    requires
        n <= a@.len(),
        n <= b@.len(),
    ensures
        r == forall|k: int| 0 <= k < n ==> eq_ignore_case(#[trigger] views(a@)[k], views(b@)[k]),
{
    let mut k: usize = 0;
    while k < n
        invariant
            k <= n <= a@.len(),
            n <= b@.len(),
            forall|j: int| 0 <= j < k ==> eq_ignore_case(#[trigger] views(a@)[j], views(b@)[j]),
        decreases n - k,
    {
        if !eq_ignore_case_chars(&a[k], &b[k]) {
            assert(!eq_ignore_case(views(a@)[k as int], views(b@)[k as int]));
            return false;
        }
        k = k + 1;
    }
    true
}

/// Returns `candidate` when it is the URL of a change request of the
/// repository pinned as `identity`, and nothing otherwise.
#[verifier::spinoff_prover]
pub fn recognize_change_request_url(
    provider: RepositoryProvider,
    identity: &str,
    candidate: &str,
) -> (r: Option<String>)
    ensures
        match r {
            Some(url) => is_change_request_url(provider, identity@, candidate@) && url@
                == candidate@,
            None => !is_change_request_url(provider, identity@, candidate@),
        },
{
    let c = chars_of(candidate);
    let https = chars_of("https://");
    if !starts_with(&c, &https) {
        return None;
    }
    let rest = slice(&c, https.len(), c.len());
    let slash = find_first(&rest, '/', 0);
    proof {
        lemma_first_from(rest@, '/', 0);
    }
    if slash >= rest.len() {
        return None;
    }
    let host = slice(&rest, 0, slash);
    let path = slice(&rest, slash + 1, rest.len());
    let id = chars_of(identity);
    let project = match provider {
        RepositoryProvider::GitHub => id,
        RepositoryProvider::GitLab => {
            let prefix = chars_of("gitlab.com/");
            if !starts_with(&id, &prefix) {
                return None;
            }
            slice(&id, prefix.len(), id.len())
        },
    };
    assert(expected_project(provider, identity@) == Some(project@));
    let expected_host = match provider {
        RepositoryProvider::GitHub => chars_of("github.com"),
        RepositoryProvider::GitLab => chars_of("gitlab.com"),
    };
    if !eq_ignore_case_chars(&host, &expected_host) {
        return None;
    }
    let segments = split_chars(&path, '/');
    let project_segments = split_chars(&project, '/');
    let suffix: usize = match provider {
        RepositoryProvider::GitHub => 2,
        RepositoryProvider::GitLab => 3,
    };
    if segments.len() < suffix || segments.len() - suffix != project_segments.len() {
        return None;
    }
    if !segments_match(&segments, &project_segments, project_segments.len()) {
        return None;
    }
    let marker_at = project_segments.len();
    if provider == RepositoryProvider::GitLab {
        let dash = chars_of("-");
        if !eq_chars(&segments[marker_at], &dash) {
            return None;
        }
    }
    let marker = match provider {
        RepositoryProvider::GitHub => chars_of("pull"),
        RepositoryProvider::GitLab => chars_of("merge_requests"),
    };
    let number_at = segments.len() - 1;
    if !eq_chars(&segments[number_at - 1], &marker) || segments[number_at].len() == 0
        || !all_digits_chars(&segments[number_at]) {
        return None;
    }
    Some(candidate.to_owned())
}

// ---------------------------------------------------------------------------
// Laws
// ---------------------------------------------------------------------------

/// A sanitized host holds no `@`.
pub broadcast proof fn lemma_sanitized_host_has_no_user(host: Seq<char>)
    ensures
        !(#[trigger] sanitize_host(host)).contains('@'),
{
    lemma_last_before(host, '@', host.len() as int);
    let at = last_index(host, '@');
    let h = sanitize_host(host);
    assert forall|j: int| 0 <= j < h.len() implies h[j] != '@' by {
        if at >= 0 {
            assert(h[j] == host[at + 1 + j]);
        }
    }
}

/// An unsupported-host refusal never carries user information: the host it
/// reports holds no `@`, whatever credentials the remote carried.
pub proof fn law_unsupported_host_is_sanitized(remote: Seq<char>)
    ensures
        parse_spec(remote) matches Err(RemoteErrorView::UnsupportedHost(host)) ==> !host.contains(
            '@',
        ),
{
    broadcast use lemma_sanitized_host_has_no_user;

}

/// The canonical https remote of a project path on a provider:
/// `https://github.com/<project>.git` or `https://gitlab.com/<project>.git`.
pub open spec fn canonical_remote(provider: RepositoryProvider, project: Seq<char>) -> Seq<char> {
    match provider {
        RepositoryProvider::GitHub => "https://github.com/"@ + project + ".git"@,
        RepositoryProvider::GitLab => "https://gitlab.com/"@ + project + ".git"@,
    }
}

/// A subrange holds only characters of the whole.
pub proof fn lemma_subrange_contains(s: Seq<char>, a: int, b: int, x: char)
    requires
        0 <= a <= b <= s.len(),
        s.subrange(a, b).contains(x),
    ensures
        s.contains(x),
{
    let i = choose|i: int| 0 <= i < b - a && s.subrange(a, b)[i] == x;
    assert(s[a + i] == x);
}

/// The repository path of a transport path is a prefix of it.
pub proof fn lemma_repository_path_prefix(path: Seq<char>)
    ensures
        repository_path(path).len() <= path.len(),
        repository_path(path) == path.subrange(0, repository_path(path).len() as int),
{
    lemma_trim_end_char_prefix(path, '/');
    let t = trim_end_char(path, '/');
    if ".git"@.is_suffix_of(t) {
        assert(t.subrange(0, t.len() - ".git"@.len()) =~= path.subrange(
            0,
            t.len() - ".git"@.len(),
        ));
    }
}

/// Every character of the repository path of an accepted remote occurs in
/// the remote.
pub proof fn lemma_transport_path_within(remote: Seq<char>, x: char)
    requires
        transport_spec(remote) is Ok,
        repository_path(transport_spec(remote)->Ok_0.1).contains(x),
    ensures
        remote.contains(x),
{
    let path = transport_spec(remote)->Ok_0.1;
    lemma_repository_path_prefix(path);
    let p = repository_path(path);
    lemma_subrange_contains(path, 0, p.len() as int, x);
    if "https://"@.is_prefix_of(remote) {
        let rest = remote.subrange("https://"@.len() as int, remote.len() as int);
        let slash = first_from(rest, '/', 0);
        lemma_first_from(rest, '/', 0);
        lemma_subrange_contains(rest, slash + 1, rest.len() as int, x);
        lemma_subrange_contains(remote, "https://"@.len() as int, remote.len() as int, x);
    } else if "ssh://"@.is_prefix_of(remote) {
        let rest = remote.subrange("ssh://"@.len() as int, remote.len() as int);
        let slash = first_from(rest, '/', 0);
        lemma_first_from(rest, '/', 0);
        lemma_subrange_contains(rest, slash + 1, rest.len() as int, x);
        lemma_subrange_contains(remote, "ssh://"@.len() as int, remote.len() as int, x);
    } else {
        let colon = first_from(remote, ':', 0);
        lemma_first_from(remote, ':', 0);
        lemma_subrange_contains(remote, colon + 1, remote.len() as int, x);
    }
}

/// What the canonical remote of an acceptable project path parses to.
#[verifier::spinoff_prover]
pub proof fn lemma_parse_canonical_remote(provider: RepositoryProvider, project: Seq<char>)
    requires
        !project.contains('?'),
        !project.contains('#'),
        segments_ok(provider, split(project, '/')),
    ensures
        parse_spec(canonical_remote(provider, project)) == Ok::<RepositoryRefView, RemoteErrorView>(
            RepositoryRefView {
                provider,
                host: provider_host(provider),
                namespace: project.subrange(0, last_index(project, '/')),
                name: project.subrange(last_index(project, '/') + 1, project.len() as int),
            },
        ),
{
    reveal_strlit("https://github.com/");
    reveal_strlit("https://gitlab.com/");
    reveal_strlit("https://");
    reveal_strlit("ssh://");
    reveal_strlit(".git");
    reveal_strlit("github.com");
    reveal_strlit("gitlab.com");
    reveal_strlit("ssh.github.com");
    let lead = match provider {
        RepositoryProvider::GitHub => "https://github.com/"@,
        RepositoryProvider::GitLab => "https://gitlab.com/"@,
    };
    let host = provider_host(provider);
    let remote = canonical_remote(provider, project);
    assert(remote == lead + project + ".git"@);
    assert(lead.len() == 19);
    assert(host.len() == 10);
    assert forall|i: int| 0 <= i < 10 implies lead[8 + i] == #[trigger] host[i] by {}
    assert(lead[18] == '/');
    // No query or fragment.
    assert(!remote.contains('?')) by {
        if remote.contains('?') {
            let i = choose|i: int| 0 <= i < remote.len() && remote[i] == '?';
            if 19 <= i < 19 + project.len() {
                assert(project[i - 19] == '?');
            }
        }
    }
    assert(!remote.contains('#')) by {
        if remote.contains('#') {
            let i = choose|i: int| 0 <= i < remote.len() && remote[i] == '#';
            if 19 <= i < 19 + project.len() {
                assert(project[i - 19] == '#');
            }
        }
    }
    assert("https://"@.is_prefix_of(remote));
    let rest = remote.subrange(8, remote.len() as int);
    assert forall|j: int| 0 <= j < 10 implies rest[j] != '/' by {
        assert(rest[j] == host[j]);
    }
    lemma_first_from_at(rest, '/', 0, 10);
    let authority = rest.subrange(0, 10);
    let path = rest.subrange(11, rest.len() as int);
    assert(authority =~= host);
    assert(path =~= project + ".git"@);
    lemma_last_before_absent(authority, '@', 10);
    lemma_last_before_absent(authority, ':', 10);
    assert(lower_seq(host).len() != lower_seq("ssh.github.com"@).len());
    assert(url_remote_spec(rest, false) == Ok::<(Seq<char>, Seq<char>), RemoteErrorView>(
        (host, path),
    ));
    assert(transport_spec(remote) == Ok::<(Seq<char>, Seq<char>), RemoteErrorView>(
        (host, path),
    ));
    assert(lower_seq(host) =~= host);
    if provider == RepositoryProvider::GitLab {
        assert(host[3] != "github.com"@[3]);
        assert(host.len() != "ssh.github.com"@.len());
    }
    assert(provider_of_host(host) == Some(provider));
    assert(path.last() == 't');
    assert(trim_end_char(path, '/') == path);
    assert(".git"@.is_suffix_of(path));
    assert(repository_path(path) =~= project);
}

/// The web URL of change request `number` of a parsed repository:
/// `https://github.com/<namespace>/<name>/pull/<number>` or
/// `https://gitlab.com/<namespace>/<name>/-/merge_requests/<number>`.
pub open spec fn change_request_url(v: RepositoryRefView, number: Seq<char>) -> Seq<char> {
    let slash = seq!['/'];
    match v.provider {
        RepositoryProvider::GitHub => "https://github.com/"@ + v.namespace + slash + v.name + slash
            + "pull"@ + slash + number,
        RepositoryProvider::GitLab => "https://gitlab.com/"@ + v.namespace + slash + v.name + slash
            + "-"@ + slash + "merge_requests"@ + slash + number,
    }
}

/// A change request of a repository parsed from its remote is recognized as
/// belonging to that repository's pinned identity, whatever the case of the
/// namespace and name in its URL.
#[verifier::spinoff_prover]
pub proof fn law_change_requests_of_the_pinned_repository_are_recognized(
    remote: Seq<char>,
    v: RepositoryRefView,
    number: Seq<char>,
)
    requires
        parse_spec(remote) == Ok::<RepositoryRefView, RemoteErrorView>(v),
        number.len() > 0,
        all_digits(number),
    ensures
        is_change_request_url(v.provider, identity_spec(v), change_request_url(v, number)),
{
    reveal_strlit("https://github.com/");
    reveal_strlit("https://gitlab.com/");
    reveal_strlit("https://");
    reveal_strlit("github.com");
    reveal_strlit("gitlab.com");
    reveal_strlit("gitlab.com/");
    reveal_strlit("pull");
    reveal_strlit("merge_requests");
    reveal_strlit("-");
    let provider = v.provider;
    let slash = seq!['/'];
    let p = v.namespace + slash + v.name;
    let host = provider_host(provider);
    let lead = match provider {
        RepositoryProvider::GitHub => "https://github.com/"@,
        RepositoryProvider::GitLab => "https://gitlab.com/"@,
    };
    let tail = match provider {
        RepositoryProvider::GitHub => "pull"@ + slash + number,
        RepositoryProvider::GitLab => "-"@ + slash + "merge_requests"@ + slash + number,
    };
    let path = p + slash + tail;
    let candidate = change_request_url(v, number);
    assert(candidate =~= lead + path);
    assert(v.host == host);
    // The host comes first, up to the first `/`.
    let rest = candidate.subrange(8, candidate.len() as int);
    assert("https://"@.is_prefix_of(candidate));
    assert forall|j: int| 0 <= j < 10 implies rest[j] != '/' by {
        assert(rest[j] == host[j]);
    }
    lemma_first_from_at(rest, '/', 0, 10);
    assert(rest.subrange(0, 10) =~= host);
    assert(rest.subrange(11, rest.len() as int) =~= path);
    // The path splits into the repository path and the change-request tail.
    if number.contains('/') {
        let i = choose|i: int| 0 <= i < number.len() && number[i] == '/';
        assert(is_digit(number[i]));
    }
    lemma_split_single(number, '/');
    lemma_split_concat(p, tail, '/');
    match provider {
        RepositoryProvider::GitHub => {
            lemma_split_concat("pull"@, number, '/');
            lemma_split_single("pull"@, '/');
        },
        RepositoryProvider::GitLab => {
            assert(tail =~= "-"@ + slash + ("merge_requests"@ + slash + number));
            lemma_split_concat("-"@, "merge_requests"@ + slash + number, '/');
            lemma_split_concat("merge_requests"@, number, '/');
            lemma_split_single("-"@, '/');
            lemma_split_single("merge_requests"@, '/');
        },
    }
    let segments = split(path, '/');
    // The identity names the lower-cased repository path.
    let project = lower_seq(p);
    lemma_split_lower(p, '/');
    match provider {
        RepositoryProvider::GitHub => {
            assert(identity_spec(v) == project);
        },
        RepositoryProvider::GitLab => {
            let host_slash = "gitlab.com"@ + slash;
            assert(lower_seq(host_slash) =~= "gitlab.com/"@);
            assert(v.host + slash + v.namespace + slash + v.name =~= host_slash + p);
            lemma_lower_concat(host_slash, p);
            assert(("gitlab.com/"@ + project).subrange(11, ("gitlab.com/"@ + project).len() as int)
                =~= project);
        },
    }
    assert(expected_project(provider, identity_spec(v)) == Some(project));
    let project_segments = split(project, '/');
    assert forall|k: int| 0 <= k < project_segments.len() implies eq_ignore_case(
        #[trigger] segments[k],
        project_segments[k],
    ) by {
        assert(segments[k] == split(p, '/')[k]);
        assert(project_segments[k] == lower_seq(split(p, '/')[k]));
        lemma_lower_seq_idempotent(split(p, '/')[k]);
    }
    assert(lower_seq(host) =~= host);
    assert(eq_ignore_case(rest.subrange(0, 10), host));
}

} // verus!
