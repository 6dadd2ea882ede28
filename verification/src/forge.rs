//! The decisions a forge (GitHub through `gh`, GitLab.com through `glab`)
//! makes around the commands it runs: which identities may be cloned and
//! from which URL, whether what the CLI reports matches the pinned identity,
//! which default branches and worker tokens are acceptable, and which
//! credential settings each provider uses.
use vstd::prelude::*;
use vstd::string::StringExecFns;

use crate::repository::{
    canonical_remote, debug_quoted, expected_project, identity_spec, is_plain_debug_char,
    parse_repository_ref, parse_spec, quote_debug,
    RemoteError, RemoteErrorView, RepositoryProvider, RepositoryRefView,
};
use crate::repository::{
    bad_segment, lemma_parse_canonical_remote, segments_ok,
};
use crate::remote_grammar::{lemma_identity_of_path, lemma_parsed_view_facts, repository_path_of};
use crate::text::{
    last_index, lemma_last_before, lemma_last_before_lower, lemma_lower_concat,
    lemma_lower_contains, lemma_lower_seq_idempotent, lemma_lower_seq_letter_free,
    lemma_split_lower, lemma_split_from_chars, lemma_split_concat, lemma_split_single,
    lemma_trim_without_whitespace, is_whitespace,
    chars_of, eq_chars, is_alphanumeric, is_alphanumeric_char, lower_seq, lower_vec, split,
    split_chars, string_from_chars, trim, trim_chars, views,
};

verus! {

/// How a worker's git process authenticates against a provider.
#[derive(Debug, Clone, Copy, PartialEq, Eq)]
pub struct ForgeGitCredentials {
    /// The environment variable that carries the token.
    pub token_variable: &'static str,
    /// The git configuration key of the credential helper.
    pub credential_key: &'static str,
    /// The credential helper that git runs.
    pub credential_helper: &'static str,
}

/// The credential settings of `provider`, as
/// (token variable, configuration key, helper).
pub open spec fn credentials_spec(provider: RepositoryProvider) -> (Seq<char>, Seq<char>, Seq<char>) {
    match provider {
        RepositoryProvider::GitHub => (
            "GH_TOKEN"@,
            "credential.https://github.com.helper"@,
            "!gh auth git-credential"@,
        ),
        RepositoryProvider::GitLab => (
            "GITLAB_TOKEN"@,
            "credential.https://gitlab.com.helper"@,
            "!glab auth git-credential"@,
        ),
    }
}

/// The credential settings git uses for `provider`.
pub fn git_credentials(provider: RepositoryProvider) -> (r: ForgeGitCredentials)
    ensures
        (r.token_variable@, r.credential_key@, r.credential_helper@) == credentials_spec(provider),
{
    match provider {
        RepositoryProvider::GitHub => ForgeGitCredentials {
            token_variable: "GH_TOKEN",
            credential_key: "credential.https://github.com.helper",
            credential_helper: "!gh auth git-credential",
        },
        RepositoryProvider::GitLab => ForgeGitCredentials {
            token_variable: "GITLAB_TOKEN",
            credential_key: "credential.https://gitlab.com.helper",
            credential_helper: "!glab auth git-credential",
        },
    }
}

// ---------------------------------------------------------------------------
// Errors
// ---------------------------------------------------------------------------

/// Why a forge refused a value.
#[derive(Debug, Clone, PartialEq, Eq)]
pub enum ForgeError {
    /// The CLI of the named provider returned an unusable default branch.
    InvalidDefaultBranch { provider: String },
    /// A GitLab identity that does not start with `gitlab.com/`.
    InvalidGitLabIdentity,
    /// An identity that does not form a supported remote.
    InvalidIdentity { cause: RemoteError },
    /// An identity that is not the canonical identity of its provider.
    IdentityProviderMismatch,
    /// `glab` reported a project path that is not a plain GitLab path.
    InvalidProjectIdentity,
    /// The CLI reported a repository other than the pinned one.
    IdentityMismatch { provider: RepositoryProvider, discovered: String, expected: String },
    /// The worker token variable is not set.
    TokenMissing { variable: String },
    /// The worker token variable holds only whitespace.
    TokenEmpty { variable: String },
}

/// The mathematical value of a [`ForgeError`].
pub enum ForgeErrorView {
    InvalidDefaultBranch(Seq<char>),
    InvalidGitLabIdentity,
    InvalidIdentity(RemoteErrorView),
    IdentityProviderMismatch,
    InvalidProjectIdentity,
    IdentityMismatch(RepositoryProvider, Seq<char>, Seq<char>),
    TokenMissing(Seq<char>),
    TokenEmpty(Seq<char>),
}

impl View for ForgeError {
    type V = ForgeErrorView;

    open spec fn view(&self) -> ForgeErrorView {
        match self {
            ForgeError::InvalidDefaultBranch { provider } => ForgeErrorView::InvalidDefaultBranch(
                provider@,
            ),
            ForgeError::InvalidGitLabIdentity => ForgeErrorView::InvalidGitLabIdentity,
            ForgeError::InvalidIdentity { cause } => ForgeErrorView::InvalidIdentity(cause@),
            ForgeError::IdentityProviderMismatch => ForgeErrorView::IdentityProviderMismatch,
            ForgeError::InvalidProjectIdentity => ForgeErrorView::InvalidProjectIdentity,
            ForgeError::IdentityMismatch { provider, discovered, expected } =>
                ForgeErrorView::IdentityMismatch(*provider, discovered@, expected@),
            ForgeError::TokenMissing { variable } => ForgeErrorView::TokenMissing(variable@),
            ForgeError::TokenEmpty { variable } => ForgeErrorView::TokenEmpty(variable@),
        }
    }
}

/// The name of a provider's service in messages.
pub open spec fn service_label(provider: RepositoryProvider) -> Seq<char> {
    match provider {
        RepositoryProvider::GitHub => "GitHub"@,
        RepositoryProvider::GitLab => "GitLab"@,
    }
}

/// The message of a forge error.
pub open spec fn forge_error_message(e: ForgeErrorView) -> Seq<char> {
    match e {
        ForgeErrorView::InvalidDefaultBranch(provider) => provider
            + " returned an invalid default branch"@,
        ForgeErrorView::InvalidGitLabIdentity => "invalid GitLab repository identity"@,
        ForgeErrorView::InvalidIdentity(_) => "invalid repository identity"@,
        ForgeErrorView::IdentityProviderMismatch =>
            "repository identity does not match selected provider"@,
        ForgeErrorView::InvalidProjectIdentity =>
            "glab returned an invalid GitLab project identity"@,
        ForgeErrorView::IdentityMismatch(provider, discovered, expected) => service_label(
            provider,
        ) + " repository identity "@ + discovered + " does not match configured identity "@
            + expected,
        ForgeErrorView::TokenMissing(variable) => "GitLab token environment "@ + debug_quoted(
            variable,
        ) + " is missing"@,
        ForgeErrorView::TokenEmpty(variable) => "GitLab token environment "@ + debug_quoted(
            variable,
        ) + " is empty"@,
    }
}

impl ForgeError {
    /// A message for the operator.
    pub fn message(&self) -> (r: String)
        ensures
            r@ == forge_error_message(self@),
            self@ matches ForgeErrorView::TokenMissing(variable) ==> ((forall|i: int|
                0 <= i < variable.len() ==> is_plain_debug_char(#[trigger] variable[i]))
                ==> debug_quoted(variable) == seq!['"'] + variable + seq!['"']),
            self@ matches ForgeErrorView::TokenEmpty(variable) ==> ((forall|i: int|
                0 <= i < variable.len() ==> is_plain_debug_char(#[trigger] variable[i]))
                ==> debug_quoted(variable) == seq!['"'] + variable + seq!['"']),
    {
        match self {
            ForgeError::InvalidDefaultBranch { provider } => {
                let mut m = provider.clone();
                m.append(" returned an invalid default branch");
                m
            },
            ForgeError::InvalidGitLabIdentity => "invalid GitLab repository identity".to_owned(),
            ForgeError::InvalidIdentity { .. } => "invalid repository identity".to_owned(),
            ForgeError::IdentityProviderMismatch => {
                "repository identity does not match selected provider".to_owned()
            },
            ForgeError::InvalidProjectIdentity => {
                "glab returned an invalid GitLab project identity".to_owned()
            },
            ForgeError::IdentityMismatch { provider, discovered, expected } => {
                let mut m = match provider {
                    RepositoryProvider::GitHub => "GitHub".to_owned(),
                    RepositoryProvider::GitLab => "GitLab".to_owned(),
                };
                m.append(" repository identity ");
                m.append(discovered.as_str());
                m.append(" does not match configured identity ");
                m.append(expected.as_str());
                m
            },
            ForgeError::TokenMissing { variable } => {
                let mut m = "GitLab token environment ".to_owned();
                let quoted = quote_debug(variable.as_str());
                m.append(quoted.as_str());
                m.append(" is missing");
                m
            },
            ForgeError::TokenEmpty { variable } => {
                let mut m = "GitLab token environment ".to_owned();
                let quoted = quote_debug(variable.as_str());
                m.append(quoted.as_str());
                m.append(" is empty");
                m
            },
        }
    }
}

// ---------------------------------------------------------------------------
// What the CLIs report
// ---------------------------------------------------------------------------

/// A character GitLab allows in a project path segment.
pub open spec fn is_project_char(c: char) -> bool {
    is_alphanumeric(c) || c == '-' || c == '_' || c == '.'
}

/// A non-empty path segment other than `-`, made of project characters.
pub open spec fn project_segment_ok(s: Seq<char>) -> bool {
    &&& s.len() > 0
    &&& s != "-"@
    &&& forall|i: int| 0 <= i < s.len() ==> is_project_char(#[trigger] s[i])
}

/// A plain GitLab project path: at least two `/`-separated segments, each
/// acceptable on its own; no scheme, credentials or route such as `-/tree`.
pub open spec fn is_gitlab_project_path(path: Seq<char>) -> bool {
    let segments = split(path, '/');
    &&& segments.len() >= 2
    &&& forall|k: int| 0 <= k < segments.len() ==> project_segment_ok(#[trigger] segments[k])
}

fn project_segment_check(s: &Vec<char>) -> (r: bool)
    ensures
        r == project_segment_ok(s@),
{
    if s.len() == 0 {
        return false;
    }
    let dash = chars_of("-");
    if eq_chars(s, &dash) {
        return false;
    }
    let mut i: usize = 0;
    while i < s.len()
        invariant
            i <= s@.len(),
            forall|j: int| 0 <= j < i ==> is_project_char(#[trigger] s@[j]),
        decreases s@.len() - i,
    {
        let c = s[i];
        if !(is_alphanumeric_char(c) || c == '-' || c == '_' || c == '.') {
            assert(!is_project_char(s@[i as int]));
            return false;
        }
        i = i + 1;
    }
    true
}

/// Whether `path` is a plain GitLab project path such as
/// `group/subgroup/repository`.
pub fn valid_gitlab_project_path(path: &str) -> (r: bool)
    ensures
        r == is_gitlab_project_path(path@),
{
    let p = chars_of(path);
    let segments = split_chars(&p, '/');
    assert(views(segments@).len() == segments@.len());
    if segments.len() < 2 {
        return false;
    }
    let mut k: usize = 0;
    while k < segments.len()
        invariant
            k <= segments@.len(),
            p@ == path@,
            views(segments@) == split(p@, '/'),
            forall|j: int| 0 <= j < k ==> project_segment_ok(#[trigger] views(segments@)[j]),
        decreases segments@.len() - k,
    {
        if !project_segment_check(&segments[k]) {
            assert(!project_segment_ok(views(segments@)[k as int]));
            return false;
        }
        k = k + 1;
    }
    true
}

/// Whether a default branch is unusable: empty, starting with `-`, or
/// holding a NUL, line feed or carriage return.
pub open spec fn bad_branch(branch: Seq<char>) -> bool {
    ||| branch.len() == 0
    ||| branch[0] == '-'
    ||| branch.contains('\0')
    ||| branch.contains('\n')
    ||| branch.contains('\r')
}

/// Accepts the default branch reported by the CLI of `provider` (a label
/// such as `GitLab`), or refuses it.
pub fn validate_branch(provider: &str, branch: &str) -> (r: Result<String, ForgeError>)
    ensures
        match r {
            Ok(b) => !bad_branch(branch@) && b@ == branch@,
            Err(e) => bad_branch(branch@) && e@ == ForgeErrorView::InvalidDefaultBranch(provider@),
        },
{
    let b = chars_of(branch);
    let mut bad = b.len() == 0 || b[0] == '-';
    let mut i: usize = 0;
    while i < b.len()
        invariant
            i <= b@.len(),
            bad == (b@.len() == 0 || b@[0] == '-' || exists|j: int|
                0 <= j < i && (b@[j] == '\0' || b@[j] == '\n' || b@[j] == '\r')),
        decreases b@.len() - i,
    {
        let c = b[i];
        if c == '\0' || c == '\n' || c == '\r' {
            bad = true;
        }
        i = i + 1;
    }
    if bad {
        proof {
            if b@.len() != 0 && b@[0] != '-' {
                let j = choose|j: int|
                    0 <= j < b@.len() && (b@[j] == '\0' || b@[j] == '\n' || b@[j] == '\r');
                assert(b@[j] == '\0' ==> b@.contains('\0'));
                assert(b@[j] == '\n' ==> b@.contains('\n'));
                assert(b@[j] == '\r' ==> b@.contains('\r'));
            }
        }
        return Err(ForgeError::InvalidDefaultBranch { provider: provider.to_owned() });
    }
    Ok(branch.to_owned())
}

/// Accepts the default branch that `glab` printed: the output without
/// surrounding whitespace, if it is usable.
pub fn gitlab_default_branch(output: &str) -> (r: Result<String, ForgeError>)
    ensures
        match r {
            Ok(b) => !bad_branch(trim(output@)) && b@ == trim(output@),
            Err(e) => bad_branch(trim(output@)) && e@ == ForgeErrorView::InvalidDefaultBranch(
                "GitLab"@,
            ),
        },
{
    let trimmed = string_from_chars(&trim_chars(&chars_of(output)));
    validate_branch("GitLab", trimmed.as_str())
}

/// What a forge accepts as the repository that its CLI reports for the
/// checkout: GitHub's report lower-cased, or `gitlab.com/` and the
/// lower-cased project path that `glab` printed (surrounding whitespace
/// removed), which must equal the pinned identity `expected`.
pub open spec fn check_discovered_spec(
    provider: RepositoryProvider,
    reported: Seq<char>,
    expected: Seq<char>,
) -> Result<(), ForgeErrorView> {
    match provider {
        RepositoryProvider::GitHub => {
            let discovered = lower_seq(reported);
            if discovered == expected {
                Ok(())
            } else {
                Err(ForgeErrorView::IdentityMismatch(provider, discovered, expected))
            }
        },
        RepositoryProvider::GitLab => {
            let path = trim(reported);
            if !is_gitlab_project_path(path) {
                Err(ForgeErrorView::InvalidProjectIdentity)
            } else {
                let discovered = "gitlab.com/"@ + lower_seq(path);
                if discovered == expected {
                    Ok(())
                } else {
                    Err(ForgeErrorView::IdentityMismatch(provider, discovered, expected))
                }
            }
        },
    }
}

/// Checks the repository that the CLI of `provider` reports for the checkout
/// against the pinned identity `expected`.
pub fn check_discovered_identity(
    provider: RepositoryProvider,
    reported: &str,
    expected: &str,
) -> (r: Result<(), ForgeError>)
    ensures
        match r {
            Ok(()) => check_discovered_spec(provider, reported@, expected@) == Ok::<
                (),
                ForgeErrorView,
            >(()),
            Err(e) => check_discovered_spec(provider, reported@, expected@) == Err::<
                (),
                ForgeErrorView,
            >(e@),
        },
{
    let expected_chars = chars_of(expected);
    let discovered = match provider {
        RepositoryProvider::GitHub => lower_vec(&chars_of(reported)),
        RepositoryProvider::GitLab => {
            let path = trim_chars(&chars_of(reported));
            let path_string = string_from_chars(&path);
            if !valid_gitlab_project_path(path_string.as_str()) {
                return Err(ForgeError::InvalidProjectIdentity);
            }
            let prefix = chars_of("gitlab.com/");
            crate::text::concat(&prefix, &lower_vec(&path))
        },
    };
    if eq_chars(&discovered, &expected_chars) {
        Ok(())
    } else {
        Err(
            ForgeError::IdentityMismatch {
                provider,
                discovered: string_from_chars(&discovered),
                expected: expected.to_owned(),
            },
        )
    }
}

/// The token a GitLab worker runs with, read from the variable named
/// `variable`: refused when the variable is unset or holds only whitespace,
/// and otherwise handed on unchanged.
pub fn worker_token(variable: &str, value: Option<String>) -> (r: Result<String, ForgeError>)
    ensures
        match value {
            None => r matches Err(e) && e@ == ForgeErrorView::TokenMissing(variable@),
            Some(v) => if trim(v@).len() == 0 {
                r matches Err(e) && e@ == ForgeErrorView::TokenEmpty(variable@)
            } else {
                r matches Ok(t) && t@ == v@
            },
        },
{
    match value {
        None => Err(ForgeError::TokenMissing { variable: variable.to_owned() }),
        Some(v) => {
            let trimmed = trim_chars(&chars_of(v.as_str()));
            if trimmed.len() == 0 {
                Err(ForgeError::TokenEmpty { variable: variable.to_owned() })
            } else {
                Ok(v)
            }
        },
    }
}

/// The two token variables a clone clears so that only the provider's own
/// token reaches the CLI: GitLab's when cloning with `GH_TOKEN`, GitHub's
/// otherwise.
pub open spec fn cleared_variables_spec(token_variable: Seq<char>) -> (Seq<char>, Seq<char>) {
    if token_variable == "GH_TOKEN"@ {
        ("GITLAB_TOKEN"@, "GLAB_TOKEN"@)
    } else {
        ("GH_TOKEN"@, "GITHUB_TOKEN"@)
    }
}

/// The token variables a clone that passes its token in `token_variable`
/// removes from the CLI's environment.
pub fn clone_cleared_variables(token_variable: &str) -> (r: (&'static str, &'static str))
    ensures
        (r.0@, r.1@) == cleared_variables_spec(token_variable@),
{
    let gh = chars_of("GH_TOKEN");
    if eq_chars(&chars_of(token_variable), &gh) {
        ("GITLAB_TOKEN", "GLAB_TOKEN")
    } else {
        ("GH_TOKEN", "GITHUB_TOKEN")
    }
}

// ---------------------------------------------------------------------------
// Identities that may be cloned
// ---------------------------------------------------------------------------

/// The https remote of a pinned identity: `https://github.com/<identity>.git`
/// on GitHub, `https://gitlab.com/<project>.git` for a GitLab identity
/// `gitlab.com/<project>`, and none for a GitLab identity without that host.
pub open spec fn identity_remote(provider: RepositoryProvider, identity: Seq<char>) -> Option<
    Seq<char>,
> {
    match expected_project(provider, identity) {
        Some(project) => Some(canonical_remote(provider, project)),
        None => None,
    }
}

/// Whether `identity` is accepted as a pinned identity of `provider`, and the
/// project path it names: its https remote must parse, for the same provider,
/// back to exactly `identity`.
pub open spec fn validate_identity_spec(provider: RepositoryProvider, identity: Seq<char>) -> Result<
    Seq<char>,
    ForgeErrorView,
> {
    match identity_remote(provider, identity) {
        None => Err(ForgeErrorView::InvalidGitLabIdentity),
        Some(remote) => match parse_spec(remote) {
            Err(e) => Err(ForgeErrorView::InvalidIdentity(e)),
            Ok(parsed) => if parsed.provider != provider || identity_spec(parsed) != identity {
                Err(ForgeErrorView::IdentityProviderMismatch)
            } else {
                Ok(expected_project(provider, identity)->0)
            },
        },
    }
}

/// The https remote of `identity`, built in executable code.
fn identity_remote_string(provider: RepositoryProvider, identity: &str) -> (r: Option<String>)
    ensures
        match r {
            Some(s) => identity_remote(provider, identity@) == Some(s@),
            None => identity_remote(provider, identity@) is None,
        },
{
    match provider {
        RepositoryProvider::GitHub => {
            let mut remote = "https://github.com/".to_owned();
            remote.append(identity);
            remote.append(".git");
            Some(remote)
        },
        RepositoryProvider::GitLab => {
            let id = chars_of(identity);
            let prefix = chars_of("gitlab.com/");
            if !crate::text::starts_with(&id, &prefix) {
                return None;
            }
            let project = string_from_chars(&crate::text::slice(&id, prefix.len(), id.len()));
            let mut remote = "https://gitlab.com/".to_owned();
            remote.append(project.as_str());
            remote.append(".git");
            Some(remote)
        },
    }
}

/// Accepts `identity` as a pinned identity of `provider` and returns the
/// project path it names (`owner/name`, or the GitLab path after
/// `gitlab.com/`).
pub fn validate_identity(provider: RepositoryProvider, identity: &str) -> (r: Result<
    String,
    ForgeError,
>)
    ensures
        match r {
            Ok(project) => validate_identity_spec(provider, identity@) == Ok::<
                Seq<char>,
                ForgeErrorView,
            >(project@),
            Err(e) => validate_identity_spec(provider, identity@) == Err::<
                Seq<char>,
                ForgeErrorView,
            >(e@),
        },
{
    let remote = match identity_remote_string(provider, identity) {
        Some(remote) => remote,
        None => {
            return Err(ForgeError::InvalidGitLabIdentity);
        },
    };
    let parsed = match parse_repository_ref(remote.as_str()) {
        Ok(parsed) => parsed,
        Err(cause) => {
            return Err(ForgeError::InvalidIdentity { cause });
        },
    };
    let parsed_identity = parsed.identity();
    let id = chars_of(identity);
    if parsed.provider != provider || !eq_chars(&chars_of(parsed_identity.as_str()), &id) {
        return Err(ForgeError::IdentityProviderMismatch);
    }
    match provider {
        RepositoryProvider::GitHub => Ok(identity.to_owned()),
        RepositoryProvider::GitLab => {
            let prefix = chars_of("gitlab.com/");
            Ok(string_from_chars(&crate::text::slice(&id, prefix.len(), id.len())))
        },
    }
}

/// The https URL from which a pinned identity is cloned: the identity's
/// remote, once the identity is accepted.
pub open spec fn clone_url_spec(provider: RepositoryProvider, identity: Seq<char>) -> Result<
    Seq<char>,
    ForgeErrorView,
> {
    match validate_identity_spec(provider, identity) {
        Ok(_) => Ok(identity_remote(provider, identity)->0),
        Err(e) => Err(e),
    }
}

/// The URL from which the repository pinned as `identity` is cloned.
pub fn clone_url(provider: RepositoryProvider, identity: &str) -> (r: Result<String, ForgeError>)
    ensures
        match r {
            Ok(url) => clone_url_spec(provider, identity@) == Ok::<Seq<char>, ForgeErrorView>(
                url@,
            ),
            Err(e) => clone_url_spec(provider, identity@) == Err::<Seq<char>, ForgeErrorView>(
                e@,
            ),
        },
{
    let project = match validate_identity(provider, identity) {
        Ok(project) => project,
        Err(e) => {
            return Err(e);
        },
    };
    let mut url = match provider {
        RepositoryProvider::GitHub => "https://github.com/".to_owned(),
        RepositoryProvider::GitLab => "https://gitlab.com/".to_owned(),
    };
    url.append(project.as_str());
    url.append(".git");
    Ok(url)
}

// ---------------------------------------------------------------------------
// Laws
// ---------------------------------------------------------------------------

/// No segment of the lower-cased repository path ends in `.git` (a segment
/// such as `Tool.GIT` does only after lower-casing).
pub open spec fn lowered_segments_free_of_git_suffix(v: RepositoryRefView) -> bool {
    let segments = split(lower_seq(repository_path_of(v)), '/');
    forall|k: int| 0 <= k < segments.len() ==> !".git"@.is_suffix_of(#[trigger] segments[k])
}

/// The lower-cased repository path of a parsed remote is itself an
/// acceptable repository path, with its last `/` at the same place, when no
/// segment ends in `.git` once lower-cased.
#[verifier::spinoff_prover]
proof fn lemma_lowered_path_acceptable(remote: Seq<char>, v: RepositoryRefView)
    requires
        parse_spec(remote) == Ok::<RepositoryRefView, RemoteErrorView>(v),
        lowered_segments_free_of_git_suffix(v),
    ensures
        !lower_seq(repository_path_of(v)).contains('?'),
        !lower_seq(repository_path_of(v)).contains('#'),
        segments_ok(v.provider, split(lower_seq(repository_path_of(v)), '/')),
        last_index(lower_seq(repository_path_of(v)), '/') == v.namespace.len(),
{
    reveal_strlit(".");
    reveal_strlit("..");
    reveal_strlit("-");
    lemma_parsed_view_facts(remote, v);
    let provider = v.provider;
    let p = repository_path_of(v);
    let q = lower_seq(p);
    let segments = split(p, '/');
    lemma_lower_contains(p, '?');
    lemma_lower_contains(p, '#');
    lemma_last_before_lower(p, '/', p.len() as int);
    lemma_split_lower(p, '/');
    let lowered = split(q, '/');
    assert forall|k: int| 0 <= k < lowered.len() implies !bad_segment(#[trigger] lowered[k]) by {
        assert(lowered[k] == lower_seq(segments[k]));
        assert(!bad_segment(segments[k]));
        if lowered[k] == "."@ {
            lemma_lower_seq_letter_free(segments[k], "."@);
        }
        if lowered[k] == ".."@ {
            lemma_lower_seq_letter_free(segments[k], ".."@);
        }
    }
    if provider == RepositoryProvider::GitLab && lowered.contains("-"@) {
        let k = choose|k: int| 0 <= k < lowered.len() && lowered[k] == "-"@;
        lemma_lower_seq_letter_free(segments[k], "-"@);
        assert(segments.contains("-"@));
    }
}

/// The pinned identity of an accepted remote is accepted for cloning; it is
/// cloned from the canonical https remote of the lower-cased repository path,
/// and that URL parses back to a repository of the same provider with the
/// same identity. The one exception is a repository path with a segment that
/// ends in `.git` only once lower-cased.
#[verifier::spinoff_prover]
pub proof fn law_pinned_identity_round_trip(remote: Seq<char>, v: RepositoryRefView)
    requires
        parse_spec(remote) == Ok::<RepositoryRefView, RemoteErrorView>(v),
        lowered_segments_free_of_git_suffix(v),
    ensures
        validate_identity_spec(v.provider, identity_spec(v)) is Ok,
        clone_url_spec(v.provider, identity_spec(v)) == Ok::<Seq<char>, ForgeErrorView>(
            canonical_remote(v.provider, lower_seq(repository_path_of(v))),
        ),
        parse_spec(canonical_remote(v.provider, lower_seq(repository_path_of(v)))) matches Ok(w)
            && w.provider == v.provider && identity_spec(w) == identity_spec(v),
{
    let provider = v.provider;
    let q = lower_seq(repository_path_of(v));
    lemma_parsed_view_facts(remote, v);
    lemma_lowered_path_acceptable(remote, v);
    lemma_identity_of_path(v);
    lemma_parse_canonical_remote(provider, q);
    let w = parse_spec(canonical_remote(provider, q))->Ok_0;
    assert(repository_path_of(w) =~= q) by {
        lemma_last_before(q, '/', q.len() as int);
    }
    lemma_lower_seq_idempotent(repository_path_of(v));
    lemma_identity_of_path(w);
}

/// When the CLI reports the repository path of the remote the identity was
/// pinned from (in any case; on GitLab.com a plain project path), the check
/// against that identity accepts it.
#[verifier::spinoff_prover]
pub proof fn law_reported_pinned_repository_is_accepted(remote: Seq<char>, v: RepositoryRefView)
    requires
        parse_spec(remote) == Ok::<RepositoryRefView, RemoteErrorView>(v),
        v.provider == RepositoryProvider::GitLab ==> is_gitlab_project_path(
            repository_path_of(v),
        ),
    ensures
        check_discovered_spec(v.provider, repository_path_of(v), identity_spec(v)) == Ok::<
            (),
            ForgeErrorView,
        >(()),
{
    let p = repository_path_of(v);
    if v.provider == RepositoryProvider::GitLab {
        reveal_strlit("gitlab.com");
        reveal_strlit("gitlab.com/");
        let ok = |c: char| is_project_char(c);
        let segments = split(p, '/');
        assert forall|k: int, j: int|
            0 <= k < segments.len() && 0 <= j < segments[k].len() implies ok(
                #[trigger] segments[k][j],
            ) by {
            assert(project_segment_ok(segments[k]));
        }
        lemma_split_from_chars(p, '/', 0, ok);
        assert forall|i: int| 0 <= i < p.len() implies !is_whitespace(#[trigger] p[i]) by {
            assert(p[i] == '/' || ok(p[i]));
        }
        assert(p.len() > 0) by {
            if p.len() == 0 {
                assert(p.subrange(0, 0) =~= p);
                assert(segments =~= seq![p]);
            }
        }
        lemma_trim_without_whitespace(p);
        let host_slash = "gitlab.com"@ + seq!['/'];
        assert(lower_seq(host_slash) =~= "gitlab.com/"@);
        assert(v.host + seq!['/'] + v.namespace + seq!['/'] + v.name =~= host_slash + p);
        lemma_lower_concat(host_slash, p);
    }
}

/// Only lower-case identities are accepted as pinned identities.
pub proof fn law_accepted_identities_are_lower_case(provider: RepositoryProvider, identity: Seq<char>)
    requires
        validate_identity_spec(provider, identity) is Ok,
    ensures
        lower_seq(identity) == identity,
{
    let parsed = parse_spec(identity_remote(provider, identity)->0)->Ok_0;
    match parsed.provider {
        RepositoryProvider::GitHub => lemma_lower_seq_idempotent(
            parsed.namespace + seq!['/'] + parsed.name,
        ),
        RepositoryProvider::GitLab => lemma_lower_seq_idempotent(
            parsed.host + seq!['/'] + parsed.namespace + seq!['/'] + parsed.name,
        ),
    }
}

/// A default branch is accepted exactly when it is not empty, does not start
/// with `-`, and holds no NUL, line feed or carriage return; a `-` anywhere
/// after the first character is no reason to refuse it.
pub proof fn law_branch_acceptance(branch: Seq<char>)
    ensures
        !bad_branch(branch) <==> (branch.len() > 0 && branch[0] != '-' && forall|i: int|
            0 <= i < branch.len() ==> (#[trigger] branch[i] != '\0' && branch[i] != '\n'
                && branch[i] != '\r')),
{
    if branch.len() > 0 && branch[0] != '-' && forall|i: int|
        0 <= i < branch.len() ==> (#[trigger] branch[i] != '\0' && branch[i] != '\n'
            && branch[i] != '\r') {
        assert(!branch.contains('\0'));
        assert(!branch.contains('\n'));
        assert(!branch.contains('\r'));
    }
}

/// Two plain GitLab path segments joined by `/` form a project path.
pub proof fn law_two_plain_segments_are_a_project_path(a: Seq<char>, b: Seq<char>)
    requires
        a.len() > 0,
        a != "-"@,
        forall|i: int| 0 <= i < a.len() ==> is_alphanumeric(#[trigger] a[i]) || a[i] == '-'
            || a[i] == '_' || a[i] == '.',
        b.len() > 0,
        b != "-"@,
        forall|i: int| 0 <= i < b.len() ==> is_alphanumeric(#[trigger] b[i]) || b[i] == '-'
            || b[i] == '_' || b[i] == '.',
    ensures
        is_gitlab_project_path(a + seq!['/'] + b),
{
    lemma_plain_segment_has_no_slash(a);
    lemma_plain_segment_has_no_slash(b);
    lemma_split_single(a, '/');
    lemma_split_single(b, '/');
    lemma_split_concat(a, b, '/');
    let segments = split(a + seq!['/'] + b, '/');
    assert(segments =~= seq![a, b]);
    assert forall|k: int| 0 <= k < segments.len() implies project_segment_ok(
        #[trigger] segments[k],
    ) by {
        if k == 0 {
            assert(segments[k] == a);
        } else {
            assert(segments[k] == b);
        }
    }
}

/// A GitLab project path stays one when a plain segment is added below it:
/// subgroups may nest to any depth.
pub proof fn law_project_paths_nest_to_any_depth(path: Seq<char>, s: Seq<char>)
    requires
        is_gitlab_project_path(path),
        s.len() > 0,
        s != "-"@,
        forall|i: int| 0 <= i < s.len() ==> is_alphanumeric(#[trigger] s[i]) || s[i] == '-'
            || s[i] == '_' || s[i] == '.',
    ensures
        is_gitlab_project_path(path + seq!['/'] + s),
        split(path + seq!['/'] + s, '/').len() == split(path, '/').len() + 1,
{
    lemma_plain_segment_has_no_slash(s);
    lemma_split_single(s, '/');
    lemma_split_concat(path, s, '/');
    let before = split(path, '/');
    let segments = split(path + seq!['/'] + s, '/');
    assert(segments =~= before.push(s));
    assert forall|k: int| 0 <= k < segments.len() implies project_segment_ok(
        #[trigger] segments[k],
    ) by {
        if k < before.len() {
            assert(segments[k] == before[k]);
        } else {
            assert(segments[k] == s);
        }
    }
}

/// A single segment is no GitLab project path, and neither is a path with a
/// `-` route segment (as in `group/project/-/tree/main`) or an empty segment.
pub proof fn law_project_path_refusals(a: Seq<char>, b: Seq<char>)
    ensures
        !a.contains('/') ==> !is_gitlab_project_path(a),
        !is_gitlab_project_path(a + seq!['/', '-', '/'] + b),
        !is_gitlab_project_path(a + seq!['/', '/'] + b),
{
    reveal_strlit("-");
    if !a.contains('/') {
        lemma_split_single(a, '/');
    }
    let dash = seq!['-'];
    lemma_split_single(dash, '/');
    lemma_split_concat(dash, b, '/');
    lemma_split_concat(a, dash + seq!['/'] + b, '/');
    assert(a + seq!['/', '-', '/'] + b =~= a + seq!['/'] + (dash + seq!['/'] + b));
    let segments = split(a + seq!['/', '-', '/'] + b, '/');
    let n = split(a, '/').len();
    assert(segments[n as int] == dash);
    assert(dash == "-"@);
    assert(!project_segment_ok(segments[n as int]));
    let empty = Seq::<char>::empty();
    lemma_split_single(empty, '/');
    lemma_split_concat(empty, b, '/');
    lemma_split_concat(a, empty + seq!['/'] + b, '/');
    assert(a + seq!['/', '/'] + b =~= a + seq!['/'] + (empty + seq!['/'] + b));
    let segments2 = split(a + seq!['/', '/'] + b, '/');
    assert(segments2[n as int] == empty);
    assert(!project_segment_ok(segments2[n as int]));
}

/// A plain segment holds no `/`.
proof fn lemma_plain_segment_has_no_slash(s: Seq<char>)
    requires
        forall|i: int| 0 <= i < s.len() ==> is_alphanumeric(#[trigger] s[i]) || s[i] == '-'
            || s[i] == '_' || s[i] == '.',
    ensures
        !s.contains('/'),
        forall|i: int| 0 <= i < s.len() ==> is_project_char(#[trigger] s[i]),
{
    if s.contains('/') {
        let i = choose|i: int| 0 <= i < s.len() && s[i] == '/';
        assert(is_alphanumeric(s[i]) || s[i] == '-' || s[i] == '_' || s[i] == '.');
    }
}

/// The check of the CLI's report accepts exactly the identity it discovers:
/// on GitHub the report lower-cased, on GitLab.com `gitlab.com/` and the
/// lower-cased project path (surrounding whitespace removed). Anything else,
/// such as an identity of which the discovered one is only an extension, is
/// refused as a mismatch naming both.
pub proof fn law_discovered_identity_must_equal_the_pin(
    provider: RepositoryProvider,
    reported: Seq<char>,
    expected: Seq<char>,
)
    ensures
        provider == RepositoryProvider::GitHub ==> (check_discovered_spec(
            provider,
            reported,
            expected,
        ) is Ok <==> lower_seq(reported) == expected),
        provider == RepositoryProvider::GitLab ==> (check_discovered_spec(
            provider,
            reported,
            expected,
        ) is Ok <==> is_gitlab_project_path(trim(reported)) && "gitlab.com/"@ + lower_seq(
            trim(reported),
        ) == expected),
        check_discovered_spec(provider, reported, expected) matches Err(
            ForgeErrorView::IdentityMismatch(p, discovered, pinned),
        ) ==> p == provider && pinned == expected && discovered != expected,
{
}

/// One report is accepted against at most one pinned identity.
pub proof fn law_a_report_matches_one_identity(
    provider: RepositoryProvider,
    reported: Seq<char>,
    first: Seq<char>,
    second: Seq<char>,
)
    requires
        check_discovered_spec(provider, reported, first) is Ok,
        check_discovered_spec(provider, reported, second) is Ok,
    ensures
        first == second,
{
}

} // verus!
