//! The remote grammar stated directly, and laws about parsed remotes:
//! the remotes rebuilt from a parsed repository parse back to it, and two
//! parsed remotes pin the same identity exactly when they name the same
//! repository up to ASCII case.
use vstd::prelude::*;

use crate::repository::{
    bad_segment, expected_project, identity_spec, is_change_request_url, is_ssh_github,
    change_request_url, law_change_requests_of_the_pinned_repository_are_recognized, parse_spec,
    provider_host, sanitize_host,
    provider_of_host, repository_path, scp_remote_spec, segments_ok, transport_spec,
    url_remote_spec, RemoteErrorView, RepositoryProvider, RepositoryRefView,
};
use crate::text::{
    split_from, all_digits, eq_ignore_case, first_from, is_digit, last_index, lemma_concat_contains,
    lemma_first_from, lemma_first_from_at, lemma_last_before, lemma_last_before_absent,
    lemma_last_before_at, lemma_lower_concat, lemma_lower_contains, lemma_split_concat,
    lemma_split_last_unique, lemma_split_lower, lemma_split_single, lemma_lower_seq_idempotent,
    lower_seq, split, trim_end_char,
};

verus! {

// ---------------------------------------------------------------------------
// The grammar of `https://` and `ssh://` remotes
// ---------------------------------------------------------------------------

/// `user@`, or nothing.
pub open spec fn user_part(user: Option<Seq<char>>) -> Seq<char> {
    match user {
        Some(u) => u + seq!['@'],
        None => seq![],
    }
}

/// `:port`, or nothing.
pub open spec fn port_part(port: Option<Seq<char>>) -> Seq<char> {
    match port {
        Some(p) => seq![':'] + p,
        None => seq![],
    }
}

/// The authority `[user@]host[:port]`.
pub open spec fn url_authority(
    user: Option<Seq<char>>,
    host: Seq<char>,
    port: Option<Seq<char>>,
) -> Seq<char> {
    user_part(user) + host + port_part(port)
}

/// An accepted `https://` (`ssh` false) or `ssh://` (`ssh` true) remote,
/// after its scheme: `[user@]host[:port]/path` where
/// - the authority holds no `/`, the host is not empty and holds no `@`
///   (nor `:` when there is no port), and a port is a non-empty decimal
///   number;
/// - the path is not empty;
/// - over SSH the user is `git`;
/// - GitHub's `ssh.github.com` (any case) is accepted only over SSH, with no
///   port or port `443`.
pub open spec fn url_remote_form(
    remote: Seq<char>,
    ssh: bool,
    user: Option<Seq<char>>,
    host: Seq<char>,
    port: Option<Seq<char>>,
    path: Seq<char>,
) -> bool {
    &&& remote == url_authority(user, host, port) + seq!['/'] + path
    &&& (user matches Some(u) ==> !u.contains('/'))
    &&& host.len() > 0
    &&& !host.contains('/')
    &&& !host.contains('@')
    &&& (port is None ==> !host.contains(':'))
    &&& (port matches Some(p) ==> p.len() > 0 && all_digits(p))
    &&& path.len() > 0
    &&& (ssh ==> user == Some("git"@))
    &&& (is_ssh_github(host) ==> ssh && (port is None || port == Some("443"@)))
}

/// The user of a remote after its scheme, as the grammar reads it.
pub open spec fn url_user_of(remote: Seq<char>) -> Option<Seq<char>> {
    let authority = remote.subrange(0, first_from(remote, '/', 0));
    let at = last_index(authority, '@');
    if at >= 0 {
        Some(authority.subrange(0, at))
    } else {
        None
    }
}

/// The host and port of a remote after its scheme.
pub open spec fn url_host_and_port_of(remote: Seq<char>) -> Seq<char> {
    let authority = remote.subrange(0, first_from(remote, '/', 0));
    let at = last_index(authority, '@');
    if at < 0 {
        authority
    } else {
        authority.subrange(at + 1, authority.len() as int)
    }
}

/// The port of a remote after its scheme, as the grammar reads it.
pub open spec fn url_port_of(remote: Seq<char>) -> Option<Seq<char>> {
    let host_and_port = url_host_and_port_of(remote);
    let colon = last_index(host_and_port, ':');
    if colon >= 0 {
        Some(host_and_port.subrange(colon + 1, host_and_port.len() as int))
    } else {
        None
    }
}

/// A remote in the grammar's form parses to its host and path.
#[verifier::spinoff_prover]
pub proof fn lemma_url_remote_form_parses(
    remote: Seq<char>,
    ssh: bool,
    user: Option<Seq<char>>,
    host: Seq<char>,
    port: Option<Seq<char>>,
    path: Seq<char>,
)
    requires
        url_remote_form(remote, ssh, user, host, port, path),
    ensures
        url_remote_spec(remote, ssh) == Ok::<(Seq<char>, Seq<char>), RemoteErrorView>(
            (host, path),
        ),
{
    reveal_strlit("git");
    reveal_strlit("443");
    let up = user_part(user);
    let pp = port_part(port);
    let a = up + host + pp;
    let hp = host + pp;
    // The port part holds only `:` and digits.
    assert forall|j: int| 0 <= j < pp.len() implies pp[j] != '/' && pp[j] != '@' && (j > 0
        ==> pp[j] != ':') by {
        if let Some(p) = port {
            if j > 0 {
                assert(pp[j] == p[j - 1]);
                assert(is_digit(p[j - 1]));
            }
        }
    }
    // The authority holds no `/`.
    assert forall|j: int| 0 <= j < a.len() implies a[j] != '/' by {
        if j < up.len() {
            if let Some(u) = user {
                if j < u.len() {
                    assert(a[j] == u[j]);
                }
            }
        } else if j < up.len() + host.len() {
            assert(a[j] == host[j - up.len()]);
        } else {
            assert(a[j] == pp[j - up.len() - host.len()]);
        }
    }
    lemma_first_from_at(remote, '/', 0, a.len() as int);
    assert(remote.subrange(0, a.len() as int) =~= a);
    assert(remote.subrange(a.len() as int + 1, remote.len() as int) =~= path);
    // The user is everything before the last `@`.
    assert forall|j: int| up.len() <= j < a.len() implies a[j] != '@' by {
        if j < up.len() + host.len() {
            assert(a[j] == host[j - up.len()]);
        } else {
            assert(a[j] == pp[j - up.len() - host.len()]);
        }
    }
    match user {
        Some(u) => {
            assert(a[u.len() as int] == '@');
            lemma_last_before_at(a, '@', a.len() as int, u.len() as int);
            assert(a.subrange(u.len() as int + 1, a.len() as int) =~= hp);
            assert(a.subrange(0, u.len() as int) =~= u);
        },
        None => {
            lemma_last_before_absent(a, '@', a.len() as int);
            assert(a =~= hp);
        },
    }
    // The port is everything after the last `:`.
    match port {
        Some(p) => {
            assert(hp[host.len() as int] == ':');
            assert forall|j: int| host.len() < j < hp.len() implies hp[j] != ':' by {
                assert(hp[j] == pp[j - host.len()]);
            }
            lemma_last_before_at(hp, ':', hp.len() as int, host.len() as int);
            assert(hp.subrange(0, host.len() as int) =~= host);
            assert(hp.subrange(host.len() as int + 1, hp.len() as int) =~= p);
        },
        None => {
            assert(hp =~= host);
            assert forall|j: int| 0 <= j < hp.len() implies hp[j] != ':' by {
                assert(hp[j] == host[j]);
            }
            lemma_last_before_absent(hp, ':', hp.len() as int);
        },
    }
}

/// A remote that parses is its authority, `/`, and its path, the authority
/// being made of the user, host and port the grammar reads.
proof fn lemma_url_remote_spec_pieces(remote: Seq<char>, ssh: bool, host: Seq<char>, path: Seq<char>)
    requires
        url_remote_spec(remote, ssh) == Ok::<(Seq<char>, Seq<char>), RemoteErrorView>(
            (host, path),
        ),
    ensures
        remote == url_authority(url_user_of(remote), host, url_port_of(remote)) + seq!['/']
            + path,
{
    let slash = first_from(remote, '/', 0);
    lemma_first_from(remote, '/', 0);
    let authority = remote.subrange(0, slash);
    let at = last_index(authority, '@');
    lemma_last_before(authority, '@', authority.len() as int);
    let hp = url_host_and_port_of(remote);
    let colon = last_index(hp, ':');
    lemma_last_before(hp, ':', hp.len() as int);
    let user = url_user_of(remote);
    let port = url_port_of(remote);
    if at < 0 {
        assert(hp =~= authority);
    }
    assert(authority =~= user_part(user) + hp);
    if colon < 0 {
        assert(hp.subrange(0, hp.len() as int) =~= hp);
    }
    assert(hp =~= host + port_part(port));
    assert(remote =~= url_authority(user, host, port) + seq!['/'] + path);
}

/// The user and host of a remote that parses hold no `/`, the host holds no
/// `@`, and without a port the host holds no `:`.
proof fn lemma_url_remote_spec_chars(remote: Seq<char>, ssh: bool, host: Seq<char>, path: Seq<char>)
    requires
        url_remote_spec(remote, ssh) == Ok::<(Seq<char>, Seq<char>), RemoteErrorView>(
            (host, path),
        ),
    ensures
        url_user_of(remote) matches Some(u) ==> !u.contains('/'),
        !host.contains('/'),
        !host.contains('@'),
        url_port_of(remote) is None ==> !host.contains(':'),
{
    let slash = first_from(remote, '/', 0);
    lemma_first_from(remote, '/', 0);
    let authority = remote.subrange(0, slash);
    let at = last_index(authority, '@');
    lemma_last_before(authority, '@', authority.len() as int);
    let hp = url_host_and_port_of(remote);
    lemma_last_before(hp, ':', hp.len() as int);
    let off = if at >= 0 {
        at + 1
    } else {
        0
    };
    assert forall|j: int| 0 <= j < hp.len() implies hp[j] == authority[off + j] && hp[j] != '@'
        && authority[off + j] != '/' by {
        assert(remote[off + j] != '/');
    }
    if let Some(u) = url_user_of(remote) {
        assert forall|j: int| 0 <= j < u.len() implies u[j] != '/' by {
            assert(u[j] == authority[j]);
            assert(remote[j] != '/');
        }
    }
    assert forall|j: int| 0 <= j < host.len() implies host[j] != '/' && host[j] != '@' by {
        assert(host[j] == hp[j]);
    }
    if url_port_of(remote) is None {
        assert forall|j: int| 0 <= j < host.len() implies host[j] != ':' by {
            assert(host[j] == hp[j]);
        }
    }
}

/// A remote that parses is in the grammar's form, with the user and port
/// the grammar reads.
pub proof fn lemma_url_remote_spec_form(
    remote: Seq<char>,
    ssh: bool,
    host: Seq<char>,
    path: Seq<char>,
)
    requires
        url_remote_spec(remote, ssh) == Ok::<(Seq<char>, Seq<char>), RemoteErrorView>(
            (host, path),
        ),
    ensures
        url_remote_form(remote, ssh, url_user_of(remote), host, url_port_of(remote), path),
{
    lemma_url_remote_spec_pieces(remote, ssh, host, path);
    lemma_url_remote_spec_chars(remote, ssh, host, path);
}

/// The `https://`/`ssh://` grammar: a remote after its scheme parses to
/// `host` and `path` exactly when it is `[user@]host[:port]/path` in the
/// accepted form for some user and port.
pub proof fn lemma_url_remote_grammar(
    remote: Seq<char>,
    ssh: bool,
    host: Seq<char>,
    path: Seq<char>,
)
    ensures
        (url_remote_spec(remote, ssh) == Ok::<(Seq<char>, Seq<char>), RemoteErrorView>(
            (host, path),
        )) <==> exists|user: Option<Seq<char>>, port: Option<Seq<char>>|
            #[trigger] url_remote_form(remote, ssh, user, host, port, path),
{
    if url_remote_spec(remote, ssh) == Ok::<(Seq<char>, Seq<char>), RemoteErrorView>(
        (host, path),
    ) {
        lemma_url_remote_spec_form(remote, ssh, host, path);
    }
    if exists|user: Option<Seq<char>>, port: Option<Seq<char>>|
        #[trigger] url_remote_form(remote, ssh, user, host, port, path) {
        let (user, port) = choose|user: Option<Seq<char>>, port: Option<Seq<char>>|
            #[trigger] url_remote_form(remote, ssh, user, host, port, path);
        lemma_url_remote_form_parses(remote, ssh, user, host, port, path);
    }
}

// ---------------------------------------------------------------------------
// The grammar of scp-like remotes
// ---------------------------------------------------------------------------

/// An accepted scp-like remote: `git@host:path`, where the host is not
/// empty, holds no `:` and is not GitHub's `ssh.github.com`, and the path is
/// not empty.
pub open spec fn scp_remote_form(remote: Seq<char>, host: Seq<char>, path: Seq<char>) -> bool {
    &&& remote == "git@"@ + host + seq![':'] + path
    &&& host.len() > 0
    &&& !host.contains(':')
    &&& path.len() > 0
    &&& !is_ssh_github(host)
}

/// The scp grammar: a remote parses as scp-like to `host` and `path` exactly
/// when it is `git@host:path` in the accepted form.
#[verifier::spinoff_prover]
pub proof fn lemma_scp_remote_grammar(remote: Seq<char>, host: Seq<char>, path: Seq<char>)
    ensures
        (scp_remote_spec(remote) == Ok::<(Seq<char>, Seq<char>), RemoteErrorView>(
            (host, path),
        )) <==> scp_remote_form(remote, host, path),
{
    reveal_strlit("git@");
    reveal_strlit("git");
    let lead = "git@"@;
    assert(lead.len() == 4);
    if scp_remote_form(remote, host, path) {
        let authority = lead + host;
        assert forall|j: int| 0 <= j < authority.len() implies remote[j] != ':' by {
            if j >= 4 {
                assert(remote[j] == host[j - 4]);
            }
        }
        lemma_first_from_at(remote, ':', 0, authority.len() as int);
        assert(remote.subrange(0, authority.len() as int) =~= authority);
        assert(remote.subrange(authority.len() as int + 1, remote.len() as int) =~= path);
        lemma_first_from_at(authority, '@', 0, 3);
        assert(authority.subrange(0, 3) =~= "git"@);
        assert(authority.subrange(4, authority.len() as int) =~= host);
    }
    if scp_remote_spec(remote) == Ok::<(Seq<char>, Seq<char>), RemoteErrorView>((host, path)) {
        let colon = first_from(remote, ':', 0);
        lemma_first_from(remote, ':', 0);
        let authority = remote.subrange(0, colon);
        let at = first_from(authority, '@', 0);
        lemma_first_from(authority, '@', 0);
        assert(authority.subrange(0, at) == "git"@);
        assert(at == 3);
        assert forall|j: int| 0 <= j < authority.len() implies authority[j] == (lead + host)[j] by {
            if j < 3 {
                assert(authority.subrange(0, at)[j] == authority[j]);
            } else if j > 3 {
                assert(host[j - 4] == authority[j]);
            }
        }
        assert(authority =~= lead + host);
        assert(remote =~= lead + host + seq![':'] + path);
        assert forall|j: int| 0 <= j < host.len() implies host[j] != ':' by {
            assert(host[j] == remote[4 + j]);
        }
    }
}

// ---------------------------------------------------------------------------
// Parsed repositories
// ---------------------------------------------------------------------------

/// The repository path a parsed remote names: `namespace/name`.
pub open spec fn repository_path_of(v: RepositoryRefView) -> Seq<char> {
    v.namespace + seq!['/'] + v.name
}

/// The provider of each canonical host.
pub proof fn lemma_provider_of_provider_host(provider: RepositoryProvider)
    ensures
        provider_of_host(provider_host(provider)) == Some(provider),
        !provider_host(provider).contains('/'),
        !provider_host(provider).contains('@'),
        !provider_host(provider).contains(':'),
        !provider_host(provider).contains('?'),
        !provider_host(provider).contains('#'),
        provider_host(provider).len() == 10,
        !is_ssh_github(provider_host(provider)),
{
    reveal_strlit("github.com");
    reveal_strlit("gitlab.com");
    reveal_strlit("ssh.github.com");
    let host = provider_host(provider);
    assert(lower_seq(host) =~= host);
    if provider == RepositoryProvider::GitLab {
        assert(host[3] != "github.com"@[3]);
    }
    assert(lower_seq(host).len() != lower_seq("ssh.github.com"@).len());
}

/// A change-request URL belongs to one repository: when two pinned
/// identities both recognize the same URL, their project paths have the same
/// segments up to ASCII case, the first (owner or group) included. A pull
/// request of a fork is therefore never taken for one of the pinned
/// repository.
pub proof fn law_a_change_request_belongs_to_one_repository(
    provider: RepositoryProvider,
    first: Seq<char>,
    second: Seq<char>,
    candidate: Seq<char>,
)
    requires
        is_change_request_url(provider, first, candidate),
        is_change_request_url(provider, second, candidate),
    ensures
        expected_project(provider, first) matches Some(a) && expected_project(provider, second)
            matches Some(b) && split(a, '/').len() == split(b, '/').len() && forall|k: int|
            0 <= k < split(a, '/').len() ==> lower_seq(#[trigger] split(a, '/')[k]) == lower_seq(
                split(b, '/')[k],
            ),
{
    let a = expected_project(provider, first)->0;
    let b = expected_project(provider, second)->0;
    assert forall|k: int| 0 <= k < split(a, '/').len() implies lower_seq(
        #[trigger] split(a, '/')[k],
    ) == lower_seq(split(b, '/')[k]) by {
        let rest = candidate.subrange("https://"@.len() as int, candidate.len() as int);
        let slash = first_from(rest, '/', 0);
        let segments = split(rest.subrange(slash + 1, rest.len() as int), '/');
        assert(eq_ignore_case(segments[k], split(a, '/')[k]));
        assert(eq_ignore_case(segments[k], split(b, '/')[k]));
    }
}

/// A path segment that can name a namespace or repository: not empty, not
/// `.` or `..`, and not ending in `.git`; any other `.` is allowed (as in
/// `next.js`). On GitLab.com a segment also may not be `-`.
pub open spec fn plain_repository_segment(provider: RepositoryProvider, s: Seq<char>) -> bool {
    &&& s.len() > 0
    &&& s != "."@
    &&& s != ".."@
    &&& !".git"@.is_suffix_of(s)
    &&& provider == RepositoryProvider::GitLab ==> s != "-"@
}

/// The repository path of `namespace/name`, with or without `.git`, when the
/// name is not empty, holds no `/` and does not end in `.git`.
proof fn lemma_plain_project_path(path: Seq<char>, namespace: Seq<char>, name: Seq<char>)
    requires
        path == namespace + seq!['/'] + name || path == namespace + seq!['/'] + name + ".git"@,
        name.len() > 0,
        !name.contains('/'),
        !".git"@.is_suffix_of(name),
    ensures
        repository_path(path) == namespace + seq!['/'] + name,
        split(namespace + seq!['/'] + name, '/') == split(namespace, '/') + seq![name],
        split(namespace, '/').len() >= 1,
{
    reveal_strlit(".git");
    let project = namespace + seq!['/'] + name;
    // The repository path is the project path.
    assert(project.last() == name.last());
    assert(project.last() != '/') by {
        assert(name[name.len() - 1] == name.last());
    }
    if path == project {
        assert(trim_end_char(path, '/') == path);
        if ".git"@.is_suffix_of(project) {
            if name.len() >= 4 {
                assert(name.subrange(name.len() - 4, name.len() as int) =~= project.subrange(
                    project.len() - 4,
                    project.len() as int,
                ));
            } else {
                let j = 3 - name.len();
                assert(project[project.len() - 4 + j] == '/');
                assert(project.subrange(project.len() - 4, project.len() as int)[j] == '/');
            }
        }
        assert(repository_path(path) == project);
    } else {
        assert(path.last() == 't');
        assert(trim_end_char(path, '/') == path);
        assert(".git"@.is_suffix_of(path));
        assert(path.subrange(0, path.len() - 4) =~= project);
        assert(repository_path(path) == project);
    }
    lemma_split_single(name, '/');
    lemma_split_concat(namespace, name, '/');
}

/// Every remote of a supported form whose repository path is made of plain
/// segments (exactly two on GitHub, at least two on GitLab.com), with or
/// without a `.git` suffix, parses to that namespace and name on the
/// provider's canonical host.
#[verifier::spinoff_prover]
pub proof fn law_plain_repository_paths_parse(
    remote: Seq<char>,
    host: Seq<char>,
    path: Seq<char>,
    provider: RepositoryProvider,
    namespace: Seq<char>,
    name: Seq<char>,
)
    requires
        !remote.contains('?'),
        !remote.contains('#'),
        transport_spec(remote) == Ok::<(Seq<char>, Seq<char>), RemoteErrorView>((host, path)),
        provider_of_host(host) == Some(provider),
        path == namespace + seq!['/'] + name || path == namespace + seq!['/'] + name + ".git"@,
        !name.contains('/'),
        plain_repository_segment(provider, name),
        provider == RepositoryProvider::GitHub ==> !namespace.contains('/'),
        forall|k: int|
            0 <= k < split(namespace, '/').len() ==> plain_repository_segment(
                provider,
                #[trigger] split(namespace, '/')[k],
            ),
    ensures
        parse_spec(remote) == Ok::<RepositoryRefView, RemoteErrorView>(
            RepositoryRefView { provider, host: provider_host(provider), namespace, name },
        ),
{
    reveal_strlit(".git");
    reveal_strlit(".");
    reveal_strlit("..");
    reveal_strlit("-");
    let project = namespace + seq!['/'] + name;
    lemma_plain_project_path(path, namespace, name);
    // Its segments are the namespace's and then the name.
    let segments = split(project, '/');
    let before = split(namespace, '/');
    assert(segments == before + seq![name]);
    assert(before.len() >= 1);
    if provider == RepositoryProvider::GitHub {
        lemma_split_single(namespace, '/');
    }
    assert forall|k: int| 0 <= k < segments.len() implies !bad_segment(#[trigger] segments[k]) by {
        if k < before.len() {
            assert(segments[k] == before[k]);
            assert(plain_repository_segment(provider, before[k]));
        } else {
            assert(segments[k] == name);
        }
    }
    if provider == RepositoryProvider::GitLab && segments.contains("-"@) {
        let k = choose|k: int| 0 <= k < segments.len() && segments[k] == "-"@;
        if k < before.len() {
            assert(segments[k] == before[k]);
            assert(plain_repository_segment(provider, before[k]));
        } else {
            assert(segments[k] == name);
        }
    }
    assert(segments_ok(provider, segments));
    // The name follows the last `/`.
    lemma_last_before_at(project, '/', project.len() as int, namespace.len() as int);
    assert(project.subrange(0, namespace.len() as int) =~= namespace);
    assert(project.subrange(namespace.len() + 1int, project.len() as int) =~= name);
    assert(remote.len() > 0) by {
        if remote.len() == 0 {
            assert(!"https://"@.is_prefix_of(remote));
            assert(!"ssh://"@.is_prefix_of(remote));
        }
    }
}

/// A remote of a supported form whose repository path has a `.` or `..`
/// segment (in the namespace or as the name) is refused as malformed.
#[verifier::spinoff_prover]
pub proof fn law_dot_segments_are_refused(
    remote: Seq<char>,
    host: Seq<char>,
    path: Seq<char>,
    namespace: Seq<char>,
    name: Seq<char>,
    k: int,
)
    requires
        !remote.contains('?'),
        !remote.contains('#'),
        transport_spec(remote) == Ok::<(Seq<char>, Seq<char>), RemoteErrorView>((host, path)),
        provider_of_host(host) is Some,
        path == namespace + seq!['/'] + name || path == namespace + seq!['/'] + name + ".git"@,
        name.len() > 0,
        !name.contains('/'),
        !".git"@.is_suffix_of(name),
        name == "."@ || name == ".."@ || (0 <= k < split(namespace, '/').len() && (split(
            namespace,
            '/',
        )[k] == "."@ || split(namespace, '/')[k] == ".."@)),
    ensures
        parse_spec(remote) == Err::<RepositoryRefView, RemoteErrorView>(RemoteErrorView::Malformed),
{
    lemma_plain_project_path(path, namespace, name);
    let before = split(namespace, '/');
    let segments = before + seq![name];
    let provider = provider_of_host(host)->0;
    assert(remote.len() > 0) by {
        if remote.len() == 0 {
            assert(!"https://"@.is_prefix_of(remote));
            assert(!"ssh://"@.is_prefix_of(remote));
        }
    }
    if name == "."@ || name == ".."@ {
        assert(bad_segment(segments[segments.len() - 1]));
    } else {
        assert(segments[k] == before[k]);
        assert(bad_segment(segments[k]));
    }
    assert(!segments_ok(provider, segments));
}

/// A change request of a parsed repository is recognized by a pinned
/// identity only when the identity's project path has the same segments as
/// the repository's path, each up to ASCII case, from the owner or group on:
/// the pull request of a fork with another owner is not recognized.
#[verifier::spinoff_prover]
pub proof fn law_only_the_pinned_repository_recognizes_its_change_requests(
    remote: Seq<char>,
    v: RepositoryRefView,
    number: Seq<char>,
    identity: Seq<char>,
)
    requires
        parse_spec(remote) == Ok::<RepositoryRefView, RemoteErrorView>(v),
        number.len() > 0,
        all_digits(number),
        is_change_request_url(v.provider, identity, change_request_url(v, number)),
    ensures
        expected_project(v.provider, identity) matches Some(project) && split(project, '/').len()
            == split(repository_path_of(v), '/').len() && forall|k: int|
            0 <= k < split(project, '/').len() ==> eq_ignore_case(
                #[trigger] split(project, '/')[k],
                split(repository_path_of(v), '/')[k],
            ),
{
    law_change_requests_of_the_pinned_repository_are_recognized(remote, v, number);
    law_a_change_request_belongs_to_one_repository(
        v.provider,
        identity,
        identity_spec(v),
        change_request_url(v, number),
    );
    lemma_parsed_view_facts(remote, v);
    lemma_identity_of_path(v);
    let p = repository_path_of(v);
    lemma_split_lower(p, '/');
    let project = expected_project(v.provider, identity)->0;
    assert forall|k: int| 0 <= k < split(project, '/').len() implies eq_ignore_case(
        #[trigger] split(project, '/')[k],
        split(p, '/')[k],
    ) by {
        assert(split(lower_seq(p), '/')[k] == lower_seq(split(p, '/')[k]));
        lemma_lower_seq_idempotent(split(p, '/')[k]);
    }
}

/// The scheme of a URL remote: `ssh://` or `https://`.
pub open spec fn url_scheme(ssh: bool) -> Seq<char> {
    if ssh {
        "ssh://"@
    } else {
        "https://"@
    }
}

/// A refused host is reported alone: an `https://` or `ssh://` remote
/// `[user@]host[:port]/path` in the accepted form, whose host no provider
/// serves, is refused as an unsupported host that is exactly `host`, with
/// none of the user information or port.
pub proof fn law_unsupported_host_reports_only_the_host(
    ssh: bool,
    user: Option<Seq<char>>,
    host: Seq<char>,
    port: Option<Seq<char>>,
    path: Seq<char>,
)
    requires
        url_remote_form(url_authority(user, host, port) + seq!['/'] + path, ssh, user, host, port, path),
        provider_of_host(host) is None,
        !(url_scheme(ssh) + url_authority(user, host, port) + seq!['/'] + path).contains('?'),
        !(url_scheme(ssh) + url_authority(user, host, port) + seq!['/'] + path).contains('#'),
    ensures
        parse_spec(url_scheme(ssh) + url_authority(user, host, port) + seq!['/'] + path)
            == Err::<RepositoryRefView, RemoteErrorView>(RemoteErrorView::UnsupportedHost(host)),
{
    reveal_strlit("https://");
    reveal_strlit("ssh://");
    let rest = url_authority(user, host, port) + seq!['/'] + path;
    let scheme = url_scheme(ssh);
    let remote = url_scheme(ssh) + url_authority(user, host, port) + seq!['/'] + path;
    assert(remote =~= scheme + rest);
    lemma_url_remote_form_parses(rest, ssh, user, host, port, path);
    assert(remote.subrange(scheme.len() as int, remote.len() as int) =~= rest);
    if ssh {
        assert(remote[0] == 's');
        if "https://"@.is_prefix_of(remote) {
            assert(remote.subrange(0, 8)[0] == remote[0]);
            assert("https://"@[0] == 'h');
        }
        assert("ssh://"@.is_prefix_of(remote));
    } else {
        assert("https://"@.is_prefix_of(remote));
    }
    assert(transport_spec(remote) == Ok::<(Seq<char>, Seq<char>), RemoteErrorView>((host, path)));
    lemma_last_before_absent(host, '@', host.len() as int);
    assert(sanitize_host(host) == host);
}

/// What a remote with an accepted transport and repository path parses to.
pub proof fn lemma_parse_from_transport(
    remote: Seq<char>,
    provider: RepositoryProvider,
    path: Seq<char>,
)
    requires
        remote.len() > 0,
        !remote.contains('?'),
        !remote.contains('#'),
        transport_spec(remote) == Ok::<(Seq<char>, Seq<char>), RemoteErrorView>(
            (provider_host(provider), path),
        ),
        segments_ok(provider, split(repository_path(path), '/')),
    ensures
        parse_spec(remote) == Ok::<RepositoryRefView, RemoteErrorView>(
            RepositoryRefView {
                provider,
                host: provider_host(provider),
                namespace: repository_path(path).subrange(
                    0,
                    last_index(repository_path(path), '/'),
                ),
                name: repository_path(path).subrange(
                    last_index(repository_path(path), '/') + 1,
                    repository_path(path).len() as int,
                ),
            },
        ),
{
    lemma_provider_of_provider_host(provider);
}

/// A sequence that splits into one piece holds no separator.
pub proof fn lemma_split_one_piece(s: Seq<char>, sep: char)
    requires
        split(s, sep).len() == 1,
    ensures
        !s.contains(sep),
{
    lemma_first_from(s, sep, 0);
    let i = first_from(s, sep, 0);
    if i < s.len() {
        assert(split_from(s, sep, i + 1).len() >= 1);
        assert(split(s, sep) == seq![s.subrange(0, i)] + split_from(s, sep, i + 1));
    }
    if s.contains(sep) {
        let j = choose|j: int| 0 <= j < s.len() && s[j] == sep;
        assert(j >= i);
    }
}

/// What a parsed repository is made of: its host is the provider's host, its
/// repository path `namespace/name` is acceptable and free of `?` and `#`,
/// the name is a non-empty segment without `/`, a GitHub namespace has no
/// `/`, and the repository path survives the path clean-up unchanged, with
/// or without a `.git` suffix.
#[verifier::spinoff_prover]
pub proof fn lemma_parsed_view_facts(remote: Seq<char>, v: RepositoryRefView)
    requires
        parse_spec(remote) == Ok::<RepositoryRefView, RemoteErrorView>(v),
    ensures
        v.host == provider_host(v.provider),
        !repository_path_of(v).contains('?'),
        !repository_path_of(v).contains('#'),
        segments_ok(v.provider, split(repository_path_of(v), '/')),
        split(repository_path_of(v), '/') == split(v.namespace, '/') + seq![v.name],
        v.name.len() > 0,
        !v.name.contains('/'),
        v.provider == RepositoryProvider::GitHub ==> !v.namespace.contains('/'),
        last_index(repository_path_of(v), '/') == v.namespace.len(),
        repository_path(repository_path_of(v)) == repository_path_of(v),
        repository_path(repository_path_of(v) + ".git"@) == repository_path_of(v),
{
    reveal_strlit(".git");
    let path = transport_spec(remote)->Ok_0.1;
    let p0 = repository_path(path);
    let last = last_index(p0, '/');
    let p = repository_path_of(v);
    if last == -1 {
        crate::text::lemma_split_without_separator(p0, '/');
    }
    lemma_last_before(p0, '/', p0.len() as int);
    assert(p =~= p0);
    // No query or fragment.
    if p.contains('?') {
        crate::repository::lemma_transport_path_within(remote, '?');
    }
    if p.contains('#') {
        crate::repository::lemma_transport_path_within(remote, '#');
    }
    // The name is the last segment.
    assert forall|j: int| 0 <= j < v.name.len() implies v.name[j] != '/' by {
        assert(v.name[j] == p0[last + 1 + j]);
    }
    lemma_split_single(v.name, '/');
    lemma_split_concat(v.namespace, v.name, '/');
    let segments = split(p, '/');
    assert(segments.last() == v.name);
    assert(!bad_segment(segments[segments.len() - 1]));
    if v.provider == RepositoryProvider::GitHub {
        assert(split(v.namespace, '/').len() == 1);
        lemma_split_one_piece(v.namespace, '/');
    }
    // The path ends in the name, which is not `/` and does not end in `.git`.
    assert(p.last() == v.name.last());
    assert(trim_end_char(p, '/') == p);
    if ".git"@.is_suffix_of(p) {
        if v.name.len() >= 4 {
            assert(".git"@ =~= v.name.subrange(v.name.len() - 4, v.name.len() as int));
            assert(".git"@.is_suffix_of(v.name));
        } else {
            let k = v.namespace.len() - (p.len() - 4);
            assert(p[v.namespace.len() as int] == '/');
            assert(".git"@[k] == p[v.namespace.len() as int]);
        }
    }
    assert((p + ".git"@).last() == 't');
    assert(trim_end_char(p + ".git"@, '/') == p + ".git"@);
    assert((p + ".git"@).subrange(0, p.len() as int) =~= p);
}

// ---------------------------------------------------------------------------
// Remotes rebuilt from a parsed repository
// ---------------------------------------------------------------------------

/// `https://<host>/<namespace>/<name>.git`.
pub open spec fn https_remote_of(v: RepositoryRefView) -> Seq<char> {
    "https://"@ + v.host + seq!['/'] + v.namespace + seq!['/'] + v.name + ".git"@
}

/// `git@<host>:<namespace>/<name>.git`.
pub open spec fn scp_remote_of(v: RepositoryRefView) -> Seq<char> {
    "git@"@ + v.host + seq![':'] + v.namespace + seq!['/'] + v.name + ".git"@
}

/// `ssh://git@<host>/<namespace>/<name>`.
pub open spec fn ssh_remote_of(v: RepositoryRefView) -> Seq<char> {
    "ssh://git@"@ + v.host + seq!['/'] + v.namespace + seq!['/'] + v.name
}

/// The parsed view of a remote whose repository path is `namespace/name`.
proof fn lemma_view_from_path(remote: Seq<char>, v: RepositoryRefView)
    requires
        parse_spec(remote) == Ok::<RepositoryRefView, RemoteErrorView>(v),
    ensures
        ({
            let p = repository_path_of(v);
            RepositoryRefView {
                provider: v.provider,
                host: provider_host(v.provider),
                namespace: p.subrange(0, last_index(p, '/')),
                name: p.subrange(last_index(p, '/') + 1, p.len() as int),
            } == v
        }),
{
    lemma_parsed_view_facts(remote, v);
    let p = repository_path_of(v);
    assert(p.subrange(0, v.namespace.len() as int) =~= v.namespace);
    assert(p.subrange(v.namespace.len() as int + 1, p.len() as int) =~= v.name);
}

/// The https remote rebuilt from a parsed repository parses back to it.
#[verifier::spinoff_prover]
pub proof fn lemma_https_remote_parses_back(remote: Seq<char>, v: RepositoryRefView)
    requires
        parse_spec(remote) == Ok::<RepositoryRefView, RemoteErrorView>(v),
    ensures
        parse_spec(https_remote_of(v)) == Ok::<RepositoryRefView, RemoteErrorView>(v),
{
    reveal_strlit("https://");
    reveal_strlit(".git");
    lemma_parsed_view_facts(remote, v);
    lemma_view_from_path(remote, v);
    lemma_provider_of_provider_host(v.provider);
    let p = repository_path_of(v);
    let host = v.host;
    let path = p + ".git"@;
    let r = https_remote_of(v);
    let lead = "https://"@;
    assert(r =~= lead + (host + seq!['/'] + path));
    let rest = r.subrange(8, r.len() as int);
    assert(rest =~= url_authority(None, host, None) + seq!['/'] + path);
    assert(url_remote_form(rest, false, None, host, None, path));
    lemma_url_remote_form_parses(rest, false, None, host, None, path);
    assert(transport_spec(r) == Ok::<(Seq<char>, Seq<char>), RemoteErrorView>((host, path)));
    lemma_concat_contains(p, ".git"@, '?');
    lemma_concat_contains(p, ".git"@, '#');
    lemma_concat_contains(host, seq!['/'], '?');
    lemma_concat_contains(host, seq!['/'], '#');
    lemma_concat_contains(host + seq!['/'], path, '?');
    lemma_concat_contains(host + seq!['/'], path, '#');
    lemma_concat_contains(lead, host + seq!['/'] + path, '?');
    lemma_concat_contains(lead, host + seq!['/'] + path, '#');
    lemma_parse_from_transport(r, v.provider, path);
}

/// The scp-like remote rebuilt from a parsed repository parses back to it.
#[verifier::spinoff_prover]
pub proof fn lemma_scp_remote_parses_back(remote: Seq<char>, v: RepositoryRefView)
    requires
        parse_spec(remote) == Ok::<RepositoryRefView, RemoteErrorView>(v),
    ensures
        parse_spec(scp_remote_of(v)) == Ok::<RepositoryRefView, RemoteErrorView>(v),
{
    reveal_strlit("https://");
    reveal_strlit("ssh://");
    reveal_strlit("git@");
    reveal_strlit(".git");
    lemma_parsed_view_facts(remote, v);
    lemma_view_from_path(remote, v);
    lemma_provider_of_provider_host(v.provider);
    let p = repository_path_of(v);
    let host = v.host;
    let path = p + ".git"@;
    let r = scp_remote_of(v);
    let lead = "git@"@;
    assert(r =~= lead + host + seq![':'] + path);
    assert(r[0] == 'g' && "https://"@[0] == 'h' && "ssh://"@[0] == 's');
    assert(!"https://"@.is_prefix_of(r));
    assert(!"ssh://"@.is_prefix_of(r));
    lemma_scp_remote_grammar(r, host, path);
    assert(transport_spec(r) == Ok::<(Seq<char>, Seq<char>), RemoteErrorView>((host, path)));
    lemma_concat_contains(p, ".git"@, '?');
    lemma_concat_contains(p, ".git"@, '#');
    lemma_concat_contains(lead, host, '?');
    lemma_concat_contains(lead, host, '#');
    lemma_concat_contains(lead + host, seq![':'], '?');
    lemma_concat_contains(lead + host, seq![':'], '#');
    lemma_concat_contains(lead + host + seq![':'], path, '?');
    lemma_concat_contains(lead + host + seq![':'], path, '#');
    lemma_parse_from_transport(r, v.provider, path);
}

/// The ssh remote rebuilt from a parsed repository parses back to it.
#[verifier::spinoff_prover]
pub proof fn lemma_ssh_remote_parses_back(remote: Seq<char>, v: RepositoryRefView)
    requires
        parse_spec(remote) == Ok::<RepositoryRefView, RemoteErrorView>(v),
    ensures
        parse_spec(ssh_remote_of(v)) == Ok::<RepositoryRefView, RemoteErrorView>(v),
{
    reveal_strlit("https://");
    reveal_strlit("ssh://");
    reveal_strlit("ssh://git@");
    reveal_strlit("git");
    lemma_parsed_view_facts(remote, v);
    lemma_view_from_path(remote, v);
    lemma_provider_of_provider_host(v.provider);
    let p = repository_path_of(v);
    let host = v.host;
    let r = ssh_remote_of(v);
    let lead = "ssh://git@"@;
    assert(r =~= lead + host + seq!['/'] + p);
    assert(r[0] == 's' && "https://"@[0] == 'h');
    assert(!"https://"@.is_prefix_of(r));
    assert("ssh://"@.is_prefix_of(r));
    let rest = r.subrange(6, r.len() as int);
    assert(rest =~= url_authority(Some("git"@), host, None) + seq!['/'] + p);
    assert(url_remote_form(rest, true, Some("git"@), host, None, p));
    lemma_url_remote_form_parses(rest, true, Some("git"@), host, None, p);
    assert(transport_spec(r) == Ok::<(Seq<char>, Seq<char>), RemoteErrorView>((host, p)));
    lemma_concat_contains(lead, host, '?');
    lemma_concat_contains(lead, host, '#');
    lemma_concat_contains(lead + host, seq!['/'], '?');
    lemma_concat_contains(lead + host, seq!['/'], '#');
    lemma_concat_contains(lead + host + seq!['/'], p, '?');
    lemma_concat_contains(lead + host + seq!['/'], p, '#');
    lemma_parse_from_transport(r, v.provider, p);
}

/// The `https://<host>/<namespace>/<name>.git`, `git@<host>:<namespace>/<name>.git`
/// and `ssh://git@<host>/<namespace>/<name>` remotes rebuilt from a parsed
/// repository all parse back to exactly that repository.
pub proof fn law_rebuilt_remotes_parse_back(remote: Seq<char>, v: RepositoryRefView)
    requires
        parse_spec(remote) == Ok::<RepositoryRefView, RemoteErrorView>(v),
    ensures
        parse_spec(https_remote_of(v)) == Ok::<RepositoryRefView, RemoteErrorView>(v),
        parse_spec(scp_remote_of(v)) == Ok::<RepositoryRefView, RemoteErrorView>(v),
        parse_spec(ssh_remote_of(v)) == Ok::<RepositoryRefView, RemoteErrorView>(v),
{
    lemma_https_remote_parses_back(remote, v);
    lemma_scp_remote_parses_back(remote, v);
    lemma_ssh_remote_parses_back(remote, v);
}

/// The identity of a repository path `q` (already lower-cased) on a
/// provider: `q` on GitHub, `gitlab.com/q` on GitLab.com.
pub open spec fn identity_of_path(provider: RepositoryProvider, q: Seq<char>) -> Seq<char> {
    match provider {
        RepositoryProvider::GitHub => q,
        RepositoryProvider::GitLab => "gitlab.com/"@ + q,
    }
}

/// The identity of a repository on its provider's host is the identity of
/// its lower-cased repository path, and names that path as its project.
pub proof fn lemma_identity_of_path(v: RepositoryRefView)
    requires
        v.host == provider_host(v.provider),
    ensures
        identity_spec(v) == identity_of_path(v.provider, lower_seq(repository_path_of(v))),
        expected_project(v.provider, identity_spec(v)) == Some(lower_seq(repository_path_of(v))),
{
    reveal_strlit("gitlab.com");
    reveal_strlit("gitlab.com/");
    let p = repository_path_of(v);
    let q = lower_seq(p);
    if v.provider == RepositoryProvider::GitLab {
        let lead = "gitlab.com"@ + seq!['/'];
        assert(lower_seq(lead) =~= "gitlab.com/"@);
        assert(v.host + seq!['/'] + v.namespace + seq!['/'] + v.name =~= lead + p);
        lemma_lower_concat(lead, p);
        assert(("gitlab.com/"@ + q).subrange(11, ("gitlab.com/"@ + q).len() as int) =~= q);
    }
}

// ---------------------------------------------------------------------------
// Identities and case
// ---------------------------------------------------------------------------

/// Recognition of change requests does not depend on the case of the
/// identity's project path: two identities whose project paths agree up to
/// ASCII case recognize the same URLs.
pub proof fn law_recognition_ignores_identity_case(
    provider: RepositoryProvider,
    a: Seq<char>,
    b: Seq<char>,
    candidate: Seq<char>,
)
    requires
        expected_project(provider, a) is Some,
        expected_project(provider, b) is Some,
        eq_ignore_case(expected_project(provider, a)->0, expected_project(provider, b)->0),
    ensures
        is_change_request_url(provider, a, candidate) == is_change_request_url(
            provider,
            b,
            candidate,
        ),
{
    let pa = expected_project(provider, a)->0;
    let pb = expected_project(provider, b)->0;
    lemma_split_lower(pa, '/');
    lemma_split_lower(pb, '/');
    let sa = split(pa, '/');
    let sb = split(pb, '/');
    assert(lower_seq(pa) == lower_seq(pb));
    assert(split(lower_seq(pa), '/') == split(lower_seq(pb), '/'));
    assert(sa.len() == split(lower_seq(pa), '/').len());
    assert(sb.len() == split(lower_seq(pb), '/').len());
    assert forall|k: int| 0 <= k < sa.len() implies lower_seq(#[trigger] sa[k]) == lower_seq(
        sb[k],
    ) by {
        assert(split(lower_seq(pa), '/')[k] == lower_seq(sa[k]));
        assert(split(lower_seq(pb), '/')[k] == lower_seq(sb[k]));
    }
}

/// The lower-cased repository path is the lower-cased namespace, `/`, and
/// the lower-cased name.
proof fn lemma_lower_repository_path(v: RepositoryRefView)
    ensures
        lower_seq(repository_path_of(v)) == lower_seq(v.namespace) + seq!['/'] + lower_seq(
            v.name,
        ),
{
    lemma_lower_concat(v.namespace + seq!['/'], v.name);
    lemma_lower_concat(v.namespace, seq!['/']);
    assert(lower_seq(seq!['/']) =~= seq!['/']);
}

/// A GitHub and a GitLab.com repository never pin the same identity.
#[verifier::spinoff_prover]
proof fn lemma_github_and_gitlab_identities_differ(
    r1: Seq<char>,
    v1: RepositoryRefView,
    r2: Seq<char>,
    v2: RepositoryRefView,
)
    requires
        parse_spec(r1) == Ok::<RepositoryRefView, RemoteErrorView>(v1),
        parse_spec(r2) == Ok::<RepositoryRefView, RemoteErrorView>(v2),
        v1.provider == RepositoryProvider::GitHub,
        v2.provider == RepositoryProvider::GitLab,
    ensures
        identity_spec(v1) != identity_spec(v2),
{
    reveal_strlit("gitlab.com/");
    lemma_parsed_view_facts(r1, v1);
    lemma_parsed_view_facts(r2, v2);
    lemma_identity_of_path(v1);
    lemma_identity_of_path(v2);
    lemma_lower_repository_path(v1);
    lemma_lower_repository_path(v2);
    let l1 = lower_seq(v1.namespace);
    let n1 = lower_seq(v1.name);
    let l2 = lower_seq(v2.namespace);
    let n2 = lower_seq(v2.name);
    lemma_lower_contains(v1.namespace, '/');
    lemma_lower_contains(v1.name, '/');
    lemma_lower_contains(v2.name, '/');
    let s1 = l1 + seq!['/'] + n1;
    let s2 = "gitlab.com/"@ + (l2 + seq!['/'] + n2);
    if s1 == s2 {
        let s = s1;
        assert forall|j: int| 0 <= j < l1.len() implies s[j] != '/' by {
            assert(s[j] == l1[j]);
        }
        lemma_first_from_at(s, '/', 0, l1.len() as int);
        lemma_first_from_at(s, '/', 0, 10);
        assert forall|j: int| l1.len() < j < s.len() implies s[j] != '/' by {
            assert(s[j] == n1[j - l1.len() - 1]);
        }
        lemma_last_before_at(s, '/', s.len() as int, l1.len() as int);
        let k: int = 11 + l2.len() as int;
        assert(s[k] == '/');
        assert forall|j: int| k < j < s.len() implies s[j] != '/' by {
            assert(s2[j] == n2[j - k - 1]);
        }
        lemma_last_before_at(s, '/', s.len() as int, k);
    }
}

/// Two parsed remotes pin the same identity exactly when they name the same
/// provider and, up to ASCII case, the same namespace and name.
#[verifier::spinoff_prover]
pub proof fn law_same_identity_iff_same_repository(
    r1: Seq<char>,
    v1: RepositoryRefView,
    r2: Seq<char>,
    v2: RepositoryRefView,
)
    requires
        parse_spec(r1) == Ok::<RepositoryRefView, RemoteErrorView>(v1),
        parse_spec(r2) == Ok::<RepositoryRefView, RemoteErrorView>(v2),
    ensures
        (identity_spec(v1) == identity_spec(v2)) <==> (v1.provider == v2.provider
            && eq_ignore_case(v1.namespace, v2.namespace) && eq_ignore_case(v1.name, v2.name)),
{
    reveal_strlit("gitlab.com/");
    lemma_parsed_view_facts(r1, v1);
    lemma_parsed_view_facts(r2, v2);
    lemma_identity_of_path(v1);
    lemma_identity_of_path(v2);
    lemma_lower_repository_path(v1);
    lemma_lower_repository_path(v2);
    lemma_lower_contains(v1.name, '/');
    lemma_lower_contains(v2.name, '/');
    let q1 = lower_seq(repository_path_of(v1));
    let q2 = lower_seq(repository_path_of(v2));
    if v1.provider != v2.provider {
        if v1.provider == RepositoryProvider::GitHub {
            lemma_github_and_gitlab_identities_differ(r1, v1, r2, v2);
        } else {
            lemma_github_and_gitlab_identities_differ(r2, v2, r1, v1);
        }
    } else if identity_spec(v1) == identity_spec(v2) {
        if v1.provider == RepositoryProvider::GitLab {
            let g = "gitlab.com/"@;
            assert(q1 =~= (g + q1).subrange(11, (g + q1).len() as int));
            assert(q2 =~= (g + q2).subrange(11, (g + q2).len() as int));
        }
        assert(q1 == q2);
        lemma_split_last_unique(
            lower_seq(v1.namespace),
            lower_seq(v1.name),
            lower_seq(v2.namespace),
            lower_seq(v2.name),
            '/',
        );
    }
}

} // verus!
