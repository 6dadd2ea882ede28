# flashy_factory (repository remotes and forges)

A verified library for the repository-facing decisions of Flashy Factory:

- `src/text.rs`: character-sequence helpers (search, split, trim, ASCII
  case folding) specified over `Seq<char>`, with the lemmas the parsers use.
- `src/repository.rs`: the supported GitHub and GitLab.com remote forms
  (`parse_repository_ref`), the pinned identity of a repository
  (`RepositoryRef::identity`), recognition of change-request URLs
  (`recognize_change_request_url`), and laws about them.
- `src/remote_grammar.rs`: the remote grammar stated directly
  (`[user@]host[:port]/path` after `https://`/`ssh://`, and `git@host:path`),
  and laws about parsed repositories: rebuilt https, scp and ssh remotes parse
  back to them, and two remotes pin the same identity exactly when they name
  the same repository up to case.
- `src/forge.rs`: what the `gh`/`glab` forges decide around the commands they
  run: accepted identities and clone URLs, checks of what the CLI reports,
  default branches, worker tokens and git credential settings, with laws
  tying them to the remote parser.
- `app/lib.rs`: the asynchronous `Forge` trait and its implementations, which
  spawn the CLIs, and the serde form of the provider.
- `tests/`: the behaviour on concrete values.
