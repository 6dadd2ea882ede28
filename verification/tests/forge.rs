use flashy_factory::forge::{
    check_discovered_identity, clone_cleared_variables, clone_url, git_credentials,
    gitlab_default_branch, valid_gitlab_project_path, validate_branch, validate_identity,
    worker_token, ForgeError,
};
use flashy_factory::repository::{parse_repository_ref, RepositoryProvider};

#[test]
fn validates_gitlab_project_paths_without_accepting_urls_or_credentials() {
    assert!(valid_gitlab_project_path("group/subgroup/repository"));
    assert!(!valid_gitlab_project_path("group/repository/-/tree/main"));
    assert!(!valid_gitlab_project_path(
        "https://token@gitlab.com/group/repository"
    ));
    assert!(!valid_gitlab_project_path("group//repository"));
}

#[test]
fn gitlab_project_paths_need_two_segments_of_plain_characters() {
    assert!(!valid_gitlab_project_path("repository"));
    assert!(!valid_gitlab_project_path("group/repo sitory"));
    assert!(valid_gitlab_project_path("Group_1/repo.name-2"));
}

#[test]
fn default_branches_are_returned_unchanged_or_refused() {
    assert_eq!(validate_branch("GitLab", "release/main").unwrap(), "release/main");
    for branch in ["", "-main", "main\n", "ma\rin", "ma\0in"] {
        let error = validate_branch("GitLab", branch).unwrap_err();
        assert_eq!(
            error,
            ForgeError::InvalidDefaultBranch {
                provider: "GitLab".to_string()
            }
        );
        assert_eq!(error.message(), "GitLab returned an invalid default branch");
    }
}

#[test]
fn glab_default_branch_output_is_trimmed() {
    assert_eq!(gitlab_default_branch("release/main\n").unwrap(), "release/main");
    assert!(gitlab_default_branch(" \n").is_err());
}

#[test]
fn identities_name_their_project_and_clone_url() {
    assert_eq!(
        validate_identity(RepositoryProvider::GitHub, "owner/repository").unwrap(),
        "owner/repository"
    );
    assert_eq!(
        validate_identity(RepositoryProvider::GitLab, "gitlab.com/group/sub/repository").unwrap(),
        "group/sub/repository"
    );
    assert_eq!(
        clone_url(RepositoryProvider::GitHub, "owner/repository").unwrap(),
        "https://github.com/owner/repository.git"
    );
    assert_eq!(
        clone_url(RepositoryProvider::GitLab, "gitlab.com/group/repository").unwrap(),
        "https://gitlab.com/group/repository.git"
    );
}

#[test]
fn identities_that_are_not_canonical_are_refused() {
    assert_eq!(
        validate_identity(RepositoryProvider::GitLab, "group/repository").unwrap_err(),
        ForgeError::InvalidGitLabIdentity
    );
    assert_eq!(
        validate_identity(RepositoryProvider::GitHub, "Owner/Repository").unwrap_err(),
        ForgeError::IdentityProviderMismatch
    );
    assert!(matches!(
        validate_identity(RepositoryProvider::GitHub, "owner").unwrap_err(),
        ForgeError::InvalidIdentity { .. }
    ));
    assert!(matches!(
        clone_url(RepositoryProvider::GitHub, "owner/repository?x").unwrap_err(),
        ForgeError::InvalidIdentity { .. }
    ));
}

#[test]
fn a_parsed_identity_round_trips_through_its_clone_url() {
    for remote in [
        "git@github.com:Owner/Repository.git",
        "https://GitLab.COM/Group/Sub/Repository.git",
    ] {
        let repository = parse_repository_ref(remote).unwrap();
        let identity = repository.identity();
        let url = clone_url(repository.provider, &identity).unwrap();
        let again = parse_repository_ref(&url).unwrap();
        assert_eq!(again.provider, repository.provider);
        assert_eq!(again.identity(), identity);
    }
}

#[test]
fn discovered_identities_are_compared_with_the_pin() {
    assert!(
        check_discovered_identity(RepositoryProvider::GitHub, "Owner/Repository", "owner/repository")
            .is_ok()
    );
    let error =
        check_discovered_identity(RepositoryProvider::GitHub, "other/repository", "owner/repository")
            .unwrap_err();
    assert_eq!(
        error.message(),
        "GitHub repository identity other/repository does not match configured identity owner/repository"
    );
    assert!(check_discovered_identity(
        RepositoryProvider::GitLab,
        "Group/Repository\n",
        "gitlab.com/group/repository"
    )
    .is_ok());
    assert_eq!(
        check_discovered_identity(
            RepositoryProvider::GitLab,
            "https://gitlab.com/group/repository",
            "gitlab.com/group/repository"
        )
        .unwrap_err(),
        ForgeError::InvalidProjectIdentity
    );
}

#[test]
fn worker_tokens_must_be_present_and_non_blank() {
    let missing = worker_token("TOKEN_VAR", None).unwrap_err();
    assert_eq!(missing.message(), "GitLab token environment \"TOKEN_VAR\" is missing");
    let empty = worker_token("TOKEN_VAR", Some(" \t".to_string())).unwrap_err();
    assert_eq!(empty.message(), "GitLab token environment \"TOKEN_VAR\" is empty");
    assert_eq!(
        worker_token("TOKEN_VAR", Some(" secret ".to_string())).unwrap(),
        " secret "
    );
}

#[test]
fn clones_clear_the_other_providers_tokens() {
    assert_eq!(clone_cleared_variables("GH_TOKEN"), ("GITLAB_TOKEN", "GLAB_TOKEN"));
    assert_eq!(clone_cleared_variables("GITLAB_TOKEN"), ("GH_TOKEN", "GITHUB_TOKEN"));
}

#[test]
fn credentials_match_each_provider() {
    let github = git_credentials(RepositoryProvider::GitHub);
    assert_eq!(github.token_variable, "GH_TOKEN");
    assert_eq!(github.credential_key, "credential.https://github.com.helper");
    assert_eq!(github.credential_helper, "!gh auth git-credential");
    let gitlab = git_credentials(RepositoryProvider::GitLab);
    assert_eq!(gitlab.token_variable, "GITLAB_TOKEN");
    assert_eq!(gitlab.credential_key, "credential.https://gitlab.com.helper");
    assert_eq!(gitlab.credential_helper, "!glab auth git-credential");
}
