use openbiz::git::{GitError, RemoteKind};

#[test]
fn airgapped_deployments_have_no_pull_requests() {
    assert!(!RemoteKind::NoRemote.supports_pull_requests());
}

#[test]
fn both_github_flavours_support_pull_requests() {
    assert!(RemoteKind::GitHubCloud.supports_pull_requests());
    assert!(
        RemoteKind::GitHubEnterprise("https://ghe.example.com".to_owned()).supports_pull_requests()
    );
}

#[test]
fn each_git_error_says_what_went_wrong() {
    assert_eq!(
        GitError::NotARepository("/srv/vocabularies".to_owned()).to_string(),
        "not a git repository: /srv/vocabularies"
    );
    assert_eq!(
        GitError::Conflict("regions.ttl".to_owned()).to_string(),
        "merge conflict in regions.ttl"
    );
    assert_eq!(
        GitError::Remote("403 Forbidden".to_owned()).to_string(),
        "remote operation failed: 403 Forbidden"
    );
}
