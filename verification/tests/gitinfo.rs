use dsh_desktop::gitinfo::{parse_head, parse_pointer};

#[test]
fn normal_branch_ref() {
    assert_eq!(
        parse_head("ref: refs/heads/feature/x\n").as_deref(),
        Some("feature/x")
    );
}

#[test]
fn detached_head_short_sha() {
    assert_eq!(
        parse_head("0123456789abcdef0123456789abcdef01234567\n").as_deref(),
        Some("0123456")
    );
}

#[test]
fn gitdir_pointer_file() {
    assert_eq!(parse_pointer("gitdir: real-git\n").as_deref(), Some("real-git"));
    assert_eq!(parse_head("ref: refs/heads/main\n").as_deref(), Some("main"));
    assert_eq!(parse_pointer("gitdir: /abs/git").as_deref(), Some("/abs/git"));
    assert_eq!(parse_pointer("elsewhere"), None);
}

#[test]
fn non_repo_and_malformed() {
    assert_eq!(parse_head(""), None);
    assert_eq!(parse_head("garbage"), None);
    assert_eq!(parse_head("ref: refs/heads/"), None);
    assert_eq!(parse_head("ref: refs/tags/v1"), None);
    assert_eq!(parse_head("0123456789abcdef0123456789abcdef0123456g"), None);
}
