use projection::address::{ToUrl, UrlRejected};
use projection::project::{set_name, CloneRequest, Project, ToPath};
use projection::source::{ParseError, Source};
use projection::text::{contains_text, cut_once, same_text};

fn project(source: Source, user: &str, repo: &str) -> Project {
    Project { user: user.to_string(), repo: repo.to_string(), name: None, source }
}

#[test]
fn data_parse_and_convert_to_url() {
    let url = Project::from_str("gh:brettm12345/xmonad-config").unwrap().to_url();
    assert_eq!(url, Ok("https://github.com/brettm12345/xmonad-config".to_string()));
}

#[test]
fn lib_parse_and_convert_to_url() {
    let project = Project::from_str("gh:brettm12345/xmonad-config").unwrap();
    assert_eq!(project.name, None);
    let expected = url::Url::parse("https://github.com")
        .unwrap()
        .join("brettm12345/xmonad-config")
        .unwrap();
    assert_eq!(project.to_url(), Ok(expected.as_str().to_string()));
    assert_eq!(
        project.to_url(),
        Ok("https://github.com/brettm12345/xmonad-config".to_string())
    );
}

#[test]
fn parse_reads_each_token() {
    assert_eq!(
        Project::from_str("gh:alice/repo1"),
        Ok(project(Source::GitHub, "alice", "repo1"))
    );
    assert_eq!(
        Project::from_str("gl:alice/repo1"),
        Ok(project(Source::GitLab, "alice", "repo1"))
    );
    assert_eq!(
        Project::from_str("bb:alice/repo1"),
        Ok(project(Source::BitBucket, "alice", "repo1"))
    );
}

#[test]
fn parse_rejects_unknown_source() {
    assert_eq!(Project::from_str("xx:alice/bob"), Err(ParseError::UnknownSource));
    assert_eq!(Project::from_str(":alice/bob"), Err(ParseError::UnknownSource));
    assert_eq!(Project::from_str("GH:alice/bob"), Err(ParseError::UnknownSource));
    assert_eq!(Project::from_str(" gh:alice/bob"), Err(ParseError::UnknownSource));
    assert_eq!(Project::from_str("alice/bob"), Err(ParseError::UnknownSource));
    assert_eq!(Project::from_str(""), Err(ParseError::UnknownSource));
}

#[test]
fn parse_rejects_malformed_path() {
    assert_eq!(Project::from_str("gh:alice"), Err(ParseError::MalformedPath));
    assert_eq!(Project::from_str("gh"), Err(ParseError::MalformedPath));
    assert_eq!(Project::from_str("gh:"), Err(ParseError::MalformedPath));
    assert_eq!(Project::from_str("gh:/bob"), Err(ParseError::MalformedPath));
    assert_eq!(Project::from_str("gh:alice/"), Err(ParseError::MalformedPath));
    assert_eq!(Project::from_str("gh:/"), Err(ParseError::MalformedPath));
    assert_eq!(Project::from_str("gh:/x/repo"), Err(ParseError::MalformedPath));
}

#[test]
fn parse_reports_the_source_first() {
    assert_eq!(Project::from_str("xx:alice"), Err(ParseError::UnknownSource));
    assert_eq!(Project::from_str("xx"), Err(ParseError::UnknownSource));
}

#[test]
fn parse_cuts_once_and_keeps_the_rest() {
    assert_eq!(
        Project::from_str("gh:alice/bob/carol"),
        Ok(project(Source::GitHub, "alice", "bob/carol"))
    );
    assert_eq!(
        Project::from_str("gh:alice/bob:carol"),
        Ok(project(Source::GitHub, "alice", "bob:carol"))
    );
    assert_eq!(
        Project::from_str("gl: alice /re po"),
        Ok(project(Source::GitLab, " alice ", "re po"))
    );
    assert_eq!(
        Project::from_str("bb:a%20b/c"),
        Ok(project(Source::BitBucket, "a%20b", "c"))
    );
    assert_eq!(
        Project::from_str("gh:ålice/répo"),
        Ok(project(Source::GitHub, "ålice", "répo"))
    );
}

#[test]
fn source_tokens_and_hosts() {
    assert_eq!(Source::GitHub.to_string(), "gh");
    assert_eq!(Source::GitLab.to_string(), "gl");
    assert_eq!(Source::BitBucket.to_string(), "bb");
    assert_eq!(Source::GitHub.token_str(), "gh");
    assert_eq!(Source::GitHub.host_str(), "github.com");
    assert_eq!(Source::GitLab.host_str(), "gitlab.com");
    assert_eq!(Source::BitBucket.host_str(), "bitbucket.com");
}

#[test]
fn source_token_round_trip() {
    for source in [Source::GitHub, Source::GitLab, Source::BitBucket] {
        assert_eq!(Source::from_str(&source.to_string()), Ok(source));
    }
    assert_eq!(Source::from_str("gh"), Ok(Source::GitHub));
    assert_eq!(Source::from_str("gl"), Ok(Source::GitLab));
    assert_eq!(Source::from_str("bb"), Ok(Source::BitBucket));
}

#[test]
fn source_rejects_other_tokens() {
    assert_eq!(Source::from_str("github"), Err(ParseError::UnknownSource));
    assert_eq!(Source::from_str("g"), Err(ParseError::UnknownSource));
    assert_eq!(Source::from_str("ghh"), Err(ParseError::UnknownSource));
    assert_eq!(Source::from_str("Gh"), Err(ParseError::UnknownSource));
    assert_eq!(Source::from_str(""), Err(ParseError::UnknownSource));
}

#[test]
fn source_address_is_parsed_by_the_url_crate() {
    assert_eq!(Source::GitHub.to_url(), Ok("https://github.com/".to_string()));
    assert_eq!(Source::GitLab.to_url(), Ok("https://gitlab.com/".to_string()));
    assert_eq!(Source::BitBucket.to_url(), Ok("https://bitbucket.com/".to_string()));
}

#[test]
fn project_address_joins_user_and_repo() {
    assert_eq!(
        project(Source::GitLab, "alice", "repo1").to_url(),
        Ok("https://gitlab.com/alice/repo1".to_string())
    );
    assert_eq!(
        project(Source::BitBucket, "alice", "repo1").to_url(),
        Ok("https://bitbucket.com/alice/repo1".to_string())
    );
}

#[test]
fn project_address_is_what_the_url_crate_resolves() {
    let cases = [("a b", "c"), ("..", "x"), ("alice", "repo?q#f"), ("//evil.example", "x")];
    for (user, repo) in cases {
        let expected = url::Url::parse("https://github.com")
            .unwrap()
            .join(&format!("{}/{}", user, repo))
            .map(String::from)
            .map_err(|_| UrlRejected);
        assert_eq!(project(Source::GitHub, user, repo).to_url(), expected);
    }
    assert_eq!(
        project(Source::GitHub, "a b", "c").to_url(),
        Ok("https://github.com/a%20b/c".to_string())
    );
}

#[test]
fn project_address_can_be_rejected() {
    assert_eq!(project(Source::GitHub, "//[", "x").to_url(), Err(UrlRejected));
    assert_eq!(project(Source::GitHub, "//[", "x").clone_request("root"), Err(UrlRejected));
}

#[test]
fn display_name_takes_no_part() {
    let plain = project(Source::GitHub, "alice", "repo1");
    let named = set_name(Some("pet".to_string()))(project(Source::GitHub, "alice", "repo1"));
    assert_eq!(named.name, Some("pet".to_string()));
    assert_eq!(named.path_key(), plain.path_key());
    assert_eq!(named.to_path("root"), plain.to_path("root"));
    assert_eq!(named.to_url(), plain.to_url());
    assert_eq!(named.to_string(), plain.to_string());
}

#[test]
fn set_name_sets_and_clears() {
    let rename = set_name(Some("xmonad".to_string()));
    let first = rename(project(Source::GitHub, "brettm12345", "xmonad-config"));
    let second = rename(project(Source::GitLab, "alice", "repo1"));
    assert_eq!(
        first,
        Project {
            user: "brettm12345".to_string(),
            repo: "xmonad-config".to_string(),
            name: Some("xmonad".to_string()),
            source: Source::GitHub,
        }
    );
    assert_eq!(second.name, Some("xmonad".to_string()));
    assert_eq!(second.user, "alice");
    let cleared = set_name(None)(first);
    assert_eq!(cleared, project(Source::GitHub, "brettm12345", "xmonad-config"));
}

#[test]
fn path_key_has_token_user_and_repo() {
    assert_eq!(project(Source::GitHub, "alice", "repo1").path_key(), "gh--alice--repo1");
    assert_eq!(project(Source::GitLab, "alice", "repo1").path_key(), "gl--alice--repo1");
    assert_eq!(project(Source::BitBucket, "a-b", "c_d").path_key(), "bb--a-b--c_d");
}

#[test]
fn path_joins_root_and_key() {
    let p = project(Source::GitHub, "alice", "repo1");
    assert_eq!(p.to_path("projects"), "projects/gh--alice--repo1");
    assert_eq!(p.to_path("projects/"), "projects/gh--alice--repo1");
    assert_eq!(p.to_path("/home/me/src"), "/home/me/src/gh--alice--repo1");
    assert_eq!(p.to_path("/"), "/gh--alice--repo1");
    assert_eq!(p.to_path(""), "gh--alice--repo1");
}

#[test]
fn path_agrees_with_std_path_join() {
    let p = project(Source::GitLab, "alice", "repo1");
    for root in ["projects", "projects/", "/", "", "a/b", "./x/"] {
        let expected = std::path::Path::new(root).join(std::path::Path::new("gl--alice--repo1"));
        assert_eq!(std::path::PathBuf::from(p.to_path(root)), expected);
        assert_eq!(p.to_path(root), expected.to_str().unwrap());
    }
}

#[test]
fn parse_then_path_is_stable() {
    for shorthand in ["gh:alice/repo1", "gl:bob/x", "bb:carol/some-repo"] {
        let first = Project::from_str(shorthand).unwrap().to_path("root");
        let second = Project::from_str(shorthand).unwrap().to_path("root");
        assert_eq!(first, second);
    }
    assert_eq!(
        Project::from_str("gh:alice/repo1").unwrap().to_path("root"),
        "root/gh--alice--repo1"
    );
}

#[test]
fn distinct_projects_have_distinct_keys() {
    let all = [
        project(Source::GitHub, "alice", "repo1"),
        project(Source::GitLab, "alice", "repo1"),
        project(Source::BitBucket, "alice", "repo1"),
        project(Source::GitHub, "alice", "repo2"),
        project(Source::GitHub, "bob", "repo1"),
        project(Source::GitHub, "alice-repo1", "x"),
        project(Source::GitHub, "a-b", "c"),
        project(Source::GitHub, "a", "b-c"),
    ];
    for (i, p) in all.iter().enumerate() {
        for (j, q) in all.iter().enumerate() {
            if i != j {
                assert_ne!(p.path_key(), q.path_key());
                assert_ne!(p.to_path("root"), q.to_path("root"));
            }
        }
    }
}

#[test]
fn a_recut_shares_the_key() {
    let p = project(Source::GitHub, "a--b", "c");
    let q = project(Source::GitHub, "a", "b--c");
    assert_eq!(p.path_key(), "gh--a--b--c");
    assert_eq!(q.path_key(), "gh--a--b--c");
    let r = project(Source::GitHub, "a-", "b");
    let s = project(Source::GitHub, "a", "-b");
    assert_eq!(r.path_key(), s.path_key());
}

#[test]
fn rendered_form_and_notices() {
    let p = project(Source::GitHub, "alice", "repo1");
    assert_eq!(p.to_string(), "alice/repo1");
    assert_eq!(p.missing_prompt(), "alice/repo1 is missing. Would you like to clone it");
    assert_eq!(p.failure_notice("url"), "Failed to parse url from alice/repo1");
    assert_eq!(p.failure_notice("path"), "Failed to parse path from alice/repo1");
}

#[test]
fn clone_request_has_address_and_directory() {
    let p = project(Source::GitHub, "alice", "repo1");
    assert_eq!(
        p.clone_request("projects"),
        Ok(CloneRequest {
            url: "https://github.com/alice/repo1".to_string(),
            path: "projects/gh--alice--repo1".to_string(),
        })
    );
}

#[test]
fn clone_keeps_every_field() {
    let p = Project {
        user: "alice".to_string(),
        repo: "repo1".to_string(),
        name: Some("pet".to_string()),
        source: Source::GitLab,
    };
    assert_eq!(p.clone(), p);
}

#[test]
fn text_comparison_is_exact() {
    assert!(same_text("gh", "gh"));
    assert!(same_text("", ""));
    assert!(!same_text("gh", "gH"));
    assert!(!same_text("gh", "gh "));
    assert!(!same_text("é", "e"));
}

#[test]
fn text_is_cut_at_the_first_mark() {
    assert_eq!(cut_once("a:b:c", ':'), Some(("a", "b:c")));
    assert_eq!(cut_once(":x", ':'), Some(("", "x")));
    assert_eq!(cut_once("x:", ':'), Some(("x", "")));
    assert_eq!(cut_once("é/ü", '/'), Some(("é", "ü")));
    assert_eq!(cut_once("abc", ':'), None);
    assert_eq!(cut_once("", ':'), None);
}

#[test]
fn text_containment_matches_std() {
    let cases = [
        ("xmonad-config", "monad"),
        ("xmonad-config", "Monad"),
        ("xmonad-config", ""),
        ("", ""),
        ("", "a"),
        ("abc", "abcd"),
        ("abc", "abc"),
        ("aab", "ab"),
        ("répo", "ép"),
        ("abc", "c"),
    ];
    for (hay, needle) in cases {
        assert_eq!(contains_text(hay, needle), hay.contains(needle));
    }
    assert!(contains_text("xmonad-config", "monad"));
    assert!(!contains_text("xmonad-config", "Monad"));
}
