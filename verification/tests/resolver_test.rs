use git_account_switcher::cli::Shell;
use git_account_switcher::config::{Account, Manifest, Settings};
use git_account_switcher::resolver::{Resolver, RootCandidate};

fn account(roots: &[&str]) -> Account {
    Account {
        name: "N".to_string(),
        email: "e@x".to_string(),
        roots: roots.iter().map(|r| r.to_string()).collect(),
        signing_key: None,
        ssh_key: None,
        ssh_host_alias: None,
    }
}

fn sample() -> Manifest {
    let mut m = Manifest::new(Settings::default());
    m.insert_account("work".to_string(), account(&["/tmp/t/Developer/work"]));
    m.insert_account("personal".to_string(), account(&["~/Developer/personal", "/opt/p"]));
    m
}

#[test]
fn candidates_follow_manifest_order_with_home_expanded() {
    let c = Resolver::root_candidates(&sample(), Some("/home/u"));
    let pairs: Vec<(String, String)> =
        c.into_iter().map(|c| (c.account_id, c.root)).collect();
    assert_eq!(
        pairs,
        vec![
            ("work".to_string(), "/tmp/t/Developer/work".to_string()),
            ("personal".to_string(), "/home/u/Developer/personal".to_string()),
            ("personal".to_string(), "/opt/p".to_string()),
        ]
    );
}

#[test]
fn subdirectory_of_a_root_resolves_to_its_account() {
    let c = Resolver::root_candidates(&sample(), Some("/home/u"));
    assert_eq!(
        Resolver::match_root(&c, "/tmp/t/Developer/work/subfolder").as_deref(),
        Some("work")
    );
    assert_eq!(Resolver::match_root(&c, "/tmp/t/Developer/work").as_deref(), Some("work"));
    assert_eq!(Resolver::match_root(&c, "/opt/p/x/y").as_deref(), Some("personal"));
    // whole components only
    assert_eq!(Resolver::match_root(&c, "/tmp/t/Developer/workspace"), None);
    assert_eq!(Resolver::match_root(&c, "/tmp/t/Other/project"), None);
}

#[test]
fn first_matching_candidate_wins() {
    let c = vec![
        RootCandidate { account_id: "outer".to_string(), root: "/a".to_string() },
        RootCandidate { account_id: "inner".to_string(), root: "/a/b".to_string() },
    ];
    assert_eq!(Resolver::match_root(&c, "/a/b/c").as_deref(), Some("outer"));
}

#[test]
fn git_setting_takes_precedence() {
    let c = Resolver::root_candidates(&sample(), None);
    assert_eq!(
        Resolver::resolve_account(Some("personal".to_string()), &c, Some("/tmp/t/Developer/work"))
            .as_deref(),
        Some("personal")
    );
    assert_eq!(
        Resolver::resolve_account(None, &c, Some("/tmp/t/Developer/work/subfolder")).as_deref(),
        Some("work")
    );
    assert_eq!(Resolver::resolve_account(None, &c, None), None);
}

#[test]
fn git_output_is_trimmed() {
    assert_eq!(Resolver::account_from_git_output(true, " work\n").as_deref(), Some("work"));
    assert_eq!(Resolver::account_from_git_output(true, "\n"), None);
    assert_eq!(Resolver::account_from_git_output(false, "work\n"), None);
}

#[test]
fn exports_point_gh_at_the_account_directory() {
    let exports = Resolver::emit_env_exports(Some("work"), Shell::Bash, Some("/tmp/fake_home"));
    assert!(exports.contains("export GH_CONFIG_DIR="));
    assert!(exports.contains("work"));
    assert_eq!(exports, "export GH_CONFIG_DIR=\"/tmp/fake_home/work\"\n");
    assert_eq!(
        Resolver::emit_env_exports(Some("work"), Shell::Zsh, Some("/tmp/fake_home")),
        exports
    );
    assert_eq!(
        Resolver::emit_env_exports(Some("work"), Shell::Fish, Some("/b/")),
        "set -gx GH_CONFIG_DIR \"/b/work\"\n"
    );
}

#[test]
fn exports_without_account_clear_the_setting() {
    assert_eq!(Resolver::emit_env_exports(None, Shell::Bash, None), "unset GH_CONFIG_DIR\n");
    assert_eq!(Resolver::emit_env_exports(None, Shell::Zsh, Some("/b")), "unset GH_CONFIG_DIR\n");
    assert_eq!(Resolver::emit_env_exports(None, Shell::Fish, None), "set -e GH_CONFIG_DIR\n");
}

#[test]
fn default_configuration_base() {
    assert_eq!(
        Resolver::default_config_base(Some("/home/u/.config"), Some("/home/u")),
        "/home/u/.config/gh-multiaccount/gh"
    );
    assert_eq!(Resolver::default_config_base(None, Some("/home/u")), "/home/u/gh-multiaccount/gh");
    assert_eq!(Resolver::default_config_base(None, None), ".config/gh-multiaccount/gh");
    assert_eq!(
        Resolver::exports_for(Some("w"), Shell::Bash, ".config/gh-multiaccount/gh"),
        "export GH_CONFIG_DIR=\".config/gh-multiaccount/gh/w\"\n"
    );
}
