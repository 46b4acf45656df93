use git_account_switcher::config::{
    default_shell_integration, Account, ConfigError, Manifest, Settings, ShellIntegration,
};
use git_account_switcher::paths::{normalize_path, normalize_with_home};

fn account(name: &str, email: &str, roots: &[&str]) -> Account {
    Account {
        name: name.to_string(),
        email: email.to_string(),
        roots: roots.iter().map(|r| r.to_string()).collect(),
        signing_key: None,
        ssh_key: None,
        ssh_host_alias: None,
    }
}

fn manifest(accounts: Vec<(&str, Account)>) -> Manifest {
    let mut m = Manifest::new(Settings::default());
    for (id, a) in accounts {
        m.insert_account(id.to_string(), a);
    }
    m
}

#[test]
fn default_settings_use_direnv() {
    assert_eq!(Settings::default().shell_integration, ShellIntegration::Direnv);
    assert_eq!(default_shell_integration(), ShellIntegration::Direnv);
}

#[test]
fn valid_manifest_passes() {
    let m = manifest(vec![
        ("work", account("Work User", "work@example.com", &["~/Developer/work"])),
        ("personal", account("Personal User", "personal@example.com", &["~/Developer/personal"])),
    ]);
    assert_eq!(m.validate_with_home(Some("/home/u")), Ok(()));
    assert_eq!(m.validate_with_home(None), Ok(()));
    assert_eq!(m.validate(), Ok(()));
}

#[test]
fn empty_manifest_is_rejected() {
    let m = manifest(vec![]);
    let e = m.validate_with_home(None).unwrap_err();
    assert_eq!(e, ConfigError::NoAccounts);
    assert_eq!(e.message(), "Manifest must contain at least one account.");
}

#[test]
fn blank_name_is_rejected() {
    let m = manifest(vec![("work", account(" \t\n", "w@example.com", &["/w"]))]);
    let e = m.validate_with_home(None).unwrap_err();
    assert_eq!(e, ConfigError::EmptyName { account: "work".to_string() });
    assert_eq!(e.message(), "Account 'work' has an empty name.");
}

#[test]
fn blank_email_is_rejected() {
    let m = manifest(vec![("work", account("W", "\u{3000}", &["/w"]))]);
    let e = m.validate_with_home(None).unwrap_err();
    assert_eq!(e, ConfigError::EmptyEmail { account: "work".to_string() });
    assert_eq!(e.message(), "Account 'work' has an empty email.");
}

#[test]
fn account_without_roots_is_rejected() {
    let m = manifest(vec![("work", account("W", "w@e", &[]))]);
    let e = m.validate_with_home(None).unwrap_err();
    assert_eq!(e, ConfigError::NoRoots { account: "work".to_string() });
    assert_eq!(e.message(), "Account 'work' has no roots configured.");
}

#[test]
fn first_failing_account_is_reported() {
    let m = manifest(vec![
        ("a", account("A", "a@e", &["/a"])),
        ("b", account("", "b@e", &["/b"])),
        ("c", account("C", "", &["/c"])),
    ]);
    assert_eq!(
        m.validate_with_home(None),
        Err(ConfigError::EmptyName { account: "b".to_string() })
    );
}

#[test]
fn duplicated_root_between_accounts_is_rejected() {
    let m = manifest(vec![
        ("work", account("W", "w@e", &["/src/shared"])),
        ("personal", account("P", "p@e", &["/src//shared/"])),
    ]);
    let e = m.validate_with_home(None).unwrap_err();
    assert_eq!(
        e,
        ConfigError::DuplicateRoot {
            root: "/src//shared/".to_string(),
            first: "work".to_string(),
            second: "personal".to_string(),
        }
    );
    assert_eq!(
        e.message(),
        "Root directory '/src//shared/' is duplicated between 'work' and 'personal'."
    );
}

#[test]
fn duplicated_root_after_home_expansion_is_rejected() {
    let m = manifest(vec![
        ("work", account("W", "w@e", &["~/code"])),
        ("personal", account("P", "p@e", &["/home/u/code"])),
    ]);
    let e = m.validate_with_home(Some("/home/u")).unwrap_err();
    assert_eq!(
        e,
        ConfigError::DuplicateRoot {
            root: "/home/u/code".to_string(),
            first: "work".to_string(),
            second: "personal".to_string(),
        }
    );
    // Without a home directory the two roots differ.
    assert_eq!(m.validate_with_home(None), Ok(()));
}

#[test]
fn duplicated_root_within_one_account_is_rejected() {
    let m = manifest(vec![("solo", account("S", "s@e", &["/x", "/y", "/x"]))]);
    assert_eq!(
        m.validate_with_home(None),
        Err(ConfigError::DuplicateRoot {
            root: "/x".to_string(),
            first: "solo".to_string(),
            second: "solo".to_string(),
        })
    );
}

#[test]
fn tilde_expansion() {
    assert_eq!(normalize_with_home("~/Developer/work", Some("/home/u")), "/home/u/Developer/work");
    assert_eq!(normalize_with_home("~", Some("/home/u")), "/home/u/");
    assert_eq!(normalize_with_home("~user/x", Some("/home/u")), "~user/x");
    assert_eq!(normalize_with_home("/abs/~/x", Some("/home/u")), "/abs/~/x");
    assert_eq!(normalize_with_home("~/x", None), "~/x");
    assert_eq!(normalize_path("/plain/path"), "/plain/path");
}

#[test]
fn adding_an_account_does_not_repair_an_invalid_manifest() {
    let mut m = manifest(vec![("a", account("A", "a@e", &["/x", "/x"]))]);
    assert!(m.validate_with_home(None).is_err());
    m.insert_account("b".to_string(), account("B", "b@e", &["/y"]));
    assert!(m.validate_with_home(None).is_err());
}

#[test]
fn blank_and_non_blank_names() {
    let m = manifest(vec![("a", account("   ", "a@e", &["/x"]))]);
    assert_eq!(
        m.validate_with_home(None),
        Err(ConfigError::EmptyName { account: "a".to_string() })
    );
    let m = manifest(vec![("a", account("A", "a@e", &["/x"]))]);
    assert_eq!(m.validate_with_home(None), Ok(()));
}

#[test]
fn inserting_an_existing_id_replaces_in_place() {
    let mut m = manifest(vec![
        ("work", account("W", "w@e", &["/w"])),
        ("personal", account("P", "p@e", &["/p"])),
    ]);
    assert!(m.insert_account("new".to_string(), account("N", "n@e", &["/n"])).is_none());
    let old = m.insert_account("work".to_string(), account("W2", "w2@e", &["/w2"]));
    assert_eq!(old.unwrap().name, "W");
    let ids: Vec<&str> = m.accounts().iter().map(|(id, _)| id.as_str()).collect();
    assert_eq!(ids, vec!["work", "personal", "new"]);
    assert_eq!(m.get("work").unwrap().name, "W2");
    assert!(m.get("absent").is_none());
    assert_eq!(m.accounts().len(), 3);
}

#[test]
fn validity_does_not_depend_on_account_order() {
    let a = ("a", account("A", "a@e", &["/x"]));
    let b = ("b", account("B", "b@e", &["/x/"]));
    let c = ("c", account("C", "c@e", &["/z"]));
    let m1 = manifest(vec![a.clone(), b.clone(), c.clone()]);
    let m2 = manifest(vec![c.clone(), b.clone(), a.clone()]);
    assert!(m1.validate_with_home(None).is_err());
    assert!(m2.validate_with_home(None).is_err());
    let m3 = manifest(vec![a.clone(), c.clone()]);
    let m4 = manifest(vec![c, a]);
    assert!(m3.validate_with_home(None).is_ok());
    assert!(m4.validate_with_home(None).is_ok());
}
