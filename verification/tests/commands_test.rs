use git_account_switcher::commands::{init_writes_template, report_init_run, InitOutcome};
use git_account_switcher::resolver::Resolver;
use git_account_switcher::ui::Reporter;

#[test]
fn init_writes_only_when_missing_or_forced() {
    assert!(init_writes_template(false, false));
    assert!(init_writes_template(false, true));
    assert!(init_writes_template(true, true));
    assert!(!init_writes_template(true, false));
}

#[test]
fn init_messages() {
    let mut r = Reporter::buffer();
    report_init_run(&mut r, "/c/accounts.toml", &InitOutcome::AlreadyExists).unwrap();
    assert_eq!(
        r.into_string(),
        "⚠ Manifest already exists at: /c/accounts.toml\nℹ Use --force to overwrite with a fresh template.\n"
    );
    let mut r = Reporter::buffer();
    report_init_run(&mut r, "/c/accounts.toml", &InitOutcome::Initialized).unwrap();
    assert_eq!(
        r.into_string(),
        "✔ Initialized manifest at: /c/accounts.toml\nℹ Edit this file to declare your accounts, then run: git-account-switcher apply\n"
    );
}

#[test]
fn default_base_directory() {
    assert_eq!(
        Resolver::default_base_dir(Some("/home/u/.config"), Some("/home/u")),
        "/home/u/.config/gh-multiaccount"
    );
    assert_eq!(Resolver::default_base_dir(None, Some("/home/u")), "/home/u/gh-multiaccount");
    assert_eq!(Resolver::default_base_dir(None, None), ".config/gh-multiaccount");
}
