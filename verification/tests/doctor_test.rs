use git_account_switcher::config::{Account, Manifest, Settings};
use git_account_switcher::doctor::{
    render_reports, report_doctor_run, CheckStatus, DiagnosticReport, Doctor, DoctorOutcome,
    FileEntry, HostSnapshot,
};
use git_account_switcher::ui::Reporter;

fn host(files: Vec<(&str, Option<u32>)>) -> HostSnapshot {
    HostSnapshot {
        home: Some("/home/u".to_string()),
        git_config: None,
        ssh_config: None,
        files: files
            .into_iter()
            .map(|(p, m)| FileEntry { path: p.to_string(), mode: m, modified: None })
            .collect(),
        manifest_modified: None,
    }
}

#[test]
fn git_include_present_passes() {
    let r = Doctor::check_git_include(
        "/home/u/.config/gh-multiaccount",
        Some("[include]\n    path = /home/u/.config/gh-multiaccount/git/includes.gitconfig\n"),
    );
    assert_eq!(r.check_name, "Git global include check");
    assert_eq!(r.status, CheckStatus::Passed);
}

#[test]
fn git_include_missing_warns() {
    let r = Doctor::check_git_include("/b", Some("[user]\n"));
    assert_eq!(
        r.status,
        CheckStatus::Warning(
            "~/.gitconfig does not include '/b/git/includes.gitconfig'. Add:\n  [include]\n    path = /b/git/includes.gitconfig".to_string()
        )
    );
    let r = Doctor::check_git_include("/b", None);
    assert_eq!(
        r.status,
        CheckStatus::Warning(
            "~/.gitconfig not found. Make sure to add:\n  [include]\n    path = /b/git/includes.gitconfig".to_string()
        )
    );
}

#[test]
fn ssh_include_checks() {
    let r = Doctor::check_ssh_include("/b", Some("Include /b/ssh/config\n"));
    assert_eq!(r.check_name, "SSH global include check");
    assert_eq!(r.status, CheckStatus::Passed);
    let r = Doctor::check_ssh_include("/b", Some(""));
    assert_eq!(
        r.status,
        CheckStatus::Warning(
            "~/.ssh/config does not include '/b/ssh/config'. Add near the top:\n  Include /b/ssh/config".to_string()
        )
    );
    let r = Doctor::check_ssh_include("/b", None);
    assert_eq!(
        r.status,
        CheckStatus::Warning(
            "~/.ssh/config not found. Add near the top of ~/.ssh/config:\n  Include /b/ssh/config".to_string()
        )
    );
}

#[test]
fn ssh_key_permissions() {
    let h = host(vec![
        ("/home/u/.ssh/tight", Some(0o100600)),
        ("/home/u/.ssh/readonly", Some(0o100400)),
        ("/home/u/.ssh/loose", Some(0o100644)),
        ("/home/u/.ssh/unknown", None),
    ]);
    let r = Doctor::check_ssh_key_permissions("work", "~/.ssh/tight", &h);
    assert_eq!(r.check_name, "SSH key permission check for account 'work'");
    assert_eq!(r.status, CheckStatus::Passed);
    assert_eq!(
        Doctor::check_ssh_key_permissions("work", "~/.ssh/readonly", &h).status,
        CheckStatus::Passed
    );
    assert_eq!(
        Doctor::check_ssh_key_permissions("work", "~/.ssh/loose", &h).status,
        CheckStatus::Warning(
            "SSH key '/home/u/.ssh/loose' has loose permissions (0644). Recommended: chmod 600 /home/u/.ssh/loose".to_string()
        )
    );
    assert_eq!(
        Doctor::check_ssh_key_permissions("work", "~/.ssh/unknown", &h).status,
        CheckStatus::Passed
    );
    assert_eq!(
        Doctor::check_ssh_key_permissions("work", "~/.ssh/absent", &h).status,
        CheckStatus::Error("SSH key file '/home/u/.ssh/absent' does not exist.".to_string())
    );
}

#[test]
fn diagnose_reports_in_order() {
    let mut m = Manifest::new(Settings::default());
    m.insert_account(
                "work".to_string(),
                Account {
                    name: "W".to_string(),
                    email: "w@e".to_string(),
                    roots: vec!["~/work".to_string(), "/missing".to_string()],
                    signing_key: None,
                    ssh_key: Some("~/.ssh/id_work".to_string()),
                    ssh_host_alias: None,
                },
    );
    m.insert_account(
                "personal".to_string(),
                Account {
                    name: "P".to_string(),
                    email: "p@e".to_string(),
                    roots: vec!["/gone".to_string()],
                    signing_key: None,
                    ssh_key: None,
                    ssh_host_alias: None,
                },
    );
    let h = host(vec![("/home/u/work", None), ("/home/u/.ssh/id_work", Some(0o600))]);
    let reports = Doctor::diagnose(&m, "/base", &h);
    let names: Vec<&str> = reports.iter().map(|r| r.check_name.as_str()).collect();
    assert_eq!(
        names,
        vec![
            "Git global include check",
            "SSH global include check",
            "Generated git configuration check",
            "Generated SSH configuration check",
            "SSH key permission check for account 'work'",
            "Root directory exists for account 'work'",
            "Root directory exists for account 'personal'",
        ]
    );
    assert_eq!(
        reports[2].status,
        CheckStatus::Warning(
            "Generated file '/base/git/includes.gitconfig' does not exist. Run 'git-account-switcher apply'.".to_string()
        )
    );
    assert_eq!(reports[4].status, CheckStatus::Passed);
    assert_eq!(
        reports[5].status,
        CheckStatus::Warning("Root directory '/missing' does not exist yet.".to_string())
    );
    assert_eq!(
        reports[6].status,
        CheckStatus::Warning("Root directory '/gone' does not exist yet.".to_string())
    );

    let mut reporter = Reporter::buffer();
    render_reports(&mut reporter, &reports).unwrap();
    let out = reporter.into_string();
    assert!(out.contains("✔ SSH key permission check for account 'work'\n"));
    assert!(out.contains(
        "⚠ Root directory exists for account 'personal': Root directory '/gone' does not exist yet.\n"
    ));
    assert_eq!(out.lines().count(), 10);
}

#[test]
fn files_are_found_as_paths() {
    let h = host(vec![("/home/u/.ssh//k/", Some(0o600))]);
    assert_eq!(
        Doctor::check_ssh_key_permissions("w", "~/.ssh/k", &h).status,
        CheckStatus::Passed
    );
}

#[test]
fn doctor_run_output() {
    let mut r = Reporter::buffer();
    report_doctor_run(&mut r, "/c/accounts.toml", &DoctorOutcome::ManifestMissing).unwrap();
    assert_eq!(
        r.into_string(),
        "\ngit-account-switcher diagnostics\n⚠ Manifest file not found at: /c/accounts.toml\nℹ Run 'git-account-switcher init' to create one.\n"
    );

    let mut r = Reporter::buffer();
    report_doctor_run(&mut r, "/c/a.toml", &DoctorOutcome::ManifestInvalid("bad".to_string()))
        .unwrap();
    assert_eq!(r.into_string(), "\ngit-account-switcher diagnostics\n✖ Manifest error: bad\n");

    let reports = vec![DiagnosticReport {
        check_name: "Check".to_string(),
        status: CheckStatus::Error("broken".to_string()),
    }];
    let mut r = Reporter::buffer();
    report_doctor_run(&mut r, "/c/a.toml", &DoctorOutcome::Diagnosed(reports)).unwrap();
    assert_eq!(
        r.into_string(),
        "\ngit-account-switcher diagnostics\n✔ Manifest syntax is valid: /c/a.toml\n✖ Check: broken\n\nDiagnostics complete.\n"
    );
}

#[test]
fn generated_files_drift() {
    let mut h = host(vec![]);
    h.files.push(FileEntry {
        path: "/base/git/includes.gitconfig".to_string(),
        mode: None,
        modified: Some(100),
    });
    h.files.push(FileEntry { path: "/base/ssh/config".to_string(), mode: None, modified: Some(300) });
    h.manifest_modified = Some(200);
    let m = Manifest::new(Settings::default());
    let reports = Doctor::diagnose(&m, "/base", &h);
    assert_eq!(reports.len(), 4);
    assert_eq!(reports[2].check_name, "Generated git configuration check");
    assert_eq!(
        reports[2].status,
        CheckStatus::Warning(
            "Generated file '/base/git/includes.gitconfig' is older than the manifest. Run 'git-account-switcher apply' to regenerate it.".to_string()
        )
    );
    assert_eq!(reports[3].check_name, "Generated SSH configuration check");
    assert_eq!(reports[3].status, CheckStatus::Passed);
    let r = Doctor::check_generated_file("n", "/base/ssh/config", &h);
    assert_eq!(r.status, CheckStatus::Passed);
    h.manifest_modified = None;
    assert_eq!(Doctor::check_generated_file("n", "/base/git/includes.gitconfig", &h).status, CheckStatus::Passed);
}
