//! Diagnostics: whether the user's git and ssh configurations include the
//! generated files, whether ssh keys exist with tight permissions, and
//! whether the account roots exist.
//!
//! The checks read a snapshot of the host (home directory, the contents of
//! `~/.gitconfig` and `~/.ssh/config`, and the files that exist with their
//! permission bits) that the program takes before calling them.

use crate::config::{accounts_view, ids_distinct, opt_view, AccountView, Manifest};
use crate::paths::{expand_home, join_path, normalize_with_home, path_eq, path_join, paths_equal};
use crate::text::{contains, contains_seq, format_octal, lemma_contains_middle, octal};
use crate::ui::{badge_line, bold_in, section_line, AnsiColor, Reporter};
use vstd::prelude::*;

verus! {

/// The outcome of one check.
#[derive(Debug, PartialEq, Eq)]
pub enum CheckStatus {
    /// The check passed.
    Passed,
    Warning(String),
    Error(String),
}

/// One check and its outcome.
pub struct DiagnosticReport {
    pub check_name: String,
    pub status: CheckStatus,
}

/// The diagnostics.
pub struct Doctor;

/// A file or directory that exists, with its permission bits and its
/// modification time (in seconds) when they could be read.
#[derive(Clone, Debug)]
pub struct FileEntry {
    pub path: String,
    pub mode: Option<u32>,
    pub modified: Option<u64>,
}

/// What the checks read of the host.
#[derive(Clone, Debug)]
pub struct HostSnapshot {
    /// The user's home directory, if known.
    pub home: Option<String>,
    /// The contents of `~/.gitconfig`, when the home is known and the file exists.
    pub git_config: Option<String>,
    /// The contents of `~/.ssh/config`, when the home is known and the file exists.
    pub ssh_config: Option<String>,
    /// The paths that exist; a path that is not the same path as a listed
    /// one does not exist.
    pub files: Vec<FileEntry>,
    /// When the manifest file was last modified (in seconds), if known.
    pub manifest_modified: Option<u64>,
}

/// A check outcome as plain values.
pub enum StatusView {
    /// The check passed.
    Passed,
    Warning(Seq<char>),
    Error(Seq<char>),
}

/// A report as plain values.
pub struct ReportView {
    pub check_name: Seq<char>,
    pub status: StatusView,
}

/// A host snapshot as plain values; each file is its path and permission bits.
pub struct HostView {
    pub home: Option<Seq<char>>,
    pub git_config: Option<Seq<char>>,
    pub ssh_config: Option<Seq<char>>,
    pub files: Seq<(Seq<char>, Option<u32>, Option<u64>)>,
    pub manifest_modified: Option<u64>,
}

impl View for CheckStatus {
    type V = StatusView;

    open spec fn view(&self) -> StatusView {
        match self {
            CheckStatus::Passed => StatusView::Passed,
            CheckStatus::Warning(m) => StatusView::Warning(m@),
            CheckStatus::Error(m) => StatusView::Error(m@),
        }
    }
}

impl View for DiagnosticReport {
    type V = ReportView;

    open spec fn view(&self) -> ReportView {
        ReportView { check_name: self.check_name@, status: self.status@ }
    }
}

impl View for FileEntry {
    type V = (Seq<char>, Option<u32>, Option<u64>);

    open spec fn view(&self) -> (Seq<char>, Option<u32>, Option<u64>) {
        (self.path@, self.mode, self.modified)
    }
}

impl View for HostSnapshot {
    type V = HostView;

    open spec fn view(&self) -> HostView {
        HostView {
            home: opt_view(self.home),
            git_config: opt_view(self.git_config),
            ssh_config: opt_view(self.ssh_config),
            files: self.files@.map_values(|f: FileEntry| f@),
            manifest_modified: self.manifest_modified,
        }
    }
}

/// The reports of a vector as plain values.
pub open spec fn reports_view(v: Seq<DiagnosticReport>) -> Seq<ReportView> {
    v.map_values(|r: DiagnosticReport| r@)
}

/// The permission bits and modification time of the first listed file that
/// is the same path as `path`, if one is listed.
pub open spec fn file_lookup(files: Seq<(Seq<char>, Option<u32>, Option<u64>)>, path: Seq<char>) -> Option<
    (Option<u32>, Option<u64>),
>
    decreases files.len(),
{
    if files.len() == 0 {
        None
    } else if path_eq(files[0].0, path) {
        Some((files[0].1, files[0].2))
    } else {
        file_lookup(files.drop_first(), path)
    }
}

/// The generated git include file under `base`.
pub open spec fn git_include_target(base: Seq<char>) -> Seq<char> {
    path_join(path_join(base, "git"@), "includes.gitconfig"@)
}

/// The generated ssh configuration under `base`.
pub open spec fn ssh_include_target(base: Seq<char>) -> Seq<char> {
    path_join(path_join(base, "ssh"@), "config"@)
}

/// Whether `~/.gitconfig` mentions the generated include file.
pub open spec fn git_include_report(base: Seq<char>, git_config: Option<Seq<char>>) -> ReportView {
    let t = git_include_target(base);
    ReportView {
        check_name: "Git global include check"@,
        status: match git_config {
            Some(c) => if contains_seq(c, t) {
                StatusView::Passed
            } else {
                StatusView::Warning(
                    "~/.gitconfig does not include '"@ + t + "'. Add:\n  [include]\n    path = "@
                        + t,
                )
            },
            None => StatusView::Warning(
                "~/.gitconfig not found. Make sure to add:\n  [include]\n    path = "@ + t,
            ),
        },
    }
}

/// Whether `~/.ssh/config` mentions the generated ssh configuration.
pub open spec fn ssh_include_report(base: Seq<char>, ssh_config: Option<Seq<char>>) -> ReportView {
    let t = ssh_include_target(base);
    ReportView {
        check_name: "SSH global include check"@,
        status: match ssh_config {
            Some(c) => if contains_seq(c, t) {
                StatusView::Passed
            } else {
                StatusView::Warning(
                    "~/.ssh/config does not include '"@ + t + "'. Add near the top:\n  Include "@
                        + t,
                )
            },
            None => StatusView::Warning(
                "~/.ssh/config not found. Add near the top of ~/.ssh/config:\n  Include "@ + t,
            ),
        },
    }
}

/// Whether the file that `apply` generates at `target` exists and is not
/// older than the manifest: a missing or stale generated file means the
/// configuration has drifted from the manifest.
pub open spec fn generated_report(name: Seq<char>, target: Seq<char>, host: HostView) -> ReportView {
    ReportView {
        check_name: name,
        status: match file_lookup(host.files, target) {
            None => StatusView::Warning(
                "Generated file '"@ + target
                    + "' does not exist. Run 'git-account-switcher apply'."@,
            ),
            Some((_, Some(g))) => match host.manifest_modified {
                Some(m) => if g < m {
                    StatusView::Warning(
                        "Generated file '"@ + target
                            + "' is older than the manifest. Run 'git-account-switcher apply' to regenerate it."@,
                    )
                } else {
                    StatusView::Passed
                },
                None => StatusView::Passed,
            },
            Some((_, None)) => StatusView::Passed,
        },
    }
}

/// The drift checks of the two generated files.
pub open spec fn generated_reports(base: Seq<char>, host: HostView) -> Seq<ReportView> {
    seq![
        generated_report("Generated git configuration check"@, git_include_target(base), host),
        generated_report("Generated SSH configuration check"@, ssh_include_target(base), host),
    ]
}

/// The permission bits that an ssh key may have: owner read-write or owner read-only.
pub open spec fn key_mode_is_tight(mode: nat) -> bool {
    mode == 0o600 || mode == 0o400
}

/// An ssh key that exists with readable permission bits `m` passes exactly
/// when `m & 0o777` is owner read-write (0o600) or owner read-only (0o400);
/// otherwise the check warns, naming the mode in octal.  A key whose bits
/// cannot be read passes, and a missing key is an error.
pub proof fn lemma_key_check_verdict(id: Seq<char>, key: Seq<char>, host: HostView)
    ensures
        match file_lookup(host.files, expand_home(key, host.home)) {
            Some((Some(m), _)) => (key_report(id, key, host).status is Passed <==> (m % 512
                == 0o600 || m % 512 == 0o400)) && (key_report(id, key, host).status is Passed || (
            key_report(id, key, host).status is Warning && contains_seq(
                key_report(id, key, host).status->Warning_0,
                octal((m % 512) as nat),
            ))),
            Some((None, _)) => key_report(id, key, host).status is Passed,
            None => key_report(id, key, host).status is Error,
        },
{
    let norm = expand_home(key, host.home);
    match file_lookup(host.files, norm) {
        Some((Some(m), _)) => {
            let mode = (m % 512) as nat;
            if !key_mode_is_tight(mode) {
                lemma_contains_middle(
                    "SSH key '"@ + norm + "' has loose permissions (0"@,
                    octal(mode),
                    "). Recommended: chmod 600 "@ + norm,
                );
                assert("SSH key '"@ + norm + "' has loose permissions (0"@ + octal(mode)
                    + "). Recommended: chmod 600 "@ + norm =~= "SSH key '"@ + norm
                    + "' has loose permissions (0"@ + octal(mode) + ("). Recommended: chmod 600 "@
                    + norm));
            }
        },
        _ => {},
    }
}

/// The name of the ssh key check of account `id`.
pub open spec fn key_check_name(id: Seq<char>) -> Seq<char> {
    "SSH key permission check for account '"@ + id + "'"@
}

/// Whether the ssh key of account `id` exists and is not readable by others.
pub open spec fn key_report(id: Seq<char>, key: Seq<char>, host: HostView) -> ReportView {
    let norm = expand_home(key, host.home);
    let name = key_check_name(id);
    match file_lookup(host.files, norm) {
        None => ReportView {
            check_name: name,
            status: StatusView::Error("SSH key file '"@ + norm + "' does not exist."@),
        },
        Some((Some(m), _)) => {
            let mode = (m % 512) as nat;
            if key_mode_is_tight(mode) {
                ReportView { check_name: name, status: StatusView::Passed }
            } else {
                ReportView {
                    check_name: name,
                    status: StatusView::Warning(
                        "SSH key '"@ + norm + "' has loose permissions (0"@ + octal(mode)
                            + "). Recommended: chmod 600 "@ + norm,
                    ),
                }
            }
        },
        Some((None, _)) => ReportView { check_name: name, status: StatusView::Passed },
    }
}

/// The warning for a root of account `id` that does not exist, if it does not.
pub open spec fn root_report(id: Seq<char>, root: Seq<char>, host: HostView) -> Seq<ReportView> {
    let n = expand_home(root, host.home);
    if file_lookup(host.files, n) is Some {
        Seq::empty()
    } else {
        seq![
            ReportView {
                check_name: "Root directory exists for account '"@ + id + "'"@,
                status: StatusView::Warning("Root directory '"@ + n + "' does not exist yet."@),
            },
        ]
    }
}

/// The warnings for the roots of account `id` that do not exist, in order.
pub open spec fn root_reports(id: Seq<char>, roots: Seq<Seq<char>>, host: HostView) -> Seq<
    ReportView,
>
    decreases roots.len(),
{
    if roots.len() == 0 {
        Seq::empty()
    } else {
        root_reports(id, roots.drop_last(), host) + root_report(id, roots.last(), host)
    }
}

/// The reports of one account: its ssh key, if it names one, then its roots.
pub open spec fn account_reports(id: Seq<char>, a: AccountView, host: HostView) -> Seq<
    ReportView,
> {
    (match a.ssh_key {
        Some(k) => seq![key_report(id, k, host)],
        None => Seq::empty(),
    }) + root_reports(id, a.roots, host)
}

/// The reports of the accounts, account after account.
pub open spec fn accounts_reports(accounts: Seq<(Seq<char>, AccountView)>, host: HostView) -> Seq<
    ReportView,
>
    decreases accounts.len(),
{
    if accounts.len() == 0 {
        Seq::empty()
    } else {
        accounts_reports(accounts.drop_last(), host) + account_reports(
            accounts.last().0,
            accounts.last().1,
            host,
        )
    }
}

/// The reports that do not depend on the accounts: the git include check,
/// the ssh include check, then the drift checks of the generated git and
/// ssh configurations.
pub open spec fn host_reports(base: Seq<char>, host: HostView) -> Seq<ReportView> {
    seq![git_include_report(base, host.git_config), ssh_include_report(base, host.ssh_config)]
        + generated_reports(base, host)
}

/// All reports: the host checks, then the accounts' checks.
pub open spec fn diagnosis(m: Seq<(Seq<char>, AccountView)>, base: Seq<char>, host: HostView) -> Seq<
    ReportView,
> {
    host_reports(base, host) + accounts_reports(m, host)
}

/// The number of accounts that name an ssh key.
pub open spec fn key_count(accounts: Seq<(Seq<char>, AccountView)>) -> nat
    decreases accounts.len(),
{
    if accounts.len() == 0 {
        0
    } else {
        key_count(accounts.drop_last()) + if accounts.last().1.ssh_key is Some {
            1nat
        } else {
            0nat
        }
    }
}

/// The number of roots, among `roots`, that do not exist on the host.
pub open spec fn missing_roots(roots: Seq<Seq<char>>, host: HostView) -> nat
    decreases roots.len(),
{
    if roots.len() == 0 {
        0
    } else {
        missing_roots(roots.drop_last(), host) + if file_lookup(
            host.files,
            expand_home(roots.last(), host.home),
        ) is Some {
            0nat
        } else {
            1nat
        }
    }
}

/// The number of roots of all accounts that do not exist on the host.
pub open spec fn missing_root_count(accounts: Seq<(Seq<char>, AccountView)>, host: HostView) -> nat
    decreases accounts.len(),
{
    if accounts.len() == 0 {
        0
    } else {
        missing_root_count(accounts.drop_last(), host) + missing_roots(
            accounts.last().1.roots,
            host,
        )
    }
}

proof fn lemma_root_reports_len(id: Seq<char>, roots: Seq<Seq<char>>, host: HostView)
    ensures
        root_reports(id, roots, host).len() == missing_roots(roots, host),
    decreases roots.len(),
{
    if roots.len() > 0 {
        lemma_root_reports_len(id, roots.drop_last(), host);
    }
}

proof fn lemma_accounts_reports_len(accounts: Seq<(Seq<char>, AccountView)>, host: HostView)
    ensures
        accounts_reports(accounts, host).len() == key_count(accounts) + missing_root_count(
            accounts,
            host,
        ),
    decreases accounts.len(),
{
    if accounts.len() > 0 {
        lemma_accounts_reports_len(accounts.drop_last(), host);
        lemma_root_reports_len(accounts.last().0, accounts.last().1.roots, host);
    }
}

/// The diagnostics hold the git include check, the ssh include check, the
/// drift checks of the generated git and ssh configurations, then one
/// report per account that names an ssh key and one per root that does not
/// exist, and nothing else.
pub proof fn lemma_diagnosis_shape(
    accounts: Seq<(Seq<char>, AccountView)>,
    base: Seq<char>,
    host: HostView,
)
    ensures
        diagnosis(accounts, base, host).len() == 4 + key_count(accounts) + missing_root_count(
            accounts,
            host,
        ),
        diagnosis(accounts, base, host)[0] == git_include_report(base, host.git_config),
        diagnosis(accounts, base, host)[1] == ssh_include_report(base, host.ssh_config),
        diagnosis(accounts, base, host)[2] == generated_report(
            "Generated git configuration check"@,
            git_include_target(base),
            host,
        ),
        diagnosis(accounts, base, host)[3] == generated_report(
            "Generated SSH configuration check"@,
            ssh_include_target(base),
            host,
        ),
{
    lemma_accounts_reports_len(accounts, host);
}

/// Every account that names an ssh key has the result of its key check
/// among the diagnostics.
pub proof fn lemma_key_report_present(
    accounts: Seq<(Seq<char>, AccountView)>,
    base: Seq<char>,
    host: HostView,
    k: int,
)
    requires
        0 <= k < accounts.len(),
        accounts[k].1.ssh_key is Some,
    ensures
        diagnosis(accounts, base, host).contains(
            key_report(accounts[k].0, accounts[k].1.ssh_key->Some_0, host),
        ),
    decreases accounts.len(),
{
    let rep = key_report(accounts[k].0, accounts[k].1.ssh_key->Some_0, host);
    let d = diagnosis(accounts, base, host);
    let pre = accounts.drop_last();
    let last = account_reports(accounts.last().0, accounts.last().1, host);
    assert(accounts_reports(accounts, host) == accounts_reports(pre, host) + last);
    assert(d =~= diagnosis(pre, base, host) + last);
    if k == accounts.len() - 1 {
        assert(accounts.last() == accounts[k]);
        assert(last[0] == rep);
        assert(d[diagnosis(pre, base, host).len() as int] == rep);
    } else {
        assert(pre[k] == accounts[k]);
        lemma_key_report_present(pre, base, host, k);
        let i = choose|i: int| 0 <= i < diagnosis(pre, base, host).len() && diagnosis(pre, base, host)[i] == rep;
        assert(d[i] == rep);
    }
}

/// The number of reports named `name`.
pub open spec fn count_named(rs: Seq<ReportView>, name: Seq<char>) -> nat
    decreases rs.len(),
{
    if rs.len() == 0 {
        0
    } else {
        count_named(rs.drop_last(), name) + if rs.last().check_name == name {
            1nat
        } else {
            0nat
        }
    }
}

/// The number of accounts with id `id` that name an ssh key.
pub open spec fn keyed_accounts(accounts: Seq<(Seq<char>, AccountView)>, id: Seq<char>) -> nat
    decreases accounts.len(),
{
    if accounts.len() == 0 {
        0
    } else {
        keyed_accounts(accounts.drop_last(), id) + if accounts.last().0 == id
            && accounts.last().1.ssh_key is Some {
            1nat
        } else {
            0nat
        }
    }
}

proof fn lemma_count_concat(a: Seq<ReportView>, b: Seq<ReportView>, name: Seq<char>)
    ensures
        count_named(a + b, name) == count_named(a, name) + count_named(b, name),
    decreases b.len(),
{
    if b.len() == 0 {
        assert(a + b =~= a);
    } else {
        lemma_count_concat(a, b.drop_last(), name);
        assert((a + b).drop_last() =~= a + b.drop_last());
        assert((a + b).last() == b.last());
    }
}

proof fn lemma_key_name_first_char(id: Seq<char>)
    ensures
        key_check_name(id)[0] == 'S',
        key_check_name(id)[4] == 'k',
        key_check_name(id).len() > 4,
{
    reveal_strlit("SSH key permission check for account '");
    assert(key_check_name(id)[0] == "SSH key permission check for account '"@[0]);
    assert(key_check_name(id)[4] == "SSH key permission check for account '"@[4]);
}

proof fn lemma_key_name_injective(a: Seq<char>, b: Seq<char>)
    requires
        key_check_name(a) == key_check_name(b),
    ensures
        a == b,
{
    let p = "SSH key permission check for account '"@;
    let ka = key_check_name(a);
    let kb = key_check_name(b);
    assert(ka.len() == kb.len());
    assert(a.len() == b.len());
    assert(ka.subrange(p.len() as int, (p.len() + a.len()) as int) =~= a);
    assert(kb.subrange(p.len() as int, (p.len() + b.len()) as int) =~= b);
}

proof fn lemma_root_reports_not_key(id: Seq<char>, roots: Seq<Seq<char>>, host: HostView, other: Seq<char>)
    ensures
        count_named(root_reports(id, roots, host), key_check_name(other)) == 0,
    decreases roots.len(),
{
    if roots.len() > 0 {
        lemma_root_reports_not_key(id, roots.drop_last(), host, other);
        let one = root_report(id, roots.last(), host);
        lemma_count_concat(root_reports(id, roots.drop_last(), host), one, key_check_name(other));
        if one.len() > 0 {
            reveal_strlit("Root directory exists for account '");
            lemma_key_name_first_char(other);
            let n = "Root directory exists for account '"@ + id + "'"@;
            assert(n[0] == "Root directory exists for account '"@[0]);
            assert(one.last().check_name == n);
            assert(n[0] != key_check_name(other)[0]);
            assert(n != key_check_name(other));
            assert(one.drop_last() =~= Seq::<ReportView>::empty());
            assert(count_named(one.drop_last(), key_check_name(other)) == 0);
            assert(count_named(one, key_check_name(other)) == 0);
        } else {
            assert(count_named(one, key_check_name(other)) == 0);
        }
    }
}

proof fn lemma_accounts_key_count(
    accounts: Seq<(Seq<char>, AccountView)>,
    host: HostView,
    id: Seq<char>,
)
    ensures
        count_named(accounts_reports(accounts, host), key_check_name(id)) == keyed_accounts(
            accounts,
            id,
        ),
    decreases accounts.len(),
{
    if accounts.len() > 0 {
        let pre = accounts.drop_last();
        let (aid, a) = accounts.last();
        lemma_accounts_key_count(pre, host, id);
        let n = key_check_name(id);
        let key_part = match a.ssh_key {
            Some(k) => seq![key_report(aid, k, host)],
            None => Seq::<ReportView>::empty(),
        };
        lemma_count_concat(key_part, root_reports(aid, a.roots, host), n);
        lemma_count_concat(accounts_reports(pre, host), account_reports(aid, a, host), n);
        lemma_root_reports_not_key(aid, a.roots, host, id);
        assert(account_reports(aid, a, host) == key_part + root_reports(aid, a.roots, host));
        assert(accounts_reports(accounts, host) == accounts_reports(pre, host) + account_reports(
            aid,
            a,
            host,
        ));
        if a.ssh_key is Some {
            assert(key_part.drop_last() =~= Seq::<ReportView>::empty());
            assert(count_named(key_part.drop_last(), n) == 0);
            assert(key_part.last().check_name == key_check_name(aid));
            if key_check_name(aid) == n {
                lemma_key_name_injective(aid, id);
                assert(count_named(key_part, n) == 1);
            } else {
                if aid == id {
                    assert(false);
                }
                assert(count_named(key_part, n) == 0);
            }
        } else {
            assert(count_named(key_part, n) == 0);
        }
    }
}

proof fn lemma_keyed_accounts_unique(accounts: Seq<(Seq<char>, AccountView)>, k: int)
    requires
        ids_distinct(accounts),
        0 <= k < accounts.len(),
    ensures
        keyed_accounts(accounts, accounts[k].0) == if accounts[k].1.ssh_key is Some {
            1nat
        } else {
            0nat
        },
    decreases accounts.len(),
{
    let pre = accounts.drop_last();
    assert(ids_distinct(pre)) by {
        assert forall|i: int, j: int| 0 <= i < j < pre.len() implies #[trigger] pre[i].0 != #[trigger] pre[j].0 by {
            assert(pre[i] == accounts[i] && pre[j] == accounts[j]);
        }
    }
    if k == accounts.len() - 1 {
        lemma_keyed_accounts_absent(pre, accounts[k].0);
        assert forall|i: int| 0 <= i < pre.len() implies #[trigger] pre[i].0 != accounts[k].0 by {
            assert(pre[i] == accounts[i]);
        }
    } else {
        assert(pre[k] == accounts[k]);
        lemma_keyed_accounts_unique(pre, k);
        assert(accounts.last() == accounts[accounts.len() - 1]);
    }
}

proof fn lemma_keyed_accounts_absent(accounts: Seq<(Seq<char>, AccountView)>, id: Seq<char>)
    ensures
        (forall|i: int| 0 <= i < accounts.len() ==> #[trigger] accounts[i].0 != id) ==> keyed_accounts(
            accounts,
            id,
        ) == 0,
    decreases accounts.len(),
{
    if accounts.len() > 0 {
        let pre = accounts.drop_last();
        lemma_keyed_accounts_absent(pre, id);
        if forall|i: int| 0 <= i < accounts.len() ==> #[trigger] accounts[i].0 != id {
            assert forall|i: int| 0 <= i < pre.len() implies #[trigger] pre[i].0 != id by {
                assert(pre[i] == accounts[i]);
            }
            assert(accounts[accounts.len() - 1] == accounts.last());
        }
    }
}

/// When account ids are distinct, each account has exactly one ssh key
/// report among the diagnostics if it names a key, and none otherwise.
pub proof fn lemma_one_key_report_per_keyed_account(
    accounts: Seq<(Seq<char>, AccountView)>,
    base: Seq<char>,
    host: HostView,
    k: int,
)
    requires
        ids_distinct(accounts),
        0 <= k < accounts.len(),
    ensures
        count_named(diagnosis(accounts, base, host), key_check_name(accounts[k].0)) == if accounts[k].1.ssh_key is Some {
            1nat
        } else {
            0nat
        },
{
    let id = accounts[k].0;
    let n = key_check_name(id);
    let head = host_reports(base, host);
    lemma_count_concat(head, accounts_reports(accounts, host), n);
    lemma_accounts_key_count(accounts, host, id);
    lemma_keyed_accounts_unique(accounts, k);
    lemma_key_name_first_char(id);
    reveal_strlit("Git global include check");
    reveal_strlit("SSH global include check");
    reveal_strlit("Generated git configuration check");
    reveal_strlit("Generated SSH configuration check");
    assert(head.len() == 4);
    assert(head[0].check_name[0] != n[0]);
    assert(head[1].check_name[4] != n[4]);
    assert(head[2].check_name[0] != n[0]);
    assert(head[3].check_name[0] != n[0]);
    assert forall|i: int| 0 <= i < head.len() implies (#[trigger] head[i]).check_name != n by {
        if i == 0 {
            assert(head[0].check_name[0] != n[0]);
        } else if i == 1 {
            assert(head[1].check_name[4] != n[4]);
        } else if i == 2 {
            assert(head[2].check_name[0] != n[0]);
        } else {
            assert(head[3].check_name[0] != n[0]);
        }
    }
    lemma_count_none(head, n);
}

proof fn lemma_count_none(rs: Seq<ReportView>, name: Seq<char>)
    requires
        forall|i: int| 0 <= i < rs.len() ==> (#[trigger] rs[i]).check_name != name,
    ensures
        count_named(rs, name) == 0,
    decreases rs.len(),
{
    if rs.len() > 0 {
        assert forall|i: int| 0 <= i < rs.drop_last().len() implies (
        #[trigger] rs.drop_last()[i]).check_name != name by {
            assert(rs.drop_last()[i] == rs[i]);
        }
        lemma_count_none(rs.drop_last(), name);
        assert(rs.last() == rs[rs.len() - 1]);
    }
}

/// The text of a string's optional contents as a slice option.
fn as_opt_str(o: &Option<String>) -> (r: Option<&str>)
    ensures
        match r {
            Some(s) => o is Some && s@ == o->Some_0@,
            None => o is None,
        },
{
    match o {
        Some(s) => Some(s.as_str()),
        None => None,
    }
}

impl Doctor {
    /// The permission bits of the first listed file whose text is `path`.
    fn lookup(files: &Vec<FileEntry>, path: &str) -> (r: Option<(Option<u32>, Option<u64>)>)
        ensures
            r == file_lookup(files@.map_values(|f: FileEntry| f@), path@),
    {
        let ghost fv = files@.map_values(|f: FileEntry| f@);
        let mut i: usize = 0;
        assert(fv.skip(0) =~= fv);
        while i < files.len()
            invariant
                fv == files@.map_values(|f: FileEntry| f@),
                i <= files.len(),
                file_lookup(fv, path@) == file_lookup(fv.skip(i as int), path@),
            decreases files.len() - i,
        {
            assert(fv.skip(i as int)[0] == fv[i as int]);
            assert(fv.skip(i as int).drop_first() =~= fv.skip(i + 1));
            assert(fv[i as int].0 == files@[i as int].path@);
            if paths_equal(files[i].path.as_str(), path) {
                return Some((files[i].mode, files[i].modified));
            }
            i = i + 1;
        }
        None
    }

    /// Checks that `~/.gitconfig` includes the generated git configuration.
    pub fn check_git_include(base_dir: &str, git_config: Option<&str>) -> (r: DiagnosticReport)
        ensures
            r@ == git_include_report(base_dir@, match git_config { Some(c) => Some(c@), None => None }),
    {
        let dir = join_path(base_dir, "git");
        let target = join_path(dir.as_str(), "includes.gitconfig");
        let status = match git_config {
            Some(content) => if contains(content, target.as_str()) {
                CheckStatus::Passed
            } else {
                CheckStatus::Warning(
                    String::from_str("~/.gitconfig does not include '").concat(
                        target.as_str(),
                    ).concat("'. Add:\n  [include]\n    path = ").concat(target.as_str()),
                )
            },
            None => CheckStatus::Warning(
                String::from_str(
                    "~/.gitconfig not found. Make sure to add:\n  [include]\n    path = ",
                ).concat(target.as_str()),
            ),
        };
        DiagnosticReport { check_name: String::from_str("Git global include check"), status }
    }

    /// Checks that `~/.ssh/config` includes the generated ssh configuration.
    pub fn check_ssh_include(base_dir: &str, ssh_config: Option<&str>) -> (r: DiagnosticReport)
        ensures
            r@ == ssh_include_report(base_dir@, match ssh_config { Some(c) => Some(c@), None => None }),
    {
        let dir = join_path(base_dir, "ssh");
        let target = join_path(dir.as_str(), "config");
        let status = match ssh_config {
            Some(content) => if contains(content, target.as_str()) {
                CheckStatus::Passed
            } else {
                CheckStatus::Warning(
                    String::from_str("~/.ssh/config does not include '").concat(
                        target.as_str(),
                    ).concat("'. Add near the top:\n  Include ").concat(target.as_str()),
                )
            },
            None => CheckStatus::Warning(
                String::from_str(
                    "~/.ssh/config not found. Add near the top of ~/.ssh/config:\n  Include ",
                ).concat(target.as_str()),
            ),
        };
        DiagnosticReport { check_name: String::from_str("SSH global include check"), status }
    }

    /// Checks that the file that `apply` generates at `target` exists and is
    /// not older than the manifest.
    pub fn check_generated_file(check_name: &str, target: &str, host: &HostSnapshot) -> (r:
        DiagnosticReport)
        ensures
            r@ == generated_report(check_name@, target@, host@),
    {
        let status = match Self::lookup(&host.files, target) {
            None => CheckStatus::Warning(
                String::from_str("Generated file '").concat(target).concat(
                    "' does not exist. Run 'git-account-switcher apply'.",
                ),
            ),
            Some((_, Some(generated))) => match host.manifest_modified {
                Some(manifest) => if generated < manifest {
                    CheckStatus::Warning(
                        String::from_str("Generated file '").concat(target).concat(
                            "' is older than the manifest. Run 'git-account-switcher apply' to regenerate it.",
                        ),
                    )
                } else {
                    CheckStatus::Passed
                },
                None => CheckStatus::Passed,
            },
            Some((_, None)) => CheckStatus::Passed,
        };
        DiagnosticReport { check_name: String::from_str(check_name), status }
    }

    /// Checks that the ssh key of account `account_id` exists and that only
    /// its owner can read it.
    pub fn check_ssh_key_permissions(
        account_id: &str,
        key_path: &str,
        host: &HostSnapshot,
    ) -> (r: DiagnosticReport)
        ensures
            r@ == key_report(account_id@, key_path@, host@),
            match file_lookup(host@.files, expand_home(key_path@, host@.home)) {
                Some((Some(m), _)) => (r.status is Passed <==> (m % 512 == 0o600 || m % 512
                    == 0o400)) && (r.status is Passed || (r.status is Warning && contains_seq(
                    r@.status->Warning_0,
                    octal((m % 512) as nat),
                ))),
                Some((None, _)) => r.status is Passed,
                None => r.status is Error,
            },
    {
        proof {
            lemma_key_check_verdict(account_id@, key_path@, host@);
        }
        let norm = normalize_with_home(key_path, as_opt_str(&host.home));
        let check_name = String::from_str("SSH key permission check for account '").concat(
            account_id,
        ).concat("'");
        match Self::lookup(&host.files, norm.as_str()) {
            None => DiagnosticReport {
                check_name,
                status: CheckStatus::Error(
                    String::from_str("SSH key file '").concat(norm.as_str()).concat(
                        "' does not exist.",
                    ),
                ),
            },
            Some((Some(bits), _)) => {
                let mode = bits & 0o777;
                assert(bits & 0o777 == bits % 512) by (bit_vector);
                if mode != 0o600 && mode != 0o400 {
                    DiagnosticReport {
                        check_name,
                        status: CheckStatus::Warning(
                            String::from_str("SSH key '").concat(norm.as_str()).concat(
                                "' has loose permissions (0",
                            ).concat(format_octal(mode).as_str()).concat(
                                "). Recommended: chmod 600 ",
                            ).concat(norm.as_str()),
                        ),
                    }
                } else {
                    DiagnosticReport { check_name, status: CheckStatus::Passed }
                }
            },
            Some((None, _)) => DiagnosticReport { check_name, status: CheckStatus::Passed },
        }
    }

    /// Runs all checks: the git and ssh includes, whether the generated git
    /// and ssh configurations exist and are not older than the manifest,
    /// then for each account (in order) its ssh key, if it names one, and a
    /// warning for each root that does not exist.
    pub fn diagnose(manifest: &Manifest, base_dir: &str, host: &HostSnapshot) -> (r: Vec<
        DiagnosticReport,
    >)
        ensures
            reports_view(r@) == diagnosis(manifest@.accounts, base_dir@, host@),
    {
        let accounts = manifest.accounts();
        let ghost accts = manifest@.accounts;
        let ghost hv = host@;
        let mut reports: Vec<DiagnosticReport> = Vec::new();
        reports.push(Self::check_git_include(base_dir, as_opt_str(&host.git_config)));
        reports.push(Self::check_ssh_include(base_dir, as_opt_str(&host.ssh_config)));
        let git_dir = join_path(base_dir, "git");
        let git_target = join_path(git_dir.as_str(), "includes.gitconfig");
        reports.push(
            Self::check_generated_file("Generated git configuration check", git_target.as_str(), host),
        );
        let ssh_dir = join_path(base_dir, "ssh");
        let ssh_target = join_path(ssh_dir.as_str(), "config");
        reports.push(
            Self::check_generated_file("Generated SSH configuration check", ssh_target.as_str(), host),
        );
        let ghost head = reports_view(reports@);
        assert(head =~= host_reports(base_dir@, hv));
        let mut k: usize = 0;
        assert(accts.take(0) =~= Seq::<(Seq<char>, AccountView)>::empty());
        assert(head + accounts_reports(accts.take(0), hv) =~= head);
        while k < accounts.len()
            invariant
                accts == manifest@.accounts,
                accts == accounts_view(accounts@),
                hv == host@,
                k <= accounts.len(),
                reports_view(reports@) == head + accounts_reports(accts.take(k as int), hv),
            decreases accounts.len() - k,
        {
            let entry = &accounts[k];
            let id = &entry.0;
            let account = &entry.1;
            let ghost before = reports_view(reports@);
            proof {
                assert(accts.take(k + 1).drop_last() =~= accts.take(k as int));
                assert(accts.take(k + 1).last() == accts[k as int]);
                assert(accts[k as int] == (id@, account@));
            }
            match &account.ssh_key {
                Some(key) => {
                    let rep = Self::check_ssh_key_permissions(id.as_str(), key.as_str(), host);
                    reports.push(rep);
                },
                None => {},
            }
            let ghost key_part = match account@.ssh_key {
                Some(kk) => seq![key_report(id@, kk, hv)],
                None => Seq::<ReportView>::empty(),
            };
            assert(reports_view(reports@) =~= before + key_part);
            let ghost roots = account@.roots;
            let mut j: usize = 0;
            assert(roots.take(0) =~= Seq::<Seq<char>>::empty());
            assert(before + key_part + root_reports(id@, roots.take(0), hv) =~= before + key_part);
            while j < account.roots.len()
                invariant
                    roots == account@.roots,
                    hv == host@,
                    j <= account.roots.len(),
                    reports_view(reports@) == before + key_part + root_reports(
                        id@,
                        roots.take(j as int),
                        hv,
                    ),
                decreases account.roots.len() - j,
            {
                let ghost prev = reports_view(reports@);
                let n = normalize_with_home(account.roots[j].as_str(), as_opt_str(&host.home));
                proof {
                    assert(roots.take(j + 1).drop_last() =~= roots.take(j as int));
                    assert(roots.take(j + 1).last() == roots[j as int]);
                    assert(roots[j as int] == account.roots@[j as int]@);
                }
                match Self::lookup(&host.files, n.as_str()) {
                    Some(_) => {
                        assert(prev + root_report(id@, roots[j as int], hv) =~= prev);
                    },
                    None => {
                        let rep = DiagnosticReport {
                            check_name: String::from_str("Root directory exists for account '").concat(
                                id.as_str(),
                            ).concat("'"),
                            status: CheckStatus::Warning(
                                String::from_str("Root directory '").concat(n.as_str()).concat(
                                    "' does not exist yet.",
                                ),
                            ),
                        };
                        reports.push(rep);
                        assert(reports_view(reports@) =~= prev + root_report(
                            id@,
                            roots[j as int],
                            hv,
                        ));
                    },
                }
                assert(before + key_part + root_reports(id@, roots.take(j + 1), hv) =~= prev
                    + root_report(id@, roots[j as int], hv));
                j = j + 1;
            }
            assert(roots.take(j as int) =~= roots);
            assert(head + accounts_reports(accts.take(k + 1), hv) =~= before + key_part
                + root_reports(id@, roots, hv));
            k = k + 1;
        }
        assert(accts.take(k as int) =~= accts);
        reports
    }
}

/// The status line of one report: a check mark and the check's name when it
/// passed, otherwise a warning or error badge with the name and the message.
pub open spec fn report_line(r: ReportView, styled: bool) -> Seq<char> {
    match r.status {
        StatusView::Passed => badge_line(bold_in(AnsiColor::Green), "✔"@, r.check_name, styled),
        StatusView::Warning(m) => badge_line(
            bold_in(AnsiColor::Yellow),
            "⚠"@,
            r.check_name + ": "@ + m,
            styled,
        ),
        StatusView::Error(m) => badge_line(
            bold_in(AnsiColor::Red),
            "✖"@,
            r.check_name + ": "@ + m,
            styled,
        ),
    }
}

/// The status lines of the reports, in order.
pub open spec fn report_lines(rs: Seq<ReportView>, styled: bool) -> Seq<char>
    decreases rs.len(),
{
    if rs.len() == 0 {
        Seq::empty()
    } else {
        report_lines(rs.drop_last(), styled) + report_line(rs.last(), styled)
    }
}

/// Writes one status line per report.
pub fn render_reports(reporter: &mut Reporter, reports: &Vec<DiagnosticReport>) -> (r:
    std::io::Result<()>)
    ensures
        r is Ok,
        final(reporter).is_styled() == old(reporter).is_styled(),
        final(reporter)@ == old(reporter)@ + report_lines(
            reports_view(reports@),
            old(reporter).is_styled(),
        ),
{
    let ghost start = reporter@;
    let ghost st = reporter.is_styled();
    let ghost rv = reports_view(reports@);
    let mut i: usize = 0;
    assert(rv.take(0) =~= Seq::<ReportView>::empty());
    assert(start + report_lines(rv.take(0), st) =~= start);
    while i < reports.len()
        invariant
            rv == reports_view(reports@),
            i <= reports.len(),
            reporter.is_styled() == st,
            reporter@ == start + report_lines(rv.take(i as int), st),
        decreases reports.len() - i,
    {
        let report = &reports[i];
        let ghost before = reporter@;
        match &report.status {
            CheckStatus::Passed => {
                let _ = reporter.success(report.check_name.as_str());
            },
            CheckStatus::Warning(msg) => {
                let line = report.check_name.clone().concat(": ").concat(msg.as_str());
                let _ = reporter.warn(line.as_str());
            },
            CheckStatus::Error(msg) => {
                let line = report.check_name.clone().concat(": ").concat(msg.as_str());
                let _ = reporter.error(line.as_str());
            },
        }
        proof {
            assert(rv.take(i + 1).drop_last() =~= rv.take(i as int));
            assert(rv.take(i + 1).last() == rv[i as int]);
            assert(rv[i as int] == report@);
            assert(reporter@ == before + report_line(report@, st));
        }
        i = i + 1;
    }
    assert(rv.take(i as int) =~= rv);
    Ok(())
}

/// How far a run of the diagnostics got: the manifest file is missing, it
/// failed to load (with the error's text), or it loaded and was diagnosed.
pub enum DoctorOutcome {
    ManifestMissing,
    ManifestInvalid(String),
    Diagnosed(Vec<DiagnosticReport>),
}

/// The whole output of a run of the diagnostics for the manifest at `path`.
pub open spec fn doctor_run_text(path: Seq<char>, outcome: DoctorOutcome, styled: bool) -> Seq<
    char,
> {
    section_line("git-account-switcher diagnostics"@, styled) + match outcome {
        DoctorOutcome::ManifestMissing => badge_line(
            bold_in(AnsiColor::Yellow),
            "⚠"@,
            "Manifest file not found at: "@ + path,
            styled,
        ) + badge_line(
            bold_in(AnsiColor::Cyan),
            "ℹ"@,
            "Run 'git-account-switcher init' to create one."@,
            styled,
        ),
        DoctorOutcome::ManifestInvalid(e) => badge_line(
            bold_in(AnsiColor::Red),
            "✖"@,
            "Manifest error: "@ + e@,
            styled,
        ),
        DoctorOutcome::Diagnosed(reports) => badge_line(
            bold_in(AnsiColor::Green),
            "✔"@,
            "Manifest syntax is valid: "@ + path,
            styled,
        ) + report_lines(reports_view(reports@), styled) + "\nDiagnostics complete."@ + "\n"@,
    }
}

/// Writes the output of a run of the diagnostics: a title, then either the
/// missing-manifest warning and hint, the manifest error, or the
/// confirmation that the manifest is valid followed by one line per report
/// and a closing line.
pub fn report_doctor_run(reporter: &mut Reporter, config_path: &str, outcome: &DoctorOutcome) -> (r:
    std::io::Result<()>)
    ensures
        r is Ok,
        final(reporter).is_styled() == old(reporter).is_styled(),
        final(reporter)@ == old(reporter)@ + doctor_run_text(
            config_path@,
            *outcome,
            old(reporter).is_styled(),
        ),
{
    let ghost start = reporter@;
    let ghost st = reporter.is_styled();
    let _ = reporter.section("git-account-switcher diagnostics");
    let ghost after_title = reporter@;
    match outcome {
        DoctorOutcome::ManifestMissing => {
            let msg = String::from_str("Manifest file not found at: ").concat(config_path);
            let _ = reporter.warn(msg.as_str());
            let _ = reporter.info("Run 'git-account-switcher init' to create one.");
            assert(reporter@ =~= start + doctor_run_text(config_path@, *outcome, st));
        },
        DoctorOutcome::ManifestInvalid(e) => {
            let msg = String::from_str("Manifest error: ").concat(e.as_str());
            let _ = reporter.error(msg.as_str());
            assert(reporter@ =~= start + doctor_run_text(config_path@, *outcome, st));
        },
        DoctorOutcome::Diagnosed(reports) => {
            let msg = String::from_str("Manifest syntax is valid: ").concat(config_path);
            let _ = reporter.success(msg.as_str());
            let _ = render_reports(reporter, reports);
            let _ = reporter.raw_line("\nDiagnostics complete.");
            assert(reporter@ =~= start + doctor_run_text(config_path@, *outcome, st));
        },
    }
    Ok(())
}

} // verus!
