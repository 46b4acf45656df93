//! Which account a directory belongs to, and the shell lines that export it.
//!
//! The account set in git's own configuration (`ghmultiaccount.account`)
//! wins; otherwise the first account, in manifest order, one of whose roots
//! contains the current directory.

use crate::cli::Shell;
use crate::config::{accounts_view, opt_view, AccountView, Manifest};
use crate::paths::{
    config_dir, expand_home, home_dir, join_path, normalize_with_home, path_has_prefix, path_join,
    path_starts_with,
};
use crate::text::{trim, trimmed};
use vstd::prelude::*;

verus! {

/// Account resolution.
pub struct Resolver;

/// A root directory of an account, as it is compared with the current directory.
#[derive(Clone, Debug, PartialEq, Eq)]
pub struct RootCandidate {
    pub account_id: String,
    pub root: String,
}

impl View for RootCandidate {
    type V = (Seq<char>, Seq<char>);

    open spec fn view(&self) -> (Seq<char>, Seq<char>) {
        (self.account_id@, self.root@)
    }
}

/// The text of an optional string slice.
pub open spec fn opt_str_view(o: Option<&str>) -> Option<Seq<char>> {
    match o {
        Some(s) => Some(s@),
        None => None,
    }
}

/// The account that `git config --get ghmultiaccount.account` reports: its
/// trimmed output, when the command succeeded and printed something.
pub open spec fn git_account_spec(success: bool, stdout: Seq<char>) -> Option<Seq<char>> {
    if success && trimmed(stdout).len() > 0 {
        Some(trimmed(stdout))
    } else {
        None
    }
}

/// Every root of every account, in manifest order, each with `~` expanded,
/// paired with the id of its account.
pub open spec fn candidates_spec(
    accounts: Seq<(Seq<char>, AccountView)>,
    home: Option<Seq<char>>,
) -> Seq<(Seq<char>, Seq<char>)>
    decreases accounts.len(),
{
    if accounts.len() == 0 {
        Seq::empty()
    } else {
        let (id, a) = accounts.last();
        candidates_spec(accounts.drop_last(), home) + a.roots.map_values(
            |r: Seq<char>| (id, expand_home(r, home)),
        )
    }
}

/// The account of the first candidate whose root contains `dir`.
pub open spec fn first_match(cands: Seq<(Seq<char>, Seq<char>)>, dir: Seq<char>) -> Option<
    Seq<char>,
>
    decreases cands.len(),
{
    if cands.len() == 0 {
        None
    } else if path_starts_with(dir, cands[0].1) {
        Some(cands[0].0)
    } else {
        first_match(cands.drop_first(), dir)
    }
}

/// The account for `dir`: the git setting first, then the roots.
pub open spec fn resolution(
    git_account: Option<Seq<char>>,
    cands: Seq<(Seq<char>, Seq<char>)>,
    dir: Option<Seq<char>>,
) -> Option<Seq<char>> {
    match git_account {
        Some(a) => Some(a),
        None => match dir {
            Some(d) => first_match(cands, d),
            None => None,
        },
    }
}

/// The directory that holds the per-account `gh` configurations by default.
pub open spec fn default_base_spec(config: Option<Seq<char>>, home: Option<Seq<char>>) -> Seq<
    char,
> {
    let dir = match config {
        Some(c) => Some(c),
        None => home,
    };
    match dir {
        Some(d) => path_join(path_join(d, "gh-multiaccount"@), "gh"@),
        None => ".config/gh-multiaccount/gh"@,
    }
}

/// The directory of the generated files and the manifest by default.
pub open spec fn default_dir_spec(config: Option<Seq<char>>, home: Option<Seq<char>>) -> Seq<char> {
    let dir = match config {
        Some(c) => Some(c),
        None => home,
    };
    match dir {
        Some(d) => path_join(d, "gh-multiaccount"@),
        None => ".config/gh-multiaccount"@,
    }
}

/// The shell line that points `gh` at the account's configuration, or
/// clears the setting when there is no account.
pub open spec fn exports_spec(account: Option<Seq<char>>, shell: Shell, base: Seq<char>) -> Seq<
    char,
> {
    match account {
        Some(acc) => {
            let dir = path_join(base, acc);
            match shell {
                Shell::Fish => "set -gx GH_CONFIG_DIR \""@ + dir + "\"\n"@,
                _ => "export GH_CONFIG_DIR=\""@ + dir + "\"\n"@,
            }
        },
        None => match shell {
            Shell::Fish => "set -e GH_CONFIG_DIR\n"@,
            _ => "unset GH_CONFIG_DIR\n"@,
        },
    }
}

/// The text of the candidates of a vector.
pub open spec fn candidates_view(v: Seq<RootCandidate>) -> Seq<(Seq<char>, Seq<char>)> {
    v.map_values(|c: RootCandidate| c@)
}

impl Resolver {
    /// Reads the account from the result of `git config --get ghmultiaccount.account`.
    pub fn account_from_git_output(success: bool, stdout: &str) -> (r: Option<String>)
        ensures
            opt_view(r) == git_account_spec(success, stdout@),
    {
        if success {
            let account = trim(stdout);
            if !account.as_str().is_empty() {
                return Some(account);
            }
        }
        None
    }

    /// The roots of all accounts, in manifest order, with `~` expanded
    /// against `home`, each paired with its account id.
    pub fn root_candidates(manifest: &Manifest, home: Option<&str>) -> (r: Vec<RootCandidate>)
        ensures
            candidates_view(r@) == candidates_spec(manifest@.accounts, opt_str_view(home)),
    {
        let accounts = manifest.accounts();
        let ghost accts = manifest@.accounts;
        let ghost hv = opt_str_view(home);
        let mut out: Vec<RootCandidate> = Vec::new();
        let mut k: usize = 0;
        assert(accts.take(0) =~= Seq::<(Seq<char>, AccountView)>::empty());
        assert(candidates_view(out@) =~= Seq::<(Seq<char>, Seq<char>)>::empty());
        while k < accounts.len()
            invariant
                accts == manifest@.accounts,
                accts == accounts_view(accounts@),
                hv == opt_str_view(home),
                k <= accounts.len(),
                candidates_view(out@) == candidates_spec(accts.take(k as int), hv),
            decreases accounts.len() - k,
        {
            let entry = &accounts[k];
            let id = &entry.0;
            let account = &entry.1;
            let ghost before = candidates_view(out@);
            let ghost roots = account@.roots;
            let ghost f = |r: Seq<char>| (id@, expand_home(r, hv));
            proof {
                assert(accts.take(k + 1).drop_last() =~= accts.take(k as int));
                assert(accts.take(k + 1).last() == accts[k as int]);
                assert(accts[k as int] == (id@, account@));
            }
            let mut j: usize = 0;
            assert(before + roots.take(0).map_values(f) =~= before);
            while j < account.roots.len()
                invariant
                    roots == account@.roots,
                    hv == opt_str_view(home),
                    f == (|r: Seq<char>| (id@, expand_home(r, hv))),
                    j <= account.roots.len(),
                    candidates_view(out@) == before + roots.take(j as int).map_values(f),
                decreases account.roots.len() - j,
            {
                let root = normalize_with_home(account.roots[j].as_str(), home);
                let ghost prev = candidates_view(out@);
                out.push(RootCandidate { account_id: id.clone(), root });
                proof {
                    assert(roots[j as int] == account.roots@[j as int]@);
                    assert(roots.take(j + 1).map_values(f) =~= roots.take(j as int).map_values(
                        f,
                    ).push(f(roots[j as int])));
                    assert(candidates_view(out@) =~= prev.push((id@, root@)));
                }
                j = j + 1;
            }
            assert(roots.take(j as int) =~= roots);
            k = k + 1;
        }
        assert(accts.take(k as int) =~= accts);
        out
    }

    /// The account of the first candidate whose root contains `current_dir`
    /// (comparing whole path components).
    pub fn match_root(candidates: &Vec<RootCandidate>, current_dir: &str) -> (r: Option<String>)
        ensures
            opt_view(r) == first_match(candidates_view(candidates@), current_dir@),
    {
        let ghost cv = candidates_view(candidates@);
        let mut i: usize = 0;
        assert(cv.skip(0) =~= cv);
        while i < candidates.len()
            invariant
                cv == candidates_view(candidates@),
                i <= candidates.len(),
                first_match(cv, current_dir@) == first_match(cv.skip(i as int), current_dir@),
            decreases candidates.len() - i,
        {
            assert(cv.skip(i as int)[0] == cv[i as int]);
            assert(cv.skip(i as int).drop_first() =~= cv.skip(i + 1));
            if path_has_prefix(current_dir, candidates[i].root.as_str()) {
                return Some(candidates[i].account_id.clone());
            }
            i = i + 1;
        }
        None
    }

    /// The account for the current directory: the account named by git's
    /// configuration when there is one, otherwise the account of the first
    /// root that contains the current directory (`None` when the current
    /// directory is unknown).
    pub fn resolve_account(
        git_account: Option<String>,
        candidates: &Vec<RootCandidate>,
        current_dir: Option<&str>,
    ) -> (r: Option<String>)
        ensures
            opt_view(r) == resolution(
                opt_view(git_account),
                candidates_view(candidates@),
                opt_str_view(current_dir),
            ),
            git_account is Some ==> opt_view(r) == opt_view(git_account),
            git_account is None && current_dir is None ==> r is None,
            git_account is None ==> (current_dir matches Some(d) ==> opt_view(r) == first_match(
                candidates_view(candidates@),
                d@,
            )),
    {
        match git_account {
            Some(a) => Some(a),
            None => match current_dir {
                Some(d) => Self::match_root(candidates, d),
                None => None,
            },
        }
    }

    /// The default directory for per-account `gh` configurations, from the
    /// user's configuration directory or, failing that, the home directory.
    pub fn default_config_base(config: Option<&str>, home: Option<&str>) -> (r: String)
        ensures
            r@ == default_base_spec(opt_str_view(config), opt_str_view(home)),
    {
        let dir = match config {
            Some(c) => Some(c),
            None => home,
        };
        match dir {
            Some(d) => {
                let app = join_path(d, "gh-multiaccount");
                join_path(app.as_str(), "gh")
            },
            None => String::from_str(".config/gh-multiaccount/gh"),
        }
    }

    /// The default directory for the manifest and the generated files, from
    /// the user's configuration directory or, failing that, the home directory.
    pub fn default_base_dir(config: Option<&str>, home: Option<&str>) -> (r: String)
        ensures
            r@ == default_dir_spec(opt_str_view(config), opt_str_view(home)),
    {
        let dir = match config {
            Some(c) => Some(c),
            None => home,
        };
        match dir {
            Some(d) => join_path(d, "gh-multiaccount"),
            None => String::from_str(".config/gh-multiaccount"),
        }
    }

    /// The shell exports for `account` with the given configuration base.
    pub fn exports_for(account: Option<&str>, shell: Shell, config_base: &str) -> (r: String)
        ensures
            r@ == exports_spec(opt_str_view(account), shell, config_base@),
    {
        match account {
            Some(acc) => {
                let dir = join_path(config_base, acc);
                match shell {
                    Shell::Fish => String::from_str("set -gx GH_CONFIG_DIR \"").concat(
                        dir.as_str(),
                    ).concat("\"\n"),
                    _ => String::from_str("export GH_CONFIG_DIR=\"").concat(dir.as_str()).concat(
                        "\"\n",
                    ),
                }
            },
            None => match shell {
                Shell::Fish => String::from_str("set -e GH_CONFIG_DIR\n"),
                _ => String::from_str("unset GH_CONFIG_DIR\n"),
            },
        }
    }

    /// The shell exports for `account`.  Without an explicit base, the base
    /// comes from the user's directories of this process.
    pub fn emit_env_exports(
        account: Option<&str>,
        shell: Shell,
        base_gh_config_dir: Option<&str>,
    ) -> (r: String)
        ensures
            base_gh_config_dir matches Some(b) ==> r@ == exports_spec(
                opt_str_view(account),
                shell,
                b@,
            ),
            base_gh_config_dir is None ==> exists|c: Option<Seq<char>>, h: Option<Seq<char>>|
                (c is Some ==> h is None) && r@ == exports_spec(
                    opt_str_view(account),
                    shell,
                    #[trigger] default_base_spec(c, h),
                ),
    {
        match base_gh_config_dir {
            Some(b) => Self::exports_for(account, shell, b),
            None => {
                let config = config_dir();
                let home = match config {
                    Some(_) => None,
                    None => home_dir(),
                };
                let c = match &config {
                    Some(s) => Some(s.as_str()),
                    None => None,
                };
                let h = match &home {
                    Some(s) => Some(s.as_str()),
                    None => None,
                };
                assert(opt_str_view(c) is Some ==> opt_str_view(h) is None);
                let base = Self::default_config_base(c, h);
                let r = Self::exports_for(account, shell, base.as_str());
                assert(r@ == exports_spec(
                    opt_str_view(account),
                    shell,
                    default_base_spec(opt_str_view(c), opt_str_view(h)),
                ));
                r
            },
        }
    }
}

/// Root matching picks the first candidate whose root contains the
/// directory: it returns that candidate's account, and no earlier candidate
/// contains the directory; it returns nothing exactly when no candidate does.
pub proof fn lemma_first_match_is_first(cands: Seq<(Seq<char>, Seq<char>)>, dir: Seq<char>)
    ensures
        first_match(cands, dir) is None <==> forall|i: int|
            0 <= i < cands.len() ==> !path_starts_with(dir, #[trigger] cands[i].1),
        first_match(cands, dir) matches Some(a) ==> exists|i: int|
            0 <= i < cands.len() && #[trigger] cands[i].0 == a && path_starts_with(dir, cands[i].1)
                && forall|j: int| 0 <= j < i ==> !path_starts_with(dir, #[trigger] cands[j].1),
    decreases cands.len(),
{
    if cands.len() > 0 {
        let rest = cands.drop_first();
        lemma_first_match_is_first(rest, dir);
        assert forall|i: int| 0 <= i < rest.len() implies #[trigger] rest[i] == cands[i + 1] by {}
        if !path_starts_with(dir, cands[0].1) {
            if first_match(rest, dir) is None {
                assert forall|i: int| 0 <= i < cands.len() implies !path_starts_with(
                    dir,
                    #[trigger] cands[i].1,
                ) by {
                    if i > 0 {
                        assert(cands[i] == rest[i - 1]);
                    }
                }
            } else {
                let a = first_match(rest, dir)->Some_0;
                let i = choose|i: int|
                    0 <= i < rest.len() && #[trigger] rest[i].0 == a && path_starts_with(
                        dir,
                        rest[i].1,
                    ) && forall|j: int| 0 <= j < i ==> !path_starts_with(dir, #[trigger] rest[j].1);
                assert(cands[i + 1] == rest[i]);
                assert forall|j: int| 0 <= j < i + 1 implies !path_starts_with(
                    dir,
                    #[trigger] cands[j].1,
                ) by {
                    if j > 0 {
                        assert(cands[j] == rest[j - 1]);
                    }
                }
                assert(!(forall|i: int|
                    0 <= i < cands.len() ==> !path_starts_with(dir, #[trigger] cands[i].1)));
            }
        }
    }
}

/// `cand` is a root of an account of `accounts`, with `~` expanded, paired
/// with that account's id.
pub open spec fn candidate_from_accounts(
    accounts: Seq<(Seq<char>, AccountView)>,
    home: Option<Seq<char>>,
    cand: (Seq<char>, Seq<char>),
) -> bool {
    exists|k: int, j: int|
        0 <= k < accounts.len() && 0 <= j < accounts[k].1.roots.len() && cand == (
            accounts[k].0,
            expand_home(accounts[k].1.roots[j], home),
        )
}

/// Every candidate root belongs to an account of the manifest: its account
/// id is that account's id and its path is one of the account's roots with
/// `~` expanded.
pub proof fn lemma_candidates_come_from_accounts(
    accounts: Seq<(Seq<char>, AccountView)>,
    home: Option<Seq<char>>,
)
    ensures
        forall|i: int|
            0 <= i < candidates_spec(accounts, home).len() ==> #[trigger] candidate_from_accounts(
                accounts,
                home,
                candidates_spec(accounts, home)[i],
            ),
    decreases accounts.len(),
{
    if accounts.len() > 0 {
        let pre = accounts.drop_last();
        lemma_candidates_come_from_accounts(pre, home);
        let (id, a) = accounts.last();
        let part = candidates_spec(pre, home);
        let tail = a.roots.map_values(|r: Seq<char>| (id, expand_home(r, home)));
        let whole = candidates_spec(accounts, home);
        assert(whole == part + tail);
        assert forall|i: int| 0 <= i < whole.len() implies #[trigger] candidate_from_accounts(
            accounts,
            home,
            whole[i],
        ) by {
            if i < part.len() {
                assert(whole[i] == part[i]);
                assert(candidate_from_accounts(pre, home, part[i]));
                let (k, j) = choose|k: int, j: int|
                    0 <= k < pre.len() && 0 <= j < pre[k].1.roots.len() && part[i] == (
                        pre[k].0,
                        expand_home(pre[k].1.roots[j], home),
                    );
                assert(pre[k] == accounts[k]);
                assert(whole[i] == (accounts[k].0, expand_home(accounts[k].1.roots[j], home)));
            } else {
                let j = i - part.len();
                assert(whole[i] == tail[j]);
                assert(accounts[accounts.len() - 1] == accounts.last());
                let kk = accounts.len() - 1;
                assert(whole[i] == (accounts[kk].0, expand_home(accounts[kk].1.roots[j], home)));
            }
        }
    }
}

/// Bash and zsh receive the same export lines.
pub proof fn lemma_bash_and_zsh_agree(account: Option<Seq<char>>, base: Seq<char>)
    ensures
        exports_spec(account, Shell::Bash, base) == exports_spec(account, Shell::Zsh, base),
{
}

/// The account set in git's configuration wins: whatever the roots and
/// whatever the directory (known or not), resolution gives that account.
pub proof fn lemma_git_account_wins(
    a: Seq<char>,
    cands: Seq<(Seq<char>, Seq<char>)>,
    dir: Option<Seq<char>>,
)
    ensures
        resolution(Some(a), cands, dir) == Some(a),
{
}

/// Without a git setting, the roots decide: the account of the first
/// candidate whose root contains the directory, and nothing when the
/// directory is unknown.
pub proof fn lemma_roots_decide_without_git(cands: Seq<(Seq<char>, Seq<char>)>, dir: Option<Seq<char>>)
    ensures
        dir is None ==> resolution(None, cands, dir) is None,
        dir matches Some(d) ==> resolution(None, cands, dir) == first_match(cands, d),
        dir matches Some(d) ==> (resolution(None, cands, dir) is None <==> forall|i: int|
            0 <= i < cands.len() ==> !path_starts_with(d, #[trigger] cands[i].1)),
{
    if let Some(d) = dir {
        lemma_first_match_is_first(cands, d);
    }
}

/// The default base of the per-account configurations lies in the user's
/// configuration directory whenever there is one (the home directory is
/// then not used), and in the home directory otherwise.
pub proof fn lemma_config_dir_preferred(c: Option<Seq<char>>, h: Option<Seq<char>>, other: Option<
    Seq<char>,
>)
    ensures
        c is Some ==> default_base_spec(c, h) == default_base_spec(c, other),
        c matches Some(cd) ==> default_base_spec(c, h) == path_join(
            path_join(cd, "gh-multiaccount"@),
            "gh"@,
        ),
        c is None ==> (h matches Some(hd) ==> default_base_spec(c, h) == path_join(
            path_join(hd, "gh-multiaccount"@),
            "gh"@,
        )),
{
}

} // verus!
