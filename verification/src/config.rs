//! The manifest (`accounts.toml`) model and its validation.
//!
//! Accounts are kept in the order in which they are listed; the validation
//! reports the first rule that the accounts break, in that order.

use crate::paths::{expand_home, home_dir, normalize_with_home, path_eq, paths_equal};
use crate::text::{is_blank, trim};
use vstd::prelude::*;

verus! {

/// How the shell picks up the account for the current directory.
#[derive(Clone, Copy, Debug, PartialEq, Eq, Structural)]
pub enum ShellIntegration {
    Direnv,
    Wrapper,
    /// No shell integration (`"none"` in the manifest).
    Disabled,
}

/// Global settings of the manifest.
#[derive(Clone, Copy, Debug, PartialEq, Eq, Structural)]
pub struct Settings {
    pub shell_integration: ShellIntegration,
}

/// The shell integration used when the manifest names none.
pub fn default_shell_integration() -> (s: ShellIntegration)
    ensures
        s == ShellIntegration::Direnv,
{
    ShellIntegration::Direnv
}

impl Default for Settings {
    fn default() -> (s: Self)
        ensures
            s.shell_integration == ShellIntegration::Direnv,
    {
        Settings { shell_integration: default_shell_integration() }
    }
}

/// One declared account.  Paths are held as text.
#[derive(Clone, Debug, PartialEq, Eq)]
pub struct Account {
    pub name: String,
    pub email: String,
    pub roots: Vec<String>,
    pub signing_key: Option<String>,
    pub ssh_key: Option<String>,
    pub ssh_host_alias: Option<String>,
}

/// The text of an optional string.
pub open spec fn opt_view(o: Option<String>) -> Option<Seq<char>> {
    match o {
        Some(s) => Some(s@),
        None => None,
    }
}

/// The text of each string of a vector.
pub open spec fn strings_view(v: Seq<String>) -> Seq<Seq<char>> {
    v.map_values(|s: String| s@)
}

/// An account as plain text values.
pub struct AccountView {
    pub name: Seq<char>,
    pub email: Seq<char>,
    pub roots: Seq<Seq<char>>,
    pub signing_key: Option<Seq<char>>,
    pub ssh_key: Option<Seq<char>>,
    pub ssh_host_alias: Option<Seq<char>>,
}

impl View for Account {
    type V = AccountView;

    open spec fn view(&self) -> AccountView {
        AccountView {
            name: self.name@,
            email: self.email@,
            roots: strings_view(self.roots@),
            signing_key: opt_view(self.signing_key),
            ssh_key: opt_view(self.ssh_key),
            ssh_host_alias: opt_view(self.ssh_host_alias),
        }
    }
}

/// The whole manifest: settings, and the accounts keyed by their id, in
/// the order in which they were added.  No two accounts share an id.
#[derive(Debug, PartialEq, Eq)]
pub struct Manifest {
    pub settings: Settings,
    accounts: Vec<(String, Account)>,
}

/// A manifest as plain values: the accounts as (id, account) pairs in order.
pub struct ManifestView {
    pub shell_integration: ShellIntegration,
    pub accounts: Seq<(Seq<char>, AccountView)>,
}

impl View for Manifest {
    type V = ManifestView;

    closed spec fn view(&self) -> ManifestView {
        ManifestView {
            shell_integration: self.settings.shell_integration,
            accounts: accounts_view(self.accounts@),
        }
    }
}

/// Account entries as plain values.
pub open spec fn accounts_view(v: Seq<(String, Account)>) -> Seq<(Seq<char>, AccountView)> {
    v.map_values(|e: (String, Account)| (e.0@, e.1@))
}

/// The accounts after adding account `a` under `id`: an account already
/// under `id` is replaced in place, otherwise `a` comes last.
pub open spec fn inserted(
    accounts: Seq<(Seq<char>, AccountView)>,
    id: Seq<char>,
    a: AccountView,
) -> Seq<(Seq<char>, AccountView)> {
    if exists|k: int| 0 <= k < accounts.len() && #[trigger] accounts[k].0 == id {
        let k = choose|k: int| 0 <= k < accounts.len() && #[trigger] accounts[k].0 == id;
        accounts.update(k, (id, a))
    } else {
        accounts.push((id, a))
    }
}

/// No two accounts share an id.  A manifest read from a file always has
/// distinct ids, since they are the keys of its `accounts` table.
pub open spec fn ids_distinct(accounts: Seq<(Seq<char>, AccountView)>) -> bool {
    forall|i: int, j: int| 0 <= i < j < accounts.len() ==> #[trigger] accounts[i].0 != #[trigger] accounts[j].0
}

impl Manifest {
    #[verifier::type_invariant]
    spec fn distinct_ids(self) -> bool {
        ids_distinct(accounts_view(self.accounts@))
    }

    /// A manifest with the given settings and no accounts.
    pub fn new(settings: Settings) -> (m: Self)
        ensures
            m@.shell_integration == settings.shell_integration,
            m@.accounts == Seq::<(Seq<char>, AccountView)>::empty(),
    {
        let m = Manifest { settings, accounts: Vec::new() };
        assert(accounts_view(m.accounts@) =~= Seq::<(Seq<char>, AccountView)>::empty());
        m
    }

    /// The accounts, in order, each with its id; no two share an id.
    pub fn accounts(&self) -> (r: &Vec<(String, Account)>)
        ensures
            accounts_view(r@) == self@.accounts,
            ids_distinct(self@.accounts),
    {
        proof {
            use_type_invariant(self);
        }
        &self.accounts
    }

    /// Adds `account` under `id`, replacing (in place) and returning the
    /// account that was under `id`, if any.
    pub fn insert_account(&mut self, id: String, account: Account) -> (r: Option<Account>)
        ensures
            final(self)@.shell_integration == old(self)@.shell_integration,
            final(self)@.accounts == inserted(old(self)@.accounts, id@, account@),
            match r {
                Some(prev) => exists|k: int|
                    0 <= k < old(self)@.accounts.len() && #[trigger] old(self)@.accounts[k]
                        == (id@, prev@),
                None => forall|k: int|
                    0 <= k < old(self)@.accounts.len() ==> #[trigger] old(self)@.accounts[k].0
                        != id@,
            },
    {
        proof {
            use_type_invariant(&*self);
        }
        let ghost before = accounts_view(self.accounts@);
        assert(before == old(self)@.accounts);
        let mut accounts: Vec<(String, Account)> = Vec::new();
        std::mem::swap(&mut accounts, &mut self.accounts);
        assert(accounts_view(accounts@) == before);
        let mut i: usize = 0;
        while i < accounts.len()
            invariant
                accounts_view(accounts@) == before,
                before == old(self)@.accounts,
                self.settings == old(self).settings,
                ids_distinct(before),
                i <= accounts.len(),
                forall|j: int| 0 <= j < i ==> (#[trigger] before[j]).0 != id@,
            decreases accounts.len() - i,
        {
            assert(before[i as int].0 == accounts@[i as int].0@);
            if accounts[i].0 == id {
                let ghost k = i as int;
                let old_entry = accounts.remove(i);
                accounts.insert(i, (id, account));
                proof {
                    assert forall|k2: int| 0 <= k2 < before.len() && #[trigger] before[k2].0 == id@ implies k2
                        == k by {
                        if k2 != k {
                            if k2 < k {
                                assert(before[k2].0 != before[k].0);
                            } else {
                                assert(before[k].0 != before[k2].0);
                            }
                        }
                    }
                    assert(accounts_view(accounts@) =~= before.update(k, (id@, account@)));
                    assert(before[k] == (id@, old_entry.1@));
                    assert(before[k].0 == id@);
                    let kk = choose|kk: int| 0 <= kk < before.len() && #[trigger] before[kk].0 == id@;
                    assert(kk == k);
                    assert(inserted(before, id@, account@) == before.update(k, (id@, account@)));
                    assert(ids_distinct(accounts_view(accounts@))) by {
                        let after = accounts_view(accounts@);
                        assert forall|a: int, b: int| 0 <= a < b < after.len() implies #[trigger] after[a].0
                            != #[trigger] after[b].0 by {
                            assert(after[a].0 == before[a].0);
                            assert(after[b].0 == before[b].0);
                        }
                    }
                }
                self.accounts = accounts;
                return Some(old_entry.1);
            }
            i = i + 1;
        }
        accounts.push((id, account));
        proof {
            assert(accounts_view(accounts@) =~= before.push((id@, account@)));
            assert(inserted(before, id@, account@) == before.push((id@, account@)));
            assert(ids_distinct(accounts_view(accounts@))) by {
                let after = accounts_view(accounts@);
                assert forall|a: int, b: int| 0 <= a < b < after.len() implies #[trigger] after[a].0
                    != #[trigger] after[b].0 by {
                    assert(after[a] == before[a]);
                    if b < before.len() {
                        assert(after[b] == before[b]);
                    }
                }
            }
        }
        self.accounts = accounts;
        None
    }

    /// The account under `id`, if any.
    pub fn get(&self, id: &str) -> (r: Option<&Account>)
        ensures
            match r {
                Some(a) => exists|k: int|
                    0 <= k < self@.accounts.len() && #[trigger] self@.accounts[k] == (id@, a@),
                None => forall|k: int|
                    0 <= k < self@.accounts.len() ==> #[trigger] self@.accounts[k].0 != id@,
            },
    {
        let ghost av = self@.accounts;
        let key = String::from_str(id);
        let mut i: usize = 0;
        while i < self.accounts.len()
            invariant
                av == self@.accounts,
                av == accounts_view(self.accounts@),
                key@ == id@,
                i <= self.accounts.len(),
                forall|j: int| 0 <= j < i ==> (#[trigger] av[j]).0 != id@,
            decreases self.accounts.len() - i,
        {
            assert(av[i as int] == (self.accounts@[i as int].0@, self.accounts@[i as int].1@));
            if self.accounts[i].0 == key {
                return Some(&self.accounts[i].1);
            }
            i = i + 1;
        }
        None
    }
}

/// The ways a manifest can be invalid.
#[derive(Clone, Debug, PartialEq, Eq)]
pub enum ConfigError {
    NoAccounts,
    EmptyName { account: String },
    EmptyEmail { account: String },
    NoRoots { account: String },
    DuplicateRoot { root: String, first: String, second: String },
}

/// A validation failure as plain text values.
pub enum ConfigFault {
    NoAccounts,
    EmptyName { account: Seq<char> },
    EmptyEmail { account: Seq<char> },
    NoRoots { account: Seq<char> },
    DuplicateRoot { root: Seq<char>, first: Seq<char>, second: Seq<char> },
}

impl View for ConfigError {
    type V = ConfigFault;

    open spec fn view(&self) -> ConfigFault {
        match self {
            ConfigError::NoAccounts => ConfigFault::NoAccounts,
            ConfigError::EmptyName { account } => ConfigFault::EmptyName { account: account@ },
            ConfigError::EmptyEmail { account } => ConfigFault::EmptyEmail { account: account@ },
            ConfigError::NoRoots { account } => ConfigFault::NoRoots { account: account@ },
            ConfigError::DuplicateRoot { root, first, second } => ConfigFault::DuplicateRoot {
                root: root@,
                first: first@,
                second: second@,
            },
        }
    }
}

/// The text of an optional home directory.
pub open spec fn home_view(home: Option<&str>) -> Option<Seq<char>> {
    match home {
        Some(h) => Some(h@),
        None => None,
    }
}

/// Roots met so far, each normalized and paired with the id of its account.
pub type SeenRoots = Seq<(Seq<char>, Seq<char>)>;

/// The account of the earliest root in `seen` that is the same path as `root`.
pub open spec fn earlier_owner(seen: SeenRoots, root: Seq<char>) -> Option<Seq<char>>
    decreases seen.len(),
{
    if seen.len() == 0 {
        None
    } else {
        match earlier_owner(seen.drop_last(), root) {
            Some(a) => Some(a),
            None => if path_eq(seen.last().0, root) {
                Some(seen.last().1)
            } else {
                None
            },
        }
    }
}

/// Registers the roots of account `id` one after the other: a root that is the
/// same path as one met before is a duplicate.
pub open spec fn check_roots(
    roots: Seq<Seq<char>>,
    id: Seq<char>,
    seen: SeenRoots,
    home: Option<Seq<char>>,
) -> Result<SeenRoots, ConfigFault>
    decreases roots.len(),
{
    if roots.len() == 0 {
        Ok(seen)
    } else {
        match check_roots(roots.drop_last(), id, seen, home) {
            Err(e) => Err(e),
            Ok(s) => {
                let n = expand_home(roots.last(), home);
                match earlier_owner(s, n) {
                    Some(a) => Err(ConfigFault::DuplicateRoot { root: n, first: a, second: id }),
                    None => Ok(s.push((n, id))),
                }
            },
        }
    }
}

/// The checks of one account: name, email, at least one root, then its roots.
pub open spec fn check_account(
    id: Seq<char>,
    a: AccountView,
    seen: SeenRoots,
    home: Option<Seq<char>>,
) -> Result<SeenRoots, ConfigFault> {
    if is_blank(a.name) {
        Err(ConfigFault::EmptyName { account: id })
    } else if is_blank(a.email) {
        Err(ConfigFault::EmptyEmail { account: id })
    } else if a.roots.len() == 0 {
        Err(ConfigFault::NoRoots { account: id })
    } else {
        check_roots(a.roots, id, seen, home)
    }
}

/// The checks of the accounts one after the other.
pub open spec fn check_accounts(
    accounts: Seq<(Seq<char>, AccountView)>,
    home: Option<Seq<char>>,
) -> Result<SeenRoots, ConfigFault>
    decreases accounts.len(),
{
    if accounts.len() == 0 {
        Ok(Seq::empty())
    } else {
        match check_accounts(accounts.drop_last(), home) {
            Err(e) => Err(e),
            Ok(s) => check_account(accounts.last().0, accounts.last().1, s, home),
        }
    }
}

/// The outcome of validating `m` when `~` stands for `home`.
pub open spec fn validation(m: ManifestView, home: Option<Seq<char>>) -> Result<(), ConfigFault> {
    if m.accounts.len() == 0 {
        Err(ConfigFault::NoAccounts)
    } else {
        match check_accounts(m.accounts, home) {
            Ok(_) => Ok(()),
            Err(e) => Err(e),
        }
    }
}

/// The message that reports a validation failure.
pub open spec fn fault_message(f: ConfigFault) -> Seq<char> {
    match f {
        ConfigFault::NoAccounts => "Manifest must contain at least one account."@,
        ConfigFault::EmptyName { account } => "Account '"@ + account + "' has an empty name."@,
        ConfigFault::EmptyEmail { account } => "Account '"@ + account + "' has an empty email."@,
        ConfigFault::NoRoots { account } => "Account '"@ + account
            + "' has no roots configured."@,
        ConfigFault::DuplicateRoot { root, first, second } => "Root directory '"@ + root
            + "' is duplicated between '"@ + first + "' and '"@ + second + "'."@,
    }
}

impl ConfigError {
    /// The message that reports this failure to the user.
    pub fn message(&self) -> (m: String)
        ensures
            m@ == fault_message(self@),
    {
        match self {
            ConfigError::NoAccounts => String::from_str("Manifest must contain at least one account."),
            ConfigError::EmptyName { account } => String::from_str("Account '").concat(
                account.as_str(),
            ).concat("' has an empty name."),
            ConfigError::EmptyEmail { account } => String::from_str("Account '").concat(
                account.as_str(),
            ).concat("' has an empty email."),
            ConfigError::NoRoots { account } => String::from_str("Account '").concat(
                account.as_str(),
            ).concat("' has no roots configured."),
            ConfigError::DuplicateRoot { root, first, second } => String::from_str(
                "Root directory '",
            ).concat(root.as_str()).concat("' is duplicated between '").concat(
                first.as_str(),
            ).concat("' and '").concat(second.as_str()).concat("'."),
        }
    }
}

/// A validation result as plain values.
pub open spec fn outcome_view(r: Result<(), ConfigError>) -> Result<(), ConfigFault> {
    match r {
        Ok(_) => Ok(()),
        Err(e) => Err(e@),
    }
}

proof fn lemma_owner_prefix(s: SeenRoots, root: Seq<char>, t: int)
    requires
        0 <= t <= s.len(),
        earlier_owner(s.take(t), root) is Some,
    ensures
        earlier_owner(s, root) == earlier_owner(s.take(t), root),
    decreases s.len(),
{
    if t == s.len() {
        assert(s.take(t) =~= s);
    } else {
        assert(s.drop_last().take(t) =~= s.take(t));
        lemma_owner_prefix(s.drop_last(), root, t);
    }
}

proof fn lemma_roots_err_prefix(
    roots: Seq<Seq<char>>,
    id: Seq<char>,
    seen: SeenRoots,
    home: Option<Seq<char>>,
    j: int,
)
    requires
        0 <= j <= roots.len(),
        check_roots(roots.take(j), id, seen, home) is Err,
    ensures
        check_roots(roots, id, seen, home) == check_roots(roots.take(j), id, seen, home),
    decreases roots.len(),
{
    if j == roots.len() {
        assert(roots.take(j) =~= roots);
    } else {
        assert(roots.drop_last().take(j) =~= roots.take(j));
        lemma_roots_err_prefix(roots.drop_last(), id, seen, home, j);
    }
}

proof fn lemma_accounts_err_prefix(
    accounts: Seq<(Seq<char>, AccountView)>,
    home: Option<Seq<char>>,
    k: int,
)
    requires
        0 <= k <= accounts.len(),
        check_accounts(accounts.take(k), home) is Err,
    ensures
        check_accounts(accounts, home) == check_accounts(accounts.take(k), home),
    decreases accounts.len(),
{
    if k == accounts.len() {
        assert(accounts.take(k) =~= accounts);
    } else {
        assert(accounts.drop_last().take(k) =~= accounts.take(k));
        lemma_accounts_err_prefix(accounts.drop_last(), home, k);
    }
}

/// The normalized roots of the accounts, account after account.
pub open spec fn normalized_roots(
    accounts: Seq<(Seq<char>, AccountView)>,
    home: Option<Seq<char>>,
) -> Seq<Seq<char>>
    decreases accounts.len(),
{
    if accounts.len() == 0 {
        Seq::empty()
    } else {
        normalized_roots(accounts.drop_last(), home) + accounts.last().1.roots.map_values(
            |r: Seq<char>| expand_home(r, home),
        )
    }
}

/// No path of `s` is the same path as a later one.
pub open spec fn no_repeated_path(s: Seq<Seq<char>>) -> bool {
    forall|i: int, j: int| 0 <= i < j < s.len() ==> !path_eq(#[trigger] s[i], #[trigger] s[j])
}

/// An account with a name, an email and at least one root.
pub open spec fn account_complete(a: AccountView) -> bool {
    !is_blank(a.name) && !is_blank(a.email) && a.roots.len() > 0
}

/// What a valid manifest is: at least one account, every account complete,
/// and no root directory claimed twice (after `~` expansion).
pub open spec fn manifest_is_valid(m: ManifestView, home: Option<Seq<char>>) -> bool {
    &&& m.accounts.len() > 0
    &&& forall|k: int| 0 <= k < m.accounts.len() ==> account_complete(#[trigger] m.accounts[k].1)
    &&& no_repeated_path(normalized_roots(m.accounts, home))
}

/// The paths of a sequence of seen roots.
pub open spec fn seen_paths(s: SeenRoots) -> Seq<Seq<char>> {
    s.map_values(|p: (Seq<char>, Seq<char>)| p.0)
}

proof fn lemma_owner_none(s: SeenRoots, root: Seq<char>)
    ensures
        earlier_owner(s, root) is None <==> forall|i: int|
            0 <= i < s.len() ==> !path_eq(#[trigger] s[i].0, root),
    decreases s.len(),
{
    if s.len() > 0 {
        lemma_owner_none(s.drop_last(), root);
        if earlier_owner(s, root) is None {
            assert forall|i: int| 0 <= i < s.len() implies !path_eq(#[trigger] s[i].0, root) by {
                if i < s.len() - 1 {
                    assert(s.drop_last()[i] == s[i]);
                }
            }
        }
        if forall|i: int| 0 <= i < s.len() ==> !path_eq(#[trigger] s[i].0, root) {
            assert forall|i: int| 0 <= i < s.drop_last().len() implies !path_eq(
                #[trigger] s.drop_last()[i].0,
                root,
            ) by {
                assert(s.drop_last()[i] == s[i]);
            }
            assert(!path_eq(s[s.len() - 1].0, root));
        }
    }
}

proof fn lemma_no_repeated_push(s: Seq<Seq<char>>, x: Seq<char>)
    ensures
        no_repeated_path(s.push(x)) <==> (no_repeated_path(s) && forall|i: int|
            0 <= i < s.len() ==> !path_eq(#[trigger] s[i], x)),
{
    let t = s.push(x);
    if no_repeated_path(t) {
        assert forall|i: int, j: int| 0 <= i < j < s.len() implies !path_eq(
            #[trigger] s[i],
            #[trigger] s[j],
        ) by {
            assert(t[i] == s[i] && t[j] == s[j]);
        }
        assert forall|i: int| 0 <= i < s.len() implies !path_eq(#[trigger] s[i], x) by {
            assert(t[i] == s[i] && t[s.len() as int] == x);
        }
    }
    if no_repeated_path(s) && forall|i: int| 0 <= i < s.len() ==> !path_eq(#[trigger] s[i], x) {
        assert forall|i: int, j: int| 0 <= i < j < t.len() implies !path_eq(
            #[trigger] t[i],
            #[trigger] t[j],
        ) by {
            assert(t[i] == s[i]);
            if j < s.len() {
                assert(t[j] == s[j]);
            }
        }
    }
}

proof fn lemma_check_roots(
    roots: Seq<Seq<char>>,
    id: Seq<char>,
    seen: SeenRoots,
    home: Option<Seq<char>>,
)
    requires
        no_repeated_path(seen_paths(seen)),
    ensures
        check_roots(roots, id, seen, home) is Ok <==> no_repeated_path(
            seen_paths(seen) + roots.map_values(|r: Seq<char>| expand_home(r, home)),
        ),
        check_roots(roots, id, seen, home) is Ok ==> seen_paths(
            check_roots(roots, id, seen, home)->Ok_0,
        ) == seen_paths(seen) + roots.map_values(|r: Seq<char>| expand_home(r, home)),
    decreases roots.len(),
{
    let f = |r: Seq<char>| expand_home(r, home);
    if roots.len() == 0 {
        assert(seen_paths(seen) + roots.map_values(f) =~= seen_paths(seen));
    } else {
        let pre = roots.drop_last();
        lemma_check_roots(pre, id, seen, home);
        let whole = seen_paths(seen) + roots.map_values(f);
        let part = seen_paths(seen) + pre.map_values(f);
        let n = expand_home(roots.last(), home);
        assert(whole =~= part.push(n));
        lemma_no_repeated_push(part, n);
        match check_roots(pre, id, seen, home) {
            Err(e) => {
                // a repetition among the earlier paths is still one in the whole
                assert(!no_repeated_path(part));
                assert(!no_repeated_path(whole));
            },
            Ok(s) => {
                lemma_owner_none(s, n);
                assert(seen_paths(s) == part);
                assert forall|i: int| 0 <= i < s.len() implies (#[trigger] s[i]).0 == part[i] by {
                    assert(seen_paths(s)[i] == s[i].0);
                }
                if earlier_owner(s, n) is None {
                    assert(seen_paths(s.push((n, id))) =~= part.push(n));
                } else {
                    let i = choose|i: int| 0 <= i < s.len() && path_eq(#[trigger] s[i].0, n);
                    assert(part[i] == s[i].0);
                }
            },
        }
    }
}

proof fn lemma_check_accounts(accounts: Seq<(Seq<char>, AccountView)>, home: Option<Seq<char>>)
    ensures
        check_accounts(accounts, home) is Ok <==> ((forall|k: int|
            0 <= k < accounts.len() ==> account_complete(#[trigger] accounts[k].1))
            && no_repeated_path(normalized_roots(accounts, home))),
        check_accounts(accounts, home) is Ok ==> seen_paths(check_accounts(accounts, home)->Ok_0)
            == normalized_roots(accounts, home),
    decreases accounts.len(),
{
    if accounts.len() == 0 {
        assert(seen_paths(Seq::empty()) =~= Seq::<Seq<char>>::empty());
    } else {
        let pre = accounts.drop_last();
        lemma_check_accounts(pre, home);
        let (id, a) = accounts.last();
        let f = |r: Seq<char>| expand_home(r, home);
        let whole = normalized_roots(accounts, home);
        let part = normalized_roots(pre, home);
        assert(whole == part + a.roots.map_values(f));
        assert((forall|k: int| 0 <= k < accounts.len() ==> account_complete(#[trigger] accounts[k].1))
            <==> ((forall|k: int| 0 <= k < pre.len() ==> account_complete(#[trigger] pre[k].1))
            && account_complete(a))) by {
            assert forall|k: int| 0 <= k < pre.len() implies pre[k] == accounts[k] by {}
            assert(accounts[accounts.len() - 1] == accounts.last());
        }
        // a repetition among the earlier accounts' roots stays one in the whole
        if !no_repeated_path(part) {
            let (i, j) = choose|i: int, j: int|
                0 <= i < j < part.len() && path_eq(#[trigger] part[i], #[trigger] part[j]);
            assert(whole[i] == part[i] && whole[j] == part[j]);
        }
        match check_accounts(pre, home) {
            Err(e) => {},
            Ok(s) => {
                if account_complete(a) {
                    lemma_check_roots(a.roots, id, s, home);
                }
            },
        }
    }
}

/// A manifest passes validation exactly when it has an account, every
/// account has a non-blank name and email and at least one root, and no two
/// roots (after `~` expansion) are the same path.
pub proof fn lemma_validation_ok_iff(m: ManifestView, home: Option<Seq<char>>)
    ensures
        validation(m, home) is Ok <==> manifest_is_valid(m, home),
{
    lemma_check_accounts(m.accounts, home);
}

/// No text occurs twice in `s`.
pub open spec fn no_repeated_text(s: Seq<Seq<char>>) -> bool {
    forall|i: int, j: int| 0 <= i < j < s.len() ==> #[trigger] s[i] != #[trigger] s[j]
}

proof fn lemma_no_repeated_text_push(s: Seq<Seq<char>>, x: Seq<char>)
    requires
        no_repeated_text(s),
        forall|i: int| 0 <= i < s.len() ==> #[trigger] s[i] != x,
    ensures
        no_repeated_text(s.push(x)),
{
    let t = s.push(x);
    assert forall|i: int, j: int| 0 <= i < j < t.len() implies #[trigger] t[i] != #[trigger] t[j] by {
        assert(t[i] == s[i]);
        if j < s.len() {
            assert(t[j] == s[j]);
        }
    }
}

/// Adding an account never repairs a manifest that has accounts and is
/// invalid: the incomplete account or the repeated root is still there.
pub proof fn lemma_adding_account_keeps_invalid(
    m: ManifestView,
    m2: ManifestView,
    extra: (Seq<char>, AccountView),
    home: Option<Seq<char>>,
)
    requires
        m.accounts.len() > 0,
        validation(m, home) is Err,
        m2.accounts == m.accounts.push(extra),
    ensures
        validation(m2, home) is Err,
{
    lemma_validation_ok_iff(m, home);
    lemma_validation_ok_iff(m2, home);
    if validation(m2, home) is Ok {
        assert(m2.accounts.drop_last() =~= m.accounts);
        let whole = normalized_roots(m2.accounts, home);
        let part = normalized_roots(m.accounts, home);
        assert forall|i: int, j: int| 0 <= i < j < part.len() implies !path_eq(
            #[trigger] part[i],
            #[trigger] part[j],
        ) by {
            assert(whole[i] == part[i] && whole[j] == part[j]);
        }
        assert forall|k: int| 0 <= k < m.accounts.len() implies account_complete(
            #[trigger] m.accounts[k].1,
        ) by {
            assert(m2.accounts[k] == m.accounts[k]);
        }
    }
}

/// `std::path::Path` equality is symmetric (as `Eq` requires of it).  The
/// library cannot state this of the named relation as a fact; the law that
/// needs it takes it as its hypothesis.
pub open spec fn path_eq_symmetric() -> bool {
    forall|a: Seq<char>, b: Seq<char>| #[trigger] path_eq(a, b) ==> path_eq(b, a)
}

/// No path of `s` is the same path as another one, in either order.
pub open spec fn paths_apart(s: Seq<Seq<char>>) -> bool {
    forall|i: int, j: int|
        0 <= i < s.len() && 0 <= j < s.len() && i != j ==> !path_eq(#[trigger] s[i], #[trigger] s[j])
}

proof fn lemma_apart_iff_no_repeated(s: Seq<Seq<char>>)
    requires
        path_eq_symmetric(),
    ensures
        paths_apart(s) <==> no_repeated_path(s),
{
    if no_repeated_path(s) {
        assert forall|i: int, j: int|
            0 <= i < s.len() && 0 <= j < s.len() && i != j implies !path_eq(
            #[trigger] s[i],
            #[trigger] s[j],
        ) by {
            if i > j {
                if path_eq(s[i], s[j]) {
                    assert(path_eq(s[j], s[i]));
                }
            }
        }
    }
}

proof fn lemma_apart_reindex(s: Seq<Seq<char>>, t: Seq<Seq<char>>, f: spec_fn(int) -> int)
    requires
        paths_apart(s),
        forall|i: int| 0 <= i < t.len() ==> 0 <= #[trigger] f(i) < s.len() && t[i] == s[f(i)],
        forall|i: int, j: int| 0 <= i < t.len() && 0 <= j < t.len() && i != j ==> #[trigger] f(i) != #[trigger] f(j),
    ensures
        paths_apart(t),
{
    assert forall|i: int, j: int|
        0 <= i < t.len() && 0 <= j < t.len() && i != j implies !path_eq(
        #[trigger] t[i],
        #[trigger] t[j],
    ) by {
        assert(t[i] == s[f(i)] && t[j] == s[f(j)]);
        assert(f(i) != f(j));
    }
}

proof fn lemma_apart_swap_middle(
    x: Seq<Seq<char>>,
    y: Seq<Seq<char>>,
    z: Seq<Seq<char>>,
    w: Seq<Seq<char>>,
)
    requires
        paths_apart(x + y + z + w),
    ensures
        paths_apart(x + z + y + w),
{
    let s = x + y + z + w;
    let t = x + z + y + w;
    let lx = x.len() as int;
    let ly = y.len() as int;
    let lz = z.len() as int;
    let f = |i: int|
        if i < lx {
            i
        } else if i < lx + lz {
            i + ly
        } else if i < lx + lz + ly {
            i - lz
        } else {
            i
        };
    assert forall|i: int| 0 <= i < t.len() implies 0 <= #[trigger] f(i) < s.len() && t[i] == s[f(
        i,
    )] by {
        if i < lx {
            assert(t[i] == x[i] && s[i] == x[i]);
        } else if i < lx + lz {
            assert(t[i] == z[i - lx]);
            assert(s[i + ly] == z[i - lx]);
        } else if i < lx + lz + ly {
            assert(t[i] == y[i - lx - lz]);
            assert(s[i - lz] == y[i - lx - lz]);
        } else {
            assert(t[i] == w[i - lx - lz - ly]);
            assert(s[i] == w[i - lx - lz - ly]);
        }
    }
    lemma_apart_reindex(s, t, f);
}

proof fn lemma_normalized_roots_concat(
    a: Seq<(Seq<char>, AccountView)>,
    b: Seq<(Seq<char>, AccountView)>,
    home: Option<Seq<char>>,
)
    ensures
        normalized_roots(a + b, home) == normalized_roots(a, home) + normalized_roots(b, home),
    decreases b.len(),
{
    if b.len() == 0 {
        assert(a + b =~= a);
        assert(normalized_roots(a, home) + normalized_roots(b, home) =~= normalized_roots(a, home));
    } else {
        lemma_normalized_roots_concat(a, b.drop_last(), home);
        assert((a + b).drop_last() =~= a + b.drop_last());
        assert((a + b).last() == b.last());
        let blk = b.last().1.roots.map_values(|r: Seq<char>| expand_home(r, home));
        assert(normalized_roots(a + b, home) == normalized_roots(a + b.drop_last(), home) + blk);
        assert(normalized_roots(b, home) == normalized_roots(b.drop_last(), home) + blk);
        assert(normalized_roots(a, home) + normalized_roots(b.drop_last(), home) + blk
            =~= normalized_roots(a, home) + (normalized_roots(b.drop_last(), home) + blk));
    }
}

/// Whether a manifest is valid does not depend on the order of its
/// accounts: two neighbouring accounts may trade places (and every
/// reordering is a sequence of such exchanges).  This holds because path
/// equality is symmetric, which is this law's hypothesis.
pub proof fn lemma_validation_ignores_account_order(
    m: ManifestView,
    m2: ManifestView,
    k: int,
    home: Option<Seq<char>>,
)
    requires
        path_eq_symmetric(),
        0 <= k,
        k + 1 < m.accounts.len(),
        m2.accounts == m.accounts.update(k, m.accounts[k + 1]).update(k + 1, m.accounts[k]),
    ensures
        validation(m, home) is Ok <==> validation(m2, home) is Ok,
{
    let a = m.accounts;
    let b = m2.accounts;
    lemma_validation_ok_iff(m, home);
    lemma_validation_ok_iff(m2, home);
    let p = a.take(k);
    let q = a.skip(k + 2);
    let u = seq![a[k]];
    let v = seq![a[k + 1]];
    assert(a =~= p + u + v + q);
    assert(b =~= p + v + u + q);
    lemma_normalized_roots_concat(p + u + v, q, home);
    lemma_normalized_roots_concat(p + u, v, home);
    lemma_normalized_roots_concat(p, u, home);
    lemma_normalized_roots_concat(p + v + u, q, home);
    lemma_normalized_roots_concat(p + v, u, home);
    lemma_normalized_roots_concat(p, v, home);
    let np = normalized_roots(p, home);
    let nu = normalized_roots(u, home);
    let nv = normalized_roots(v, home);
    let nq = normalized_roots(q, home);
    assert(normalized_roots(a, home) == np + nu + nv + nq);
    assert(normalized_roots(b, home) == np + nv + nu + nq);
    lemma_apart_iff_no_repeated(np + nu + nv + nq);
    lemma_apart_iff_no_repeated(np + nv + nu + nq);
    if paths_apart(np + nu + nv + nq) {
        lemma_apart_swap_middle(np, nu, nv, nq);
    }
    if paths_apart(np + nv + nu + nq) {
        lemma_apart_swap_middle(np, nv, nu, nq);
    }
    assert((forall|i: int| 0 <= i < a.len() ==> account_complete(#[trigger] a[i].1)) <==> (forall|
        i: int,
    |
        0 <= i < b.len() ==> account_complete(#[trigger] b[i].1))) by {
        if forall|i: int| 0 <= i < a.len() ==> account_complete(#[trigger] a[i].1) {
            assert forall|i: int| 0 <= i < b.len() implies account_complete(#[trigger] b[i].1) by {
                if i == k {
                    assert(b[i] == a[k + 1]);
                } else if i == k + 1 {
                    assert(b[i] == a[k]);
                } else {
                    assert(b[i] == a[i]);
                }
            }
        }
        if forall|i: int| 0 <= i < b.len() ==> account_complete(#[trigger] b[i].1) {
            assert forall|i: int| 0 <= i < a.len() implies account_complete(#[trigger] a[i].1) by {
                if i == k {
                    assert(b[k + 1] == a[k]);
                } else if i == k + 1 {
                    assert(b[k] == a[k + 1]);
                } else {
                    assert(b[i] == a[i]);
                }
            }
        }
    }
}

/// The text of the pairs of a vector of string pairs.
pub open spec fn pairs_view(v: Seq<(String, String)>) -> SeenRoots {
    v.map_values(|p: (String, String)| (p.0@, p.1@))
}

/// Searches `seen` for the earliest root that is the same path as `root`.
fn find_earlier_owner(seen: &Vec<(String, String)>, root: &str) -> (r: Option<String>)
    ensures
        opt_view(r) == earlier_owner(pairs_view(seen@), root@),
        r is None ==> forall|t: int|
            0 <= t < seen@.len() ==> (#[trigger] pairs_view(seen@)[t]).0 != root@,
{
    let ghost sv = pairs_view(seen@);
    let mut t: usize = 0;
    assert(sv.take(0) =~= Seq::<(Seq<char>, Seq<char>)>::empty());
    while t < seen.len()
        invariant
            sv == pairs_view(seen@),
            t <= seen.len(),
            earlier_owner(sv.take(t as int), root@) is None,
            forall|u: int| 0 <= u < t ==> (#[trigger] sv[u]).0 != root@,
        decreases seen.len() - t,
    {
        assert(sv.take(t + 1).drop_last() =~= sv.take(t as int));
        assert(sv.take(t + 1).last() == sv[t as int]);
        assert(sv[t as int].0 == seen@[t as int].0@);
        if paths_equal(seen[t].0.as_str(), root) {
            proof {
                lemma_owner_prefix(sv, root@, t + 1);
            }
            return Some(seen[t].1.clone());
        }
        t = t + 1;
    }
    assert(sv.take(t as int) =~= sv);
    None
}

impl Manifest {
    /// Validates the manifest, with `~` in roots standing for `home`.
    pub fn validate_with_home(&self, home: Option<&str>) -> (r: Result<(), ConfigError>)
        ensures
            outcome_view(r) == validation(self@, home_view(home)),
            r is Ok ==> no_repeated_text(normalized_roots(self@.accounts, home_view(home))),
    {
        let ghost hv = home_view(home);
        let ghost accts = self@.accounts;
        if self.accounts.len() == 0 {
            return Err(ConfigError::NoAccounts);
        }
        let mut seen: Vec<(String, String)> = Vec::new();
        let mut k: usize = 0;
        assert(accts.take(0) =~= Seq::<(Seq<char>, AccountView)>::empty());
        assert(pairs_view(seen@) =~= Seq::<(Seq<char>, Seq<char>)>::empty());
        while k < self.accounts.len()
            invariant
                accts == self@.accounts,
                hv == home_view(home),
                accts.len() > 0,
                k <= self.accounts.len(),
                check_accounts(accts.take(k as int), hv) == Ok::<SeenRoots, ConfigFault>(
                    pairs_view(seen@),
                ),
                no_repeated_text(seen_paths(pairs_view(seen@))),
            decreases self.accounts.len() - k,
        {
            let entry = &self.accounts[k];
            let id = &entry.0;
            let account = &entry.1;
            proof {
                assert(accts.take(k + 1).drop_last() =~= accts.take(k as int));
                assert(accts.take(k + 1).last() == accts[k as int]);
                assert(accts[k as int] == (id@, account@));
            }
            if trim(account.name.as_str()).as_str().is_empty() {
                proof {
                    lemma_accounts_err_prefix(accts, hv, k + 1);
                }
                return Err(ConfigError::EmptyName { account: id.clone() });
            }
            if trim(account.email.as_str()).as_str().is_empty() {
                proof {
                    lemma_accounts_err_prefix(accts, hv, k + 1);
                }
                return Err(ConfigError::EmptyEmail { account: id.clone() });
            }
            if account.roots.len() == 0 {
                proof {
                    lemma_accounts_err_prefix(accts, hv, k + 1);
                }
                return Err(ConfigError::NoRoots { account: id.clone() });
            }
            let ghost seen0 = pairs_view(seen@);
            let ghost roots = account@.roots;
            let mut j: usize = 0;
            assert(roots.take(0) =~= Seq::<Seq<char>>::empty());
            while j < account.roots.len()
                invariant
                    roots == account@.roots,
                    hv == home_view(home),
                    accts == self@.accounts,
                    k < self.accounts.len(),
                    accts[k as int] == (id@, account@),
                    check_accounts(accts.take(k as int), hv) == Ok::<SeenRoots, ConfigFault>(
                        seen0,
                    ),
                    !is_blank(account@.name),
                    !is_blank(account@.email),
                    account@.roots.len() > 0,
                    accts.take(k + 1).drop_last() == accts.take(k as int),
                    accts.take(k + 1).last() == accts[k as int],
                    no_repeated_text(seen_paths(pairs_view(seen@))),
                    j <= account.roots.len(),
                    check_roots(roots.take(j as int), id@, seen0, hv) == Ok::<
                        SeenRoots,
                        ConfigFault,
                    >(pairs_view(seen@)),
                decreases account.roots.len() - j,
            {
                let n = normalize_with_home(account.roots[j].as_str(), home);
                proof {
                    assert(roots.take(j + 1).drop_last() =~= roots.take(j as int));
                    assert(roots.take(j + 1).last() == roots[j as int]);
                    assert(roots[j as int] == account.roots@[j as int]@);
                }
                match find_earlier_owner(&seen, n.as_str()) {
                    Some(first) => {
                        proof {
                            lemma_roots_err_prefix(roots, id@, seen0, hv, j + 1);
                            lemma_accounts_err_prefix(accts, hv, k + 1);
                        }
                        return Err(
                            ConfigError::DuplicateRoot { root: n, first, second: id.clone() },
                        );
                    },
                    None => {},
                }
                let ghost before = pairs_view(seen@);
                proof {
                    assert forall|i: int| 0 <= i < seen_paths(before).len() implies #[trigger] seen_paths(
                        before,
                    )[i] != n@ by {
                        assert(seen_paths(before)[i] == before[i].0);
                    }
                    lemma_no_repeated_text_push(seen_paths(before), n@);
                }
                seen.push((n, id.clone()));
                assert(pairs_view(seen@) =~= before.push((n@, id@)));
                assert(seen_paths(pairs_view(seen@)) =~= seen_paths(before).push(n@));
                j = j + 1;
            }
            assert(roots.take(j as int) =~= roots);
            k = k + 1;
        }
        assert(accts.take(k as int) =~= accts);
        proof {
            lemma_check_accounts(accts, hv);
        }
        Ok(())
    }

    /// Validates the manifest, with `~` in roots standing for the home
    /// directory of this process.
    pub fn validate(&self) -> (r: Result<(), ConfigError>)
        ensures
            exists|home: Option<Seq<char>>|
                outcome_view(r) == validation(self@, home) && (r is Ok ==> no_repeated_text(
                    #[trigger] normalized_roots(self@.accounts, home),
                )),
    {
        let home = home_dir();
        match home {
            Some(h) => {
                let r = self.validate_with_home(Some(h.as_str()));
                assert(outcome_view(r) == validation(self@, Some(h@)));
                let ghost _n = normalized_roots(self@.accounts, Some(h@));
                r
            },
            None => {
                let r = self.validate_with_home(None);
                let ghost _n = normalized_roots(self@.accounts, None);
                r
            },
        }
    }
}

} // verus!
