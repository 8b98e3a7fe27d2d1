//! The in-memory model of the credential registry: stored login/token
//! pairs, kept sorted by login with no login twice. Loading the registry
//! from disk and writing it back is the caller's business; the operations
//! here say exactly what the persisted contents become.

use vstd::prelude::*;
use vstd::string::{StrSliceExecFns, StringExecFns};
use crate::domain::GitHubAccount;
use crate::text::{lemma_lex_le_total, lemma_lex_le_transitive, lex_le, str_eq, str_le};

verus! {

/// One stored login/token pair.
#[derive(Debug)]
pub struct StoredAccount {
    pub login: String,
    pub token: String,
}

pub ghost struct StoredAccountView {
    pub login: Seq<char>,
    pub token: Seq<char>,
}

impl View for StoredAccount {
    type V = StoredAccountView;

    open spec fn view(&self) -> StoredAccountView {
        StoredAccountView { login: self.login@, token: self.token@ }
    }
}

/// The registry of stored accounts, ordered by login.
#[derive(Debug)]
pub struct StoredAccounts {
    pub accounts: Vec<StoredAccount>,
}

impl View for StoredAccounts {
    type V = Seq<StoredAccountView>;

    open spec fn view(&self) -> Seq<StoredAccountView> {
        self.accounts@.map_values(|a: StoredAccount| a@)
    }
}

/// Strictly sorted by login: ordered, and no login twice.
pub open spec fn registry_wf(s: Seq<StoredAccountView>) -> bool {
    forall|i: int, j: int|
        0 <= i < j < s.len() ==> lex_le(#[trigger] s[i].login, #[trigger] s[j].login)
            && s[i].login != s[j].login
}

/// The registry after recording one login/token pair: an existing entry
/// keeps its place with the new token; a new login is inserted where the
/// order puts it.
pub open spec fn upsert_spec(s: Seq<StoredAccountView>, login: Seq<char>, token: Seq<char>)
    -> Seq<StoredAccountView>
    decreases s.len(),
{
    if s.len() == 0 {
        seq![StoredAccountView { login, token }]
    } else if s[0].login == login {
        seq![StoredAccountView { login, token }] + s.drop_first()
    } else if !lex_le(s[0].login, login) {
        seq![StoredAccountView { login, token }] + s
    } else {
        seq![s[0]] + upsert_spec(s.drop_first(), login, token)
    }
}

/// The registry with every entry of one login dropped.
pub open spec fn remove_spec(s: Seq<StoredAccountView>, login: Seq<char>) -> Seq<
    StoredAccountView,
>
    decreases s.len(),
{
    if s.len() == 0 {
        Seq::empty()
    } else if s.last().login == login {
        remove_spec(s.drop_last(), login)
    } else {
        remove_spec(s.drop_last(), login).push(s.last())
    }
}

proof fn lemma_lex_le_reflexive(a: Seq<char>)
    ensures
        lex_le(a, a),
    decreases a.len(),
{
    if a.len() > 0 {
        lemma_lex_le_reflexive(a.drop_first());
    }
}

proof fn lemma_upsert_found(
    s: Seq<StoredAccountView>,
    login: Seq<char>,
    token: Seq<char>,
    j: int,
)
    requires
        0 <= j < s.len(),
        s[j].login == login,
        forall|k: int| 0 <= k < j ==> (#[trigger] s[k].login) != login && lex_le(s[k].login, login),
    ensures
        upsert_spec(s, login, token) == s.update(j, StoredAccountView { login, token }),
    decreases j,
{
    let e = StoredAccountView { login, token };
    if j == 0 {
        assert(seq![e] + s.drop_first() =~= s.update(0, e));
    } else {
        assert(s[0].login != login);
        assert(lex_le(s[0].login, login));
        assert(s.drop_first()[j - 1] == s[j]);
        assert forall|k: int|
            0 <= k < j - 1 implies (#[trigger] s.drop_first()[k].login) != login && lex_le(
            s.drop_first()[k].login,
            login,
        ) by {
            assert(s.drop_first()[k] == s[k + 1]);
        }
        lemma_upsert_found(s.drop_first(), login, token, j - 1);
        assert(seq![s[0]] + s.drop_first().update(j - 1, e) =~= s.update(j, e));
    }
}

proof fn lemma_upsert_insert(
    s: Seq<StoredAccountView>,
    login: Seq<char>,
    token: Seq<char>,
    j: int,
)
    requires
        0 <= j <= s.len(),
        forall|k: int| 0 <= k < j ==> (#[trigger] s[k].login) != login && lex_le(s[k].login, login),
        j < s.len() ==> !lex_le(s[j].login, login),
    ensures
        upsert_spec(s, login, token) == s.insert(j, StoredAccountView { login, token }),
    decreases j,
{
    let e = StoredAccountView { login, token };
    if j == 0 {
        if s.len() == 0 {
            assert(upsert_spec(s, login, token) =~= s.insert(0, e));
        } else {
            if s[0].login == login {
                lemma_lex_le_reflexive(login);
                assert(false);
            }
            assert(seq![e] + s =~= s.insert(0, e));
        }
    } else {
        assert(s[0].login != login);
        assert(lex_le(s[0].login, login));
        assert forall|k: int|
            0 <= k < j - 1 implies (#[trigger] s.drop_first()[k].login) != login && lex_le(
            s.drop_first()[k].login,
            login,
        ) by {
            assert(s.drop_first()[k] == s[k + 1]);
        }
        if j - 1 < s.drop_first().len() {
            assert(s.drop_first()[j - 1] == s[j]);
        }
        lemma_upsert_insert(s.drop_first(), login, token, j - 1);
        assert(seq![s[0]] + s.drop_first().insert(j - 1, e) =~= s.insert(j, e));
    }
}

proof fn lemma_upsert_logins(s: Seq<StoredAccountView>, login: Seq<char>, token: Seq<char>)
    ensures
        forall|k: int|
            0 <= k < upsert_spec(s, login, token).len() ==> (#[trigger] upsert_spec(
                s,
                login,
                token,
            )[k].login) == login || exists|m: int|
                0 <= m < s.len() && (#[trigger] s[m].login) == upsert_spec(s, login, token)[k].login,
    decreases s.len(),
{
    let r = upsert_spec(s, login, token);
    if s.len() == 0 {
    } else if s[0].login == login {
        assert forall|k: int|
            0 <= k < r.len() implies (#[trigger] r[k].login) == login || exists|m: int|
            0 <= m < s.len() && (#[trigger] s[m].login) == r[k].login by {
            if k > 0 {
                assert(r[k] == s.drop_first()[k - 1]);
                assert(s[k] == r[k]);
            }
        }
    } else if !lex_le(s[0].login, login) {
        assert forall|k: int|
            0 <= k < r.len() implies (#[trigger] r[k].login) == login || exists|m: int|
            0 <= m < s.len() && (#[trigger] s[m].login) == r[k].login by {
            if k > 0 {
                assert(s[k - 1] == r[k]);
            }
        }
    } else {
        lemma_upsert_logins(s.drop_first(), login, token);
        let rest = upsert_spec(s.drop_first(), login, token);
        assert forall|k: int|
            0 <= k < r.len() implies (#[trigger] r[k].login) == login || exists|m: int|
            0 <= m < s.len() && (#[trigger] s[m].login) == r[k].login by {
            if k == 0 {
                assert(s[0].login == r[0].login);
            } else {
                assert(r[k] == rest[k - 1]);
                if rest[k - 1].login != login {
                    let m0 = choose|m0: int|
                        0 <= m0 < s.drop_first().len() && (#[trigger] s.drop_first()[m0].login)
                            == rest[k - 1].login;
                    assert(s[m0 + 1].login == r[k].login);
                }
            }
        }
    }
}

/// Recording a pair keeps the registry strictly sorted by login.
pub proof fn lemma_upsert_preserves_wf(
    s: Seq<StoredAccountView>,
    login: Seq<char>,
    token: Seq<char>,
)
    requires
        registry_wf(s),
    ensures
        registry_wf(upsert_spec(s, login, token)),
    decreases s.len(),
{
    let r = upsert_spec(s, login, token);
    if s.len() == 0 {
    } else if s[0].login == login {
        assert forall|i: int, j: int|
            0 <= i < j < r.len() implies lex_le(#[trigger] r[i].login, #[trigger] r[j].login)
            && r[i].login != r[j].login by {
            if i > 0 {
                assert(r[i] == s[i]);
            }
            assert(r[j] == s[j]);
            assert(lex_le(s[i].login, s[j].login) && s[i].login != s[j].login);
        }
    } else if !lex_le(s[0].login, login) {
        lemma_lex_le_total(s[0].login, login);
        assert forall|i: int, j: int|
            0 <= i < j < r.len() implies lex_le(#[trigger] r[i].login, #[trigger] r[j].login)
            && r[i].login != r[j].login by {
            assert(r[j] == s[j - 1]);
            if i == 0 {
                if j - 1 > 0 {
                    lemma_lex_le_transitive(login, s[0].login, s[j - 1].login);
                }
                if login == s[j - 1].login {
                    lemma_lex_le_reflexive(login);
                    if j - 1 > 0 {
                        assert(lex_le(s[0].login, s[j - 1].login));
                    }
                    assert(false);
                }
            } else {
                assert(r[i] == s[i - 1]);
            }
        }
    } else {
        assert forall|i: int, j: int|
            0 <= i < j < s.drop_first().len() implies lex_le(
            #[trigger] s.drop_first()[i].login,
            #[trigger] s.drop_first()[j].login,
        ) && s.drop_first()[i].login != s.drop_first()[j].login by {
            assert(s.drop_first()[i] == s[i + 1]);
            assert(s.drop_first()[j] == s[j + 1]);
        }
        lemma_upsert_preserves_wf(s.drop_first(), login, token);
        lemma_upsert_logins(s.drop_first(), login, token);
        let rest = upsert_spec(s.drop_first(), login, token);
        assert forall|i: int, j: int|
            0 <= i < j < r.len() implies lex_le(#[trigger] r[i].login, #[trigger] r[j].login)
            && r[i].login != r[j].login by {
            if i == 0 {
                assert(r[j] == rest[j - 1]);
                if rest[j - 1].login == login {
                    assert(lex_le(s[0].login, login));
                    assert(s[0].login != login);
                } else {
                    let m0 = choose|m0: int|
                        0 <= m0 < s.drop_first().len() && (#[trigger] s.drop_first()[m0].login)
                            == rest[j - 1].login;
                    assert(s.drop_first()[m0] == s[m0 + 1]);
                    assert(lex_le(s[0].login, s[m0 + 1].login));
                    assert(s[0].login != s[m0 + 1].login);
                }
            } else {
                assert(r[i] == rest[i - 1]);
                assert(r[j] == rest[j - 1]);
            }
        }
    }
}

/// Forgetting a login keeps the registry strictly sorted.
pub proof fn lemma_remove_preserves_wf(s: Seq<StoredAccountView>, login: Seq<char>)
    requires
        registry_wf(s),
    ensures
        registry_wf(remove_spec(s, login)),
        forall|k: int|
            0 <= k < remove_spec(s, login).len() ==> exists|m: int|
                0 <= m < s.len() && #[trigger] s[m] == #[trigger] remove_spec(s, login)[k],
    decreases s.len(),
{
    let r = remove_spec(s, login);
    if s.len() == 0 {
    } else {
        assert forall|i: int, j: int|
            0 <= i < j < s.drop_last().len() implies lex_le(
            #[trigger] s.drop_last()[i].login,
            #[trigger] s.drop_last()[j].login,
        ) && s.drop_last()[i].login != s.drop_last()[j].login by {
            assert(s.drop_last()[i] == s[i]);
            assert(s.drop_last()[j] == s[j]);
        }
        lemma_remove_preserves_wf(s.drop_last(), login);
        let rest = remove_spec(s.drop_last(), login);
        if s.last().login == login {
            assert forall|k: int|
                0 <= k < r.len() implies exists|m: int|
                0 <= m < s.len() && #[trigger] s[m] == #[trigger] r[k] by {
                let m0 = choose|m0: int|
                    0 <= m0 < s.drop_last().len() && #[trigger] s.drop_last()[m0] == rest[k];
                assert(s[m0] == r[k]);
            }
        } else {
            assert forall|k: int|
                0 <= k < r.len() implies exists|m: int|
                0 <= m < s.len() && #[trigger] s[m] == #[trigger] r[k] by {
                if k < r.len() - 1 {
                    assert(r[k] == rest[k]);
                    let m0 = choose|m0: int|
                        0 <= m0 < s.drop_last().len() && #[trigger] s.drop_last()[m0] == rest[k];
                    assert(s[m0] == r[k]);
                } else {
                    assert(s[s.len() - 1] == r[k]);
                }
            }
            assert forall|i: int, j: int|
                0 <= i < j < r.len() implies lex_le(#[trigger] r[i].login, #[trigger] r[j].login)
                && r[i].login != r[j].login by {
                if j == r.len() - 1 {
                    assert(r[i] == rest[i]);
                    let m0 = choose|m0: int|
                        0 <= m0 < s.drop_last().len() && #[trigger] s.drop_last()[m0] == rest[i];
                    assert(s[m0] == r[i]);
                    assert(lex_le(s[m0].login, s[s.len() - 1].login));
                    assert(s[m0].login != s[s.len() - 1].login);
                } else {
                    assert(r[i] == rest[i]);
                    assert(r[j] == rest[j]);
                }
            }
        }
    }
}

impl StoredAccounts {
    /// An empty registry.
    pub fn new() -> (r: StoredAccounts)
        ensures
            r@ == Seq::<StoredAccountView>::empty(),
            registry_wf(r@),
    {
        let r = StoredAccounts { accounts: Vec::new() };
        proof {
            assert(r@ =~= Seq::<StoredAccountView>::empty());
        }
        r
    }

    /// Records one login/token pair: an existing entry keeps its place
    /// and takes the new token; a new login joins in login order.
    pub fn upsert(&mut self, login: &str, token: &str)
        requires
            registry_wf(old(self)@),
        ensures
            final(self)@ == upsert_spec(old(self)@, login@, token@),
            registry_wf(final(self)@),
    {
        proof {
            lemma_upsert_preserves_wf(self@, login@, token@);
        }
        let n = self.accounts.len();
        let mut i: usize = 0;
        while i < n
            invariant
                *self == *old(self),
                registry_wf(old(self)@),
                n == self.accounts@.len(),
                0 <= i <= n,
                forall|k: int|
                    0 <= k < i ==> (#[trigger] self@[k].login) != login@ && lex_le(
                        self@[k].login,
                        login@,
                    ),
            decreases n - i,
        {
            if str_eq(self.accounts[i].login.as_str(), login) {
                proof {
                    lemma_upsert_found(self@, login@, token@, i as int);
                    lemma_upsert_preserves_wf(self@, login@, token@);
                }
                let entry = &mut self.accounts[i];
                entry.token = String::from_str(token);
                proof {
                    assert(self@ =~= old(self)@.update(
                        i as int,
                        StoredAccountView { login: login@, token: token@ },
                    ));
                }
                return;
            }
            if !str_le(self.accounts[i].login.as_str(), login) {
                proof {
                    lemma_upsert_insert(self@, login@, token@, i as int);
                    lemma_upsert_preserves_wf(self@, login@, token@);
                }
                self.accounts.insert(
                    i,
                    StoredAccount { login: String::from_str(login), token: String::from_str(token) },
                );
                proof {
                    assert(self@ =~= old(self)@.insert(
                        i as int,
                        StoredAccountView { login: login@, token: token@ },
                    ));
                }
                return;
            }
            i += 1;
        }
        proof {
            lemma_upsert_insert(self@, login@, token@, n as int);
        }
        self.accounts.push(
            StoredAccount { login: String::from_str(login), token: String::from_str(token) },
        );
        proof {
            assert(self@ =~= old(self)@.insert(
                n as int,
                StoredAccountView { login: login@, token: token@ },
            ));
        }
    }

    /// Drops every entry of one login, keeping the others in order.
    pub fn remove(&mut self, login: &str)
        ensures
            final(self)@ == remove_spec(old(self)@, login@),
    {
        let n = self.accounts.len();
        let mut out: Vec<StoredAccount> = Vec::new();
        let ghost full = self@;
        proof {
            assert(full.take(0) =~= Seq::<StoredAccountView>::empty());
            assert(out@.map_values(|a: StoredAccount| a@) =~= remove_spec(full.take(0), login@));
        }
        let mut i: usize = 0;
        while i < n
            invariant
                *self == *old(self),
                full == self@,
                n == self.accounts@.len(),
                0 <= i <= n,
                out@.map_values(|a: StoredAccount| a@) == remove_spec(full.take(i as int), login@),
            decreases n - i,
        {
            proof {
                assert(full.take(i as int + 1).drop_last() =~= full.take(i as int));
                assert(full.take(i as int + 1).last() == full[i as int]);
            }
            if !str_eq(self.accounts[i].login.as_str(), login) {
                let a = &self.accounts[i];
                out.push(StoredAccount { login: a.login.clone(), token: a.token.clone() });
                proof {
                    assert(out@.map_values(|a: StoredAccount| a@) =~= remove_spec(
                        full.take(i as int + 1),
                        login@,
                    ));
                }
            } else {
                proof {
                    assert(out@.map_values(|a: StoredAccount| a@) =~= remove_spec(
                        full.take(i as int + 1),
                        login@,
                    ));
                }
            }
            i += 1;
        }
        proof {
            assert(full.take(n as int) =~= full);
        }
        self.accounts = out;
    }
}

/// The handle on the credential registry: it owns the loaded contents;
/// the caller persists them after each change.
#[derive(Debug)]
pub struct AccountStore {
    pub registry: StoredAccounts,
}

/// The profiles restored from storage.
#[derive(Debug)]
pub struct HydrationOutcome {
    pub profiles: Vec<GitHubAccount>,
}

impl View for AccountStore {
    type V = Seq<StoredAccountView>;

    open spec fn view(&self) -> Seq<StoredAccountView> {
        self.registry@
    }
}

impl AccountStore {
    /// Wraps an already loaded registry.
    pub fn new(registry: StoredAccounts) -> (r: AccountStore)
        ensures
            r@ == registry@,
    {
        AccountStore { registry }
    }

    /// The stored profiles, in registry order.
    pub fn hydrate(&self) -> (r: HydrationOutcome)
        ensures
            r.profiles@.len() == self@.len(),
            forall|k: int|
                0 <= k < self@.len() ==> (#[trigger] r.profiles@[k]@).login == self@[k].login
                    && r.profiles@[k]@.token == self@[k].token,
    {
        let n = self.registry.accounts.len();
        let mut profiles: Vec<GitHubAccount> = Vec::new();
        let mut i: usize = 0;
        while i < n
            invariant
                n == self.registry.accounts@.len(),
                0 <= i <= n,
                profiles@.len() == i,
                forall|k: int|
                    0 <= k < i ==> (#[trigger] profiles@[k]@).login == self@[k].login
                        && profiles@[k]@.token == self@[k].token,
            decreases n - i,
        {
            let a = &self.registry.accounts[i];
            profiles.push(GitHubAccount { login: a.login.clone(), token: a.token.clone() });
            i += 1;
        }
        HydrationOutcome { profiles }
    }

    /// Records one profile in the registry. The caller writes the
    /// registry back to storage afterwards.
    pub fn persist_profile(&mut self, profile: &GitHubAccount)
        requires
            registry_wf(old(self)@),
        ensures
            final(self)@ == upsert_spec(old(self)@, profile@.login, profile@.token),
            registry_wf(final(self)@),
    {
        self.registry.upsert(profile.login.as_str(), profile.token.as_str());
    }

    /// Forgets one login. The caller writes the registry back afterwards.
    pub fn forget(&mut self, login: &str)
        ensures
            final(self)@ == remove_spec(old(self)@, login@),
    {
        self.registry.remove(login);
    }
}

} // verus!
