//! The accounts and the refresh tokens that were issued to them.

use vstd::prelude::*;
use crate::auth::{
    registration_fault, registration_message, validate_registration, RegisterRequest, User,
};
use crate::error::AppError;
use crate::strings::{opt_str_view, opt_string_eq_str, opt_view};

verus! {

/// A refresh token as it is kept: by its fingerprint, never by itself.
pub struct RefreshToken {
    pub id: String,
    pub user_id: String,
    pub token_hash: String,
    /// Milliseconds since the Unix epoch.
    pub expires_at: i64,
}

impl Clone for RefreshToken {
    fn clone(&self) -> (r: Self)
        ensures
            r == *self,
    {
        RefreshToken {
            id: self.id.clone(),
            user_id: self.user_id.clone(),
            token_hash: self.token_hash.clone(),
            expires_at: self.expires_at,
        }
    }
}

/// What the store holds, in the order of creation.
pub struct AccountsView {
    pub users: Seq<User>,
    pub tokens: Seq<RefreshToken>,
}

/// Tells whether an account has the id `id`.
pub open spec fn has_user_id(users: Seq<User>, id: Seq<char>) -> bool {
    exists|i: int| 0 <= i < users.len() && (#[trigger] users[i]).id@ == id
}

/// The place of the account with the id `id`.
pub open spec fn user_place(users: Seq<User>, id: Seq<char>) -> int {
    choose|i: int| 0 <= i < users.len() && (#[trigger] users[i]).id@ == id
}

/// Tells whether an account has the name `username`.
pub open spec fn has_username(users: Seq<User>, username: Seq<char>) -> bool {
    exists|i: int| 0 <= i < users.len() && (#[trigger] users[i]).username@ == username
}

/// The place of the account with the name `username`.
pub open spec fn username_place(users: Seq<User>, username: Seq<char>) -> int {
    choose|i: int| 0 <= i < users.len() && (#[trigger] users[i]).username@ == username
}

/// Tells whether an account has the address `email`.
pub open spec fn has_email(users: Seq<User>, email: Seq<char>) -> bool {
    exists|i: int| 0 <= i < users.len() && opt_view((#[trigger] users[i]).email) == Some(email)
}

/// The place of the account with the address `email`.
pub open spec fn email_place(users: Seq<User>, email: Seq<char>) -> int {
    choose|i: int| 0 <= i < users.len() && opt_view((#[trigger] users[i]).email) == Some(email)
}

/// Tells whether a token has the id `id`.
pub open spec fn has_token_id(tokens: Seq<RefreshToken>, id: Seq<char>) -> bool {
    exists|i: int| 0 <= i < tokens.len() && (#[trigger] tokens[i]).id@ == id
}

/// The place of the first token with the fingerprint `hash`, or the number
/// of tokens when none has it.
pub open spec fn first_with_hash(tokens: Seq<RefreshToken>, hash: Seq<char>) -> int
    decreases tokens.len(),
{
    if tokens.len() == 0 {
        0
    } else if tokens[0].token_hash@ == hash {
        0
    } else {
        1 + first_with_hash(tokens.drop_first(), hash)
    }
}

/// What every account store satisfies: ids, names and addresses name one
/// account each, and an id names one token.
pub open spec fn well_formed(v: AccountsView) -> bool {
    &&& forall|i: int, j: int|
        0 <= i < j < v.users.len() ==> (#[trigger] v.users[i]).id@ != (#[trigger] v.users[j]).id@
    &&& forall|i: int, j: int|
        0 <= i < j < v.users.len() ==> (#[trigger] v.users[i]).username@ != (
        #[trigger] v.users[j]).username@
    &&& forall|i: int, j: int|
        0 <= i < j < v.users.len() && (#[trigger] v.users[i]).email is Some ==> opt_view(
            v.users[i].email,
        ) != opt_view((#[trigger] v.users[j]).email)
    &&& forall|i: int, j: int|
        0 <= i < j < v.tokens.len() ==> (#[trigger] v.tokens[i]).id@ != (#[trigger] v.tokens[j]).id@
}

/// Why a request for a new account cannot be met.
pub enum RegistrationBar {
    /// The request breaks a rule; the text says which.
    Invalid(Seq<char>),
    UsernameTaken,
    EmailTaken,
}

/// What bars a request for a new account, if anything does: a broken rule
/// first, then a name that is taken, then an address that is.
pub open spec fn registration_bar(users: Seq<User>, req: RegisterRequest) -> Option<RegistrationBar> {
    match registration_fault(req) {
        Some(fault) => Some(RegistrationBar::Invalid(registration_message(fault))),
        None => if has_username(users, req.username@) {
            Some(RegistrationBar::UsernameTaken)
        } else if req.email matches Some(e) && has_email(users, e@) {
            Some(RegistrationBar::EmailTaken)
        } else {
            None
        },
    }
}

/// Tells whether a token stays when tokens are deleted by a key: by its
/// account when `by_user`, else by its fingerprint.
pub open spec fn stays(token: RefreshToken, by_user: bool, key: Seq<char>) -> bool {
    if by_user {
        token.user_id@ != key
    } else {
        token.token_hash@ != key
    }
}

/// The tokens among the first `n` that stay.
pub open spec fn staying(tokens: Seq<RefreshToken>, by_user: bool, key: Seq<char>, n: int) -> Seq<
    RefreshToken,
>
    decreases n,
{
    if n <= 0 {
        Seq::empty()
    } else if stays(tokens[n - 1], by_user, key) {
        staying(tokens, by_user, key, n - 1).push(tokens[n - 1])
    } else {
        staying(tokens, by_user, key, n - 1)
    }
}

/// The accounts and their refresh tokens.
pub struct UserStore {
    users: Vec<User>,
    tokens: Vec<RefreshToken>,
}

impl View for UserStore {
    type V = AccountsView;

    closed spec fn view(&self) -> AccountsView {
        AccountsView { users: self.users@, tokens: self.tokens@ }
    }
}

impl UserStore {
    /// The store's invariant.
    pub open spec fn wf(&self) -> bool {
        well_formed(self@)
    }

    /// An empty store.
    pub fn new() -> (s: Self)
        ensures
            s.wf(),
            s@.users.len() == 0,
            s@.tokens.len() == 0,
    {
        UserStore { users: Vec::new(), tokens: Vec::new() }
    }

    /// All accounts, in the order of their creation.
    pub fn all_users(&self) -> (r: &Vec<User>)
        ensures
            r@ == self@.users,
    {
        &self.users
    }

    /// All tokens, in the order in which they were issued.
    pub fn all_tokens(&self) -> (r: &Vec<RefreshToken>)
        ensures
            r@ == self@.tokens,
    {
        &self.tokens
    }

    fn find_id(&self, id: &str) -> (r: Option<usize>)
        requires
            self.wf(),
        ensures
            r is Some <==> has_user_id(self@.users, id@),
            r matches Some(i) ==> i < self@.users.len() && self@.users[i as int].id@ == id@
                && user_place(self@.users, id@) == i,
    {
        let mut i: usize = 0;
        while i < self.users.len()
            invariant
                i <= self.users.len(),
                well_formed(self@),
                forall|j: int| 0 <= j < i ==> (#[trigger] self.users@[j]).id@ != id@,
            decreases self.users.len() - i,
        {
            if self.users[i].id.as_str().eq(id) {
                proof {
                    let users = self@.users;
                    let k = user_place(users, id@);
                    assert(users[i as int].id@ == id@);
                    if k < i {
                        assert(users[k].id@ != users[i as int].id@);
                    } else if i < k {
                        assert(users[i as int].id@ != users[k].id@);
                    }
                }
                return Some(i);
            }
            i = i + 1;
        }
        None
    }

    fn find_username(&self, username: &str) -> (r: Option<usize>)
        requires
            self.wf(),
        ensures
            r is Some <==> has_username(self@.users, username@),
            r matches Some(i) ==> i < self@.users.len() && self@.users[i as int].username@
                == username@ && username_place(self@.users, username@) == i,
    {
        let mut i: usize = 0;
        while i < self.users.len()
            invariant
                i <= self.users.len(),
                well_formed(self@),
                forall|j: int| 0 <= j < i ==> (#[trigger] self.users@[j]).username@ != username@,
            decreases self.users.len() - i,
        {
            if self.users[i].username.as_str().eq(username) {
                proof {
                    let users = self@.users;
                    let k = username_place(users, username@);
                    assert(users[i as int].username@ == username@);
                    if k < i {
                        assert(users[k].username@ != users[i as int].username@);
                    } else if i < k {
                        assert(users[i as int].username@ != users[k].username@);
                    }
                }
                return Some(i);
            }
            i = i + 1;
        }
        None
    }

    fn find_email(&self, email: &str) -> (r: Option<usize>)
        requires
            self.wf(),
        ensures
            r is Some <==> has_email(self@.users, email@),
            r matches Some(i) ==> i < self@.users.len() && opt_view(self@.users[i as int].email)
                == Some(email@) && email_place(self@.users, email@) == i,
    {
        let mut i: usize = 0;
        while i < self.users.len()
            invariant
                i <= self.users.len(),
                well_formed(self@),
                forall|j: int|
                    0 <= j < i ==> opt_view((#[trigger] self.users@[j]).email) != Some(email@),
            decreases self.users.len() - i,
        {
            if opt_string_eq_str(&self.users[i].email, Some(email)) {
                proof {
                    let users = self@.users;
                    let k = email_place(users, email@);
                    assert(opt_view(users[i as int].email) == Some(email@));
                    if k < i {
                        assert(opt_view(users[k].email) != opt_view(users[i as int].email));
                    } else if i < k {
                        assert(opt_view(users[i as int].email) != opt_view(users[k].email));
                    }
                }
                return Some(i);
            }
            i = i + 1;
        }
        None
    }

    /// Deletes the tokens of an account, or those with a fingerprint.
    fn delete_tokens(&mut self, by_user: bool, key: &str)
        requires
            old(self).wf(),
        ensures
            final(self).wf(),
            final(self)@ == (AccountsView {
                tokens: staying(old(self)@.tokens, by_user, key@, old(self)@.tokens.len() as int),
                ..old(self)@
            }),
    {
        let ghost before = self@;
        let mut kept: Vec<RefreshToken> = Vec::new();
        let ghost mut at: Seq<int> = Seq::empty();
        let mut i: usize = 0;
        while i < self.tokens.len()
            invariant
                i <= self.tokens.len(),
                self@ == before,
                well_formed(before),
                kept@ == staying(before.tokens, by_user, key@, i as int),
                at.len() == kept@.len(),
                forall|a: int| 0 <= a < at.len() ==> 0 <= (#[trigger] at[a]) < i && kept@[a] == before.tokens[at[a]],
                forall|a: int, b: int| 0 <= a < b < at.len() ==> (#[trigger] at[a]) < (#[trigger] at[b]),
            decreases self.tokens.len() - i,
        {
            let token = &self.tokens[i];
            let goes: bool = if by_user {
                token.user_id.as_str().eq(key)
            } else {
                token.token_hash.as_str().eq(key)
            };
            if !goes {
                kept.push(token.clone());
                proof {
                    let prev = at;
                    at = at.push(i as int);
                    assert forall|a: int| 0 <= a < at.len() implies 0 <= (#[trigger] at[a]) < i + 1
                        && kept@[a] == before.tokens[at[a]] by {
                        if a < prev.len() {
                            assert(at[a] == prev[a]);
                        }
                    }
                    assert forall|a: int, b: int| 0 <= a < b < at.len() implies (#[trigger] at[a]) < (
                    #[trigger] at[b]) by {
                        assert(at[a] == prev[a]);
                        if b < prev.len() {
                            assert(at[b] == prev[b]);
                        }
                    }
                }
            }
            i = i + 1;
        }
        self.tokens = kept;
        proof {
            let after = self@;
            assert forall|a: int, b: int| 0 <= a < b < after.tokens.len() implies (
            #[trigger] after.tokens[a]).id@ != (#[trigger] after.tokens[b]).id@ by {
                assert(at[a] < at[b]);
                assert(before.tokens[at[a]].id@ != before.tokens[at[b]].id@);
            }
            assert forall|a: int, b: int| 0 <= a < b < after.users.len() implies (
            #[trigger] after.users[a]).id@ != (#[trigger] after.users[b]).id@ by {
                assert(before.users[a].id@ != before.users[b].id@);
            }
            assert forall|a: int, b: int| 0 <= a < b < after.users.len() implies (
            #[trigger] after.users[a]).username@ != (#[trigger] after.users[b]).username@ by {
                assert(before.users[a].username@ != before.users[b].username@);
            }
            assert forall|a: int, b: int|
                0 <= a < b < after.users.len() && (#[trigger] after.users[a]).email is Some implies opt_view(
                after.users[a].email,
            ) != opt_view((#[trigger] after.users[b]).email) by {
                assert(opt_view(before.users[a].email) != opt_view(before.users[b].email));
            }
        }
    }
}

/// Finds an account by its name.
pub fn find_by_username(store: &UserStore, username: &str) -> (r: Option<User>)
    requires
        store.wf(),
    ensures
        r is Some <==> has_username(store@.users, username@),
        r matches Some(u) ==> u == store@.users[username_place(store@.users, username@)],
{
    match store.find_username(username) {
        Some(i) => Some(store.users[i].clone()),
        None => None,
    }
}

/// Finds an account by its id.
pub fn find_by_id(store: &UserStore, id: &str) -> (r: Option<User>)
    requires
        store.wf(),
    ensures
        r is Some <==> has_user_id(store@.users, id@),
        r matches Some(u) ==> u == store@.users[user_place(store@.users, id@)],
{
    match store.find_id(id) {
        Some(i) => Some(store.users[i].clone()),
        None => None,
    }
}

/// Finds an account by its address.
pub fn find_by_email(store: &UserStore, email: &str) -> (r: Option<User>)
    requires
        store.wf(),
    ensures
        r is Some <==> has_email(store@.users, email@),
        r matches Some(u) ==> u == store@.users[email_place(store@.users, email@)],
{
    match store.find_email(email) {
        Some(i) => Some(store.users[i].clone()),
        None => None,
    }
}

/// Holds a request for a new account to the rules and to the accounts that
/// exist: a broken rule is a bad request, a name or an address that is
/// taken a conflict.
pub fn check_registration(store: &UserStore, req: &RegisterRequest) -> (r: Result<(), AppError>)
    requires
        store.wf(),
    ensures
        match registration_bar(store@.users, *req) {
            None => r is Ok,
            Some(RegistrationBar::Invalid(text)) => r matches Err(AppError::BadRequest(msg)) && msg@
                == text,
            Some(RegistrationBar::UsernameTaken) => r matches Err(AppError::Conflict(msg)) && msg@
                == "Username already exists"@,
            Some(RegistrationBar::EmailTaken) => r matches Err(AppError::Conflict(msg)) && msg@
                == "Email already exists"@,
        },
{
    match validate_registration(req) {
        Err(e) => {
            return Err(e);
        },
        Ok(()) => {},
    }
    if store.find_username(req.username.as_str()).is_some() {
        return Err(AppError::Conflict("Username already exists".to_owned()));
    }
    match &req.email {
        Some(e) => {
            if store.find_email(e.as_str()).is_some() {
                return Err(AppError::Conflict("Email already exists".to_owned()));
            }
        },
        None => {},
    }
    Ok(())
}

/// Creates an account at `now`. Fails, and leaves the store as it was, when
/// the id, the name or the address is taken.
pub fn create_user(
    store: &mut UserStore,
    id: &str,
    username: &str,
    email: Option<&str>,
    password_hash: &str,
    now: i64,
) -> (r: Result<User, AppError>)
    requires
        old(store).wf(),
    ensures
        final(store).wf(),
        r is Ok <==> {
            &&& !has_user_id(old(store)@.users, id@)
            &&& !has_username(old(store)@.users, username@)
            &&& email matches Some(e) ==> !has_email(old(store)@.users, e@)
        },
        r matches Err(e) ==> e is Database && final(store)@ == old(store)@,
        r matches Ok(u) ==> {
            &&& u.id@ == id@
            &&& u.username@ == username@
            &&& opt_view(u.email) == opt_str_view(email)
            &&& u.password_hash@ == password_hash@
            &&& u.created_at == now
            &&& u.updated_at == now
            &&& final(store)@ == (AccountsView { users: old(store)@.users.push(u), ..old(store)@ })
        },
{
    let user = User {
        id: id.to_owned(),
        username: username.to_owned(),
        email: match email {
            Some(e) => Some(e.to_owned()),
            None => None,
        },
        password_hash: password_hash.to_owned(),
        created_at: now,
        updated_at: now,
    };
    let created = user.clone();
    match load_user(store, user) {
        Ok(()) => Ok(created),
        Err(e) => Err(e),
    }
}

/// Tells whether an account that was kept elsewhere can be taken in: its
/// id, its name and its address are free.
pub open spec fn can_load(users: Seq<User>, user: User) -> bool {
    &&& !has_user_id(users, user.id@)
    &&& !has_username(users, user.username@)
    &&& user.email matches Some(e) ==> !has_email(users, e@)
}

/// Takes in an account that was kept elsewhere, as it is. Fails, and leaves
/// the store as it was, when the id, the name or the address is taken.
pub fn load_user(store: &mut UserStore, user: User) -> (r: Result<(), AppError>)
    requires
        old(store).wf(),
    ensures
        final(store).wf(),
        r is Ok <==> can_load(old(store)@.users, user),
        r matches Err(e) ==> e is Database && final(store)@ == old(store)@,
        r is Ok ==> final(store)@ == (AccountsView { users: old(store)@.users.push(user), ..old(store)@ }),
{
    if store.find_id(user.id.as_str()).is_some() || store.find_username(
        user.username.as_str(),
    ).is_some() {
        return Err(AppError::Database("account already exists".to_owned()));
    }
    match &user.email {
        Some(e) => {
            if store.find_email(e.as_str()).is_some() {
                return Err(AppError::Database("address already used".to_owned()));
            }
        },
        None => {},
    }
    let ghost before = store@;
    store.users.push(user);
    proof {
        let after = store@;
        let n = before.users.len() as int;
        assert forall|a: int, b: int| 0 <= a < b < after.users.len() implies (
        #[trigger] after.users[a]).id@ != (#[trigger] after.users[b]).id@ by {
            if b < n {
                assert(before.users[a].id@ != before.users[b].id@);
            } else {
                assert(before.users[a].id@ != user.id@);
            }
        }
        assert forall|a: int, b: int| 0 <= a < b < after.users.len() implies (
        #[trigger] after.users[a]).username@ != (#[trigger] after.users[b]).username@ by {
            if b < n {
                assert(before.users[a].username@ != before.users[b].username@);
            } else {
                assert(before.users[a].username@ != user.username@);
            }
        }
        assert forall|a: int, b: int|
            0 <= a < b < after.users.len() && (#[trigger] after.users[a]).email is Some implies opt_view(
            after.users[a].email,
        ) != opt_view((#[trigger] after.users[b]).email) by {
            if b < n {
                assert(opt_view(before.users[a].email) != opt_view(before.users[b].email));
            } else {
                match user.email {
                    Some(e) => {
                        assert(opt_view(before.users[a].email) != Some(e@));
                    },
                    None => {},
                }
            }
        }
        assert forall|a: int, b: int| 0 <= a < b < after.tokens.len() implies (
        #[trigger] after.tokens[a]).id@ != (#[trigger] after.tokens[b]).id@ by {
            assert(before.tokens[a].id@ != before.tokens[b].id@);
        }
    }
    Ok(())
}

/// Keeps the fingerprint of a refresh token that was issued. Fails, and
/// leaves the store as it was, when the id is taken.
pub fn store_refresh_token(
    store: &mut UserStore,
    id: &str,
    user_id: &str,
    token_hash: &str,
    expires_at: i64,
) -> (r: Result<(), AppError>)
    requires
        old(store).wf(),
    ensures
        final(store).wf(),
        r is Ok <==> !has_token_id(old(store)@.tokens, id@),
        r matches Err(e) ==> e is Database && final(store)@ == old(store)@,
        r is Ok ==> {
            &&& final(store)@.users == old(store)@.users
            &&& final(store)@.tokens.len() == old(store)@.tokens.len() + 1
            &&& final(store)@.tokens.drop_last() == old(store)@.tokens
            &&& final(store)@.tokens.last().id@ == id@
            &&& final(store)@.tokens.last().user_id@ == user_id@
            &&& final(store)@.tokens.last().token_hash@ == token_hash@
            &&& final(store)@.tokens.last().expires_at == expires_at
        },
{
    let mut i: usize = 0;
    while i < store.tokens.len()
        invariant
            i <= store.tokens.len(),
            *store == *old(store),
            store.wf(),
            forall|j: int| 0 <= j < i ==> (#[trigger] store.tokens@[j]).id@ != id@,
        decreases store.tokens.len() - i,
    {
        if store.tokens[i].id.as_str().eq(id) {
            return Err(AppError::Database("token id already exists".to_owned()));
        }
        i = i + 1;
    }
    let ghost before = store@;
    store.tokens.push(
        RefreshToken {
            id: id.to_owned(),
            user_id: user_id.to_owned(),
            token_hash: token_hash.to_owned(),
            expires_at,
        },
    );
    proof {
        let after = store@;
        let n = before.tokens.len() as int;
        assert(after.tokens.drop_last() =~= before.tokens);
        assert forall|a: int, b: int| 0 <= a < b < after.tokens.len() implies (
        #[trigger] after.tokens[a]).id@ != (#[trigger] after.tokens[b]).id@ by {
            if b < n {
                assert(before.tokens[a].id@ != before.tokens[b].id@);
            } else {
                assert(before.tokens[a].id@ != id@);
            }
        }
        assert forall|a: int, b: int| 0 <= a < b < after.users.len() implies (
        #[trigger] after.users[a]).id@ != (#[trigger] after.users[b]).id@ by {
            assert(before.users[a].id@ != before.users[b].id@);
        }
        assert forall|a: int, b: int| 0 <= a < b < after.users.len() implies (
        #[trigger] after.users[a]).username@ != (#[trigger] after.users[b]).username@ by {
            assert(before.users[a].username@ != before.users[b].username@);
        }
        assert forall|a: int, b: int|
            0 <= a < b < after.users.len() && (#[trigger] after.users[a]).email is Some implies opt_view(
            after.users[a].email,
        ) != opt_view((#[trigger] after.users[b]).email) by {
            assert(opt_view(before.users[a].email) != opt_view(before.users[b].email));
        }
    }
    Ok(())
}

/// Finds the token with a fingerprint: the first that was issued with it.
pub fn find_refresh_token(store: &UserStore, token_hash: &str) -> (r: Option<RefreshToken>)
    ensures
        r is Some <==> first_with_hash(store@.tokens, token_hash@) < store@.tokens.len(),
        r matches Some(t) ==> t == store@.tokens[first_with_hash(store@.tokens, token_hash@)],
{
    let mut i: usize = 0;
    assert(store.tokens@.skip(0) =~= store.tokens@);
    while i < store.tokens.len()
        invariant
            i <= store.tokens.len(),
            first_with_hash(store.tokens@, token_hash@) == i + first_with_hash(
                store.tokens@.skip(i as int),
                token_hash@,
            ),
        decreases store.tokens.len() - i,
    {
        let ghost rest = store.tokens@.skip(i as int);
        assert(rest[0] == store.tokens@[i as int]);
        if store.tokens[i].token_hash.as_str().eq(token_hash) {
            return Some(store.tokens[i].clone());
        }
        assert(rest.drop_first() =~= store.tokens@.skip(i + 1));
        i = i + 1;
    }
    assert(store.tokens@.skip(i as int).len() == 0);
    None
}

/// Deletes the tokens with a fingerprint.
pub fn delete_refresh_token(store: &mut UserStore, token_hash: &str)
    requires
        old(store).wf(),
    ensures
        final(store).wf(),
        final(store)@ == (AccountsView {
            tokens: staying(old(store)@.tokens, false, token_hash@, old(store)@.tokens.len() as int),
            ..old(store)@
        }),
{
    store.delete_tokens(false, token_hash);
}

/// Deletes all tokens of an account.
pub fn delete_user_refresh_tokens(store: &mut UserStore, user_id: &str)
    requires
        old(store).wf(),
    ensures
        final(store).wf(),
        final(store)@ == (AccountsView {
            tokens: staying(old(store)@.tokens, true, user_id@, old(store)@.tokens.len() as int),
            ..old(store)@
        }),
{
    store.delete_tokens(true, user_id);
}

/// What redeeming a refresh token comes to.
pub enum Redemption {
    /// No token with the fingerprint is kept.
    Unknown,
    /// The token is past its time.
    Expired,
    /// The account of the token is gone.
    Orphaned,
    /// The token is good for the account at this place.
    Good(int),
}

/// What redeeming the token with the fingerprint `hash` at `now` comes to.
pub open spec fn redemption(v: AccountsView, hash: Seq<char>, now: i64) -> Redemption {
    let k = first_with_hash(v.tokens, hash);
    if k >= v.tokens.len() {
        Redemption::Unknown
    } else if v.tokens[k].expires_at < now {
        Redemption::Expired
    } else if !has_user_id(v.users, v.tokens[k].user_id@) {
        Redemption::Orphaned
    } else {
        Redemption::Good(user_place(v.users, v.tokens[k].user_id@))
    }
}

/// Redeems a refresh token by its fingerprint and returns its account. A
/// token is good once: redeeming deletes it, and so does finding it past
/// its time. A token that is unknown, past its time or without an account
/// makes the caller unauthorized.
pub fn redeem_refresh_token(store: &mut UserStore, token_hash: &str, now: i64) -> (r: Result<
    User,
    AppError,
>)
    requires
        old(store).wf(),
    ensures
        final(store).wf(),
        final(store)@.users == old(store)@.users,
        match redemption(old(store)@, token_hash@, now) {
            Redemption::Unknown => {
                &&& r matches Err(AppError::Unauthorized(msg))
                &&& msg@ == "Refresh token not found or revoked"@
                &&& final(store)@ == old(store)@
            },
            Redemption::Expired => {
                &&& r matches Err(AppError::Unauthorized(msg))
                &&& msg@ == "Refresh token expired"@
                &&& final(store)@.tokens == staying(
                    old(store)@.tokens,
                    false,
                    token_hash@,
                    old(store)@.tokens.len() as int,
                )
            },
            Redemption::Orphaned => {
                &&& r matches Err(AppError::Unauthorized(msg))
                &&& msg@ == "User not found"@
                &&& final(store)@ == old(store)@
            },
            Redemption::Good(place) => {
                &&& r matches Ok(u)
                &&& u == old(store)@.users[place]
                &&& final(store)@.tokens == staying(
                    old(store)@.tokens,
                    false,
                    token_hash@,
                    old(store)@.tokens.len() as int,
                )
            },
        },
{
    let token = match find_refresh_token(store, token_hash) {
        Some(t) => t,
        None => {
            return Err(AppError::Unauthorized("Refresh token not found or revoked".to_owned()));
        },
    };
    if token.expires_at < now {
        store.delete_tokens(false, token_hash);
        return Err(AppError::Unauthorized("Refresh token expired".to_owned()));
    }
    let user = match find_by_id(store, token.user_id.as_str()) {
        Some(u) => u,
        None => {
            return Err(AppError::Unauthorized("User not found".to_owned()));
        },
    };
    store.delete_tokens(false, token_hash);
    Ok(user)
}

} // verus!
