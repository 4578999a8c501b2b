use crate::error::ServiceError;
use argon2::password_hash::{PasswordHasher, PasswordVerifier, SaltString};
use vstd::prelude::*;
use vstd::string::StringSliceAdditionalSpecFns;

verus! {

/// An account: stable identifier, unique name, password hash and the one
/// session token that is currently valid for it, if any.
#[derive(Clone, Debug, PartialEq, Eq)]
pub struct User {
    pub id: u32,
    pub username: String,
    pub password_hash: String,
    pub token: Option<String>,
}

impl User {
    pub fn duplicate(&self) -> (r: User)
        ensures
            r == *self,
    {
        User {
            id: self.id,
            username: self.username.clone(),
            password_hash: self.password_hash.clone(),
            token: match &self.token {
                Some(t) => Some(t.clone()),
                None => None,
            },
        }
    }
}

/// Whether this user's current session token is `t`.
pub open spec fn holds_token(u: User, t: Seq<char>) -> bool {
    u.token matches Some(x) && x@ == t
}

/// Whether some user in `users` is named `name`.
pub open spec fn name_taken(users: Seq<User>, name: Seq<char>) -> bool {
    exists|i: int| 0 <= i < users.len() && #[trigger] users[i].username@ == name
}

/// Whether the password matches the stored hash, as the Argon2 verifier
/// decides from the two texts.
pub uninterp spec fn password_verifies(password: Seq<char>, hash: Seq<char>) -> bool;

/// Relies on `argon2::Argon2::default().hash_password` with a fresh salt from
/// `rand_core::OsRng`. The salt is random, so the text itself is unknown; it
/// fails only for a password over `argon2::MAX_PWD_LEN` bytes, and what it
/// produces is a hash that the Argon2 verifier accepts for the password.
#[verifier::external_body]
fn hash_password(password: &str) -> (r: Option<String>)
    ensures
        password.spec_bytes().len() <= 0xFFFF_FFFF ==> r is Some,
        r matches Some(h) ==> password_verifies(password@, h@),
{
    let salt = SaltString::generate(&mut rand_core::OsRng);
    match argon2::Argon2::default().hash_password(password.as_bytes(), &salt) {
        Ok(h) => Some(h.to_string()),
        Err(_) => None,
    }
}

/// Relies on `argon2::PasswordHash::new` and `Argon2::verify_password`: the
/// answer depends on the password and the hash text alone, and is `false`
/// where the hash text does not parse.
#[verifier::external_body]
fn verify_password(password: &str, hash: &str) -> (r: bool)
    ensures
        r == password_verifies(password@, hash@),
{
    match argon2::PasswordHash::new(hash) {
        Ok(parsed) => argon2::Argon2::default().verify_password(password.as_bytes(), &parsed).is_ok(),
        Err(_) => false,
    }
}

/// Relies on `uuid::Uuid::new_v4` for a random token, as its hyphenated text.
#[verifier::external_body]
fn new_token() -> (r: String) {
    uuid::Uuid::new_v4().to_string()
}

/// All accounts. Its view is the sequence of users in registration order.
pub struct IdentityStore {
    pub(crate) users: Vec<User>,
    pub(crate) next_id: u32,
}

impl View for IdentityStore {
    type V = Seq<User>;

    closed spec fn view(&self) -> Seq<User> {
        self.users@
    }
}

/// Identifiers and names are unique, names are not empty, and no two users
/// hold the same session token, which is never empty.
pub open spec fn users_wf(s: Seq<User>) -> bool {
    &&& forall|i: int, j: int|
        0 <= i < s.len() && 0 <= j < s.len() && i != j ==> s[i].id != s[j].id && s[i].username@
            != s[j].username@
    &&& forall|i: int| 0 <= i < s.len() ==> (#[trigger] s[i]).username@.len() > 0
    &&& forall|i: int, j: int|
        0 <= i < s.len() && 0 <= j < s.len() && i != j && (#[trigger] s[i]).token is Some && (
        #[trigger] s[j]).token is Some ==> s[i].token->Some_0@ != s[j].token->Some_0@
    &&& forall|i: int| 0 <= i < s.len() ==> ((#[trigger] s[i]).token matches Some(x) ==> x@.len()
        > 0)
}

impl IdentityStore {
    pub open(crate) spec fn wf(&self) -> bool {
        &&& users_wf(self.users@)
        &&& forall|i: int| 0 <= i < self.users@.len() ==> #[trigger] self.users@[i].id < self.next_id
    }

    /// No identifier is left to hand out to a new user.
    pub open(crate) spec fn ids_exhausted(&self) -> bool {
        self.next_id == u32::MAX
    }

    pub(crate) proof fn reveal_view(&self)
        ensures
            self@ == self.users@,
    {
    }

    pub fn new() -> (r: IdentityStore)
        ensures
            r.wf(),
            r@ == Seq::<User>::empty(),
            !r.ids_exhausted(),
    {
        IdentityStore { users: Vec::new(), next_id: 1 }
    }

    fn find_by_name(&self, name: &String) -> (r: Option<usize>)
        ensures
            r matches Some(i) ==> i < self@.len() && self@[i as int].username@ == name@,
            r is None ==> !name_taken(self@, name@),
    {
        let mut i: usize = 0;
        while i < self.users.len()
            invariant
                i <= self.users@.len(),
                forall|j: int| 0 <= j < i ==> #[trigger] self.users@[j].username@ != name@,
            decreases self.users@.len() - i,
        {
            if self.users[i].username.eq(name) {
                return Some(i);
            }
            i = i + 1;
        }
        None
    }

    fn find_by_token(&self, token: &String) -> (r: Option<usize>)
        ensures
            r matches Some(i) ==> i < self@.len() && holds_token(self@[i as int], token@),
            r is None ==> forall|j: int| 0 <= j < self@.len() ==> !holds_token(#[trigger] self@[j], token@),
    {
        let mut i: usize = 0;
        while i < self.users.len()
            invariant
                i <= self.users@.len(),
                forall|j: int| 0 <= j < i ==> !holds_token(#[trigger] self.users@[j], token@),
            decreases self.users@.len() - i,
        {
            let found = match &self.users[i].token {
                Some(t) => t.eq(token),
                None => false,
            };
            if found {
                return Some(i);
            }
            i = i + 1;
        }
        None
    }

    /// Adds an account with a freshly hashed password and no session token.
    ///
    /// `BadRequest` for an empty name, `Conflict` when the name is taken,
    /// `Internal` when no identifier is left or the password is too long to
    /// hash (over `u32::MAX` bytes). Otherwise the new identifier is returned.
    pub fn register(&mut self, username: &str, password: &str) -> (r: Result<u32, ServiceError>)
        requires
            old(self).wf(),
        ensures
            final(self).wf(),
            username@.len() == 0 ==> r == Err::<u32, ServiceError>(ServiceError::BadRequest),
            username@.len() > 0 && name_taken(old(self)@, username@) ==> r == Err::<
                u32,
                ServiceError,
            >(ServiceError::Conflict),
            username@.len() > 0 && !name_taken(old(self)@, username@) && old(self).ids_exhausted()
                ==> r == Err::<u32, ServiceError>(ServiceError::Internal),
            username@.len() > 0 && !name_taken(old(self)@, username@) && !old(self).ids_exhausted()
                ==> if password.spec_bytes().len() <= 0xFFFF_FFFF {
                r is Ok
            } else {
                r is Ok || r == Err::<u32, ServiceError>(ServiceError::Internal)
            },
            r is Err ==> *final(self) == *old(self),
            r matches Ok(id) ==> final(self)@.len() == old(self)@.len() + 1 && final(self)@.drop_last()
                == old(self)@ && final(self)@.last().id == id && final(self)@.last().username@
                == username@ && final(self)@.last().token is None && password_verifies(
                password@,
                final(self)@.last().password_hash@,
            ) && forall|i: int| 0 <= i < old(self)@.len() ==> #[trigger] old(self)@[i].id != id,
    {
        if username.is_empty() {
            return Err(ServiceError::BadRequest);
        }
        let name = username.to_owned();
        if self.find_by_name(&name).is_some() {
            return Err(ServiceError::Conflict);
        }
        if self.next_id == u32::MAX {
            return Err(ServiceError::Internal);
        }
        let password_hash = match hash_password(password) {
            Some(h) => h,
            None => {
                return Err(ServiceError::Internal);
            },
        };
        let id = self.next_id;
        let ghost before = self.users@;
        self.users.push(User { id, username: name, password_hash, token: None });
        self.next_id = id + 1;
        proof {
            let s = self.users@;
            assert forall|i: int| 0 <= i < s.len() - 1 implies s[i] == before[i] by {}
            assert(s.drop_last() == before);
        }
        Ok(id)
    }

    /// Checks the password of the named user and hands out a new session
    /// token, which replaces the one the user held before.
    ///
    /// `Unauthorized` when no user has that name or the password does not
    /// match; `Internal` when no usable token could be drawn.
    pub fn login(&mut self, username: &str, password: &str) -> (r: Result<String, ServiceError>)
        requires
            old(self).wf(),
        ensures
            final(self).wf(),
            !name_taken(old(self)@, username@) ==> r == Err::<String, ServiceError>(
                ServiceError::Unauthorized,
            ),
            forall|i: int|
                0 <= i < old(self)@.len() && #[trigger] old(self)@[i].username@ == username@ ==> (
                password_verifies(password@, old(self)@[i].password_hash@) <==> r != Err::<
                    String,
                    ServiceError,
                >(ServiceError::Unauthorized)),
            r is Ok || r == Err::<String, ServiceError>(ServiceError::Unauthorized) || r == Err::<
                String,
                ServiceError,
            >(ServiceError::Internal),
            r is Err ==> *final(self) == *old(self),
            r matches Ok(t) ==> t@.len() > 0 && (forall|j: int|
                0 <= j < old(self)@.len() ==> !holds_token(#[trigger] old(self)@[j], t@)) && exists|
                i: int,
            |
                0 <= i < old(self)@.len() && #[trigger] old(self)@[i].username@ == username@
                    && final(self)@ == old(self)@.update(i, User { token: Some(t), ..old(self)@[i] }),
    {
        let name = username.to_owned();
        let i = match self.find_by_name(&name) {
            Some(i) => i,
            None => {
                return Err(ServiceError::Unauthorized);
            },
        };
        if !verify_password(password, self.users[i].password_hash.as_str()) {
            return Err(ServiceError::Unauthorized);
        }
        let token = new_token();
        self.install_token(i, token)
    }

    /// Makes `token` the session token of the user at `i`, replacing the one
    /// it held. `Internal`, with nothing changed, when the token is empty or
    /// some user holds it already.
    pub fn install_token(&mut self, i: usize, token: String) -> (r: Result<String, ServiceError>)
        requires
            old(self).wf(),
            i < old(self)@.len(),
        ensures
            final(self).wf(),
            token@.len() > 0 && (forall|j: int|
                0 <= j < old(self)@.len() ==> !holds_token(#[trigger] old(self)@[j], token@)) ==> r
                == Ok::<String, ServiceError>(token) && final(self)@ == old(self)@.update(
                i as int,
                User { token: Some(token), ..old(self)@[i as int] },
            ),
            !(token@.len() > 0 && (forall|j: int|
                0 <= j < old(self)@.len() ==> !holds_token(#[trigger] old(self)@[j], token@))) ==> r
                == Err::<String, ServiceError>(ServiceError::Internal) && *final(self) == *old(self),
    {
        if token.as_str().is_empty() || self.find_by_token(&token).is_some() {
            return Err(ServiceError::Internal);
        }
        let ghost before = self.users@;
        self.users[i].token = Some(token.clone());
        proof {
            let s = self.users@;
            assert(s == before.update(i as int, User { token: Some(token), ..before[i as int] }));
            assert forall|a: int, b: int|
                0 <= a < s.len() && 0 <= b < s.len() && a != b && (#[trigger] s[a]).token is Some
                    && (#[trigger] s[b]).token is Some implies s[a].token->Some_0@
                != s[b].token->Some_0@ by {
                if a == i {
                    assert(!holds_token(before[b], token@));
                } else if b == i {
                    assert(!holds_token(before[a], token@));
                }
            }
        }
        Ok(token)
    }

    /// The user whose current session token is `token`.
    ///
    /// `Unauthorized` when no user holds it, which includes the empty token.
    pub fn authenticate(&self, token: &str) -> (r: Result<User, ServiceError>)
        requires
            self.wf(),
        ensures
            r matches Ok(u) ==> exists|i: int| 0 <= i < self@.len() && #[trigger] self@[i] == u,
            r matches Ok(u) ==> holds_token(u, token@),
            r is Err ==> r == Err::<User, ServiceError>(ServiceError::Unauthorized) && forall|i: int|
                0 <= i < self@.len() ==> !holds_token(#[trigger] self@[i], token@),
            token@.len() == 0 ==> r == Err::<User, ServiceError>(ServiceError::Unauthorized),
    {
        let t = token.to_owned();
        match self.find_by_token(&t) {
            Some(i) => Ok(self.users[i].duplicate()),
            None => Err(ServiceError::Unauthorized),
        }
    }

    /// Adds a user that keeps the store well formed, keeping the next
    /// identifier above every stored one.
    pub(crate) fn insert_user(&mut self, user: User)
        requires
            old(self).wf(),
            users_wf(old(self)@.push(user)),
            user.id < u32::MAX,
        ensures
            final(self).wf(),
            final(self)@ == old(self)@.push(user),
    {
        let ghost before = self.users@;
        if user.id >= self.next_id {
            self.next_id = user.id + 1;
        }
        self.users.push(user);
        proof {
            assert forall|i: int| 0 <= i < self.users@.len() implies #[trigger] self.users@[i].id
                < self.next_id by {
                if i < before.len() {
                    assert(self.users@[i] == before[i]);
                }
            }
        }
    }
}

} // verus!
