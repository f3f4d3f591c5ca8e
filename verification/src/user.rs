//! Users: the public profile shown to everyone, the stored record that also
//! holds the password hash, and the bodies of the login and register forms.

use vstd::prelude::*;

verus! {

/// The public profile of a user.
#[derive(Clone, Debug)]
pub struct User {
    pub username: String,
    pub uid: u32,
    /// Id of the image used as the user's head picture.
    pub head: u32,
    pub usernick: String,
    pub motto: String,
}

/// A user as stored in the `User` table.
#[derive(Clone, Debug)]
pub struct UserDB {
    pub userId: u32,
    pub username: String,
    pub passwd: String,
    pub imageId: u32,
    pub usernick: String,
    pub motto: String,
}

impl Default for User {
    fn default() -> (r: Self)
        ensures
            r.username@ == Seq::<char>::empty(),
            r.uid == 0,
            r.head == 0,
            r.usernick@ == Seq::<char>::empty(),
            r.motto@ == Seq::<char>::empty(),
    {
        User { username: String::new(), uid: 0, head: 0, usernick: String::new(), motto: String::new() }
    }
}

impl Default for UserDB {
    fn default() -> (r: Self)
        ensures
            r.userId == 0,
            r.username@ == Seq::<char>::empty(),
            r.passwd@ == Seq::<char>::empty(),
            r.imageId == 0,
            r.usernick@ == Seq::<char>::empty(),
            r.motto@ == Seq::<char>::empty(),
    {
        UserDB {
            userId: 0,
            username: String::new(),
            passwd: String::new(),
            imageId: 0,
            usernick: String::new(),
            motto: String::new(),
        }
    }
}

/// The public profile of a stored user: its id, name, nick, motto and head
/// image, without the password.
pub open spec fn public_profile(u: UserDB) -> User {
    User { username: u.username, uid: u.userId, head: u.imageId, usernick: u.usernick, motto: u.motto }
}

impl From<UserDB> for User {
    fn from(u: UserDB) -> (r: Self) {
        User { username: u.username, uid: u.userId, usernick: u.usernick, motto: u.motto, head: u.imageId }
    }
}

impl vstd::std_specs::convert::FromSpecImpl<UserDB> for User {
    open spec fn obeys_from_spec() -> bool {
        true
    }

    open spec fn from_spec(u: UserDB) -> User {
        public_profile(u)
    }
}

impl UserDB {
    /// `self` is the stored record of profile `u` under id `uid` with the
    /// password hash `passwd`.
    pub open spec fn stores(self, u: User, uid: u32, passwd: Seq<char>) -> bool {
        &&& self.userId == uid
        &&& self.username == u.username
        &&& self.imageId == u.head
        &&& self.usernick == u.usernick
        &&& self.motto == u.motto
        &&& self.passwd@ == passwd
    }

    /// The record that stores profile `u` under id `uid` with password `passwd`.
    pub fn from_user(u: User, uid: u32, passwd: &str) -> (r: Self)
        ensures
            r.stores(u, uid, passwd@),
    {
        UserDB {
            userId: uid,
            username: u.username,
            imageId: u.head,
            usernick: u.usernick,
            motto: u.motto,
            passwd: String::from_str(passwd),
        }
    }

    /// `self` is `db` with its password emptied.
    pub open spec fn cleared_of(self, db: UserDB) -> bool {
        &&& self.passwd@ == Seq::<char>::empty()
        &&& self.userId == db.userId
        &&& self.username == db.username
        &&& self.imageId == db.imageId
        &&& self.usernick == db.usernick
        &&& self.motto == db.motto
    }

    /// The same record with an empty password.
    pub fn remove_passwd(self) -> (r: Self)
        ensures
            r.cleared_of(self),
    {
        UserDB { passwd: String::new(), ..self }
    }
}

/// Storing a profile under its own id and reading the public profile back
/// gives the profile again, whatever the password.
pub proof fn law_profile_of_stored_user(u: User, db: UserDB, passwd: Seq<char>)
    requires
        db.stores(u, u.uid, passwd),
    ensures
        public_profile(db) == u,
{
}

/// Clearing the password of a record leaves its public profile as it was.
pub proof fn law_remove_passwd_keeps_profile(db: UserDB, cleared: UserDB)
    requires
        cleared.cleared_of(db),
    ensures
        public_profile(cleared) == public_profile(db),
{
}

/// The body of a login request.
#[derive(Clone, Debug)]
pub struct LoginPost {
    pub username: String,
    pub passwd: String,
}

impl Default for LoginPost {
    fn default() -> (r: Self)
        ensures
            r.username@ == Seq::<char>::empty(),
            r.passwd@ == Seq::<char>::empty(),
    {
        LoginPost { username: String::new(), passwd: String::new() }
    }
}

/// The tokens handed out on a successful login.
#[derive(Clone, Debug)]
pub struct LoginResponse {
    pub token: String,
    pub refresh_token: String,
}

impl Default for LoginResponse {
    fn default() -> (r: Self)
        ensures
            r.token@ == Seq::<char>::empty(),
            r.refresh_token@ == Seq::<char>::empty(),
    {
        LoginResponse { token: String::new(), refresh_token: String::new() }
    }
}

/// The body of a register request.
#[derive(Clone, Debug)]
pub struct RegisterPost {
    pub user: User,
    pub passwd: String,
}

impl Default for RegisterPost {
    fn default() -> (r: Self)
        ensures
            r.user.username@ == Seq::<char>::empty(),
            r.user.uid == 0,
            r.user.head == 0,
            r.user.usernick@ == Seq::<char>::empty(),
            r.user.motto@ == Seq::<char>::empty(),
            r.passwd@ == Seq::<char>::empty(),
    {
        RegisterPost { user: User::default(), passwd: String::new() }
    }
}

/// An image and its id.
#[derive(Clone, Debug)]
pub struct ImageDB {
    pub url: String,
    pub imageId: u32,
}

impl Default for ImageDB {
    fn default() -> (r: Self)
        ensures
            r.url@ == Seq::<char>::empty(),
            r.imageId == 0,
    {
        ImageDB { url: String::new(), imageId: 0 }
    }
}

} // verus!

verus! {

/// A field-by-field copy of a profile.
pub fn copy_user(u: &User) -> (r: User)
    ensures
        r == *u,
{
    User {
        username: u.username.clone(),
        uid: u.uid,
        head: u.head,
        usernick: u.usernick.clone(),
        motto: u.motto.clone(),
    }
}

} // verus!
