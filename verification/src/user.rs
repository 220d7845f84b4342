//! Player records and the check of a password.

use vstd::prelude::*;

verus! {

/// What is known of a registered player.
#[derive(Debug, PartialEq)]
pub struct User {
    pub id: i32,
    pub username: String,
    pub hashed_password: String,
}

/// Model of a [`User`].
pub struct UserView {
    pub id: i32,
    pub username: Seq<char>,
    pub hashed_password: Seq<char>,
}

impl View for User {
    type V = UserView;

    open spec fn view(&self) -> UserView {
        UserView {
            id: self.id,
            username: self.username@,
            hashed_password: self.hashed_password@,
        }
    }
}

impl Clone for User {
    fn clone(&self) -> (copy: Self)
        ensures
            copy@ == self@,
    {
        User {
            id: self.id,
            username: self.username.clone(),
            hashed_password: self.hashed_password.clone(),
        }
    }
}

/// The record that a login with `password` is granted: the one found under
/// the name given, if its stored password is the one given.
pub open spec fn granted(found: Option<UserView>, password: Seq<char>) -> Option<UserView> {
    match found {
        Some(user) => if user.hashed_password == password {
            Some(user)
        } else {
            None
        },
        None => None,
    }
}

/// Decides a login: `found` is the record stored under the name given, if
/// any, and `password` the password given.
pub fn check_credentials(found: Option<User>, password: &String) -> (user: Option<User>)
    ensures
        match granted(
            match found {
                Some(record) => Some(record@),
                None => None,
            },
            password@,
        ) {
            Some(record) => user matches Some(granted_user) && granted_user@ == record,
            None => user is None,
        },
{
    match found {
        Some(record) => {
            if record.hashed_password == *password {
                Some(record)
            } else {
                None
            }
        },
        None => None,
    }
}

} // verus!
