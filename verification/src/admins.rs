//! Administrator accounts.
//!
//! Administrator credentials are held in the admins table, which is
//! populated from outside the application: the server only reads its
//! contents. An administrator is an ordinary session whose admin capability
//! flag was set after a successful credential check.

use vstd::prelude::*;

use crate::db;
use crate::db::Store;
use crate::db::admin_at;
use crate::db::admin_key;
use crate::db::find_admin_index;
use crate::db::has_admin;
use crate::db::lemma_row_at;
use crate::rooms::hash_password;
use crate::rooms::hex_of;
use crate::rooms::sha256_of;
use crate::sessions::Session;

verus! {

/// A login form carries valid administrator credentials exactly when the
/// username names an admin row whose stored hash is the submitted
/// password's digest.
pub open spec fn admin_credentials_ok(store: Store, username: Seq<char>, password: Seq<char>) -> bool {
    &&& has_admin(store.admins@, username)
    &&& admin_at(store.admins@, username).password@ == hex_of(
        sha256_of(vstd::utf8::encode_utf8(password)),
    )
}

/// Holds the data of an administrator.
pub struct Admin(pub Session);

/// The content of a form used to log in administrators.
pub struct AdminLogin {
    pub username: String,
    pub password: String,
}

impl AdminLogin {
    /// Checks if the login form references an administrator account.
    ///
    /// Administrators are identified by their username, and their passwords
    /// are held as SHA-256 hashes.
    pub fn is_valid(&self, store: &Store) -> (r: Result<bool, db::Error>)
        requires
            store.wf(),
        ensures
            r is Ok <==> has_admin(store.admins@, self.username@),
            r matches Ok(b) ==> b == (admin_at(store.admins@, self.username@).password@ == hex_of(
                sha256_of(vstd::utf8::encode_utf8(self.password@)),
            )),
            r matches Err(e) ==> e == db::Error::NoData,
    {
        let wanted = match find_admin_index(&store.admins, self.username.as_str()) {
            Some(i) => {
                proof {
                    lemma_row_at(store.admins@, admin_key(), i as int);
                }
                &store.admins[i].password
            },
            None => {
                return Err(db::Error::NoData);
            },
        };
        let actual = hash_password(self.password.as_str());
        Ok(actual.as_str().eq(wanted.as_str()))
    }
}

} // verus!
