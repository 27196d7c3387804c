//! Regular users, administrators included.

use vstd::prelude::*;

use crate::sessions::Session;

verus! {

/// Holds the data of a regular user.
///
/// All users have a session associated with them; the user data is derived
/// by resolving their session.
pub struct User(pub Session);

} // verus!
