//! Variables used in webpage templates.
//!
//! The welcome message shown on the main page is stored server-side and can
//! be changed by administrators. Whatever an administrator submits is
//! sanitized before storage, so that a compromised admin account cannot
//! inject markup that every user would receive.

use vstd::prelude::*;

use crate::db;
use crate::db::Store;
use crate::messages::sanitize_html;
use crate::messages::sanitized_of;

verus! {

/// The maximum length (in bytes) allowed for a welcome message.
pub const MAX_WELCOME_MESSAGE_LEN: usize = 2048;

/// Represents an HTML string which should be displayed on the main page to
/// greet users and give them some useful information.
pub struct WelcomeMessage(pub String);

impl WelcomeMessage {
    /// Builds a welcome message from a submitted body of data, sanitizing
    /// it first.
    pub fn from_data(message: String) -> (r: WelcomeMessage)
        ensures
            r.0@ == sanitized_of(message@),
    {
        WelcomeMessage(sanitize_html(message.as_str()))
    }

    /// Saves the message to the store.
    pub fn save_to_db(&self, store: &mut Store) -> (r: Result<(), db::Error>)
        requires
            old(store).wf(),
        ensures
            r is Ok,
            final(store).wf(),
            final(store).same_except_welcome(*old(store)),
            final(store).welcome_message == Some(self.0),
    {
        store.welcome_message = Some(self.0.clone());
        Ok(())
    }

    /// Retrieves the current welcome message from the store.
    ///
    /// If the welcome message has not been set, an empty message is
    /// returned.
    pub fn from_db(store: &Store) -> (r: WelcomeMessage)
        ensures
            store.welcome_message matches Some(m) ==> r.0 == m,
            store.welcome_message is None ==> r.0@ == Seq::<char>::empty(),
    {
        match &store.welcome_message {
            Some(m) => WelcomeMessage(m.clone()),
            None => WelcomeMessage(String::new()),
        }
    }
}

} // verus!
