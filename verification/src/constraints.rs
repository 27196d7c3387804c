//! Validation rules enforced on user-supplied data.
//!
//! Room names and message bodies must satisfy size and character-set
//! constraints before any store access happens. This module provides the
//! constants and the checked `RoomName` type.

use vstd::prelude::*;
use vstd::string::StrSliceExecFns;
use vstd::string::StringSliceAdditionalSpecFns;

verus! {

broadcast use vstd::string::group_string_axioms;

/// The maximum length (in bytes) allowed for a message.
pub const MAX_MESSAGE_LEN: usize = 2048;

/// The maximum length (in bytes) allowed for a room name.
pub const MAX_ROOM_NAME_LEN: usize = 128;

/// A character that may appear in a room name: ASCII alphanumeric, '_' or '-'.
pub open spec fn valid_room_name_char(c: char) -> bool {
    ('a' <= c && c <= 'z') || ('A' <= c && c <= 'Z') || ('0' <= c && c <= '9') || c == '_' || c
        == '-'
}

/// A name is acceptable for a room when it is non-empty, within the length
/// bound (in encoded bytes), and made only of permitted characters.
pub open spec fn valid_room_name_seq(s: Seq<char>) -> bool {
    &&& s.len() > 0
    &&& vstd::utf8::encode_utf8(s).len() <= MAX_ROOM_NAME_LEN
    &&& forall|i: int| 0 <= i < s.len() ==> valid_room_name_char(#[trigger] s[i])
}

/// A name is acceptable for a room when it is non-empty, within the length
/// bound, and made only of permitted characters.
pub open spec fn valid_room_name(s: &str) -> bool {
    valid_room_name_seq(s@)
}

/// A room name made only of permitted characters is ASCII, so its encoded
/// byte length is its character count: such a name within the character
/// bound is valid.
pub proof fn lemma_ascii_name_valid(s: Seq<char>)
    requires
        s.len() > 0,
        s.len() <= MAX_ROOM_NAME_LEN,
        forall|i: int| 0 <= i < s.len() ==> valid_room_name_char(#[trigger] s[i]),
    ensures
        valid_room_name_seq(s),
{
    assert(vstd::utf8::is_ascii_chars(s));
    vstd::utf8::is_ascii_chars_encode_utf8(s);
    assert(vstd::utf8::encode_utf8(s).len() == s.len());
}

/// Represents a valid name for a room.
pub struct RoomName(pub String);

impl RoomName {
    /// Checks if a given name is valid, and builds the corresponding `RoomName`.
    /// If the name is invalid, a reason is returned as a human-readable string.
    pub fn parse(name: &str) -> (r: Result<Self, String>)
        ensures
            r is Ok <==> valid_room_name(name),
            r matches Ok(rn) ==> rn.0@ == name@,
            name@.len() == 0 ==> (r matches Err(e) && e@ == "The room name cannot be empty."@),
            name@.len() > 0 && name.spec_bytes().len() > MAX_ROOM_NAME_LEN ==> (r matches Err(e)
                && e@ == "The room name is too long."@),
            name@.len() > 0 && name.spec_bytes().len() <= MAX_ROOM_NAME_LEN && !valid_room_name(
                name,
            ) ==> (r matches Err(e) && e@ == "The room name contains invalid characters."@),
    {
        if name.is_empty() {
            return Err(String::from_str("The room name cannot be empty."));
        }
        if name.as_bytes().len() > MAX_ROOM_NAME_LEN {
            return Err(String::from_str("The room name is too long."));
        }
        let chars = name.unicode_len();
        let mut i: usize = 0;
        while i < chars
            invariant
                chars == name@.len(),
                i <= chars,
                name.spec_bytes().len() <= MAX_ROOM_NAME_LEN,
                name@.len() > 0,
                forall|j: int| 0 <= j < i ==> valid_room_name_char(#[trigger] name@[j]),
            decreases chars - i,
        {
            let c = name.get_char(i);
            let ok = ('a' <= c && c <= 'z') || ('A' <= c && c <= 'Z') || ('0' <= c && c <= '9') || c
                == '_' || c == '-';
            if !ok {
                return Err(String::from_str("The room name contains invalid characters."));
            }
            i += 1;
        }
        proof {
            assert(vstd::utf8::is_ascii_chars(name@));
            vstd::string::is_ascii_spec_bytes(name);
            assert(name.spec_bytes().len() == name@.len());
        }
        Ok(Self(name.to_owned()))
    }
}

} // verus!
