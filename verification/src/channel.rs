//! The channel entity and its validated name.
//!
//! A `ChannelName` is a value object: it can only be constructed from a
//! string whose UTF-8 length lies in `[3, 20]` and which contains no
//! whitespace, so an invalid name can never be stored.

use vstd::prelude::*;

verus! {

/// The bytes of a name, as UTF-8.
pub open spec fn name_bytes(s: Seq<char>) -> Seq<u8> {
    vstd::utf8::encode_utf8(s)
}

/// A name is acceptable when its UTF-8 length lies in `[3, 20]`.
pub open spec fn name_len_ok(s: Seq<char>) -> bool {
    3 <= name_bytes(s).len() <= 20
}

/// An ASCII whitespace byte: tab, line feed, vertical tab, form feed,
/// carriage return, or space. In UTF-8 these byte values occur only as
/// the characters themselves.
pub open spec fn is_whitespace_byte(b: u8) -> bool {
    9 <= b <= 13 || b == 32
}

/// A name is acceptable when it contains no whitespace. The rule
/// covers the ASCII whitespace characters ([`is_whitespace_byte`]);
/// multi-byte Unicode whitespace is outside it.
pub open spec fn name_has_no_whitespace(s: Seq<char>) -> bool {
    forall|i: int| 0 <= i < name_bytes(s).len() ==> !is_whitespace_byte(#[trigger] name_bytes(s)[i])
}

/// The value-object rule: length in `[3, 20]` and no whitespace.
pub open spec fn valid_name(s: Seq<char>) -> bool {
    name_len_ok(s) && name_has_no_whitespace(s)
}

/// The diagnostic text returned when the length rule is violated.
pub open spec fn length_error_text() -> Seq<char> {
    "Channel name must be between 3 and 20 characters"@
}

/// The diagnostic text returned when the no-whitespace rule is
/// violated.
pub open spec fn whitespace_error_text() -> Seq<char> {
    "Channel name cannot contain spaces"@
}

/// A validated channel name. Values of this type always satisfy
/// [`valid_name`]; construction with an invalid string is rejected.
#[derive(Debug)]
pub struct ChannelName(String);

impl View for ChannelName {
    type V = Seq<char>;

    closed spec fn view(&self) -> Seq<char> {
        self.0@
    }
}

impl ChannelName {
    /// Validates `name` and wraps it. Succeeds exactly on valid names;
    /// a violated rule is reported through its diagnostic text, the
    /// length rule being checked first.
    pub fn new(name: String) -> (r: Result<Self, &'static str>)
        ensures
            r is Ok <==> valid_name(name@),
            r matches Ok(cn) ==> cn@ == name@,
            r matches Err(m) ==> m@ == (if !name_len_ok(name@) {
                length_error_text()
            } else {
                whitespace_error_text()
            }),
    {
        let bytes: &[u8] = name.as_str().as_bytes();
        let n: usize = bytes.len();
        if n < 3 || n > 20 {
            return Err("Channel name must be between 3 and 20 characters");
        }
        let mut i: usize = 0;
        while i < n
            invariant
                bytes@ == name_bytes(name@),
                name_len_ok(name@),
                n == bytes@.len(),
                i <= n,
                forall|j: int| 0 <= j < i ==> !is_whitespace_byte(#[trigger] bytes@[j]),
            decreases n - i,
        {
            let b: u8 = bytes[i];
            if (b >= 9 && b <= 13) || b == 32 {
                proof {
                    assert(is_whitespace_byte(name_bytes(name@)[i as int]));
                }
                return Err("Channel name cannot contain spaces");
            }
            i += 1;
        }
        Ok(ChannelName(name))
    }

    /// The wrapped string.
    pub fn as_str(&self) -> (r: &str)
        ensures
            r@ == self@,
    {
        self.0.as_str()
    }
}

impl Clone for ChannelName {
    fn clone(&self) -> (r: Self)
        ensures
            r == *self,
    {
        ChannelName(self.0.clone())
    }
}

/// A channel's identifier: the 128-bit value of a version-4 UUID,
/// assigned at creation and immutable thereafter.
#[derive(Clone, Copy, PartialEq, Eq, Structural, Debug)]
pub struct ChannelId(pub u128);

/// Relies on `uuid::Uuid::new_v4` and `uuid::Uuid::as_u128`: a freshly
/// generated random version-4 UUID, read back as its 128-bit value.
/// The result is random, so nothing is promised of it; callers that
/// need a fresh value must check it themselves. If the operating
/// system's randomness source fails, the call aborts the process — an
/// environmental failure no precondition can exclude.
#[verifier::external_body]
pub(crate) fn random_id_value() -> u128 {
    uuid::Uuid::new_v4().as_u128()
}

/// A channel: an addressable entity with a unique id, a validated name
/// and an active flag.
#[derive(Debug)]
pub struct Channel {
    id: ChannelId,
    name: ChannelName,
    is_active: bool,
}

impl Channel {
    /// The channel's id.
    pub closed spec fn spec_id(&self) -> ChannelId {
        self.id
    }

    /// The characters of the channel's name.
    pub closed spec fn spec_name(&self) -> Seq<char> {
        self.name@
    }

    /// Whether the channel is active.
    pub closed spec fn spec_active(&self) -> bool {
        self.is_active
    }

    /// A channel is well formed when its name obeys the value-object
    /// rule.
    pub open spec fn wf(&self) -> bool {
        valid_name(self.spec_name())
    }

    /// Builds a channel around `name` with the given id and the active
    /// flag set. The store uses this to hand out an id it has checked
    /// to be fresh.
    pub(crate) fn with_id(id: ChannelId, name: ChannelName) -> (c: Self)
        ensures
            c.spec_id() == id,
            c.spec_name() == name@,
            c.spec_active(),
            valid_name(name@) ==> c.wf(),
    {
        Channel { id, name, is_active: true }
    }

    /// Builds a channel around `name` with a freshly drawn random id
    /// and the active flag set. The id is random: nothing relates it
    /// to the ids of existing channels.
    pub fn new(name: ChannelName) -> (c: Self)
        ensures
            c.spec_name() == name@,
            c.spec_active(),
            valid_name(name@) ==> c.wf(),
    {
        Channel::with_id(ChannelId(random_id_value()), name)
    }

    /// Clears the active flag; id and name are untouched.
    pub fn deactivate(&mut self)
        ensures
            !final(self).spec_active(),
            final(self).spec_id() == old(self).spec_id(),
            final(self).spec_name() == old(self).spec_name(),
    {
        self.is_active = false;
    }

    /// Replaces the name; id and active flag are untouched.
    pub fn rename(&mut self, new_name: ChannelName)
        ensures
            final(self).spec_name() == new_name@,
            final(self).spec_id() == old(self).spec_id(),
            final(self).spec_active() == old(self).spec_active(),
    {
        self.name = new_name;
    }

    pub fn id(&self) -> (r: ChannelId)
        ensures
            r == self.spec_id(),
    {
        self.id
    }

    pub fn name(&self) -> (r: &ChannelName)
        ensures
            r@ == self.spec_name(),
    {
        &self.name
    }

    pub fn is_active(&self) -> (r: bool)
        ensures
            r == self.spec_active(),
    {
        self.is_active
    }
}

impl Clone for Channel {
    fn clone(&self) -> (r: Self)
        ensures
            r.spec_id() == self.spec_id(),
            r.spec_name() == self.spec_name(),
            r.spec_active() == self.spec_active(),
    {
        Channel { id: self.id, name: self.name.clone(), is_active: self.is_active }
    }
}

} // verus!
