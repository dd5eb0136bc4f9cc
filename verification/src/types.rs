//! Plain values that stand for the platform's identifiers and rights.

use vstd::prelude::*;

verus! {

/// Identifier of a shared memory segment.
#[derive(Debug, Clone, Copy, PartialEq, Eq, Structural)]
pub struct SegmentId {
    /// The number that a pointer offset carries.
    pub value: u8,
}

impl SegmentId {
    /// Creates the identifier with the given number.
    pub fn new(value: u8) -> (id: SegmentId)
        ensures
            id == (SegmentId { value }),
    {
        SegmentId { value }
    }

    /// Returns the number of the identifier.
    pub fn value(&self) -> (value: u8)
        ensures
            value == self.value,
    {
        self.value
    }
}

/// Rights that come with a segment handle.
#[derive(Debug, Clone, Copy, PartialEq, Eq, Structural)]
pub struct AccessRights {
    /// The segment may be mapped for reading.
    pub read: bool,
    /// The segment may be mapped for writing.
    pub write: bool,
}

impl AccessRights {
    /// The rights to read and not to write.
    pub fn read_only() -> (access: AccessRights)
        ensures
            access == (AccessRights { read: true, write: false }),
    {
        AccessRights { read: true, write: false }
    }

    /// The rights to read and to write.
    pub fn read_write() -> (access: AccessRights)
        ensures
            access == (AccessRights { read: true, write: true }),
    {
        AccessRights { read: true, write: true }
    }

    /// Returns `true` if reading is allowed.
    pub fn can_read(&self) -> (allowed: bool)
        ensures
            allowed == self.read,
    {
        self.read
    }

    /// Returns `true` if writing is allowed.
    pub fn can_write(&self) -> (allowed: bool)
        ensures
            allowed == self.write,
    {
        self.write
    }
}

/// The identity that the operating system vouches for at the other end of a connection.
#[derive(Debug, Clone, Copy, PartialEq, Eq, Structural)]
pub struct ProcessCredentials {
    /// The process.
    pub pid: u32,
    /// The user.
    pub uid: u32,
    /// The group.
    pub gid: u32,
}

impl ProcessCredentials {
    /// Creates the credentials of a process.
    pub fn new(pid: u32, uid: u32, gid: u32) -> (credentials: ProcessCredentials)
        ensures
            credentials == (ProcessCredentials { pid, uid, gid }),
    {
        ProcessCredentials { pid, uid, gid }
    }

    /// Returns the process.
    pub fn pid(&self) -> (pid: u32)
        ensures
            pid == self.pid,
    {
        self.pid
    }

    /// Returns the user.
    pub fn uid(&self) -> (uid: u32)
        ensures
            uid == self.uid,
    {
        self.uid
    }

    /// Returns the group.
    pub fn gid(&self) -> (gid: u32)
        ensures
            gid == self.gid,
    {
        self.gid
    }
}

/// Identifier of a node in the system.
#[derive(Debug, Clone, Copy, PartialEq, Eq, Structural)]
pub struct UniqueSystemId {
    /// The number of the node.
    pub value: u128,
}

impl UniqueSystemId {
    /// Creates the identifier with the given number.
    pub fn new(value: u128) -> (id: UniqueSystemId)
        ensures
            id == (UniqueSystemId { value }),
    {
        UniqueSystemId { value }
    }
}

/// Identifier of a service: the hash of its name and messaging pattern, as text.
#[derive(Debug)]
pub struct ServiceId {
    /// The text of the hash.
    pub text: String,
}

impl View for ServiceId {
    type V = Seq<char>;

    open spec fn view(&self) -> Seq<char> {
        self.text@
    }
}

impl ServiceId {
    /// Creates the identifier with the given text.
    pub fn new(text: &str) -> (id: ServiceId)
        ensures
            id@ == text@,
    {
        ServiceId { text: text.to_owned() }
    }

    /// Returns the text of the identifier.
    pub fn as_str(&self) -> (text: &str)
        ensures
            text@ == self@,
    {
        self.text.as_str()
    }

    /// Returns `true` if both identifiers name the same service.
    pub fn is_same(&self, other: &ServiceId) -> (same: bool)
        ensures
            same == (self@ == other@),
    {
        self.text == other.text
    }
}

impl PartialEq for ServiceId {
    fn eq(&self, other: &Self) -> (same: bool) {
        self.is_same(other)
    }
}

impl vstd::std_specs::cmp::PartialEqSpecImpl for ServiceId {
    open spec fn obeys_eq_spec() -> bool {
        true
    }

    open spec fn eq_spec(&self, other: &Self) -> bool {
        self@ == other@
    }
}

impl Eq for ServiceId {

}

impl Clone for ServiceId {
    fn clone(&self) -> (copy: Self)
        ensures
            copy == *self,
    {
        ServiceId { text: self.text.clone() }
    }
}

/// Name of a service.
#[derive(Debug)]
pub struct ServiceName {
    /// The text of the name.
    pub text: String,
}

impl View for ServiceName {
    type V = Seq<char>;

    open spec fn view(&self) -> Seq<char> {
        self.text@
    }
}

impl ServiceName {
    /// Creates the name with the given text.
    pub fn new(text: &str) -> (name: ServiceName)
        ensures
            name@ == text@,
    {
        ServiceName { text: text.to_owned() }
    }

    /// Returns the text of the name.
    pub fn as_str(&self) -> (text: &str)
        ensures
            text@ == self@,
    {
        self.text.as_str()
    }

    /// Returns `true` if both names are the same.
    pub fn is_same(&self, other: &ServiceName) -> (same: bool)
        ensures
            same == (self@ == other@),
    {
        self.text == other.text
    }
}

impl PartialEq for ServiceName {
    fn eq(&self, other: &Self) -> (same: bool) {
        self.is_same(other)
    }
}

impl vstd::std_specs::cmp::PartialEqSpecImpl for ServiceName {
    open spec fn obeys_eq_spec() -> bool {
        true
    }

    open spec fn eq_spec(&self, other: &Self) -> bool {
        self@ == other@
    }
}

impl Eq for ServiceName {

}

impl Clone for ServiceName {
    fn clone(&self) -> (copy: Self)
        ensures
            copy == *self,
    {
        ServiceName { text: self.text.clone() }
    }
}

} // verus!
