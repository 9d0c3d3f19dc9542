//! Capability tokens: an issuer's grant of permissions on a resource to a
//! grantee, optionally time-limited. This module holds the token's data and
//! its checks; signing and the envelope wire format are done elsewhere.

use vstd::prelude::*;

use crate::auth::cbor::str_equal;
use crate::foreign::clock::unix_now;
use crate::storage::fingerprint::PublicKeyFingerprint;
use crate::storage::keyspace::{has_cap, CapabilitySet, Permission};

verus! {

/// Kind of resource a [`Capability`] refers to.
#[derive(Clone, Copy, Debug, PartialEq, Eq, Structural)]
pub enum SubjectKind {
    File,
    Keyspace,
    Account,
}

/// The wire tag of a subject kind.
pub open spec fn subject_kind_tag(k: SubjectKind) -> Seq<char> {
    match k {
        SubjectKind::File => "file"@,
        SubjectKind::Keyspace => "keyspace"@,
        SubjectKind::Account => "account"@,
    }
}

impl SubjectKind {
    pub fn as_str(&self) -> (r: &'static str)
        ensures
            r@ == subject_kind_tag(*self),
    {
        match self {
            SubjectKind::File => "file",
            SubjectKind::Keyspace => "keyspace",
            SubjectKind::Account => "account",
        }
    }

    /// Parse a wire tag (exact match); unknown tags give `None`.
    pub fn parse(s: &str) -> (r: Option<Self>)
        ensures
            match r {
                Some(k) => subject_kind_tag(k) == s@,
                None => forall|k: SubjectKind| subject_kind_tag(k) != s@,
            },
    {
        if str_equal(s, "file") {
            Some(SubjectKind::File)
        } else if str_equal(s, "keyspace") {
            Some(SubjectKind::Keyspace)
        } else if str_equal(s, "account") {
            Some(SubjectKind::Account)
        } else {
            proof {
                assert forall|k: SubjectKind| subject_kind_tag(k) != s@ by {
                    match k {
                        SubjectKind::File => {},
                        SubjectKind::Keyspace => {},
                        SubjectKind::Account => {},
                    }
                }
            }
            None
        }
    }
}

/// A signed, optionally time-limited authorization token.
#[derive(Clone, Debug, PartialEq, Eq)]
pub struct Capability {
    pub format_version: u32,
    /// 32-byte address of the resource (file hash, keyspace id or account
    /// fingerprint, by `subject_kind`).
    pub subject: [u8; 32],
    pub subject_kind: SubjectKind,
    /// The grantee's fingerprint.
    pub granted_to: PublicKeyFingerprint,
    /// The issuer's fingerprint.
    pub issuer: PublicKeyFingerprint,
    /// Permissions granted on the subject.
    pub permissions: CapabilitySet,
    /// Expiry in Unix seconds; `None` means no expiry.
    pub expires_at: Option<u64>,
    /// Free-form note.
    pub note: Option<String>,
    /// Digest of the parent capability, for delegated capabilities.
    pub parent: Option<[u8; 32]>,
}

impl Capability {
    pub const FORMAT_VERSION: u32 = 1;

    /// A capability in the current format, without note or parent.
    pub fn new(
        subject: [u8; 32],
        subject_kind: SubjectKind,
        granted_to: PublicKeyFingerprint,
        issuer: PublicKeyFingerprint,
        permissions: CapabilitySet,
        expires_at: Option<u64>,
    ) -> (r: Self)
        ensures
            r.format_version == Self::FORMAT_VERSION,
            r.subject == subject,
            r.subject_kind == subject_kind,
            r.granted_to == granted_to,
            r.issuer == issuer,
            r.permissions == permissions,
            r.expires_at == expires_at,
            r.note is None,
            r.parent is None,
    {
        Self {
            format_version: Self::FORMAT_VERSION,
            subject,
            subject_kind,
            granted_to,
            issuer,
            permissions,
            expires_at,
            note: None,
            parent: None,
        }
    }

    /// The same capability with a note.
    pub fn with_note(self, note: String) -> (r: Self)
        ensures
            r.note matches Some(n) && n@ == note@,
            r.format_version == self.format_version,
            r.subject == self.subject,
            r.subject_kind == self.subject_kind,
            r.granted_to == self.granted_to,
            r.issuer == self.issuer,
            r.permissions == self.permissions,
            r.expires_at == self.expires_at,
            r.parent == self.parent,
    {
        let mut c = self;
        c.note = Some(note);
        c
    }

    /// The same capability with a parent digest.
    pub fn with_parent(self, parent: [u8; 32]) -> (r: Self)
        ensures
            r.parent == Some(parent),
            r.format_version == self.format_version,
            r.subject == self.subject,
            r.subject_kind == self.subject_kind,
            r.granted_to == self.granted_to,
            r.issuer == self.issuer,
            r.permissions == self.permissions,
            r.expires_at == self.expires_at,
            r.note == self.note,
    {
        let mut c = self;
        c.parent = Some(parent);
        c
    }

    /// Whether `perm` is among the permissions.
    pub fn permits(&self, perm: Permission) -> (r: bool)
        ensures
            r == has_cap(self.permissions, perm),
    {
        self.permissions.contains(perm)
    }

    /// Whether the capability has expired at time `now` (Unix seconds).
    pub fn is_expired_at(&self, now: u64) -> (r: bool)
        ensures
            r == (self.expires_at matches Some(t) && now > t),
    {
        match self.expires_at {
            Some(t) => now > t,
            None => false,
        }
    }

    /// Whether the capability has expired at the current time. One without
    /// an expiry never expires.
    pub fn is_expired(&self) -> (r: bool)
        ensures
            self.expires_at is None ==> !r,
    {
        match self.expires_at {
            None => false,
            Some(_) => self.is_expired_at(unix_now()),
        }
    }
}

} // verus!
